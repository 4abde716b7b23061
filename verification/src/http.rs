//! Reading one HTTP request from an outside user: the head up to the first blank
//! line, the `Host` it names, and as many body bytes as its `Content-Length`
//! announces; the request then travels to the relay as one data frame.
use vstd::prelude::*;
use vstd::utf8::{decode_utf8, valid_utf8};
use crate::packet::Pack;
use crate::proto::{data_model_bytes, Data, DataModel, PackType, Packet};
use crate::frame::{frame_model, FrameModel};

verus! {

/// The blank line that ends a request head, `\r\n\r\n`, starts at `i`.
pub open spec fn blank_at(b: Seq<u8>, i: int) -> bool {
    &&& 0 <= i
    &&& i + 4 <= b.len()
    &&& b[i] == 13u8
    &&& b[i + 1] == 10u8
    &&& b[i + 2] == 13u8
    &&& b[i + 3] == 10u8
}

/// The first position at or after `i` where a blank line starts.
pub open spec fn first_blank_from(b: Seq<u8>, i: int) -> Option<int>
    decreases b.len() - i,
{
    if i < 0 || i + 4 > b.len() {
        None
    } else if blank_at(b, i) {
        Some(i)
    } else {
        first_blank_from(b, i + 1)
    }
}

pub proof fn lemma_first_blank_from(b: Seq<u8>, i: int)
    requires
        0 <= i,
    ensures
        first_blank_from(b, i) matches Some(j) ==> i <= j && blank_at(b, j),
        first_blank_from(b, i) matches Some(j) ==> forall|k: int| i <= k < j ==> !blank_at(b, k),
        first_blank_from(b, i) is None ==> forall|k: int| i <= k ==> !blank_at(b, k),
    decreases b.len() - i,
{
    if !(i < 0 || i + 4 > b.len()) && !blank_at(b, i) {
        lemma_first_blank_from(b, i + 1);
    }
}

/// Where the request head ends: just past its first blank line.
pub open spec fn head_end(b: Seq<u8>) -> Option<int> {
    match first_blank_from(b, 0) {
        None => None,
        Some(i) => Some(i + 4),
    }
}

/// The first position at or after `i` that holds `\n`, or the length.
pub open spec fn newline_from(b: Seq<u8>, i: int) -> int
    decreases b.len() - i,
{
    if i < 0 || i >= b.len() {
        b.len() as int
    } else if b[i] == 10u8 {
        i
    } else {
        newline_from(b, i + 1)
    }
}

pub proof fn lemma_newline_from(b: Seq<u8>, i: int)
    requires
        0 <= i,
    ensures
        i <= newline_from(b, i) || i > b.len(),
        newline_from(b, i) <= b.len(),
        newline_from(b, i) < b.len() ==> b[newline_from(b, i)] == 10u8,
    decreases b.len() - i,
{
    if i < b.len() && b[i] != 10u8 {
        lemma_newline_from(b, i + 1);
    }
}

/// The line that starts at `start`, without its `\n` or `\r\n` ending.
pub open spec fn line_at(b: Seq<u8>, start: int) -> Seq<u8> {
    let e = newline_from(b, start);
    if e < b.len() && e > start && b[e - 1] == 13u8 {
        b.subrange(start, e - 1)
    } else {
        b.subrange(start, e)
    }
}

pub open spec fn starts_with(s: Seq<u8>, p: Seq<u8>) -> bool {
    p.len() <= s.len() && s.subrange(0, p.len() as int) == p
}

/// The first line at or after `start` that begins with `p`.
pub open spec fn first_line_with(b: Seq<u8>, start: int, p: Seq<u8>) -> Option<Seq<u8>>
    decreases b.len() - start,
{
    if start < 0 || start >= b.len() {
        None
    } else if starts_with(line_at(b, start), p) {
        Some(line_at(b, start))
    } else if newline_from(b, start) < b.len() {
        proof {
            lemma_newline_from(b, start);
        }
        first_line_with(b, newline_from(b, start) + 1, p)
    } else {
        None
    }
}

/// `s` with every leading copy of `p` taken off.
pub open spec fn trim_prefix(s: Seq<u8>, p: Seq<u8>) -> Seq<u8>
    decreases s.len(),
{
    if p.len() > 0 && starts_with(s, p) {
        trim_prefix(s.subrange(p.len() as int, s.len() as int), p)
    } else {
        s
    }
}

/// The value of the first header line that begins with `name`.
pub open spec fn header_value(head: Seq<u8>, name: Seq<u8>) -> Option<Seq<u8>> {
    match first_line_with(head, 0, name) {
        None => None,
        Some(line) => Some(trim_prefix(line, name)),
    }
}

pub open spec fn is_digit(c: u8) -> bool {
    48 <= c <= 57
}

/// The number that a run of decimal digits denotes.
pub open spec fn digits_value(s: Seq<u8>) -> nat
    decreases s.len(),
{
    if s.len() == 0 {
        0
    } else {
        digits_value(s.drop_last()) * 10 + (s.last() - 48) as nat
    }
}

/// The digits of a decimal number, after an optional leading `+`.
pub open spec fn unsigned_digits(s: Seq<u8>) -> Seq<u8> {
    if s.len() > 0 && s[0] == 43u8 {
        s.drop_first()
    } else {
        s
    }
}

pub open spec fn all_digits(d: Seq<u8>) -> bool {
    forall|i: int| 0 <= i < d.len() ==> is_digit(#[trigger] d[i])
}

/// A `usize` written in decimal, as `str::parse` reads one: an optional `+`,
/// then at least one digit, and a value that fits.
pub open spec fn parse_usize(s: Seq<u8>) -> Option<nat> {
    let d = unsigned_digits(s);
    if d.len() > 0 && all_digits(d) && digits_value(d) <= usize::MAX {
        Some(digits_value(d))
    } else {
        None
    }
}

/// `Host: `
pub open spec fn host_name() -> Seq<u8> {
    seq![72u8, 111u8, 115u8, 116u8, 58u8, 32u8]
}

/// `Content-Length: `
pub open spec fn content_length_name() -> Seq<u8> {
    seq![
        67u8,
        111u8,
        110u8,
        116u8,
        101u8,
        110u8,
        116u8,
        45u8,
        76u8,
        101u8,
        110u8,
        103u8,
        116u8,
        104u8,
        58u8,
        32u8,
    ]
}

/// The characters that `String::from_utf8_lossy` makes of a run of bytes.
pub uninterp spec fn lossy_utf8(bytes: Seq<u8>) -> Seq<char>;

/// Calls `String::from_utf8_lossy` and takes the result as an owned `String`.
/// Its documentation states that valid UTF-8 comes back as the same text; what
/// it makes of other bytes (each invalid sequence becomes U+FFFD) is left to
/// the name `lossy_utf8`.
#[verifier::external_body]
fn utf8_lossy(bytes: &[u8]) -> (s: String)
    ensures
        s@ == lossy_utf8(bytes@),
        valid_utf8(bytes@) ==> s@ == decode_utf8(bytes@),
{
    String::from_utf8_lossy(bytes).into_owned()
}

/// Why a request could not be read.
#[derive(PartialEq, Eq, Structural, Debug, Clone, Copy)]
pub enum RequestFault {
    /// The head has no `Host` line.
    NoHost,
    /// The `Content-Length` value is not a `usize`.
    BadContentLength,
    /// More bytes came with the head than the head and the announced body.
    BodyOverrun,
    /// The head and the announced body together take more bytes than memory
    /// can address.
    TooLong,
}

/// What became of one event.
#[derive(Debug)]
pub enum RequestStep {
    /// More bytes are needed.
    Continue,
    /// The request, or the disconnect that ended the stream, as a frame.
    Ready(Packet),
    /// The request cannot be read.
    Fault(RequestFault),
}

/// What a `RequestStep` says.
pub enum RequestStepModel {
    Continue,
    Ready(FrameModel),
    Fault(RequestFault),
}

impl View for RequestStep {
    type V = RequestStepModel;

    open spec fn view(&self) -> RequestStepModel {
        match self {
            RequestStep::Continue => RequestStepModel::Continue,
            RequestStep::Ready(p) => RequestStepModel::Ready(p@),
            RequestStep::Fault(f) => RequestStepModel::Fault(*f),
        }
    }
}

/// A request reader's state: the user's address, the bytes read so far, and,
/// once the head is read and announces a body, its host and the total number
/// of bytes the request takes.
pub type RequestModel = (Seq<char>, Seq<u8>, Option<(Seq<u8>, nat)>);

/// The text of a host name: the name itself when its bytes are UTF-8, and what
/// `String::from_utf8_lossy` makes of them otherwise.
pub open spec fn host_text(host: Seq<u8>) -> Seq<char> {
    if valid_utf8(host) {
        decode_utf8(host)
    } else {
        lossy_utf8(host)
    }
}

/// The frame that carries a whole request of user `agent` for `host`.
pub open spec fn request_frame(agent: Seq<char>, host: Seq<u8>, request: Seq<u8>) -> FrameModel {
    frame_model(
        PackType::Data,
        data_model_bytes(
            DataModel { agent_ip_port: agent, host: Some(host_text(host)), data: request },
        ),
    )
}

/// The empty disconnect frame.
pub open spec fn disconnect_frame() -> FrameModel {
    frame_model(PackType::DisConnect, Seq::empty())
}

/// What follows once the bytes read so far hold a whole head that ends at
/// `end`: a missing host or an unreadable length is a fault; without a length
/// the request is what was read; with one, the request is the head and that many
/// body bytes, which may still have to come.
pub open spec fn after_head(agent: Seq<char>, buf: Seq<u8>, end: int) -> (
    RequestModel,
    RequestStepModel,
) {
    let head = buf.subrange(0, end);
    let idle = (agent, Seq::<u8>::empty(), None::<(Seq<u8>, nat)>);
    match header_value(head, host_name()) {
        None => (idle, RequestStepModel::Fault(RequestFault::NoHost)),
        Some(host) => match header_value(head, content_length_name()) {
            None => (idle, RequestStepModel::Ready(request_frame(agent, host, buf))),
            Some(v) => match parse_usize(v) {
                None => (idle, RequestStepModel::Fault(RequestFault::BadContentLength)),
                Some(len) => if buf.len() > end + len {
                    (idle, RequestStepModel::Fault(RequestFault::BodyOverrun))
                } else if end + len > usize::MAX {
                    (idle, RequestStepModel::Fault(RequestFault::TooLong))
                } else if buf.len() == end + len {
                    (idle, RequestStepModel::Ready(request_frame(agent, host, buf)))
                } else {
                    ((agent, buf, Some((host, (end + len) as nat))), RequestStepModel::Continue)
                },
            },
        },
    }
}

/// The reader after a chunk of bytes, and what it hands on.
pub open spec fn request_step_bytes(s: RequestModel, chunk: Seq<u8>) -> (
    RequestModel,
    RequestStepModel,
) {
    let (agent, read, body) = s;
    let buf = read + chunk;
    let idle = (agent, Seq::<u8>::empty(), None::<(Seq<u8>, nat)>);
    match body {
        None => match head_end(buf) {
            None => ((agent, buf, None), RequestStepModel::Continue),
            Some(end) => after_head(agent, buf, end),
        },
        Some((host, total)) => if buf.len() < total {
            ((agent, buf, Some((host, total))), RequestStepModel::Continue)
        } else {
            (idle, RequestStepModel::Ready(request_frame(agent, host, buf)))
        },
    }
}

/// The reader after the stream ended or a read failed: a disconnect.
pub open spec fn request_step_end(s: RequestModel) -> (RequestModel, RequestStepModel) {
    ((s.0, Seq::empty(), None), RequestStepModel::Ready(disconnect_frame()))
}

/// A request reader's state is one that events can reach.
pub open spec fn request_wf(s: RequestModel) -> bool {
    match s.2 {
        None => head_end(s.1) is None,
        Some((host, total)) => s.1.len() < total <= usize::MAX,
    }
}

/// How many body bytes are still to come, once the head is read.
pub open spec fn body_wanted(s: RequestModel) -> Option<int> {
    match s.2 {
        None => None,
        Some((host, total)) => Some(total - s.1.len()),
    }
}

/// Reads one request at a time from an outside user's connection.
pub struct RequestReader {
    agent: String,
    buf: Vec<u8>,
    body: Option<(Vec<u8>, usize)>,
}

impl View for RequestReader {
    type V = RequestModel;

    closed spec fn view(&self) -> RequestModel {
        (
            self.agent@,
            self.buf@,
            match self.body {
                None => None,
                Some((host, total)) => Some((host@, total as nat)),
            },
        )
    }
}

/// The first position at or after `from` where a blank line starts.
fn find_blank(b: &Vec<u8>, from: usize) -> (res: Option<usize>)
    ensures
        res matches Some(i) ==> first_blank_from(b@, from as int) == Some(i as int),
        res is None ==> first_blank_from(b@, from as int) is None,
    decreases b@.len() - from,
{
    if b.len() < 4 || from > b.len() - 4 {
        None
    } else if b[from] == 13 && b[from + 1] == 10 && b[from + 2] == 13 && b[from + 3] == 10 {
        Some(from)
    } else {
        find_blank(b, from + 1)
    }
}

/// The first position at or after `i` that holds `\n`, or the length.
fn find_newline(b: &Vec<u8>, i: usize) -> (res: usize)
    requires
        i <= b@.len(),
    ensures
        res as int == newline_from(b@, i as int),
        i <= res <= b@.len(),
    decreases b@.len() - i,
{
    if i >= b.len() {
        b.len()
    } else if b[i] == 10 {
        i
    } else {
        find_newline(b, i + 1)
    }
}

/// Whether `b[start..end]` begins with `p`.
fn has_prefix_at(b: &Vec<u8>, start: usize, end: usize, p: &Vec<u8>) -> (res: bool)
    requires
        start <= end <= b@.len(),
    ensures
        res == starts_with(b@.subrange(start as int, end as int), p@),
{
    if p.len() > end - start {
        return false;
    }
    let mut i: usize = 0;
    while i < p.len()
        invariant
            p@.len() <= end - start,
            start <= end <= b@.len(),
            i <= p@.len(),
            forall|j: int| 0 <= j < i ==> b@[start + j] == p@[j],
        decreases p@.len() - i,
    {
        if b[start + i] != p[i] {
            assert(b@.subrange(start as int, end as int).subrange(0, p@.len() as int)[i as int]
                != p@[i as int]);
            return false;
        }
        i = i + 1;
    }
    assert(b@.subrange(start as int, end as int).subrange(0, p@.len() as int) =~= p@);
    true
}

/// The first line of `b` at or after `start` that begins with `p`.
fn find_line(b: &Vec<u8>, start: usize, p: &Vec<u8>) -> (res: Option<(usize, usize)>)
    requires
        start <= b@.len(),
    ensures
        res is None ==> first_line_with(b@, start as int, p@) is None,
        res matches Some((s, e)) ==> s <= e <= b@.len() && first_line_with(b@, start as int, p@)
            == Some(b@.subrange(s as int, e as int)),
    decreases b@.len() - start,
{
    if start >= b.len() {
        return None;
    }
    let nl = find_newline(b, start);
    let end = if nl < b.len() && nl > start && b[nl - 1] == 13 {
        nl - 1
    } else {
        nl
    };
    assert(line_at(b@, start as int) == b@.subrange(start as int, end as int));
    if has_prefix_at(b, start, end, p) {
        Some((start, end))
    } else if nl < b.len() {
        find_line(b, nl + 1, p)
    } else {
        None
    }
}

/// `b[start..end]` with every leading copy of `p` taken off.
fn trim_all(b: &Vec<u8>, start: usize, end: usize, p: &Vec<u8>) -> (res: Vec<u8>)
    requires
        start <= end <= b@.len(),
    ensures
        res@ == trim_prefix(b@.subrange(start as int, end as int), p@),
    decreases end - start,
{
    if p.len() > 0 && has_prefix_at(b, start, end, p) {
        assert(b@.subrange(start as int, end as int).subrange(p@.len() as int, (end - start) as int)
            =~= b@.subrange(start + p@.len(), end as int));
        trim_all(b, start + p.len(), end, p)
    } else {
        let mut out: Vec<u8> = Vec::new();
        let mut i = start;
        while i < end
            invariant
                start <= i <= end <= b@.len(),
                out@ == b@.subrange(start as int, i as int),
            decreases end - i,
        {
            out.push(b[i]);
            i = i + 1;
            assert(out@ =~= b@.subrange(start as int, i as int));
        }
        out
    }
}

/// The digit values of a run of digits only grow as digits are added.
proof fn lemma_digits_value_prefix(s: Seq<u8>, i: int)
    requires
        0 <= i <= s.len(),
        all_digits(s),
    ensures
        digits_value(s.subrange(0, i)) <= digits_value(s),
    decreases s.len() - i,
{
    if i < s.len() {
        lemma_digits_value_prefix(s, i + 1);
        let t = s.subrange(0, i + 1);
        assert(t.drop_last() =~= s.subrange(0, i));
    } else {
        assert(s.subrange(0, i) =~= s);
    }
}

/// Reads a `usize` the way `str::parse` does.
fn parse_decimal(s: &Vec<u8>) -> (res: Option<usize>)
    ensures
        res matches Some(v) ==> parse_usize(s@) == Some(v as nat),
        res is None ==> parse_usize(s@) is None,
{
    let start: usize = if s.len() > 0 && s[0] == 43 {
        1
    } else {
        0
    };
    let ghost d = unsigned_digits(s@);
    assert(d =~= s@.subrange(start as int, s@.len() as int));
    if start >= s.len() {
        return None;
    }
    let mut v: usize = 0;
    let mut i = start;
    while i < s.len()
        invariant
            start <= i <= s@.len(),
            d == unsigned_digits(s@),
            d =~= s@.subrange(start as int, s@.len() as int),
            forall|k: int| 0 <= k < i - start ==> is_digit(#[trigger] d[k]),
            v as nat == digits_value(d.subrange(0, i - start)),
        decreases s@.len() - i,
    {
        let c = s[i];
        if c < 48 || c > 57 {
            assert(!is_digit(d[i - start]));
            assert(!all_digits(d));
            return None;
        }
        let digit = (c - 48) as usize;
        let ghost pre = d.subrange(0, i - start);
        let ghost next = d.subrange(0, i - start + 1);
        assert(next.drop_last() =~= pre);
        if v > (usize::MAX - digit) / 10 {
            assert(digits_value(next) > usize::MAX) by (nonlinear_arith)
                requires
                    digits_value(next) == v * 10 + digit,
                    v > (usize::MAX - digit) / 10,
                    digit <= 9,
            ;
            proof {
                if all_digits(d) {
                    lemma_digits_value_prefix(d, i - start + 1);
                    assert(digits_value(d) > usize::MAX);
                }
            }
            return None;
        }
        assert(v * 10 + digit <= usize::MAX) by (nonlinear_arith)
            requires
                v <= (usize::MAX - digit) / 10,
                digit <= 9,
        ;
        v = v * 10 + digit;
        i = i + 1;
    }
    assert(d.subrange(0, i - start) =~= d);
    Some(v)
}

/// Appends the bytes of `chunk` to `buf`.
pub(crate) fn append(buf: &mut Vec<u8>, chunk: &[u8])
    ensures
        final(buf)@ == old(buf)@ + chunk@,
{
    let ghost start = buf@;
    let mut i: usize = 0;
    while i < chunk.len()
        invariant
            i <= chunk@.len(),
            buf@ == start + chunk@.subrange(0, i as int),
        decreases chunk@.len() - i,
    {
        buf.push(chunk[i]);
        i = i + 1;
        assert(buf@ =~= start + chunk@.subrange(0, i as int));
    }
    assert(chunk@.subrange(0, chunk@.len() as int) =~= chunk@);
}

/// `Host: ` as bytes.
fn host_name_bytes() -> (v: Vec<u8>)
    ensures
        v@ == host_name(),
{
    let v = vec![72u8, 111u8, 115u8, 116u8, 58u8, 32u8];
    assert(v@ =~= host_name());
    v
}

/// `Content-Length: ` as bytes.
fn content_length_name_bytes() -> (v: Vec<u8>)
    ensures
        v@ == content_length_name(),
{
    let v = vec![
        67u8,
        111u8,
        110u8,
        116u8,
        101u8,
        110u8,
        116u8,
        45u8,
        76u8,
        101u8,
        110u8,
        103u8,
        116u8,
        104u8,
        58u8,
        32u8,
    ];
    assert(v@ =~= content_length_name());
    v
}

/// The value of the first line of `head` (the first `end` bytes of `b`) that
/// begins with `name`.
fn find_header_value(b: &Vec<u8>, end: usize, name: &Vec<u8>) -> (res: Option<Vec<u8>>)
    requires
        end <= b@.len(),
    ensures
        res matches Some(v) ==> header_value(b@.subrange(0, end as int), name@) == Some(v@),
        res is None ==> header_value(b@.subrange(0, end as int), name@) is None,
{
    let mut head: Vec<u8> = Vec::new();
    let mut i: usize = 0;
    while i < end
        invariant
            i <= end <= b@.len(),
            head@ == b@.subrange(0, i as int),
        decreases end - i,
    {
        head.push(b[i]);
        i = i + 1;
        assert(head@ =~= b@.subrange(0, i as int));
    }
    match find_line(&head, 0, name) {
        None => None,
        Some((s, e)) => Some(trim_all(&head, s, e, name)),
    }
}

impl RequestReader {
    /// A reader for the connection of the user at `agent`.
    pub fn new(agent: String) -> (r: RequestReader)
        ensures
            r@ == (agent@, Seq::<u8>::empty(), None::<(Seq<u8>, nat)>),
            request_wf(r@),
    {
        RequestReader { agent, buf: Vec::new(), body: None }
    }

    /// How many body bytes are still to come, once the head is read; a read
    /// should then ask for no more.
    pub fn body_wanted(&self) -> (n: Option<usize>)
        requires
            request_wf(self@),
        ensures
            n matches Some(k) ==> body_wanted(self@) == Some(k as int) && k > 0,
            n is None ==> body_wanted(self@) is None,
    {
        match &self.body {
            None => None,
            Some((_, total)) => Some(*total - self.buf.len()),
        }
    }

    fn take_request(&mut self, host: &Vec<u8>) -> (p: Packet)
        ensures
            p@ == request_frame(old(self)@.0, host@, old(self)@.1),
            final(self)@ == (old(self)@.0, Seq::<u8>::empty(), None::<(Seq<u8>, nat)>),
    {
        let mut request = Vec::new();
        std::mem::swap(&mut request, &mut self.buf);
        self.body = None;
        let data = Data { agent_ip_port: self.agent.clone(), host: Some(utf8_lossy(host.as_slice())), data: request };
        let bytes = data.pack();
        Packet::with_body(PackType::Data, bytes.unwrap())
    }

    fn clear(&mut self)
        ensures
            final(self)@ == (old(self)@.0, Seq::<u8>::empty(), None::<(Seq<u8>, nat)>),
    {
        self.buf = Vec::new();
        self.body = None;
    }

    /// Takes in a chunk of bytes read off the connection.
    pub fn on_bytes(&mut self, chunk: &[u8]) -> (step: RequestStep)
        requires
            request_wf(old(self)@),
            body_wanted(old(self)@) matches Some(k) ==> chunk@.len() <= k,
            old(self)@.1.len() + chunk@.len() <= usize::MAX,
        ensures
            request_wf(final(self)@),
            (final(self)@, step@) == request_step_bytes(old(self)@, chunk@),
    {
        append(&mut self.buf, chunk);
        match &self.body {
            Some((host, total)) => {
                if self.buf.len() < *total {
                    return RequestStep::Continue;
                }
                let host = host.clone();
                RequestStep::Ready(self.take_request(&host))
            },
            None => {
                let blank = find_blank(&self.buf, 0);
                match blank {
                    None => RequestStep::Continue,
                    Some(i) => {
                        proof {
                            lemma_first_blank_from(self.buf@, 0);
                        }
                        let end = i + 4;
                        let host = find_header_value(&self.buf, end, &host_name_bytes());
                        match host {
                            None => {
                                self.clear();
                                RequestStep::Fault(RequestFault::NoHost)
                            },
                            Some(host) => {
                                let length = find_header_value(
                                    &self.buf,
                                    end,
                                    &content_length_name_bytes(),
                                );
                                match length {
                                    None => RequestStep::Ready(self.take_request(&host)),
                                    Some(v) => match parse_decimal(&v) {
                                        None => {
                                            self.clear();
                                            RequestStep::Fault(RequestFault::BadContentLength)
                                        },
                                        Some(len) => {
                                            let read = self.buf.len();
                                            if read - end > len {
                                                self.clear();
                                                RequestStep::Fault(RequestFault::BodyOverrun)
                                            } else if len > usize::MAX - end {
                                                self.clear();
                                                RequestStep::Fault(RequestFault::TooLong)
                                            } else if read - end == len {
                                                RequestStep::Ready(self.take_request(&host))
                                            } else {
                                                self.body = Some((host, end + len));
                                                RequestStep::Continue
                                            }
                                        },
                                    },
                                }
                            },
                        }
                    },
                }
            },
        }
    }

    /// Takes in the end of the connection, or a failed read.
    pub fn on_end(&mut self) -> (step: RequestStep)
        requires
            request_wf(old(self)@),
        ensures
            request_wf(final(self)@),
            (final(self)@, step@) == request_step_end(old(self)@),
    {
        self.clear();
        RequestStep::Ready(Packet::new_without_data(PackType::DisConnect))
    }
}

/// A request head ends just past its first blank line: there is a blank line
/// there and none before it, and without one there is no end yet.
pub proof fn law_head_end_is_first_blank_line(b: Seq<u8>)
    ensures
        head_end(b) matches Some(e) ==> blank_at(b, e - 4) && forall|k: int|
            0 <= k < e - 4 ==> !blank_at(b, k),
        head_end(b) is None ==> forall|k: int| 0 <= k ==> !blank_at(b, k),
{
    lemma_first_blank_from(b, 0);
}

/// A blank line found in `x` is still the first one once more bytes follow.
proof fn lemma_first_blank_extends(x: Seq<u8>, y: Seq<u8>, i: int)
    requires
        0 <= i,
        first_blank_from(x, i) is Some,
    ensures
        first_blank_from(x + y, i) == first_blank_from(x, i),
    decreases x.len() - i,
{
    let xy = x + y;
    if i + 4 <= x.len() {
        assert(xy[i] == x[i] && xy[i + 1] == x[i + 1] && xy[i + 2] == x[i + 2] && xy[i + 3]
            == x[i + 3]);
        if !blank_at(x, i) {
            lemma_first_blank_extends(x, y, i + 1);
        }
    }
}

/// How a user's bytes are cut into reads does not matter: taking in `a` and
/// then `b` (no more than the body still wanted) leaves the reader where taking
/// in `a + b` at once does, and hands on the same.
pub proof fn law_request_chunks_compose(s: RequestModel, a: Seq<u8>, b: Seq<u8>)
    requires
        request_wf(s),
        body_wanted(s) matches Some(k) ==> a.len() + b.len() <= k,
        request_step_bytes(s, a).1 == RequestStepModel::Continue,
        body_wanted(request_step_bytes(s, a).0) matches Some(k) ==> b.len() <= k,
    ensures
        request_step_bytes(request_step_bytes(s, a).0, b) == request_step_bytes(s, a + b),
{
    let (agent, read, body) = s;
    let x = read + a;
    assert(read + (a + b) =~= x + b);
    if body is None {
        if head_end(x) is Some {
            lemma_first_blank_extends(x, b, 0);
            let end = head_end(x).unwrap();
            lemma_first_blank_from(x, 0);
            assert((x + b).subrange(0, end) =~= x.subrange(0, end));
        }
    }
}

/// However much of a request was read, none included, the end of a user's
/// connection or a failed read is handed on as the empty disconnect frame (the
/// marker, a zero body size, the disconnect kind, no body), and the reader keeps
/// its user and starts over.
pub proof fn law_end_hands_on_disconnect(s: RequestModel)
    ensures
        request_step_end(s).0 == (s.0, Seq::<u8>::empty(), None::<(Seq<u8>, nat)>),
        request_step_end(s).1 == RequestStepModel::Ready(
            (
                crate::proto::Header {
                    flag: 0x55aa,
                    body_size: 0,
                    pack_type: PackType::DisConnect,
                },
                Seq::<u8>::empty(),
            ),
        ),
{
}

/// A head with a `Host` line and a `Content-Length` that reads as `n`, which
/// arrives together with exactly `n` body bytes (none at all when `n` is `0`),
/// is handed on at once as the request frame of every byte read, for that
/// user and host, and the reader starts over.
pub proof fn law_whole_request_handed_on(
    s: RequestModel,
    chunk: Seq<u8>,
    end: int,
    host: Seq<u8>,
    v: Seq<u8>,
    n: nat,
)
    requires
        s.2 is None,
        head_end(s.1 + chunk) == Some(end),
        header_value((s.1 + chunk).subrange(0, end), host_name()) == Some(host),
        header_value((s.1 + chunk).subrange(0, end), content_length_name()) == Some(v),
        parse_usize(v) == Some(n),
        (s.1 + chunk).len() == end + n,
        (s.1 + chunk).len() <= usize::MAX,
    ensures
        after_head(s.0, s.1 + chunk, end) == (
            (s.0, Seq::<u8>::empty(), None::<(Seq<u8>, nat)>),
            RequestStepModel::Ready(request_frame(s.0, host, s.1 + chunk)),
        ),
        request_step_bytes(s, chunk) == (
            (s.0, Seq::<u8>::empty(), None::<(Seq<u8>, nat)>),
            RequestStepModel::Ready(request_frame(s.0, host, s.1 + chunk)),
        ),
{
}

/// A head without a `Host` line is refused; a head with one and without a
/// `Content-Length` line is a whole request, handed on at once as the request
/// frame of every byte read.
pub proof fn law_request_without_length(s: RequestModel, chunk: Seq<u8>, end: int)
    requires
        s.2 is None,
        head_end(s.1 + chunk) == Some(end),
    ensures
        header_value((s.1 + chunk).subrange(0, end), host_name()) is None ==> request_step_bytes(
            s,
            chunk,
        ) == (
            (s.0, Seq::<u8>::empty(), None::<(Seq<u8>, nat)>),
            RequestStepModel::Fault(RequestFault::NoHost),
        ),
        header_value((s.1 + chunk).subrange(0, end), host_name()) matches Some(host) ==> (
        header_value((s.1 + chunk).subrange(0, end), content_length_name()) is None
            ==> request_step_bytes(s, chunk) == (
            (s.0, Seq::<u8>::empty(), None::<(Seq<u8>, nat)>),
            RequestStepModel::Ready(request_frame(s.0, host, s.1 + chunk)),
        )),
{
}

/// When the head announces `n` body bytes and fewer have come, the reader
/// waits for exactly the rest, and once the rest arrives hands on the request
/// frame of the head and the whole body.
pub proof fn law_body_awaited(
    s: RequestModel,
    chunk: Seq<u8>,
    end: int,
    host: Seq<u8>,
    v: Seq<u8>,
    n: nat,
    rest: Seq<u8>,
)
    requires
        s.2 is None,
        head_end(s.1 + chunk) == Some(end),
        header_value((s.1 + chunk).subrange(0, end), host_name()) == Some(host),
        header_value((s.1 + chunk).subrange(0, end), content_length_name()) == Some(v),
        parse_usize(v) == Some(n),
        (s.1 + chunk).len() < end + n <= usize::MAX,
        (s.1 + chunk).len() + rest.len() == end + n,
    ensures
        request_step_bytes(s, chunk).1 == RequestStepModel::Continue,
        body_wanted(request_step_bytes(s, chunk).0) == Some(rest.len() as int),
        request_step_bytes(request_step_bytes(s, chunk).0, rest) == (
            (s.0, Seq::<u8>::empty(), None::<(Seq<u8>, nat)>),
            RequestStepModel::Ready(request_frame(s.0, host, s.1 + chunk + rest)),
        ),
{
}

} // verus!
