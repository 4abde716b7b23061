//! Reading frames off a byte stream: the decisions that the relay and the local
//! client take on each chunk of bytes, each end of stream and each failed read
//! while they wait for the next frame.
use vstd::prelude::*;
use crate::packet::{header_of, Pack, PackKind, UnPack, HEADER_FLAG};
use crate::proto::{data_model_bytes, data_model_of, Bind, Data, Header, PackType, Packet};
use crate::wire::{
    bind_fields, header_bytes, lemma_bind_fields_inverse, lemma_data_fields_inverse, lemma_header_bytes,
    str_bytes, HEADER_LEN,
};

verus! {

/// Why reading a frame was given up.
#[derive(PartialEq, Eq, Structural, Debug, Clone, Copy)]
pub enum FrameFault {
    /// The header does not carry the marker.
    BadFlag,
    /// Reading the body of a data frame failed.
    ReadFailed,
    /// The body of a data frame is not a data message.
    BadData,
    /// The body of a bind frame is not a bind message.
    BadBind,
}

/// What became of one event.
#[derive(Debug)]
pub enum FrameStep {
    /// More bytes are needed.
    Continue,
    /// A whole frame was read.
    Ready(Packet),
    /// The stream cannot be read on.
    Fault(FrameFault),
    /// The header names a kind that no reader handles.
    Unsupported(PackType),
}

/// A frame as a header and its body.
pub type FrameModel = (Header, Seq<u8>);

/// What a `FrameStep` says.
pub enum StepModel {
    Continue,
    Ready(FrameModel),
    Fault(FrameFault),
    Unsupported(PackType),
}

impl View for FrameStep {
    type V = StepModel;

    open spec fn view(&self) -> StepModel {
        match self {
            FrameStep::Continue => StepModel::Continue,
            FrameStep::Ready(p) => StepModel::Ready(p@),
            FrameStep::Fault(f) => StepModel::Fault(*f),
            FrameStep::Unsupported(k) => StepModel::Unsupported(*k),
        }
    }
}

/// A reader's state: the header read so far, if the body is being read, and
/// the bytes gathered for the current part.
pub type ReaderModel = (Option<Header>, Seq<u8>);

/// The state in which a reader waits for the first byte of a frame.
pub open spec fn idle() -> ReaderModel {
    (None, Seq::empty())
}

/// The well-formed frame of kind `kind` around `body`.
pub open spec fn frame_model(kind: PackType, body: Seq<u8>) -> FrameModel {
    (Header { flag: HEADER_FLAG, body_size: body.len() as u64, pack_type: kind }, body)
}

/// The kinds whose body a reader reads.
pub open spec fn reads_body(kind: PackType) -> bool {
    kind == PackType::Data || kind == PackType::DataEnd || kind == PackType::Bind
}

/// A reader's state is one that events can reach.
pub open spec fn reader_wf(s: ReaderModel) -> bool {
    match s.0 {
        None => s.1.len() < HEADER_LEN,
        Some(h) => {
            &&& s.1.len() < h.body_size
            &&& reads_body(h.pack_type)
            &&& h.flag == HEADER_FLAG
        },
    }
}

/// How many more bytes the current part needs.
pub open spec fn wanted(s: ReaderModel) -> int {
    match s.0 {
        None => HEADER_LEN - s.1.len(),
        Some(h) => h.body_size - s.1.len(),
    }
}

/// The frame handed on once the whole body of a frame of kind `kind` is read:
/// a data or bind body is read as its message and packed again, and the body of
/// a data-end frame is dropped.
pub open spec fn finish_body(kind: PackType, body: Seq<u8>) -> StepModel {
    if kind == PackType::Data {
        match data_model_of(body) {
            Some(d) => StepModel::Ready(frame_model(PackType::Data, data_model_bytes(d))),
            None => StepModel::Fault(FrameFault::BadData),
        }
    } else if kind == PackType::Bind {
        match bind_fields(body) {
            Some(host) => StepModel::Ready(frame_model(PackType::Bind, str_bytes(host))),
            None => StepModel::Fault(FrameFault::BadBind),
        }
    } else {
        StepModel::Ready(frame_model(PackType::DataEnd, Seq::empty()))
    }
}

/// What follows once all `HEADER_LEN` header bytes are in: a header that cannot
/// be read ends the stream as a disconnect, a missing marker is a fault,
/// heartbeats and disconnects are handed on at once, and data, data-end and
/// bind frames go on to their body.
pub open spec fn after_header(bytes: Seq<u8>) -> (ReaderModel, StepModel) {
    match header_of::<PackType>(bytes) {
        None => (idle(), StepModel::Ready(frame_model(PackType::DisConnect, Seq::empty()))),
        Some(h) => if h.flag != HEADER_FLAG {
            (idle(), StepModel::Fault(FrameFault::BadFlag))
        } else if reads_body(h.pack_type) {
            if h.body_size == 0 {
                (idle(), finish_body(h.pack_type, Seq::empty()))
            } else {
                ((Some(h), Seq::empty()), StepModel::Continue)
            }
        } else if h.pack_type == PackType::Heartbeat || h.pack_type == PackType::DisConnect {
            (idle(), StepModel::Ready(frame_model(h.pack_type, Seq::empty())))
        } else {
            (idle(), StepModel::Unsupported(h.pack_type))
        },
    }
}

/// The reader after a chunk of bytes, and what it hands on.
pub open spec fn step_bytes(s: ReaderModel, chunk: Seq<u8>) -> (ReaderModel, StepModel) {
    let buf = s.1 + chunk;
    match s.0 {
        None => if buf.len() < HEADER_LEN {
            ((None, buf), StepModel::Continue)
        } else {
            after_header(buf)
        },
        Some(h) => if buf.len() < h.body_size {
            ((Some(h), buf), StepModel::Continue)
        } else {
            (idle(), finish_body(h.pack_type, buf))
        },
    }
}

/// The reader after the stream ended: whatever was being read, a disconnect.
pub open spec fn step_closed(s: ReaderModel) -> (ReaderModel, StepModel) {
    (idle(), StepModel::Ready(frame_model(PackType::DisConnect, Seq::empty())))
}

/// The reader after a read failed: during the header a disconnect, during a
/// data body a fault, during any other body nothing (the read is tried again).
pub open spec fn step_failed(s: ReaderModel) -> (ReaderModel, StepModel) {
    match s.0 {
        None => (idle(), StepModel::Ready(frame_model(PackType::DisConnect, Seq::empty()))),
        Some(h) => if h.pack_type == PackType::Data {
            (idle(), StepModel::Fault(FrameFault::ReadFailed))
        } else {
            (s, StepModel::Continue)
        },
    }
}

/// Reads frames off a stream, one event at a time.
pub struct FrameReader {
    header: Option<Header>,
    buf: Vec<u8>,
}

impl View for FrameReader {
    type V = ReaderModel;

    closed spec fn view(&self) -> ReaderModel {
        (self.header, self.buf@)
    }
}

impl FrameReader {
    /// A reader waiting for the first byte of a frame.
    pub fn new() -> (r: FrameReader)
        ensures
            r@ == idle(),
    {
        FrameReader { header: None, buf: Vec::new() }
    }

    /// How many more bytes the current part needs; a read should ask for no more.
    pub fn wanted(&self) -> (n: u64)
        requires
            reader_wf(self@),
        ensures
            n == wanted(self@),
            n > 0,
    {
        let len = self.buf.len();
        match &self.header {
            None => (HEADER_LEN - len) as u64,
            Some(h) => h.body_size - len as u64,
        }
    }

    fn reset(&mut self)
        ensures
            final(self)@ == idle(),
    {
        self.header = None;
        self.buf = Vec::new();
    }

    /// The frame handed on once the whole body of a frame of kind `kind` is read.
    fn finish(kind: PackType, body: &[u8]) -> (step: FrameStep)
        ensures
            step@ == finish_body(kind, body@),
    {
        match kind {
            PackType::Data => match Data::unpack(body) {
                Ok(data) => {
                    let bytes = data.pack();
                    FrameStep::Ready(Packet::with_body(PackType::Data, bytes.unwrap()))
                },
                Err(_) => FrameStep::Fault(FrameFault::BadData),
            },
            PackType::Bind => match Bind::unpack(body) {
                Ok(bind) => {
                    let bytes = bind.pack();
                    FrameStep::Ready(Packet::with_body(PackType::Bind, bytes.unwrap()))
                },
                Err(_) => FrameStep::Fault(FrameFault::BadBind),
            },
            _ => FrameStep::Ready(Packet::new_without_data(PackType::DataEnd)),
        }
    }

    /// Takes in a chunk of bytes read off the stream.
    pub fn on_bytes(&mut self, chunk: &[u8]) -> (step: FrameStep)
        requires
            reader_wf(old(self)@),
            0 < chunk@.len() <= wanted(old(self)@),
        ensures
            reader_wf(final(self)@),
            (final(self)@, step@) == step_bytes(old(self)@, chunk@),
    {
        let ghost start = self.buf@;
        let mut i: usize = 0;
        while i < chunk.len()
            invariant
                i <= chunk@.len(),
                self.buf@ == start + chunk@.subrange(0, i as int),
                self.header == old(self).header,
            decreases chunk@.len() - i,
        {
            self.buf.push(chunk[i]);
            i = i + 1;
            assert(self.buf@ =~= start + chunk@.subrange(0, i as int));
        }
        assert(chunk@.subrange(0, chunk@.len() as int) =~= chunk@);
        let len = self.buf.len();
        match &self.header {
            None => {
                if len < HEADER_LEN {
                    return FrameStep::Continue;
                }
                let parsed = Header::unpack(self.buf.as_slice());
                self.reset();
                match parsed {
                    Err(_) => FrameStep::Ready(Packet::new_without_data(PackType::DisConnect)),
                    Ok(h) => {
                        if !h.check_flag() {
                            FrameStep::Fault(FrameFault::BadFlag)
                        } else if h.pack_type == PackType::Data || h.pack_type == PackType::DataEnd
                            || h.pack_type == PackType::Bind {
                            if h.body_size == 0 {
                                FrameReader::finish(h.pack_type, &[])
                            } else {
                                self.header = Some(h);
                                FrameStep::Continue
                            }
                        } else if h.pack_type == PackType::Heartbeat || h.pack_type
                            == PackType::DisConnect {
                            FrameStep::Ready(Packet::new_without_data(h.pack_type))
                        } else {
                            FrameStep::Unsupported(h.pack_type)
                        }
                    },
                }
            },
            Some(h) => {
                if (len as u64) < h.body_size {
                    return FrameStep::Continue;
                }
                let kind = h.pack_type;
                let step = FrameReader::finish(kind, self.buf.as_slice());
                self.reset();
                step
            },
        }
    }

    /// Takes in the end of the stream.
    pub fn on_closed(&mut self) -> (step: FrameStep)
        requires
            reader_wf(old(self)@),
        ensures
            reader_wf(final(self)@),
            (final(self)@, step@) == step_closed(old(self)@),
    {
        self.reset();
        FrameStep::Ready(Packet::new_without_data(PackType::DisConnect))
    }

    /// Takes in a failed read.
    pub fn on_failed(&mut self) -> (step: FrameStep)
        requires
            reader_wf(old(self)@),
        ensures
            reader_wf(final(self)@),
            (final(self)@, step@) == step_failed(old(self)@),
    {
        match &self.header {
            None => {
                self.reset();
                FrameStep::Ready(Packet::new_without_data(PackType::DisConnect))
            },
            Some(h) => {
                if h.pack_type == PackType::Data {
                    self.reset();
                    FrameStep::Fault(FrameFault::ReadFailed)
                } else {
                    FrameStep::Continue
                }
            },
        }
    }
}

/// The outcome of reading `bytes` as one frame: the header part, then, if the
/// header asks for a body, the rest in one chunk.
pub open spec fn read_frame_bytes(bytes: Seq<u8>) -> StepModel {
    let (s1, r1) = step_bytes(idle(), bytes.subrange(0, HEADER_LEN as int));
    match r1 {
        StepModel::Continue => step_bytes(s1, bytes.subrange(HEADER_LEN as int, bytes.len() as int)).1,
        _ => r1,
    }
}

/// The packed form of the frame of kind `kind` around `body`.
pub open spec fn frame_bytes(kind: PackType, body: Seq<u8>) -> Seq<u8> {
    header_bytes(HEADER_FLAG, body.len() as u64, kind.spec_index()) + body
}

/// What a reader hands on for a frame it reads whole: the frame itself for data
/// and bind frames whose body is a well-formed message and for heartbeats and
/// disconnects without a body, and an empty data-end frame for a data-end
/// frame.
pub open spec fn frame_read_back(kind: PackType, body: Seq<u8>) -> bool {
    &&& kind == PackType::Data ==> data_model_of(body) is Some
    &&& kind == PackType::Bind ==> bind_fields(body) is Some
    &&& (kind == PackType::Heartbeat || kind == PackType::DisConnect) ==> body.len() == 0
    &&& kind != PackType::Login && kind != PackType::Logout
}

/// A frame that is written and read back is handed on unchanged (a data-end
/// frame without its body): what a reader gives back of a frame that was
/// packed.
pub proof fn law_frame_round_trip(kind: PackType, body: Seq<u8>)
    requires
        body.len() <= usize::MAX,
        frame_read_back(kind, body),
    ensures
        read_frame_bytes(frame_bytes(kind, body)) == StepModel::Ready(
            if kind == PackType::DataEnd {
                frame_model(PackType::DataEnd, Seq::empty())
            } else {
                frame_model(kind, body)
            },
        ),
{
    let bytes = frame_bytes(kind, body);
    let hb = header_bytes(HEADER_FLAG, body.len() as u64, kind.spec_index());
    lemma_header_bytes(HEADER_FLAG, body.len() as u64, kind.spec_index());
    assert(bytes.subrange(0, HEADER_LEN as int) =~= hb);
    assert(bytes.subrange(HEADER_LEN as int, bytes.len() as int) =~= body);
    assert(Seq::<u8>::empty() + hb =~= hb);
    assert(Seq::<u8>::empty() + body =~= body);
    let h = Header { flag: HEADER_FLAG, body_size: body.len() as u64, pack_type: kind };
    assert(header_of::<PackType>(hb) == Some(h));
    if kind == PackType::Data {
        lemma_data_fields_inverse(body);
        assert(body.len() > 0);
    } else if kind == PackType::Bind {
        lemma_bind_fields_inverse(body);
        assert(body.len() > 0);
    }
}

/// Chunk boundaries do not matter: taking in `a` and then `b` leaves the reader
/// where taking in `a + b` at once does, and hands on the same.
pub proof fn law_chunks_compose(s: ReaderModel, a: Seq<u8>, b: Seq<u8>)
    requires
        reader_wf(s),
        0 < a.len(),
        0 < b.len(),
        a.len() + b.len() <= wanted(s),
    ensures
        step_bytes(s, a).1 == StepModel::Continue,
        reader_wf(step_bytes(s, a).0),
        step_bytes(step_bytes(s, a).0, b) == step_bytes(s, a + b),
{
    assert(s.1 + a + b =~= s.1 + (a + b));
}

/// The reader after taking in `cs`, one chunk after another, and what the last
/// chunk taken in handed on; it stops at the first chunk that hands on more
/// than `Continue`.
pub open spec fn feed(s: ReaderModel, cs: Seq<Seq<u8>>) -> (ReaderModel, StepModel)
    decreases cs.len(),
{
    if cs.len() == 0 {
        (s, StepModel::Continue)
    } else {
        let (s1, r1) = step_bytes(s, cs[0]);
        if cs.len() == 1 || !(r1 is Continue) {
            (s1, r1)
        } else {
            feed(s1, cs.drop_first())
        }
    }
}

/// Each chunk of `cs` is a read that the reader allows: not empty, and no
/// longer than what it wants when the chunk comes.
pub open spec fn chunks_fit(s: ReaderModel, cs: Seq<Seq<u8>>) -> bool
    decreases cs.len(),
{
    cs.len() == 0 || (0 < cs[0].len() <= wanted(s) && chunks_fit(
        step_bytes(s, cs[0]).0,
        cs.drop_first(),
    ))
}

/// What a reader hands on for the whole frame of kind `kind` around `body`.
pub open spec fn frame_read_result(kind: PackType, body: Seq<u8>) -> FrameModel {
    if kind == PackType::DataEnd {
        frame_model(PackType::DataEnd, Seq::empty())
    } else {
        frame_model(kind, body)
    }
}

/// The reader's state once the first `n` bytes of that frame are in.
spec fn state_after(kind: PackType, body: Seq<u8>, n: int) -> ReaderModel {
    let f = frame_bytes(kind, body);
    if n < HEADER_LEN {
        (None, f.subrange(0, n))
    } else {
        (
            Some(Header { flag: HEADER_FLAG, body_size: body.len() as u64, pack_type: kind }),
            f.subrange(HEADER_LEN as int, n),
        )
    }
}

proof fn lemma_one_chunk(kind: PackType, body: Seq<u8>, n: int, c: Seq<u8>)
    requires
        body.len() <= usize::MAX,
        frame_read_back(kind, body),
        0 <= n < frame_bytes(kind, body).len(),
        0 < c.len() <= wanted(state_after(kind, body, n)),
        n + c.len() <= frame_bytes(kind, body).len(),
        c == frame_bytes(kind, body).subrange(n, n + c.len()),
    ensures
        n + c.len() < frame_bytes(kind, body).len() ==> step_bytes(state_after(kind, body, n), c)
            == (state_after(kind, body, n + c.len()), StepModel::Continue),
        n + c.len() == frame_bytes(kind, body).len() ==> step_bytes(state_after(kind, body, n), c)
            == (idle(), StepModel::Ready(frame_read_result(kind, body))),
{
    let f = frame_bytes(kind, body);
    let m = n + c.len();
    let hb = header_bytes(HEADER_FLAG, body.len() as u64, kind.spec_index());
    lemma_header_bytes(HEADER_FLAG, body.len() as u64, kind.spec_index());
    assert(f.len() == HEADER_LEN + body.len());
    assert(body.len() as u64 == body.len());
    if kind == PackType::Data {
        lemma_data_fields_inverse(body);
        assert(body.len() > 0);
    } else if kind == PackType::Bind {
        lemma_bind_fields_inverse(body);
        assert(body.len() > 0);
    }
    if body.len() == 0 {
        assert(body =~= Seq::<u8>::empty());
    }
    if n < HEADER_LEN {
        assert(f.subrange(0, n) + c =~= f.subrange(0, m));
        if m == HEADER_LEN {
            assert(f.subrange(0, m) =~= hb);
            let h = Header { flag: HEADER_FLAG, body_size: body.len() as u64, pack_type: kind };
            assert(header_of::<PackType>(hb) == Some(h));
            assert(f.subrange(HEADER_LEN as int, m) =~= Seq::<u8>::empty());
        }
    } else {
        assert(f.subrange(HEADER_LEN as int, n) + c =~= f.subrange(HEADER_LEN as int, m));
        if m == f.len() {
            assert(f.subrange(HEADER_LEN as int, m) =~= body);
        }
    }
}

proof fn lemma_feed_from(kind: PackType, body: Seq<u8>, n: int, cs: Seq<Seq<u8>>)
    requires
        body.len() <= usize::MAX,
        frame_read_back(kind, body),
        0 <= n < frame_bytes(kind, body).len(),
        chunks_fit(state_after(kind, body, n), cs),
        cs.flatten() == frame_bytes(kind, body).subrange(n, frame_bytes(kind, body).len() as int),
    ensures
        feed(state_after(kind, body, n), cs) == (idle(), StepModel::Ready(frame_read_result(kind, body))),
    decreases cs.len(),
{
    let f = frame_bytes(kind, body);
    if cs.len() == 0 {
        assert(cs.flatten().len() == 0);
        assert(false);
    }
    let c = cs[0];
    let rest = cs.drop_first();
    assert(cs.flatten() == c + rest.flatten());
    let m = n + c.len();
    let s = state_after(kind, body, n);
    assert(body.len() as u64 == body.len());
    assert(f.len() == HEADER_LEN + body.len()) by {
        lemma_header_bytes(HEADER_FLAG, body.len() as u64, kind.spec_index());
    }
    assert(n < HEADER_LEN ==> wanted(s) == HEADER_LEN - n);
    assert(n >= HEADER_LEN ==> wanted(s) == f.len() - n);
    assert(m <= f.len()) by {
        if n < HEADER_LEN {
            lemma_header_bytes(HEADER_FLAG, body.len() as u64, kind.spec_index());
        }
    }
    let ff = cs.flatten();
    assert(ff.subrange(0, c.len() as int) =~= c);
    assert(ff.subrange(c.len() as int, ff.len() as int) =~= rest.flatten());
    assert(c =~= f.subrange(n, m));
    assert(rest.flatten() =~= f.subrange(m, f.len() as int));
    lemma_one_chunk(kind, body, n, c);
    if m < f.len() {
        assert(rest.len() > 0) by {
            if rest.len() == 0 {
                assert(rest.flatten().len() == 0);
            }
        }
        lemma_feed_from(kind, body, m, rest);
    }
}

/// A packed frame is read back whole however the stream cuts it into reads,
/// and the reader is then ready for the next frame.
pub proof fn law_frame_read_in_any_chunks(kind: PackType, body: Seq<u8>, cs: Seq<Seq<u8>>)
    requires
        body.len() <= usize::MAX,
        frame_read_back(kind, body),
        chunks_fit(idle(), cs),
        cs.flatten() == frame_bytes(kind, body),
    ensures
        feed(idle(), cs) == (idle(), StepModel::Ready(frame_read_result(kind, body))),
{
    let f = frame_bytes(kind, body);
    lemma_header_bytes(HEADER_FLAG, body.len() as u64, kind.spec_index());
    assert(state_after(kind, body, 0) == idle()) by {
        assert(f.subrange(0, 0) =~= Seq::<u8>::empty());
    }
    assert(f.subrange(0, f.len() as int) =~= f);
    lemma_feed_from(kind, body, 0, cs);
}

/// However far into a frame the stream ends, even between frames with no byte
/// of the next one read, the end is handed on as the empty disconnect frame (the
/// marker, a zero body size, the disconnect kind, no body) and the reader is
/// left waiting for the first byte of a new frame.
pub proof fn law_close_hands_on_disconnect(s: ReaderModel)
    ensures
        step_closed(s).0 == (None::<Header>, Seq::<u8>::empty()),
        step_closed(s).1 == StepModel::Ready(
            (
                Header { flag: 0x55aa, body_size: 0, pack_type: PackType::DisConnect },
                Seq::<u8>::empty(),
            ),
        ),
{
}

/// A failed read while a header is being read (none of it read included) is
/// handed on as the empty disconnect frame; during a data body it gives up on
/// the stream; during any other body it changes nothing and the read is tried
/// again.
pub proof fn law_failed_read(s: ReaderModel)
    ensures
        s.0 is None ==> step_failed(s) == (
            (None::<Header>, Seq::<u8>::empty()),
            StepModel::Ready(
                (
                    Header { flag: 0x55aa, body_size: 0, pack_type: PackType::DisConnect },
                    Seq::<u8>::empty(),
                ),
            ),
        ),
        s.0 matches Some(h) ==> (h.pack_type == PackType::Data ==> step_failed(s) == (
            (None::<Header>, Seq::<u8>::empty()),
            StepModel::Fault(FrameFault::ReadFailed),
        )),
        s.0 matches Some(h) ==> (h.pack_type != PackType::Data ==> step_failed(s) == (
            s,
            StepModel::Continue,
        )),
{
}

} // verus!
