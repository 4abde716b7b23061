//! Frames: a fixed-size header that names the packet kind and the body size,
//! followed by the body bytes.
use vstd::prelude::*;
use crate::codec::{deserialize_header_fields, serialize_header_fields};
use crate::wire::{
    header_bytes, header_fields, lemma_header_bytes, lemma_header_fields_inverse, HEADER_LEN,
};

verus! {

/// The marker that every well-formed header carries.
pub const HEADER_FLAG: u16 = 0x55aa;

/// A packet kind: a field-less enumeration that travels as the `u32` index of
/// its variant.
pub trait PackKind: Sized {
    spec fn spec_index(&self) -> u32;

    spec fn spec_from_index(index: u32) -> Option<Self>;

    fn index(&self) -> (i: u32)
        ensures
            i == self.spec_index(),
    ;

    fn from_index(index: u32) -> (k: Option<Self>)
        ensures
            k == Self::spec_from_index(index),
    ;

    proof fn lemma_index_roundtrip(k: Self)
        ensures
            Self::spec_from_index(k.spec_index()) == Some(k),
    ;

    proof fn lemma_from_index_inverse(index: u32)
        ensures
            Self::spec_from_index(index) matches Some(k) ==> k.spec_index() == index,
    ;

    /// How many kinds there are: the indices below it, and only those, name one.
    spec fn spec_kind_count() -> u32;

    fn kind_count() -> (n: u32)
        ensures
            n == Self::spec_kind_count(),
    ;

    proof fn lemma_index_below_count(index: u32)
        ensures
            Self::spec_from_index(index) is Some <==> index < Self::spec_kind_count(),
    ;
}

/// The decimal digit `d`.
pub open spec fn digit_char(d: nat) -> char {
    if d == 0 {
        '0'
    } else if d == 1 {
        '1'
    } else if d == 2 {
        '2'
    } else if d == 3 {
        '3'
    } else if d == 4 {
        '4'
    } else if d == 5 {
        '5'
    } else if d == 6 {
        '6'
    } else if d == 7 {
        '7'
    } else if d == 8 {
        '8'
    } else {
        '9'
    }
}

/// `n` written in decimal, without leading zeros.
pub open spec fn decimal(n: nat) -> Seq<char>
    decreases n,
{
    if n < 10 {
        seq![digit_char(n)]
    } else {
        decimal(n / 10).push(digit_char(n % 10))
    }
}

fn digit_str(d: u32) -> (s: &'static str)
    requires
        d < 10,
    ensures
        s@ == seq![digit_char(d as nat)],
{
    proof {
        reveal_strlit("0");
        reveal_strlit("1");
        reveal_strlit("2");
        reveal_strlit("3");
        reveal_strlit("4");
        reveal_strlit("5");
        reveal_strlit("6");
        reveal_strlit("7");
        reveal_strlit("8");
        reveal_strlit("9");
    }
    if d == 0 {
        "0"
    } else if d == 1 {
        "1"
    } else if d == 2 {
        "2"
    } else if d == 3 {
        "3"
    } else if d == 4 {
        "4"
    } else if d == 5 {
        "5"
    } else if d == 6 {
        "6"
    } else if d == 7 {
        "7"
    } else if d == 8 {
        "8"
    } else {
        "9"
    }
}

fn push_decimal(out: &mut String, n: u32)
    ensures
        final(out)@ == old(out)@ + decimal(n as nat),
    decreases n,
{
    if n >= 10 {
        push_decimal(out, n / 10);
    }
    out.append(digit_str(n % 10));
}

/// The error text for a kind index that names no kind, worded as the `Debug`
/// form of the error that bincode reports for an enum tag out of range.
pub open spec fn unknown_kind_text(index: u32, count: u32) -> Seq<char> {
    "Custom(\"invalid value: integer `"@ + decimal(index as nat)
        + "`, expected variant index 0 <= i < "@ + decimal(count as nat) + "\")"@
}

fn unknown_kind_error(index: u32, count: u32) -> (e: String)
    ensures
        e@ == unknown_kind_text(index, count),
{
    let mut e = String::from_str("Custom(\"invalid value: integer `");
    push_decimal(&mut e, index);
    e.append("`, expected variant index 0 <= i < ");
    push_decimal(&mut e, count);
    e.append("\")");
    e
}

/// A value that can be written out as bytes.
pub trait Pack: View {
    /// Whether `pack` is defined on this value.
    spec fn packable(&self) -> bool;

    /// Whether `pack` succeeds on this value.
    spec fn pack_succeeds(&self) -> bool;

    /// The bytes that `pack` writes.
    spec fn packed(&self) -> Seq<u8>;

    fn pack(&self) -> (res: Result<Vec<u8>, String>)
        requires
            self.packable(),
        ensures
            res is Ok <==> self.pack_succeeds(),
            res matches Ok(v) ==> v@ == self.packed(),
    ;
}

/// A value that can be read back from bytes.
pub trait UnPack: Sized + View {
    /// The value that a run of bytes holds, if it is well-formed.
    spec fn unpacked(bytes: Seq<u8>) -> Option<Self::V>;

    fn unpack(encoded: &[u8]) -> (res: Result<Self, String>)
        ensures
            res is Ok <==> Self::unpacked(encoded@) is Some,
            res matches Ok(v) ==> Self::unpacked(encoded@) == Some(v@),
    ;
}

/// A frame header.
#[derive(PartialEq, Debug)]
pub struct Header<T> {
    pub flag: u16,
    pub body_size: u64,
    pub pack_type: T,
}

impl<T> View for Header<T> {
    type V = Header<T>;

    open spec fn view(&self) -> Header<T> {
        *self
    }
}

impl<T: PackKind> Header<T> {
    /// A header with the marker set, for a body of `body_size` bytes.
    pub fn new(body_size: u64, pack_type: T) -> (h: Header<T>)
        ensures
            h.flag == HEADER_FLAG,
            h.body_size == body_size,
            h.pack_type == pack_type,
    {
        Header { flag: HEADER_FLAG, body_size, pack_type }
    }

    /// The number of bytes a packed header takes, found by packing the
    /// default header.
    pub fn size() -> (res: Result<usize, String>)
        where T: Default,
        ensures
            res == Ok::<usize, String>(HEADER_LEN),
    {
        let header = Header::<T>::default();
        let packed = header.pack()?;
        proof {
            lemma_header_bytes(header.flag, header.body_size, header.pack_type.spec_index());
        }
        Ok(packed.len())
    }

    /// Whether this header carries the marker.
    pub fn check_flag(&self) -> (b: bool)
        ensures
            b == (self.flag == HEADER_FLAG),
    {
        self.flag == HEADER_FLAG
    }
}

impl<T: Default> Default for Header<T> {
    fn default() -> (h: Header<T>)
        ensures
            h.flag == 0,
            h.body_size == 0,
            call_ensures(T::default, (), h.pack_type),
    {
        Header { flag: 0, body_size: 0, pack_type: T::default() }
    }
}

impl<T: PackKind> Pack for Header<T> {
    open spec fn packable(&self) -> bool {
        true
    }

    open spec fn pack_succeeds(&self) -> bool {
        true
    }

    open spec fn packed(&self) -> Seq<u8> {
        header_bytes(self.flag, self.body_size, self.pack_type.spec_index())
    }

    fn pack(&self) -> (res: Result<Vec<u8>, String>)
        ensures
            res matches Ok(v) && v@ == self.packed(),
    {
        serialize_header_fields(self.flag, self.body_size, self.pack_type.index())
    }
}

/// The header that a run of bytes holds: exactly `HEADER_LEN` bytes whose kind
/// index names a kind.
pub open spec fn header_of<T: PackKind>(bytes: Seq<u8>) -> Option<Header<T>> {
    match header_fields(bytes) {
        None => None,
        Some((flag, body_size, index)) => match T::spec_from_index(index) {
            None => None,
            Some(kind) => Some(Header { flag, body_size, pack_type: kind }),
        },
    }
}

/// The kind index in the first `HEADER_LEN` bytes, when there are that many.
pub open spec fn leading_kind_index(bytes: Seq<u8>) -> Option<u32> {
    if bytes.len() >= HEADER_LEN {
        match header_fields(bytes.subrange(0, HEADER_LEN as int)) {
            Some((_, _, index)) => Some(index),
            None => None,
        }
    } else {
        None
    }
}

impl<T: PackKind> UnPack for Header<T> {
    open spec fn unpacked(bytes: Seq<u8>) -> Option<Header<T>> {
        header_of::<T>(bytes)
    }

    /// Fields are read in order, so a kind index that names no kind is
    /// refused before any byte after the header is looked at.
    fn unpack(encoded: &[u8]) -> (res: Result<Header<T>, String>)
        ensures
            leading_kind_index(encoded@) matches Some(i) ==> (T::spec_from_index(i) is None ==> (
            res matches Err(e) && e@ == unknown_kind_text(i, T::spec_kind_count()))),
    {
        if encoded.len() > HEADER_LEN {
            match deserialize_header_fields(&encoded[0..HEADER_LEN]) {
                Ok((_, _, index)) => {
                    if T::from_index(index).is_none() {
                        return Err(unknown_kind_error(index, T::kind_count()));
                    }
                },
                Err(e) => {
                    return Err(e);
                },
            }
        }
        let (flag, body_size, index) = deserialize_header_fields(encoded)?;
        assert(encoded@.subrange(0, HEADER_LEN as int) =~= encoded@);
        match T::from_index(index) {
            Some(pack_type) => Ok(Header { flag, body_size, pack_type }),
            None => Err(unknown_kind_error(index, T::kind_count())),
        }
    }
}

/// A frame: its header and its body.
#[derive(PartialEq, Debug)]
pub struct Packet<T> {
    pub header: Header<T>,
    pub data: Vec<u8>,
}

impl<T> View for Packet<T> {
    type V = (Header<T>, Seq<u8>);

    open spec fn view(&self) -> (Header<T>, Seq<u8>) {
        (self.header, self.data@)
    }
}

impl<T> Packet<T> {
    /// This packet is the well-formed frame of kind `kind` around `body`: its
    /// header carries the marker and the body's exact size.
    pub open spec fn carries(&self, kind: T, body: Seq<u8>) -> bool {
        &&& self.header.flag == HEADER_FLAG
        &&& self.header.body_size == body.len()
        &&& self.header.pack_type == kind
        &&& self.data@ == body
    }
}

impl<T: PackKind> Packet<T> {
    /// The frame of kind `data_type` around `body`.
    pub fn with_body(data_type: T, body: Vec<u8>) -> (p: Packet<T>)
        ensures
            p.carries(data_type, body@),
    {
        let size = body.len() as u64;
        Packet { header: Header::new(size, data_type), data: body }
    }

    /// The frame of kind `data_type` around the bytes that packing a message
    /// gave, or the error that packing it gave, handed on unchanged.
    pub fn from_packed(data_type: T, packed: Result<Vec<u8>, String>) -> (res: Result<
        Packet<T>,
        String,
    >)
        ensures
            packed matches Ok(b) ==> (res matches Ok(p) && p.carries(data_type, b@)),
            packed matches Err(e) ==> res == Err::<Packet<T>, String>(e),
    {
        match packed {
            Ok(body) => Ok(Packet::with_body(data_type, body)),
            Err(e) => Err(e),
        }
    }

    /// The frame of kind `data_type` around the packed form of `data`, or
    /// around no bytes when there is no data; packing's error is handed on.
    pub fn new<D: Pack>(data_type: T, data: Option<D>) -> (res: Result<Packet<T>, String>)
        requires
            data matches Some(d) ==> d.packable(),
        ensures
            data is None ==> (res matches Ok(p) && p.carries(data_type, Seq::empty())),
            data matches Some(d) ==> (res is Ok <==> d.pack_succeeds()),
            data matches Some(d) ==> (res matches Ok(p) ==> p.carries(data_type, d.packed())),
    {
        match data {
            Some(data) => Packet::from_packed(data_type, data.pack()),
            None => Ok(Packet::with_body(data_type, Vec::new())),
        }
    }

    /// The frame of kind `data_type` with an empty body.
    pub fn new_without_data(data_type: T) -> (p: Packet<T>)
        ensures
            p.carries(data_type, Seq::empty()),
    {
        Packet { header: Header::new(0, data_type), data: Vec::new() }
    }
}

impl<T: PackKind> Pack for Packet<T> {
    open spec fn packable(&self) -> bool {
        self.header.body_size <= self.data@.len()
    }

    open spec fn pack_succeeds(&self) -> bool {
        true
    }

    /// The header, then the first `body_size` bytes of the body.
    open spec fn packed(&self) -> Seq<u8> {
        self.header.packed() + self.data@.subrange(0, self.header.body_size as int)
    }

    fn pack(&self) -> (res: Result<Vec<u8>, String>)
        ensures
            res matches Ok(v) && v@ == self.packed(),
    {
        let mut out = self.header.pack()?;
        let len = self.data.len();
        assert(self.header.body_size <= len);
        let n = self.header.body_size as usize;
        let ghost head = out@;
        let mut i: usize = 0;
        while i < n
            invariant
                n == self.header.body_size,
                n <= self.data@.len(),
                i <= n,
                out@ == head + self.data@.subrange(0, i as int),
            decreases n - i,
        {
            out.push(self.data[i]);
            i = i + 1;
            assert(out@ =~= head + self.data@.subrange(0, i as int));
        }
        Ok(out)
    }
}

/// Reading back a packed header gives the header.
pub proof fn law_header_round_trip<T: PackKind>(h: Header<T>)
    ensures
        h.packed().len() == HEADER_LEN,
        header_of::<T>(h.packed()) == Some(h),
{
    lemma_header_bytes(h.flag, h.body_size, h.pack_type.spec_index());
    T::lemma_index_roundtrip(h.pack_type);
}

/// A header read from bytes packs back to those bytes.
pub proof fn law_header_canonical<T: PackKind>(bytes: Seq<u8>)
    requires
        header_of::<T>(bytes) is Some,
    ensures
        header_of::<T>(bytes).unwrap().packed() == bytes,
{
    lemma_header_fields_inverse(bytes);
    let (flag, body_size, index) = header_fields(bytes).unwrap();
    T::lemma_from_index_inverse(index);
}

/// A packet built around a body packs to its header followed by the whole body.
pub proof fn law_packet_bytes<T: PackKind>(p: Packet<T>, kind: T, body: Seq<u8>)
    requires
        p.carries(kind, body),
    ensures
        p.packable(),
        p.packed() == header_bytes(HEADER_FLAG, body.len() as u64, kind.spec_index()) + body,
        p.packed().len() == HEADER_LEN + body.len(),
{
    lemma_header_bytes(HEADER_FLAG, body.len() as u64, kind.spec_index());
    assert(p.data@.subrange(0, p.header.body_size as int) =~= body);
}

} // verus!
