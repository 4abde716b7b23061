//! The byte layout shared by every frame: fixed-width little-endian integers,
//! and the length-prefixed strings, options and byte vectors that are built
//! from them.
use vstd::prelude::*;
use vstd::utf8::*;

verus! {

/// `256` to the power `n`: one more than the largest value that `n` bytes hold.
pub open spec fn byte_range(n: nat) -> nat
    decreases n,
{
    if n == 0 {
        1
    } else {
        256 * byte_range((n - 1) as nat)
    }
}

/// The `n` low-order bytes of `v`, least significant first.
pub open spec fn le_bytes(v: nat, n: nat) -> Seq<u8>
    decreases n,
{
    if n == 0 {
        Seq::empty()
    } else {
        seq![(v % 256) as u8] + le_bytes(v / 256, (n - 1) as nat)
    }
}

/// The number that a run of bytes denotes when read least significant first.
pub open spec fn le_value(b: Seq<u8>) -> nat
    decreases b.len(),
{
    if b.len() == 0 {
        0
    } else {
        b[0] as nat + 256 * le_value(b.drop_first())
    }
}

pub proof fn lemma_byte_range_values()
    ensures
        byte_range(1) == 0x100,
        byte_range(2) == 0x1_0000,
        byte_range(4) == 0x1_0000_0000,
        byte_range(8) == 0x1_0000_0000_0000_0000,
{
    reveal_with_fuel(byte_range, 9);
}

pub proof fn lemma_le_bytes_len(v: nat, n: nat)
    ensures
        le_bytes(v, n).len() == n,
    decreases n,
{
    if n > 0 {
        lemma_le_bytes_len(v / 256, (n - 1) as nat);
    }
}

/// Reading back `n` bytes written from a value below `256^n` gives the value.
pub proof fn lemma_le_value_of_bytes(v: nat, n: nat)
    requires
        v < byte_range(n),
    ensures
        le_value(le_bytes(v, n)) == v,
    decreases n,
{
    if n > 0 {
        let rest = le_bytes(v / 256, (n - 1) as nat);
        let b = le_bytes(v, n);
        assert(v / 256 < byte_range((n - 1) as nat)) by (nonlinear_arith)
            requires
                v < 256 * byte_range((n - 1) as nat),
        ;
        lemma_le_value_of_bytes(v / 256, (n - 1) as nat);
        assert(b.drop_first() =~= rest);
        assert(v == v % 256 + 256 * (v / 256)) by (nonlinear_arith);
    }
}

/// The value read from `n` bytes is below `256^n`.
pub proof fn lemma_le_value_bound(b: Seq<u8>)
    ensures
        le_value(b) < byte_range(b.len()),
    decreases b.len(),
{
    if b.len() > 0 {
        lemma_le_value_bound(b.drop_first());
        let r = le_value(b.drop_first());
        let m = byte_range((b.len() - 1) as nat);
        assert(b[0] as nat + 256 * r < 256 * m) by (nonlinear_arith)
            requires
                r < m,
                b[0] < 256,
        ;
    }
}

/// Writing back the value read from a run of bytes gives the same bytes.
pub proof fn lemma_le_bytes_of_value(b: Seq<u8>)
    ensures
        le_bytes(le_value(b), b.len()) == b,
    decreases b.len(),
{
    if b.len() > 0 {
        let v = le_value(b);
        let r = le_value(b.drop_first());
        lemma_le_bytes_of_value(b.drop_first());
        assert(v % 256 == b[0] as nat && v / 256 == r) by (nonlinear_arith)
            requires
                v == b[0] as nat + 256 * r,
                b[0] < 256,
        ;
        assert(le_bytes(v, b.len()) =~= b);
    }
}

/// A `u64` length prefix followed by the bytes themselves.
pub open spec fn len_prefixed(body: Seq<u8>) -> Seq<u8> {
    le_bytes(body.len(), 8) + body
}

/// A string: its UTF-8 encoding behind a `u64` length prefix.
pub open spec fn str_bytes(s: Seq<char>) -> Seq<u8> {
    len_prefixed(encode_utf8(s))
}

/// An optional string: one tag byte, `0` for none and `1` for some, then the string.
pub open spec fn opt_str_bytes(s: Option<Seq<char>>) -> Seq<u8> {
    match s {
        None => seq![0u8],
        Some(v) => seq![1u8] + str_bytes(v),
    }
}

/// Splits a `u64`-length-prefixed run of bytes off the front of `b`; `None` when
/// `b` is too short or the length does not fit a `usize`.
pub open spec fn take_len_prefixed(b: Seq<u8>) -> Option<(Seq<u8>, Seq<u8>)> {
    if b.len() < 8 {
        None
    } else {
        let n = le_value(b.subrange(0, 8));
        if n > usize::MAX || b.len() - 8 < n {
            None
        } else {
            Some((b.subrange(8, 8 + n as int), b.subrange(8 + n as int, b.len() as int)))
        }
    }
}

/// Splits a string off the front of `b`; `None` also when its bytes are not UTF-8.
pub open spec fn take_str(b: Seq<u8>) -> Option<(Seq<char>, Seq<u8>)> {
    match take_len_prefixed(b) {
        None => None,
        Some((body, rest)) => if valid_utf8(body) {
            Some((decode_utf8(body), rest))
        } else {
            None
        },
    }
}

/// Splits an optional string off the front of `b`; a tag other than `0` or `1` is refused.
pub open spec fn take_opt_str(b: Seq<u8>) -> Option<(Option<Seq<char>>, Seq<u8>)> {
    if b.len() < 1 {
        None
    } else if b[0] == 0 {
        Some((None, b.drop_first()))
    } else if b[0] == 1 {
        match take_str(b.drop_first()) {
            None => None,
            Some((s, rest)) => Some((Some(s), rest)),
        }
    } else {
        None
    }
}

pub proof fn lemma_take_len_prefixed(body: Seq<u8>, rest: Seq<u8>)
    requires
        body.len() <= usize::MAX,
    ensures
        take_len_prefixed(len_prefixed(body) + rest) == Some((body, rest)),
{
    let b = len_prefixed(body) + rest;
    lemma_le_bytes_len(body.len(), 8);
    lemma_byte_range_values();
    assert(b.subrange(0, 8) =~= le_bytes(body.len(), 8));
    lemma_le_value_of_bytes(body.len(), 8);
    assert(b.subrange(8, 8 + body.len() as int) =~= body);
    assert(b.subrange(8 + body.len() as int, b.len() as int) =~= rest);
}

/// What `take_len_prefixed` splits off, put back in front of the rest, is the input.
pub proof fn lemma_take_len_prefixed_inverse(b: Seq<u8>)
    requires
        take_len_prefixed(b) is Some,
    ensures
        ({
            let (body, rest) = take_len_prefixed(b).unwrap();
            len_prefixed(body) + rest == b && body.len() <= usize::MAX
        }),
{
    let (body, rest) = take_len_prefixed(b).unwrap();
    lemma_le_bytes_of_value(b.subrange(0, 8));
    assert(len_prefixed(body) + rest =~= b);
}

pub proof fn lemma_take_str(s: Seq<char>, rest: Seq<u8>)
    requires
        encode_utf8(s).len() <= usize::MAX,
    ensures
        take_str(str_bytes(s) + rest) == Some((s, rest)),
{
    lemma_take_len_prefixed(encode_utf8(s), rest);
    encode_utf8_valid_utf8(s);
    encode_utf8_decode_utf8(s);
}

pub proof fn lemma_take_str_inverse(b: Seq<u8>)
    requires
        take_str(b) is Some,
    ensures
        ({
            let (s, rest) = take_str(b).unwrap();
            str_bytes(s) + rest == b && encode_utf8(s).len() <= usize::MAX
        }),
{
    lemma_take_len_prefixed_inverse(b);
    let (body, rest) = take_len_prefixed(b).unwrap();
    decode_utf8_encode_utf8(body);
}

pub proof fn lemma_take_opt_str(s: Option<Seq<char>>, rest: Seq<u8>)
    requires
        s matches Some(v) ==> encode_utf8(v).len() <= usize::MAX,
    ensures
        take_opt_str(opt_str_bytes(s) + rest) == Some((s, rest)),
{
    let b = opt_str_bytes(s) + rest;
    match s {
        None => {
            assert(b.drop_first() =~= rest);
        },
        Some(v) => {
            assert(b.drop_first() =~= str_bytes(v) + rest);
            lemma_take_str(v, rest);
        },
    }
}

pub proof fn lemma_take_opt_str_inverse(b: Seq<u8>)
    requires
        take_opt_str(b) is Some,
    ensures
        ({
            let (s, rest) = take_opt_str(b).unwrap();
            &&& opt_str_bytes(s) + rest == b
            &&& s matches Some(v) ==> encode_utf8(v).len() <= usize::MAX
        }),
{
    if b[0] == 0 {
        assert(seq![0u8] + b.drop_first() =~= b);
    } else {
        lemma_take_str_inverse(b.drop_first());
        let (v, rest) = take_str(b.drop_first()).unwrap();
        assert(b.drop_first() == str_bytes(v) + rest);
        assert(b =~= seq![1u8] + b.drop_first());
        assert(seq![1u8] + str_bytes(v) + rest =~= seq![1u8] + (str_bytes(v) + rest));
    }
}

/// Bytes taken by a packed frame header: a `u16` flag, a `u64` body size and
/// the `u32` index of the packet kind.
pub const HEADER_LEN: usize = 14;

/// The packed form of a frame header.
pub open spec fn header_bytes(flag: u16, body_size: u64, index: u32) -> Seq<u8> {
    le_bytes(flag as nat, 2) + le_bytes(body_size as nat, 8) + le_bytes(index as nat, 4)
}

/// The three header fields that a run of bytes denotes; only exactly
/// `HEADER_LEN` bytes are a header.
pub open spec fn header_fields(b: Seq<u8>) -> Option<(u16, u64, u32)> {
    if b.len() == HEADER_LEN {
        Some(
            (
                le_value(b.subrange(0, 2)) as u16,
                le_value(b.subrange(2, 10)) as u64,
                le_value(b.subrange(10, 14)) as u32,
            ),
        )
    } else {
        None
    }
}

pub proof fn lemma_header_bytes(flag: u16, body_size: u64, index: u32)
    ensures
        header_bytes(flag, body_size, index).len() == HEADER_LEN,
        header_fields(header_bytes(flag, body_size, index)) == Some((flag, body_size, index)),
{
    let b = header_bytes(flag, body_size, index);
    lemma_le_bytes_len(flag as nat, 2);
    lemma_le_bytes_len(body_size as nat, 8);
    lemma_le_bytes_len(index as nat, 4);
    lemma_byte_range_values();
    assert(b.subrange(0, 2) =~= le_bytes(flag as nat, 2));
    assert(b.subrange(2, 10) =~= le_bytes(body_size as nat, 8));
    assert(b.subrange(10, 14) =~= le_bytes(index as nat, 4));
    lemma_le_value_of_bytes(flag as nat, 2);
    lemma_le_value_of_bytes(body_size as nat, 8);
    lemma_le_value_of_bytes(index as nat, 4);
}

pub proof fn lemma_header_fields_inverse(b: Seq<u8>)
    requires
        header_fields(b) is Some,
    ensures
        ({
            let (flag, body_size, index) = header_fields(b).unwrap();
            header_bytes(flag, body_size, index) == b
        }),
{
    lemma_byte_range_values();
    lemma_le_value_bound(b.subrange(0, 2));
    lemma_le_value_bound(b.subrange(2, 10));
    lemma_le_value_bound(b.subrange(10, 14));
    lemma_le_bytes_of_value(b.subrange(0, 2));
    lemma_le_bytes_of_value(b.subrange(2, 10));
    lemma_le_bytes_of_value(b.subrange(10, 14));
    assert(b =~= b.subrange(0, 2) + b.subrange(2, 10) + b.subrange(10, 14));
}

/// The packed form of a data message: the sender's address, the optional host
/// that the request names, and the payload.
pub open spec fn data_bytes(agent: Seq<char>, host: Option<Seq<char>>, body: Seq<u8>) -> Seq<u8> {
    str_bytes(agent) + opt_str_bytes(host) + len_prefixed(body)
}

/// The fields of a data message that a run of bytes holds; `None` unless the
/// bytes are exactly one well-formed message.
pub open spec fn data_fields(b: Seq<u8>) -> Option<(Seq<char>, Option<Seq<char>>, Seq<u8>)> {
    match take_str(b) {
        None => None,
        Some((agent, r1)) => match take_opt_str(r1) {
            None => None,
            Some((host, r2)) => match take_len_prefixed(r2) {
                None => None,
                Some((body, r3)) => if r3.len() == 0 {
                    Some((agent, host, body))
                } else {
                    None
                },
            },
        },
    }
}

/// The lengths that a data message can carry on this machine.
pub open spec fn data_fits(agent: Seq<char>, host: Option<Seq<char>>, body: Seq<u8>) -> bool {
    &&& encode_utf8(agent).len() <= usize::MAX
    &&& host matches Some(h) ==> encode_utf8(h).len() <= usize::MAX
    &&& body.len() <= usize::MAX
}

pub proof fn lemma_data_bytes(agent: Seq<char>, host: Option<Seq<char>>, body: Seq<u8>)
    requires
        data_fits(agent, host, body),
    ensures
        data_fields(data_bytes(agent, host, body)) == Some((agent, host, body)),
{
    let empty = Seq::<u8>::empty();
    let tail = len_prefixed(body);
    lemma_take_len_prefixed(body, empty);
    assert(tail + empty =~= tail);
    lemma_take_opt_str(host, tail);
    lemma_take_str(agent, opt_str_bytes(host) + tail);
    assert(data_bytes(agent, host, body) =~= str_bytes(agent) + (opt_str_bytes(host) + tail));
}

pub proof fn lemma_data_fields_inverse(b: Seq<u8>)
    requires
        data_fields(b) is Some,
    ensures
        ({
            let (agent, host, body) = data_fields(b).unwrap();
            data_bytes(agent, host, body) == b && data_fits(agent, host, body)
        }),
{
    let (agent, r1) = take_str(b).unwrap();
    let (host, r2) = take_opt_str(r1).unwrap();
    let (body, r3) = take_len_prefixed(r2).unwrap();
    lemma_take_str_inverse(b);
    lemma_take_opt_str_inverse(r1);
    lemma_take_len_prefixed_inverse(r2);
    assert(r3 =~= Seq::<u8>::empty());
    assert(data_bytes(agent, host, body) =~= b);
}

/// The string that a run of bytes holds as a bind message, which is nothing
/// but the host name; `None` unless the bytes are exactly one string.
pub open spec fn bind_fields(b: Seq<u8>) -> Option<Seq<char>> {
    match take_str(b) {
        None => None,
        Some((host, rest)) => if rest.len() == 0 {
            Some(host)
        } else {
            None
        },
    }
}

pub proof fn lemma_bind_bytes(host: Seq<char>)
    requires
        encode_utf8(host).len() <= usize::MAX,
    ensures
        bind_fields(str_bytes(host)) == Some(host),
{
    lemma_take_str(host, Seq::empty());
    assert(str_bytes(host) + Seq::<u8>::empty() =~= str_bytes(host));
}

pub proof fn lemma_bind_fields_inverse(b: Seq<u8>)
    requires
        bind_fields(b) is Some,
    ensures
        str_bytes(bind_fields(b).unwrap()) == b,
        encode_utf8(bind_fields(b).unwrap()).len() <= usize::MAX,
{
    lemma_take_str_inverse(b);
    let (host, rest) = take_str(b).unwrap();
    assert(str_bytes(host) + rest =~= str_bytes(host));
}

} // verus!
