//! The calls into `bincode`, configured as every frame is: fixed-width integers,
//! little-endian, no size limit, trailing bytes refused. These are the only
//! places where the library's bytes are made or read by code that Verus has not
//! checked; each contract below states the wire format that bincode 1.3
//! documents for these settings (see `wire`).
use bincode::Options;
use vstd::prelude::*;
use crate::wire::{bind_fields, data_bytes, data_fields, header_bytes, header_fields, str_bytes};

verus! {

/// Calls bincode's `Options::serialize` on the tuple `(flag, body_size, index)`.
/// With fixed-width little-endian integers each field is written as its bytes,
/// least significant first, in field order; serializing integers into a `Vec`
/// cannot fail, so the result is always `Ok`.
#[verifier::external_body]
pub(crate) fn serialize_header_fields(flag: u16, body_size: u64, index: u32) -> (res: Result<
    Vec<u8>,
    String,
>)
    ensures
        res is Ok,
        res.unwrap()@ == header_bytes(flag, body_size, index),
{
    let options = bincode::DefaultOptions::new().with_fixint_encoding().with_little_endian();
    match options.serialize(&(flag, body_size, index)) {
        Ok(v) => Ok(v),
        Err(e) => Err(format!("{:?}", e)),
    }
}

/// Calls bincode's `Options::deserialize` for the tuple `(u16, u64, u32)`.
/// It reads the three fields as little-endian integers; fewer than 14 bytes end
/// in an end-of-input error and more in the trailing-bytes error. The error is
/// handed back as its `Debug` text, whose wording is not stated.
#[verifier::external_body]
pub(crate) fn deserialize_header_fields(bytes: &[u8]) -> (res: Result<(u16, u64, u32), String>)
    ensures
        res is Ok <==> header_fields(bytes@) is Some,
        res matches Ok(f) ==> header_fields(bytes@) == Some(f),
{
    let options = bincode::DefaultOptions::new().with_fixint_encoding().with_little_endian();
    match options.deserialize::<(u16, u64, u32)>(bytes) {
        Ok(v) => Ok(v),
        Err(e) => Err(format!("{:?}", e)),
    }
}

/// Calls bincode's `Options::serialize` on `(agent, host, data)`. A string is
/// written as its UTF-8 length (`u64`) and bytes, an option as a `0` or `1` tag
/// byte followed by the value, a byte vector as its length and bytes; nothing
/// here can fail, so the result is always `Ok`.
#[verifier::external_body]
pub(crate) fn serialize_data_fields(agent: &String, host: &Option<String>, data: &Vec<u8>) -> (res:
    Result<Vec<u8>, String>)
    ensures
        res is Ok,
        res.unwrap()@ == data_bytes(agent@, host.deep_view(), data@),
{
    let options = bincode::DefaultOptions::new().with_fixint_encoding().with_little_endian();
    match options.serialize(&(agent, host, data)) {
        Ok(v) => Ok(v),
        Err(e) => Err(format!("{:?}", e)),
    }
}

/// Calls bincode's `Options::deserialize` for `(String, Option<String>, Vec<u8>)`.
/// It succeeds exactly when the bytes are one message in the layout written by
/// `serialize_data_fields`: every length fits a `usize` and the bytes are
/// there, the strings are UTF-8, the option tag is `0` or `1`, and no byte is
/// left over. The error is handed back as its `Debug` text, whose wording is
/// not stated.
#[verifier::external_body]
pub(crate) fn deserialize_data_fields(bytes: &[u8]) -> (res: Result<
    (String, Option<String>, Vec<u8>),
    String,
>)
    ensures
        res is Ok <==> data_fields(bytes@) is Some,
        res matches Ok(f) ==> data_fields(bytes@) == Some((f.0@, f.1.deep_view(), f.2@)),
{
    let options = bincode::DefaultOptions::new().with_fixint_encoding().with_little_endian();
    match options.deserialize::<(String, Option<String>, Vec<u8>)>(bytes) {
        Ok(v) => Ok(v),
        Err(e) => Err(format!("{:?}", e)),
    }
}

/// Calls bincode's `Options::serialize` on the one-field tuple `(host,)`, which
/// is written as the string alone: its UTF-8 length (`u64`) and bytes. The
/// result is always `Ok`.
#[verifier::external_body]
pub(crate) fn serialize_bind_fields(host: &String) -> (res: Result<Vec<u8>, String>)
    ensures
        res is Ok,
        res.unwrap()@ == str_bytes(host@),
{
    let options = bincode::DefaultOptions::new().with_fixint_encoding().with_little_endian();
    match options.serialize(&(host,)) {
        Ok(v) => Ok(v),
        Err(e) => Err(format!("{:?}", e)),
    }
}

/// Calls bincode's `Options::deserialize` for the one-field tuple `(String,)`.
/// It succeeds exactly when the bytes are one length-prefixed UTF-8 string with
/// nothing after it. The error is handed back as its `Debug` text, whose
/// wording is not stated.
#[verifier::external_body]
pub(crate) fn deserialize_bind_fields(bytes: &[u8]) -> (res: Result<(String,), String>)
    ensures
        res is Ok <==> bind_fields(bytes@) is Some,
        res matches Ok(f) ==> bind_fields(bytes@) == Some(f.0@),
{
    let options = bincode::DefaultOptions::new().with_fixint_encoding().with_little_endian();
    match options.deserialize::<(String,)>(bytes) {
        Ok(v) => Ok(v),
        Err(e) => Err(format!("{:?}", e)),
    }
}

} // verus!
