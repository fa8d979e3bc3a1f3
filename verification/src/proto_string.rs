//! The length-prefixed protocol string codec.
//!
//! A string travels as a varint byte count followed by exactly that many
//! bytes of UTF-8.

use crate::errors::FormatError;
use crate::varint::{
    from_varint, lemma_varint_bytes_len, lemma_varint_decode_prefix, spec_from_varint, to_varint,
    varint_bytes, VarIntError,
};
use vstd::prelude::*;
use vstd::string::StringSliceAdditionalSpecFns;
use vstd::utf8::{decode_utf8, encode_utf8, valid_utf8};

verus! {

/// The wire form of the UTF-8 bytes `s`: their count as a varint, then the
/// bytes themselves.
pub open spec fn proto_string_bytes(s: Seq<u8>) -> Seq<u8> {
    varint_bytes(s.len() as u32) + s
}

/// What decoding a protocol string at the front of `b` yields: the declared
/// count must not exceed the buffer and the counted bytes must be UTF-8.
pub open spec fn spec_from_proto_string(b: Seq<u8>) -> Result<Seq<char>, FormatError> {
    match spec_from_varint(b) {
        Err(VarIntError::NotEnoughData) => Err(FormatError::NotEnoughData),
        Err(VarIntError::TooLong) => Err(FormatError::TooLong),
        Ok((v, off)) => {
            let len = (v as u32) as int;
            if b.len() < off + len {
                Err(FormatError::InvalidString)
            } else if !valid_utf8(b.subrange(off, off + len)) {
                Err(FormatError::InvalidString)
            } else {
                Ok(decode_utf8(b.subrange(off, off + len)))
            }
        },
    }
}

/// Encodes `s`: its UTF-8 byte count as a varint, then its bytes.
pub fn to_proto_string(s: &str) -> (r: Vec<u8>)
    requires
        s.spec_bytes().len() <= 0x7fff_ffff,
    ensures
        r@ == proto_string_bytes(s.spec_bytes()),
{
    let bytes: &[u8] = s.as_bytes();
    let mut v = to_varint(bytes.len() as i32);
    v.extend_from_slice(bytes);
    proof {
        assert((bytes@.len() as i32) as u32 == bytes@.len() as u32);
    }
    v
}

/// Relies on std::str::from_utf8: it succeeds exactly on valid UTF-8 input,
/// and yields the characters those bytes encode.
#[verifier::external_body]
fn utf8_to_string(bytes: &[u8]) -> (r: Option<String>)
    ensures
        r is Some <==> valid_utf8(bytes@),
        r matches Some(s) ==> s@ == decode_utf8(bytes@),
{
    match std::str::from_utf8(bytes) {
        Ok(s) => Some(s.to_owned()),
        Err(_) => None,
    }
}

/// Decodes the protocol string at the front of `bytes`: reads the varint byte
/// count, then slices exactly that many bytes and validates them as UTF-8.
pub fn from_proto_string(bytes: &[u8]) -> (r: Result<String, FormatError>)
    ensures
        r matches Ok(s) ==> spec_from_proto_string(bytes@) == Ok::<Seq<char>, FormatError>(s@),
        r matches Err(e) ==> spec_from_proto_string(bytes@) == Err::<Seq<char>, FormatError>(e),
{
    let (v, off) = match from_varint(bytes) {
        Ok(p) => p,
        Err(VarIntError::NotEnoughData) => {
            return Err(FormatError::NotEnoughData);
        },
        Err(VarIntError::TooLong) => {
            return Err(FormatError::TooLong);
        },
    };
    let len = (v as u32) as usize;
    assert(off <= bytes@.len());
    if bytes.len() - off < len {
        return Err(FormatError::InvalidString);
    }
    let content = vstd::slice::slice_subrange(bytes, off, off + len);
    match utf8_to_string(content) {
        Some(s) => Ok(s),
        None => Err(FormatError::InvalidString),
    }
}

/// Decoding an encoded string yields the string back: the round trip holds
/// for every string of at most 255 UTF-8 bytes.
pub proof fn lemma_proto_string_round_trip(s: Seq<char>)
    requires
        encode_utf8(s).len() <= 255,
    ensures
        spec_from_proto_string(proto_string_bytes(encode_utf8(s))) == Ok::<
            Seq<char>,
            FormatError,
        >(s),
{
    broadcast use vstd::utf8::encode_utf8_valid_utf8;
    broadcast use vstd::utf8::encode_utf8_decode_utf8;

    let b = encode_utf8(s);
    let n = b.len() as u32;
    lemma_varint_decode_prefix(n, b);
    lemma_varint_bytes_len(n);
    let w = proto_string_bytes(b);
    let off = varint_bytes(n).len() as int;
    assert((n as i32) as u32 == n);
    assert(w.subrange(off, off + b.len() as int) =~= b);
}

} // verus!
