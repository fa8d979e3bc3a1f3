//! The packet framer.
//!
//! A packet travels as the byte count of id-plus-payload (a varint), the id
//! (a varint), then the payload. Decoding is streaming-safe: it may be
//! retried as bytes arrive and never consumes bytes it cannot fully
//! interpret.

use crate::errors::FormatError;
use crate::varint::{
    from_varint, lemma_varint_bytes_len, lemma_varint_decode_prefix, lemma_varint_strict_prefix,
    spec_from_varint, to_varint, varint_bytes, VarIntError,
};
use vstd::prelude::*;

verus! {

/// A protocol packet: an id and a payload.
#[derive(Debug, PartialEq)]
pub struct Packet {
    pub id: i32,
    pub data: Vec<u8>,
}

/// The wire frame of a packet: the byte count of id-plus-payload as a varint,
/// then the id as a varint, then the payload.
pub open spec fn frame_bytes(id: i32, data: Seq<u8>) -> Seq<u8> {
    let idb = varint_bytes(id as u32);
    varint_bytes((idb.len() + data.len()) as u32) + idb + data
}

/// One streaming decode step on `b`: `Ok(Some((id, data, consumed)))` for a
/// complete frame at the front, `Ok(None)` when more bytes must arrive first,
/// `Err` when the peer is non-conforming. A declared count too small to cover
/// its own id can never be completed, so the decoder keeps waiting for it.
pub open spec fn spec_decode_frame(b: Seq<u8>) -> Result<
    Option<(i32, Seq<u8>, int)>,
    FormatError,
> {
    match spec_from_varint(b) {
        Err(VarIntError::NotEnoughData) => Ok(None),
        Err(VarIntError::TooLong) => Err(FormatError::TooLong),
        Ok((len, len_len)) => match spec_from_varint(b.skip(len_len)) {
            Err(VarIntError::NotEnoughData) => Ok(None),
            Err(VarIntError::TooLong) => Err(FormatError::TooLong),
            Ok((id, id_len)) => {
                if len < id_len {
                    Ok(None)
                } else {
                    let total = len_len + len;
                    if b.len() < total {
                        Ok(None)
                    } else {
                        Ok(Some((id, b.subrange(len_len + id_len, total), total)))
                    }
                }
            },
        },
    }
}

/// Encodes packets into wire frames.
pub struct PacketEncoder;

impl PacketEncoder {
    /// Appends the frame of `item` to `dst`. The size bound keeps the frame's
    /// declared byte count within the non-negative signed 32-bit range that a
    /// varint length field can carry.
    pub fn encode(&self, item: Packet, dst: &mut Vec<u8>)
        requires
            item.data@.len() + varint_bytes(item.id as u32).len() <= 0x7fff_ffff,
        ensures
            final(dst)@ == old(dst)@ + frame_bytes(item.id, item.data@),
    {
        let idb = to_varint(item.id);
        let total = idb.len() + item.data.len();
        let lenb = to_varint(total as i32);
        dst.extend_from_slice(lenb.as_slice());
        dst.extend_from_slice(idb.as_slice());
        dst.extend_from_slice(item.data.as_slice());
        proof {
            assert((total as i32) as u32 == total as u32);
            assert(dst@ =~= old(dst)@ + frame_bytes(item.id, item.data@));
        }
    }
}

/// Decodes wire frames from a growing buffer.
pub struct PacketDecoder;

impl PacketDecoder {
    /// One decode attempt on `src`. A complete frame is removed from the
    /// front of `src` and handed back; otherwise `src` is left untouched and
    /// `Ok(None)` asks the caller to buffer more input and retry.
    pub fn decode(&self, src: &mut Vec<u8>) -> (r: Result<Option<Packet>, FormatError>)
        ensures
            spec_decode_frame(old(src)@) matches Ok(Some((id, data, consumed))) ==> (r matches Ok(
                Some(p),
            ) && p.id == id && p.data@ == data && final(src)@ == old(src)@.skip(consumed)),
            spec_decode_frame(old(src)@) == Ok::<Option<(i32, Seq<u8>, int)>, FormatError>(None)
                ==> r == Ok::<Option<Packet>, FormatError>(None) && final(src)@ == old(src)@,
            spec_decode_frame(old(src)@) matches Err(e) ==> r == Err::<Option<Packet>, FormatError>(
                e,
            ) && final(src)@ == old(src)@,
    {
        let (len, len_len) = match from_varint(src.as_slice()) {
            Ok(p) => p,
            Err(VarIntError::NotEnoughData) => {
                return Ok(None);
            },
            Err(VarIntError::TooLong) => {
                return Err(FormatError::TooLong);
            },
        };
        let tail = vstd::slice::slice_subrange(src.as_slice(), len_len, src.len());
        proof {
            assert(tail@ =~= src@.skip(len_len as int));
        }
        let (id, id_len) = match from_varint(tail) {
            Ok(p) => p,
            Err(VarIntError::NotEnoughData) => {
                return Ok(None);
            },
            Err(VarIntError::TooLong) => {
                return Err(FormatError::TooLong);
            },
        };
        if len < 0 || (len as usize) < id_len {
            return Ok(None);
        }
        let total = len_len + (len as usize);
        if src.len() < total {
            return Ok(None);
        }
        let data = vstd::slice::slice_to_vec(
            vstd::slice::slice_subrange(src.as_slice(), len_len + id_len, total),
        );
        let rest = vstd::slice::slice_to_vec(
            vstd::slice::slice_subrange(src.as_slice(), total, src.len()),
        );
        proof {
            assert(rest@ =~= old(src)@.skip(total as int));
        }
        *src = rest;
        Ok(Some(Packet { id, data }))
    }
}

/// Decoding a buffer that begins with the frame of `(id, data)` yields the
/// packet back and consumes exactly the frame, whatever bytes follow it.
pub proof fn lemma_frame_round_trip(id: i32, data: Seq<u8>, rest: Seq<u8>)
    requires
        data.len() + varint_bytes(id as u32).len() <= 0x7fff_ffff,
    ensures
        spec_decode_frame(frame_bytes(id, data) + rest) == Ok::<
            Option<(i32, Seq<u8>, int)>,
            FormatError,
        >(Some((id, data, frame_bytes(id, data).len() as int))),
{
    let idb = varint_bytes(id as u32);
    let l = (idb.len() + data.len()) as u32;
    let lenb = varint_bytes(l);
    let frame = frame_bytes(id, data);
    let b = frame + rest;
    lemma_varint_bytes_len(id as u32);
    lemma_varint_bytes_len(l);
    assert(b =~= lenb + (idb + data + rest));
    lemma_varint_decode_prefix(l, idb + data + rest);
    assert((l as i32) as int == l as int);
    assert(b.skip(lenb.len() as int) =~= idb + (data + rest));
    lemma_varint_decode_prefix(id as u32, data + rest);
    assert(((id as u32) as i32) == id) by (bit_vector);
    let total = lenb.len() + l as int;
    assert(b.len() >= total);
    assert(b.subrange(lenb.len() + idb.len() as int, total) =~= data);
    assert(frame.len() == total);
}

/// A strict prefix of a frame always decodes to "need more data": a stream
/// that delivers a frame in pieces never errs or yields a packet early.
pub proof fn lemma_frame_prefix_needs_more(id: i32, data: Seq<u8>, k: int)
    requires
        data.len() + varint_bytes(id as u32).len() <= 0x7fff_ffff,
        0 <= k < frame_bytes(id, data).len(),
    ensures
        spec_decode_frame(frame_bytes(id, data).take(k)) == Ok::<
            Option<(i32, Seq<u8>, int)>,
            FormatError,
        >(None),
{
    let idb = varint_bytes(id as u32);
    let l = (idb.len() + data.len()) as u32;
    let lenb = varint_bytes(l);
    let frame = frame_bytes(id, data);
    let p = frame.take(k);
    lemma_varint_bytes_len(id as u32);
    lemma_varint_bytes_len(l);
    assert((l as i32) as int == l as int);
    assert(((id as u32) as i32) == id) by (bit_vector);
    if k < lenb.len() {
        assert(p =~= lenb.take(k));
        lemma_varint_strict_prefix(l, k);
    } else if k < lenb.len() + idb.len() {
        let j = k - lenb.len();
        assert(p =~= lenb + idb.take(j));
        lemma_varint_decode_prefix(l, idb.take(j));
        assert(p.skip(lenb.len() as int) =~= idb.take(j));
        lemma_varint_strict_prefix(id as u32, j);
    } else {
        let j = k - lenb.len() - idb.len();
        assert(p =~= lenb + (idb + data.take(j)));
        lemma_varint_decode_prefix(l, idb + data.take(j));
        assert(p.skip(lenb.len() as int) =~= idb + data.take(j));
        lemma_varint_decode_prefix(id as u32, data.take(j));
        assert(p.len() < lenb.len() + l as int);
    }
}

} // verus!
