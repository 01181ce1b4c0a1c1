//! The frame transport: each frame is a varint length prefix followed by
//! the frame body. Before a compression threshold is set the body is the
//! raw payload (packet id and packet body); after, the body starts with
//! a varint `data_length` that is zero for a short raw payload or the
//! exact decompressed length of the zlib stream that follows, and a
//! mismatch between that length and the actual decompressed byte count
//! is a frame-integrity failure.

use vstd::prelude::*;
use std::io::{Read, Write};
use crate::error::{DecodeError, EncodeError, ProtocolError};
use crate::varint::{varint_enc, parse_varint_u32, read_varint_u32, write_varint_u32};
use crate::codec::{copy_range, push_bytes};

verus! {

/// What flate2's zlib compression returns for these bytes: the result
/// depends on the input alone.
pub uninterp spec fn deflate_of(b: Seq<u8>) -> Seq<u8>;

/// What zlib decompression returns for these bytes: the full inflated
/// output, or nothing when the bytes are not a valid stream.
pub uninterp spec fn inflate_of(b: Seq<u8>) -> Option<Seq<u8>>;

/// Relies on flate2's `ZlibEncoder` over a byte vector (which cannot
/// fail): the output is a deterministic function of the input, and zlib
/// decompression of it returns exactly the input, as the zlib contract
/// promises.
#[verifier::external_body]
fn deflate(data: &Vec<u8>) -> (r: Vec<u8>)
    ensures
        r@ == deflate_of(data@),
        inflate_of(r@) == Some(data@),
{
    let mut enc = flate2::write::ZlibEncoder::new(Vec::new(), flate2::Compression::new(6));
    let _ = enc.write_all(data.as_slice());
    enc.finish().unwrap()
}

/// Relies on flate2's `ZlibDecoder`: reads the whole decompressed
/// stream, or fails on an invalid stream; reading is cut off beyond
/// `limit` bytes, so a longer stream also comes back as `None`.
#[verifier::external_body]
fn inflate(data: &Vec<u8>, limit: usize) -> (r: Option<Vec<u8>>)
    requires
        limit < 0x1_0000_0000,
    ensures
        r matches Some(v) ==> inflate_of(data@) == Some(v@) && v@.len() <= limit,
        r is None ==> (inflate_of(data@) is None || (inflate_of(data@) matches Some(w)
            && w.len() > limit)),
{
    let mut dec = flate2::read::ZlibDecoder::new(data.as_slice()).take(limit as u64 + 1);
    let mut out = Vec::new();
    match dec.read_to_end(&mut out) {
        Ok(_) => if out.len() > limit {
            None
        } else {
            Some(out)
        },
        Err(_) => None,
    }
}

/// The frame body for a payload under the compression policy.
pub open spec fn frame_body_enc(payload: Seq<u8>, threshold: Option<u32>) -> Seq<u8> {
    match threshold {
        None => payload,
        Some(t) => if payload.len() < t {
            varint_enc(0) + payload
        } else {
            varint_enc(payload.len()) + deflate_of(payload)
        },
    }
}

/// The whole frame: the body behind its varint length prefix.
pub open spec fn frame_enc(payload: Seq<u8>, threshold: Option<u32>) -> Seq<u8> {
    varint_enc(frame_body_enc(payload, threshold).len()) + frame_body_enc(payload, threshold)
}

/// The payload and the frame body both fit a 32-bit length prefix:
/// exactly when the frame encodes.
pub open spec fn frame_encodable(payload: Seq<u8>, threshold: Option<u32>) -> bool {
    payload.len() <= u32::MAX && frame_body_enc(payload, threshold).len() <= u32::MAX
}

/// Parse one frame from the front of `s`. `Ok(None)` means the bytes do
/// not yet hold a complete frame; everything else is final: the payload
/// and the bytes consumed, or a fatal error.
pub open spec fn parse_frame(s: Seq<u8>, threshold: Option<u32>) -> Result<
    Option<(Seq<u8>, int)>,
    ProtocolError,
> {
    match parse_varint_u32(s) {
        Err(DecodeError::UnexpectedEof) => Ok(None),
        Err(e) => Err(ProtocolError::Decode(e)),
        Ok((len, n)) => if s.len() < n + len {
            Ok(None)
        } else {
            let body = s.subrange(n, n + len);
            match threshold {
                None => Ok(Some((body, n + len))),
                Some(_t) => match parse_varint_u32(body) {
                    Ok((dl, m)) => if dl == 0 {
                        Ok(Some((body.skip(m), n + len)))
                    } else {
                        match inflate_of(body.skip(m)) {
                            Some(v) => if v.len() == dl {
                                Ok(Some((v, n + len)))
                            } else {
                                Err(ProtocolError::FrameIntegrity)
                            },
                            None => Err(ProtocolError::FrameIntegrity),
                        }
                    },
                    Err(e) => Err(ProtocolError::Decode(e)),
                },
            }
        },
    }
}

/// Encode one frame for a payload under the compression policy: below
/// the threshold the zero-marker raw form, at or above it the
/// compressed form. Succeeds exactly when the payload and the frame
/// body fit their 32-bit length prefixes.
pub fn encode_frame(payload: &Vec<u8>, threshold: Option<u32>) -> (r: Result<
    Vec<u8>,
    ProtocolError,
>)
    ensures
        match r {
            Ok(b) => {
                &&& b@ == frame_enc(payload@, threshold)
                &&& frame_encodable(payload@, threshold)
                &&& (match threshold {
                    Some(t) => payload@.len() >= t ==> inflate_of(deflate_of(payload@)) == Some(
                        payload@,
                    ),
                    None => true,
                })
            },
            Err(e) => e == ProtocolError::Encode(EncodeError::LengthExceedsLimit)
                && !frame_encodable(payload@, threshold),
        },
{
    let mut body: Vec<u8> = Vec::new();
    match threshold {
        None => {
            if payload.len() > u32::MAX as usize {
                return Err(ProtocolError::Encode(EncodeError::LengthExceedsLimit));
            }
            body = copy_range(payload, 0, payload.len());
            assert(body@ =~= frame_body_enc(payload@, threshold));
        },
        Some(t) => {
            if payload.len() > u32::MAX as usize {
                return Err(ProtocolError::Encode(EncodeError::LengthExceedsLimit));
            }
            if (payload.len() as u64) < (t as u64) {
                write_varint_u32(&mut body, 0);
                push_bytes(&mut body, payload);
                assert(body@ =~= frame_body_enc(payload@, threshold));
            } else {
                let compressed = deflate(payload);
                write_varint_u32(&mut body, payload.len() as u32);
                push_bytes(&mut body, &compressed);
                assert(body@ =~= frame_body_enc(payload@, threshold));
            }
        },
    }
    if body.len() > u32::MAX as usize {
        return Err(ProtocolError::Encode(EncodeError::LengthExceedsLimit));
    }
    let mut out: Vec<u8> = Vec::new();
    write_varint_u32(&mut out, body.len() as u32);
    push_bytes(&mut out, &body);
    assert(out@ =~= frame_enc(payload@, threshold));
    Ok(out)
}

/// Decode one frame from the front of `buf` under the compression
/// policy. Behaves exactly as `parse_frame`: `Ok(None)` asks for more
/// bytes, `Ok(Some)` yields the payload and the bytes consumed, and a
/// declared decompressed length that disagrees with the actual
/// decompressed byte count is a `FrameIntegrity` failure.
pub fn decode_frame(buf: &Vec<u8>, threshold: Option<u32>) -> (r: Result<
    Option<(Vec<u8>, usize)>,
    ProtocolError,
>)
    ensures
        match parse_frame(buf@, threshold) {
            Ok(Some((v, n))) => r matches Ok(Some((rv, rn))) && rv@ == v && rn == n,
            Ok(None) => r matches Ok(None),
            Err(e) => r matches Err(re) && re == e,
        },
{
    let mut p: usize = 0;
    proof {
        assert(buf@.skip(0int) =~= buf@);
    }
    let len = match read_varint_u32(buf, &mut p) {
        Ok(v) => v,
        Err(DecodeError::UnexpectedEof) => {
            return Ok(None);
        },
        Err(e) => {
            return Err(ProtocolError::Decode(e));
        },
    };
    if (buf.len() - p) < len as usize {
        return Ok(None);
    }
    let body = copy_range(buf, p, p + len as usize);
    let consumed = p + len as usize;
    proof {
        assert(body@ =~= buf@.subrange(p as int, p + len as int));
    }
    match threshold {
        None => Ok(Some((body, consumed))),
        Some(_t) => {
            let mut q: usize = 0;
            proof {
                assert(body@.skip(0int) =~= body@);
            }
            let dl = match read_varint_u32(&body, &mut q) {
                Ok(v) => v,
                Err(e) => {
                    return Err(ProtocolError::Decode(e));
                },
            };
            if dl == 0 {
                let payload = copy_range(&body, q, body.len());
                proof {
                    assert(payload@ =~= body@.skip(q as int));
                }
                Ok(Some((payload, consumed)))
            } else {
                let rest = copy_range(&body, q, body.len());
                proof {
                    assert(rest@ =~= body@.skip(q as int));
                }
                match inflate(&rest, dl as usize) {
                    Some(v) => if v.len() == dl as usize {
                        Ok(Some((v, consumed)))
                    } else {
                        Err(ProtocolError::FrameIntegrity)
                    },
                    None => Err(ProtocolError::FrameIntegrity),
                }
            }
        },
    }
}

/// A frame round-trips under any threshold: parsing the encoding of a
/// payload yields the payload and consumes the whole frame. Below the
/// threshold the body carries the zero marker and the raw payload; at or
/// above it the body carries the exact length and the zlib stream, and
/// the zlib round-trip fact (established by every `deflate` call) brings
/// the payload back.
pub proof fn lemma_frame_roundtrip(payload: Seq<u8>, threshold: Option<u32>, rest: Seq<u8>)
    requires
        frame_body_enc(payload, threshold).len() <= u32::MAX,
        payload.len() <= u32::MAX,
        (match threshold {
            Some(t) => payload.len() >= t ==> inflate_of(deflate_of(payload)) == Some(payload),
            None => true,
        }),
        // an empty payload at threshold zero would collide with the raw marker
        (match threshold {
            Some(t) => t > 0 || payload.len() > 0,
            None => true,
        }),
    ensures
        parse_frame(frame_enc(payload, threshold) + rest, threshold) == Ok::<
            Option<(Seq<u8>, int)>,
            ProtocolError,
        >(Some((payload, frame_enc(payload, threshold).len() as int))),
{
    let body = frame_body_enc(payload, threshold);
    let whole = frame_enc(payload, threshold) + rest;
    crate::varint::lemma_varint_u32_roundtrip(body.len() as u32, body + rest);
    assert(whole =~= varint_enc(body.len() as u32 as nat) + (body + rest));
    let n = crate::varint::varint_len(body.len());
    assert(whole.subrange(n, n + body.len() as int) =~= body);
    match threshold {
        None => {},
        Some(t) => {
            if payload.len() < t {
                crate::varint::lemma_varint_u32_roundtrip(0, payload);
                assert(body =~= varint_enc(0) + payload);
                let m = crate::varint::varint_len(0);
                assert(body.skip(m) =~= payload);
            } else {
                crate::varint::lemma_varint_u32_roundtrip(
                    payload.len() as u32,
                    deflate_of(payload),
                );
                assert(body =~= varint_enc(payload.len() as u32 as nat) + deflate_of(payload));
                let m = crate::varint::varint_len(payload.len());
                assert(body.skip(m) =~= deflate_of(payload));
            }
        },
    }
}

/// A compressed frame whose declared decompressed length disagrees with
/// the actual decompressed byte count fails with a frame-integrity
/// error, whatever the threshold.
pub proof fn lemma_frame_integrity(body: Seq<u8>, t: u32, dl: u32, m: int)
    requires
        body.len() <= u32::MAX,
        parse_varint_u32(body) == Ok::<(u32, int), DecodeError>((dl, m)),
        dl != 0,
        (match inflate_of(body.skip(m)) {
            Some(w) => w.len() != dl,
            None => true,
        }),
    ensures
        parse_frame(varint_enc(body.len()) + body, Some(t)) == Err::<
            Option<(Seq<u8>, int)>,
            ProtocolError,
        >(ProtocolError::FrameIntegrity),
{
    let whole = varint_enc(body.len()) + body;
    crate::varint::lemma_varint_u32_roundtrip(body.len() as u32, body);
    let n = crate::varint::varint_len(body.len());
    assert(whole.subrange(n, n + body.len() as int) =~= body);
}

} // verus!
