//! Framing, the compression policy, and frame integrity.

use std::io::Write;
use mcwire::frame::{decode_frame, encode_frame};
use mcwire::varint::write_varint_u32;
use mcwire::error::ProtocolError;

#[test]
fn frame_roundtrip_without_compression() {
    let payload = vec![0x00u8, 1, 2, 3];
    let frame = encode_frame(&payload, None).unwrap();
    assert_eq!(frame, vec![4, 0, 1, 2, 3]);
    let (got, consumed) = decode_frame(&frame, None).unwrap().unwrap();
    assert_eq!(got, payload);
    assert_eq!(consumed, frame.len());
}

#[test]
fn frame_incomplete_needs_more_bytes() {
    let payload = vec![0u8; 10];
    let mut frame = encode_frame(&payload, None).unwrap();
    frame.pop();
    assert!(decode_frame(&frame, None).unwrap().is_none());
    assert!(decode_frame(&Vec::new(), None).unwrap().is_none());
}

#[test]
fn threshold_boundary_forms_and_roundtrip() {
    let t = 64u32;
    // one byte below the threshold: the zero marker and the raw payload
    let short: Vec<u8> = (0..63u8).collect();
    let f1 = encode_frame(&short, Some(t)).unwrap();
    // body begins after the length varint; its first byte is the marker
    assert_eq!(f1[1], 0);
    let (got1, _) = decode_frame(&f1, Some(t)).unwrap().unwrap();
    assert_eq!(got1, short);

    // at the threshold: the exact length then a zlib stream
    let long: Vec<u8> = (0..64u8).collect();
    let f2 = encode_frame(&long, Some(t)).unwrap();
    assert_eq!(f2[1], 64);
    let (got2, _) = decode_frame(&f2, Some(t)).unwrap().unwrap();
    assert_eq!(got2, long);
}

#[test]
fn wrong_data_length_fails_with_frame_integrity() {
    // compress 32 bytes but declare 31
    let payload: Vec<u8> = (0..32u8).collect();
    let mut enc = flate2::write::ZlibEncoder::new(Vec::new(), flate2::Compression::new(6));
    enc.write_all(&payload).unwrap();
    let compressed = enc.finish().unwrap();

    let mut body = Vec::new();
    write_varint_u32(&mut body, 31);
    body.extend_from_slice(&compressed);
    let mut frame = Vec::new();
    write_varint_u32(&mut frame, body.len() as u32);
    frame.extend_from_slice(&body);

    assert_eq!(decode_frame(&frame, Some(16)), Err(ProtocolError::FrameIntegrity));
}

#[test]
fn garbage_stream_fails_with_frame_integrity() {
    let mut body = Vec::new();
    write_varint_u32(&mut body, 8);
    body.extend_from_slice(&[0xAA, 0xBB, 0xCC]);
    let mut frame = Vec::new();
    write_varint_u32(&mut frame, body.len() as u32);
    frame.extend_from_slice(&body);
    assert_eq!(decode_frame(&frame, Some(4)), Err(ProtocolError::FrameIntegrity));
}
