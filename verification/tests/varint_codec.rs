//! Varint boundaries and the primitive value codec.

use mcwire::varint::{read_varint_u32, read_varint_u64, write_varint_u32, write_varint_u64};
use mcwire::codec::{
    read_bool, read_prefixed_bytes, read_string, read_u16, read_u32, read_u64, read_u8, write_bool,
    write_prefixed_bytes, write_string, write_u16, write_u32, write_u64, write_u8,
};
use mcwire::error::DecodeError;

fn varint_u64_roundtrip(v: u64) -> usize {
    let mut out = Vec::new();
    write_varint_u64(&mut out, v);
    let len = out.len();
    // trailing bytes must not disturb the parse
    out.push(0xAB);
    let mut pos = 0usize;
    let got = read_varint_u64(&out, &mut pos).unwrap();
    assert_eq!(got, v);
    assert_eq!(pos, len);
    len
}

#[test]
fn varint_boundaries_roundtrip_with_minimal_length() {
    assert_eq!(varint_u64_roundtrip(0), 1);
    assert_eq!(varint_u64_roundtrip(127), 1);
    assert_eq!(varint_u64_roundtrip(128), 2);
    assert_eq!(varint_u64_roundtrip((1u64 << 21) - 1), 3);
    assert_eq!(varint_u64_roundtrip((1u64 << 32) - 1), 5);
    assert_eq!(varint_u64_roundtrip(u64::MAX), 10);
}

#[test]
fn varint_u32_boundaries() {
    for v in [0u32, 1, 127, 128, 255, 300, (1 << 21) - 1, u32::MAX] {
        let mut out = Vec::new();
        write_varint_u32(&mut out, v);
        let mut pos = 0usize;
        assert_eq!(read_varint_u32(&out, &mut pos).unwrap(), v);
        assert_eq!(pos, out.len());
    }
}

#[test]
fn varint_known_bytes() {
    let mut out = Vec::new();
    write_varint_u32(&mut out, 300);
    assert_eq!(out, vec![0xAC, 0x02]);
}

#[test]
fn varint_too_wide_is_invalid() {
    // five continuation bytes: a 32-bit varint may not go on
    let data = vec![0x80u8, 0x80, 0x80, 0x80, 0x80];
    let mut pos = 0usize;
    assert_eq!(read_varint_u32(&data, &mut pos), Err(DecodeError::InvalidVarint));
}

#[test]
fn varint_value_overflow_is_invalid() {
    // 2^32 needs a fifth byte with too many bits for 32
    let data = vec![0x80u8, 0x80, 0x80, 0x80, 0x10];
    let mut pos = 0usize;
    assert_eq!(read_varint_u32(&data, &mut pos), Err(DecodeError::InvalidVarint));
}

#[test]
fn varint_truncated_is_eof() {
    let data = vec![0x80u8];
    let mut pos = 0usize;
    assert_eq!(read_varint_u32(&data, &mut pos), Err(DecodeError::UnexpectedEof));
}

#[test]
fn fixed_width_roundtrips() {
    let mut out = Vec::new();
    write_u8(&mut out, 0xAB);
    write_u16(&mut out, 0x1234);
    write_u32(&mut out, 0xDEADBEEF);
    write_u64(&mut out, 0x0123_4567_89AB_CDEF);
    write_bool(&mut out, true);
    write_bool(&mut out, false);
    assert_eq!(
        out,
        vec![
            0xAB, 0x12, 0x34, 0xDE, 0xAD, 0xBE, 0xEF, 0x01, 0x23, 0x45, 0x67, 0x89, 0xAB, 0xCD,
            0xEF, 1, 0
        ]
    );
    let mut pos = 0usize;
    assert_eq!(read_u8(&out, &mut pos).unwrap(), 0xAB);
    assert_eq!(read_u16(&out, &mut pos).unwrap(), 0x1234);
    assert_eq!(read_u32(&out, &mut pos).unwrap(), 0xDEADBEEF);
    assert_eq!(read_u64(&out, &mut pos).unwrap(), 0x0123_4567_89AB_CDEF);
    assert_eq!(read_bool(&out, &mut pos).unwrap(), true);
    assert_eq!(read_bool(&out, &mut pos).unwrap(), false);
    assert_eq!(pos, out.len());
}

#[test]
fn fixed_width_eof() {
    let data = vec![0u8, 1];
    let mut pos = 0usize;
    assert_eq!(read_u32(&data, &mut pos), Err(DecodeError::UnexpectedEof));
}

#[test]
fn string_roundtrip_multibyte() {
    let s = String::from("héllo wörld \u{1F600}");
    let mut out = Vec::new();
    write_string(&mut out, &s).unwrap();
    let mut pos = 0usize;
    let got = read_string(&out, &mut pos).unwrap();
    assert_eq!(got, s);
    assert_eq!(pos, out.len());
}

#[test]
fn string_empty_roundtrip() {
    let s = String::new();
    let mut out = Vec::new();
    write_string(&mut out, &s).unwrap();
    assert_eq!(out, vec![0u8]);
    let mut pos = 0usize;
    assert_eq!(read_string(&out, &mut pos).unwrap(), s);
}

#[test]
fn string_at_limit_ok_beyond_limit_refused() {
    let ok = "a".repeat(32767);
    let mut out = Vec::new();
    write_string(&mut out, &ok).unwrap();
    let mut pos = 0usize;
    assert_eq!(read_string(&out, &mut pos).unwrap(), ok);

    let too_long = "a".repeat(32768);
    let mut out2 = Vec::new();
    assert!(write_string(&mut out2, &too_long).is_err());
    assert!(out2.is_empty());
}

#[test]
fn string_declared_over_limit_rejected() {
    // varint length 32768 then nothing
    let mut data = Vec::new();
    write_varint_u32(&mut data, 32768);
    let mut pos = 0usize;
    assert_eq!(read_string(&data, &mut pos), Err(DecodeError::LengthExceedsLimit));
}

#[test]
fn string_invalid_utf8_rejected() {
    let data = vec![2u8, 0xFF, 0xFE];
    let mut pos = 0usize;
    assert_eq!(read_string(&data, &mut pos), Err(DecodeError::InvalidUtf8));
}

#[test]
fn prefixed_bytes_roundtrip() {
    let b = vec![1u8, 2, 3, 4, 5];
    let mut out = Vec::new();
    write_prefixed_bytes(&mut out, &b).unwrap();
    assert_eq!(out, vec![5, 1, 2, 3, 4, 5]);
    let mut pos = 0usize;
    assert_eq!(read_prefixed_bytes(&out, &mut pos).unwrap(), b);
}
