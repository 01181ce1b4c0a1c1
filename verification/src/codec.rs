//! Primitive value serialization: fixed-width big-endian integers,
//! booleans, varint-length-prefixed byte arrays and UTF-8 strings. Every
//! reader is specified by a total spec-level parser over the remaining
//! bytes; every writer appends exactly the spec-level encoding.

use vstd::prelude::*;
use vstd::arithmetic::power2::{pow2, lemma_pow2_adds, lemma2_to64, lemma2_to64_rest};
use vstd::arithmetic::div_mod::lemma_fundamental_div_mod;
use vstd::utf8::{encode_utf8, decode_utf8, valid_utf8};
use vstd::string::StrSliceExecFns;
use crate::error::{DecodeError, EncodeError};
use crate::varint::{
    varint_enc, parse_varint_u32, read_varint_u32, write_varint_u32, lemma_varint_u32_roundtrip,
};

verus! {

/// The maximum byte length of a string on the wire; longer strings are
/// rejected on decode and refused on encode.
pub const STRING_LIMIT: u32 = 32767;

/// The value of a big-endian byte sequence.
pub open spec fn be_val(s: Seq<u8>) -> nat
    decreases s.len(),
{
    if s.len() == 0 {
        0
    } else {
        256 * be_val(s.drop_last()) + s.last() as nat
    }
}

/// The `w`-byte big-endian encoding of `v % 2^(8w)`.
pub open spec fn be_enc(v: nat, w: nat) -> Seq<u8>
    decreases w,
{
    if w == 0 {
        seq![]
    } else {
        be_enc(v / 256, (w - 1) as nat).push((v % 256) as u8)
    }
}

pub proof fn lemma_be_enc_len(v: nat, w: nat)
    ensures
        be_enc(v, w).len() == w,
    decreases w,
{
    if w > 0 {
        lemma_be_enc_len(v / 256, (w - 1) as nat);
    }
}

/// Encoding then evaluating is the identity for values in range.
pub proof fn lemma_be_roundtrip(v: nat, w: nat)
    requires
        v < pow2(8 * w),
    ensures
        be_val(be_enc(v, w)) == v,
    decreases w,
{
    if w == 0 {
        lemma2_to64();
    } else {
        let e = be_enc(v, w);
        lemma_be_enc_len(v, w);
        assert(e.drop_last() =~= be_enc(v / 256, (w - 1) as nat));
        lemma_pow2_adds(8 * (w - 1) as nat, 8);
        lemma2_to64();
        assert(v / 256 < pow2(8 * (w - 1) as nat)) by (nonlinear_arith)
            requires v < pow2(8 * (w - 1) as nat) * 256;
        lemma_be_roundtrip(v / 256, (w - 1) as nat);
        lemma_fundamental_div_mod(v as int, 256);
    }
}

/// Parse `w` big-endian bytes from the front of `s`.
pub open spec fn parse_be(s: Seq<u8>, w: nat) -> Result<(nat, int), DecodeError> {
    if s.len() < w {
        Err(DecodeError::UnexpectedEof)
    } else {
        Ok((be_val(s.take(w as int)), w as int))
    }
}

pub open spec fn u8_enc(v: u8) -> Seq<u8> {
    seq![v]
}

pub open spec fn u16_enc(v: u16) -> Seq<u8> {
    be_enc(v as nat, 2)
}

pub open spec fn u32_enc(v: u32) -> Seq<u8> {
    be_enc(v as nat, 4)
}

pub open spec fn u64_enc(v: u64) -> Seq<u8> {
    be_enc(v as nat, 8)
}

pub open spec fn bool_enc(b: bool) -> Seq<u8> {
    seq![if b { 1u8 } else { 0u8 }]
}

/// Parse one byte; any nonzero value reads back as `true`, as peers may
/// emit either convention.
pub open spec fn parse_bool(s: Seq<u8>) -> Result<(bool, int), DecodeError> {
    if s.len() < 1 {
        Err(DecodeError::UnexpectedEof)
    } else {
        Ok(((s[0] != 0), 1))
    }
}

/// A varint-length-prefixed byte array.
pub open spec fn bytes_enc(b: Seq<u8>) -> Seq<u8> {
    varint_enc(b.len()) + b
}

pub open spec fn parse_bytes(s: Seq<u8>) -> Result<(Seq<u8>, int), DecodeError> {
    match parse_varint_u32(s) {
        Ok((len, n)) => if s.len() < n + len {
            Err(DecodeError::UnexpectedEof)
        } else {
            Ok((s.subrange(n, n + len), n + len))
        },
        Err(e) => Err(e),
    }
}

/// A varint-length-prefixed UTF-8 string, bounded by `STRING_LIMIT` bytes.
pub open spec fn string_enc(s: Seq<char>) -> Seq<u8> {
    varint_enc(encode_utf8(s).len()) + encode_utf8(s)
}

/// Whether a string fits its wire bound.
pub open spec fn string_fits(s: Seq<char>) -> bool {
    encode_utf8(s).len() <= STRING_LIMIT
}

pub open spec fn parse_string(s: Seq<u8>) -> Result<(Seq<char>, int), DecodeError> {
    match parse_varint_u32(s) {
        Ok((len, n)) => if len > STRING_LIMIT {
            Err(DecodeError::LengthExceedsLimit)
        } else if s.len() < n + len {
            Err(DecodeError::UnexpectedEof)
        } else if valid_utf8(s.subrange(n, n + len)) {
            Ok((decode_utf8(s.subrange(n, n + len)), n + len))
        } else {
            Err(DecodeError::InvalidUtf8)
        },
        Err(e) => Err(e),
    }
}

/// Append the bytes of `b` to `out`.
pub fn push_bytes(out: &mut Vec<u8>, b: &Vec<u8>)
    ensures
        final(out)@ == old(out)@ + b@,
{
    let mut i: usize = 0;
    while i < b.len()
        invariant
            i <= b@.len(),
            out@ == old(out)@ + b@.take(i as int),
        decreases b@.len() - i,
    {
        out.push(b[i]);
        i = i + 1;
        assert(out@ =~= old(out)@ + b@.take(i as int));
    }
    assert(out@ =~= old(out)@ + b@);
}

/// Copy `data[from..to]` out as a fresh vector.
pub fn copy_range(data: &Vec<u8>, from: usize, to: usize) -> (r: Vec<u8>)
    requires
        from <= to <= data@.len(),
    ensures
        r@ == data@.subrange(from as int, to as int),
{
    let mut r: Vec<u8> = Vec::new();
    let mut i: usize = from;
    while i < to
        invariant
            from <= i <= to <= data@.len(),
            r@ == data@.subrange(from as int, i as int),
        decreases to - i,
    {
        r.push(data[i]);
        i = i + 1;
        assert(r@ =~= data@.subrange(from as int, i as int));
    }
    r
}

/// Append the `w`-byte big-endian encoding of `v`.
fn write_be_rec(out: &mut Vec<u8>, v: u64, w: usize)
    ensures
        final(out)@ == old(out)@ + be_enc(v as nat, w as nat),
    decreases w,
{
    if w == 0 {
        assert(out@ =~= old(out)@ + be_enc(v as nat, 0));
    } else {
        let ghost before = out@;
        write_be_rec(out, v / 256, w - 1);
        out.push((v % 256) as u8);
        assert(out@ =~= before + be_enc(v as nat, w as nat));
    }
}

/// Read `w` big-endian bytes as an unsigned value.
fn read_be(data: &Vec<u8>, pos: &mut usize, w: usize) -> (r: Result<u64, DecodeError>)
    requires
        *old(pos) <= data@.len(),
        w <= 8,
    ensures
        match parse_be(data@.skip(*old(pos) as int), w as nat) {
            Ok((v, n)) => r matches Ok(rv) && rv as nat == v && *final(pos) == *old(pos) + n,
            Err(e) => r matches Err(re) && re == e && *final(pos) == *old(pos),
        },
        *old(pos) <= *final(pos) <= data@.len(),
{
    let ghost rest = data@.skip(*pos as int);
    if data.len() - *pos < w {
        return Err(DecodeError::UnexpectedEof);
    }
    let start = *pos;
    let dlen = data.len();
    let mut acc: u64 = 0;
    let mut i: usize = 0;
    proof {
        lemma2_to64();
    }
    while i < w
        invariant
            i <= w <= 8,
            dlen == data@.len(),
            start + w <= dlen,
            rest =~= data@.skip(start as int),
            acc as nat == be_val(rest.take(i as int)),
            acc < pow2(8 * i as nat),
        decreases w - i,
    {
        let b = data[start + i];
        proof {
            assert(rest.take(i as int + 1).drop_last() =~= rest.take(i as int));
            assert(rest.take(i as int + 1).last() == rest[i as int]);
            assert(rest[i as int] == b);
            lemma_pow2_adds(8 * i as nat, 8);
            lemma2_to64();
            assert(acc * 256 + 256 <= pow2(8 * i as nat) * 256) by (nonlinear_arith)
                requires acc < pow2(8 * i as nat);
            if 8 * i as nat + 8 < 64 {
                vstd::arithmetic::power2::lemma_pow2_strictly_increases(8 * i as nat + 8, 64);
            }
            lemma2_to64();
        }
        acc = acc * 256 + (b as u64);
        i = i + 1;
    }
    *pos = start + w;
    assert(rest.take(w as int) =~= rest.take(w as int));
    Ok(acc)
}

/// Read one byte.
pub fn read_u8(data: &Vec<u8>, pos: &mut usize) -> (r: Result<u8, DecodeError>)
    requires
        *old(pos) <= data@.len(),
    ensures
        match parse_be(data@.skip(*old(pos) as int), 1) {
            Ok((v, n)) => r matches Ok(rv) && rv as nat == v && *final(pos) == *old(pos) + n,
            Err(e) => r matches Err(re) && re == e,
        },
        *old(pos) <= *final(pos) <= data@.len(),
{
    match read_be(data, pos, 1) {
        Ok(v) => {
            proof {
                lemma_parse_be_bound(data@.skip(*old(pos) as int), 1);
                lemma2_to64();
            }
            Ok(v as u8)
        },
        Err(e) => Err(e),
    }
}

/// Read a big-endian 16-bit integer.
pub fn read_u16(data: &Vec<u8>, pos: &mut usize) -> (r: Result<u16, DecodeError>)
    requires
        *old(pos) <= data@.len(),
    ensures
        match parse_be(data@.skip(*old(pos) as int), 2) {
            Ok((v, n)) => r matches Ok(rv) && rv as nat == v && *final(pos) == *old(pos) + n,
            Err(e) => r matches Err(re) && re == e,
        },
        *old(pos) <= *final(pos) <= data@.len(),
{
    match read_be(data, pos, 2) {
        Ok(v) => {
            proof {
                lemma_parse_be_bound(data@.skip(*old(pos) as int), 2);
                lemma2_to64();
            }
            Ok(v as u16)
        },
        Err(e) => Err(e),
    }
}

/// Read a big-endian 32-bit integer.
pub fn read_u32(data: &Vec<u8>, pos: &mut usize) -> (r: Result<u32, DecodeError>)
    requires
        *old(pos) <= data@.len(),
    ensures
        match parse_be(data@.skip(*old(pos) as int), 4) {
            Ok((v, n)) => r matches Ok(rv) && rv as nat == v && *final(pos) == *old(pos) + n,
            Err(e) => r matches Err(re) && re == e,
        },
        *old(pos) <= *final(pos) <= data@.len(),
{
    match read_be(data, pos, 4) {
        Ok(v) => {
            proof {
                lemma_parse_be_bound(data@.skip(*old(pos) as int), 4);
                lemma2_to64();
            }
            Ok(v as u32)
        },
        Err(e) => Err(e),
    }
}

/// Read a big-endian 64-bit integer.
pub fn read_u64(data: &Vec<u8>, pos: &mut usize) -> (r: Result<u64, DecodeError>)
    requires
        *old(pos) <= data@.len(),
    ensures
        match parse_be(data@.skip(*old(pos) as int), 8) {
            Ok((v, n)) => r matches Ok(rv) && rv as nat == v && *final(pos) == *old(pos) + n,
            Err(e) => r matches Err(re) && re == e,
        },
        *old(pos) <= *final(pos) <= data@.len(),
{
    read_be(data, pos, 8)
}

/// A parsed big-endian value fits its width.
pub proof fn lemma_parse_be_bound(s: Seq<u8>, w: nat)
    ensures
        parse_be(s, w) matches Ok((v, n)) ==> v < pow2(8 * w),
{
    if s.len() >= w {
        lemma_be_val_bound(s.take(w as int));
        assert(8 * s.take(w as int).len() == 8 * w);
    }
}

pub proof fn lemma_be_val_bound(s: Seq<u8>)
    ensures
        be_val(s) < pow2(8 * s.len()),
    decreases s.len(),
{
    if s.len() == 0 {
        lemma2_to64();
    } else {
        lemma_be_val_bound(s.drop_last());
        lemma_pow2_adds(8 * (s.len() - 1) as nat, 8);
        lemma2_to64();
        assert(256 * be_val(s.drop_last()) + s.last() < pow2(8 * (s.len() - 1) as nat) * 256)
            by (nonlinear_arith)
            requires be_val(s.drop_last()) < pow2(8 * (s.len() - 1) as nat), s.last() < 256;
    }
}

/// Append one byte.
pub fn write_u8(out: &mut Vec<u8>, v: u8)
    ensures
        final(out)@ == old(out)@ + u8_enc(v),
{
    out.push(v);
    assert(out@ =~= old(out)@ + u8_enc(v));
}

/// Append a big-endian 16-bit integer.
pub fn write_u16(out: &mut Vec<u8>, v: u16)
    ensures
        final(out)@ == old(out)@ + u16_enc(v),
{
    write_be_rec(out, v as u64, 2);
}

/// Append a big-endian 32-bit integer.
pub fn write_u32(out: &mut Vec<u8>, v: u32)
    ensures
        final(out)@ == old(out)@ + u32_enc(v),
{
    write_be_rec(out, v as u64, 4);
}

/// Append a big-endian 64-bit integer.
pub fn write_u64(out: &mut Vec<u8>, v: u64)
    ensures
        final(out)@ == old(out)@ + u64_enc(v),
{
    write_be_rec(out, v, 8);
}

/// Encoding then parsing a fixed-width integer gives the value back.
pub proof fn lemma_be_parse_enc(v: nat, w: nat, rest: Seq<u8>)
    requires
        v < pow2(8 * w),
    ensures
        parse_be(be_enc(v, w) + rest, w) == Ok::<(nat, int), DecodeError>((v, w as int)),
{
    lemma_be_enc_len(v, w);
    assert((be_enc(v, w) + rest).take(w as int) =~= be_enc(v, w));
    lemma_be_roundtrip(v, w);
}

/// Read one byte as a boolean; zero is `false`, anything else `true`.
pub fn read_bool(data: &Vec<u8>, pos: &mut usize) -> (r: Result<bool, DecodeError>)
    requires
        *old(pos) <= data@.len(),
    ensures
        match parse_bool(data@.skip(*old(pos) as int)) {
            Ok((v, n)) => r matches Ok(rv) && rv == v && *final(pos) == *old(pos) + n,
            Err(e) => r matches Err(re) && re == e,
        },
        *old(pos) <= *final(pos) <= data@.len(),
{
    if *pos == data.len() {
        return Err(DecodeError::UnexpectedEof);
    }
    let b = data[*pos];
    *pos = *pos + 1;
    Ok(b != 0)
}

/// Append a boolean as one byte.
pub fn write_bool(out: &mut Vec<u8>, b: bool)
    ensures
        final(out)@ == old(out)@ + bool_enc(b),
{
    out.push(if b { 1 } else { 0 });
    assert(out@ =~= old(out)@ + bool_enc(b));
}

/// Read a varint-length-prefixed byte array.
pub fn read_prefixed_bytes(data: &Vec<u8>, pos: &mut usize) -> (r: Result<Vec<u8>, DecodeError>)
    requires
        *old(pos) <= data@.len(),
    ensures
        match parse_bytes(data@.skip(*old(pos) as int)) {
            Ok((v, n)) => r matches Ok(rv) && rv@ == v && *final(pos) == *old(pos) + n,
            Err(e) => r matches Err(re) && re == e,
        },
        *old(pos) <= *final(pos) <= data@.len(),
{
    let ghost rest = data@.skip(*pos as int);
    let ghost p0 = *pos;
    let len = match read_varint_u32(data, pos) {
        Ok(l) => l,
        Err(e) => {
            return Err(e);
        },
    };
    if (data.len() - *pos) < len as usize {
        return Err(DecodeError::UnexpectedEof);
    }
    let r = copy_range(data, *pos, *pos + len as usize);
    let ghost n = *pos - p0;
    *pos = *pos + len as usize;
    proof {
        assert(data@.subrange(p0 + n, p0 + n + len as int) =~= rest.subrange(
            n as int,
            n + len as int,
        ));
    }
    Ok(r)
}

/// Append a varint-length-prefixed byte array; fails if the length does
/// not fit the 32-bit prefix.
pub fn write_prefixed_bytes(out: &mut Vec<u8>, b: &Vec<u8>) -> (r: Result<(), EncodeError>)
    ensures
        match r {
            Ok(()) => b@.len() <= u32::MAX && final(out)@ == old(out)@ + bytes_enc(b@),
            Err(e) => b@.len() > u32::MAX && e == EncodeError::LengthExceedsLimit
                && final(out)@ == old(out)@,
        },
{
    if b.len() > u32::MAX as usize {
        return Err(EncodeError::LengthExceedsLimit);
    }
    let ghost before = out@;
    write_varint_u32(out, b.len() as u32);
    push_bytes(out, b);
    assert(out@ =~= before + bytes_enc(b@));
    Ok(())
}

/// Relies on `String::from_utf8`: it succeeds exactly on valid UTF-8 and
/// returns the string those bytes encode.
#[verifier::external_body]
pub(crate) fn string_from_utf8(v: Vec<u8>) -> (r: Option<String>)
    ensures
        r is Some <==> valid_utf8(v@),
        r matches Some(s) ==> s@ == decode_utf8(v@),
{
    String::from_utf8(v).ok()
}

/// Read a varint-length-prefixed UTF-8 string bounded by `STRING_LIMIT`.
pub fn read_string(data: &Vec<u8>, pos: &mut usize) -> (r: Result<String, DecodeError>)
    requires
        *old(pos) <= data@.len(),
    ensures
        match parse_string(data@.skip(*old(pos) as int)) {
            Ok((v, n)) => r matches Ok(rv) && rv@ == v && *final(pos) == *old(pos) + n,
            Err(e) => r matches Err(re) && re == e,
        },
        *old(pos) <= *final(pos) <= data@.len(),
{
    let ghost rest = data@.skip(*pos as int);
    let ghost p0 = *pos;
    let len = match read_varint_u32(data, pos) {
        Ok(l) => l,
        Err(e) => {
            return Err(e);
        },
    };
    if len > STRING_LIMIT {
        return Err(DecodeError::LengthExceedsLimit);
    }
    if (data.len() - *pos) < len as usize {
        return Err(DecodeError::UnexpectedEof);
    }
    let bytes = copy_range(data, *pos, *pos + len as usize);
    let ghost n = *pos - p0;
    proof {
        assert(data@.subrange(p0 + n, p0 + n + len as int) =~= rest.subrange(
            n as int,
            n + len as int,
        ));
    }
    match string_from_utf8(bytes) {
        Some(s) => {
            *pos = *pos + len as usize;
            Ok(s)
        },
        None => Err(DecodeError::InvalidUtf8),
    }
}

/// Append a varint-length-prefixed UTF-8 string; fails if its byte length
/// exceeds `STRING_LIMIT`.
pub fn write_string(out: &mut Vec<u8>, s: &String) -> (r: Result<(), EncodeError>)
    ensures
        match r {
            Ok(()) => string_fits(s@) && final(out)@ == old(out)@ + string_enc(s@),
            Err(e) => !string_fits(s@) && e == EncodeError::LengthExceedsLimit
                && final(out)@ == old(out)@,
        },
{
    let bytes = s.as_str().as_bytes_vec();
    if bytes.len() > STRING_LIMIT as usize {
        return Err(EncodeError::LengthExceedsLimit);
    }
    let ghost before = out@;
    write_varint_u32(out, bytes.len() as u32);
    push_bytes(out, &bytes);
    assert(out@ =~= before + string_enc(s@));
    Ok(())
}

/// Encoding then parsing a string gives the same characters back and
/// consumes exactly the encoding.
pub proof fn lemma_string_parse_enc(s: Seq<char>, rest: Seq<u8>)
    requires
        string_fits(s),
    ensures
        parse_string(string_enc(s) + rest) == Ok::<(Seq<char>, int), DecodeError>((
            s,
            string_enc(s).len() as int,
        )),
{
    let b = encode_utf8(s);
    let whole = string_enc(s) + rest;
    lemma_varint_u32_roundtrip(b.len() as u32, b + rest);
    assert(whole =~= varint_enc(b.len() as u32 as nat) + (b + rest));
    let n = crate::varint::varint_len(b.len());
    assert(whole.subrange(n, n + b.len() as int) =~= b);
    broadcast use encode_utf8_valid_utf8_use;

    assert(valid_utf8(b));
    assert(decode_utf8(b) == s);
}

/// vstd's round-trip facts for UTF-8, bundled for local use.
pub broadcast proof fn encode_utf8_valid_utf8_use(s: Seq<char>)
    ensures
        #[trigger] valid_utf8(encode_utf8(s)),
        decode_utf8(encode_utf8(s)) == s,
{
    vstd::utf8::encode_utf8_valid_utf8(s);
    vstd::utf8::encode_utf8_decode_utf8(s);
}

/// Encoding then parsing a byte array gives the bytes back.
pub proof fn lemma_bytes_parse_enc(b: Seq<u8>, rest: Seq<u8>)
    requires
        b.len() <= u32::MAX,
    ensures
        parse_bytes(bytes_enc(b) + rest) == Ok::<(Seq<u8>, int), DecodeError>((
            b,
            bytes_enc(b).len() as int,
        )),
{
    let whole = bytes_enc(b) + rest;
    lemma_varint_u32_roundtrip(b.len() as u32, b + rest);
    assert(whole =~= varint_enc(b.len() as u32 as nat) + (b + rest));
    let n = crate::varint::varint_len(b.len());
    assert(whole.subrange(n, n + b.len() as int) =~= b);
}

/// Read every remaining byte (an unsized trailing byte array).
pub fn read_rest(data: &Vec<u8>, pos: &mut usize) -> (r: Vec<u8>)
    requires
        *old(pos) <= data@.len(),
    ensures
        r@ == data@.skip(*old(pos) as int),
        *final(pos) == data@.len(),
{
    let r = copy_range(data, *pos, data.len());
    *pos = data.len();
    assert(r@ =~= data@.skip(*old(pos) as int));
    r
}

/// Concatenation is associative.
pub proof fn lemma_concat_assoc<A>(a: Seq<A>, b: Seq<A>, c: Seq<A>)
    ensures
        (a + b) + c == a + (b + c),
{
    assert((a + b) + c =~= a + (b + c));
}

/// Skipping past the first operand of a concatenation leaves the second.
pub proof fn lemma_skip_concat<A>(a: Seq<A>, b: Seq<A>)
    ensures
        (a + b).skip(a.len() as int) == b,
{
    assert((a + b).skip(a.len() as int) =~= b);
}

/// Two skips compose into one.
pub proof fn lemma_skip_add<A>(s: Seq<A>, i: int, j: int)
    requires
        0 <= i,
        0 <= j,
        i + j <= s.len(),
    ensures
        s.skip(i).skip(j) == s.skip(i + j),
{
    assert(s.skip(i).skip(j) =~= s.skip(i + j));
}


} // verus!
