//! Variable-length integers: seven payload bits per byte, the continuation
//! flag in the high bit, least-significant group first. Defined for 32- and
//! 64-bit magnitudes; a varint that runs past its maximum width or encodes
//! a value out of range is rejected as `InvalidVarint`.

use vstd::prelude::*;
use vstd::arithmetic::power2::{
    pow2, lemma_pow2_adds, lemma_pow2_pos, lemma_pow2_strictly_increases, lemma2_to64,
    lemma2_to64_rest,
};
use vstd::arithmetic::div_mod::lemma_fundamental_div_mod;
use crate::error::DecodeError;

verus! {

/// The canonical (shortest) varint encoding of `n`.
pub open spec fn varint_enc(n: nat) -> Seq<u8>
    decreases n,
{
    if n < 128 {
        seq![n as u8]
    } else {
        seq![(128 + (n % 128)) as u8] + varint_enc(n / 128)
    }
}

/// The byte length of the canonical encoding of `n`.
pub open spec fn varint_len(n: nat) -> int {
    varint_enc(n).len() as int
}

/// Parse a varint of at most `max` bytes from the front of `s`, yielding
/// the value and the number of bytes consumed. Non-canonical encodings
/// (a redundant trailing zero group) are accepted, as peers may emit them.
pub open spec fn parse_varint_rec(s: Seq<u8>, max: nat) -> Result<(nat, int), DecodeError>
    decreases max,
{
    if s.len() == 0 {
        Err(DecodeError::UnexpectedEof)
    } else if s[0] < 128 {
        Ok((s[0] as nat, 1))
    } else if max <= 1 {
        Err(DecodeError::InvalidVarint)
    } else {
        match parse_varint_rec(s.skip(1), (max - 1) as nat) {
            Ok((v, n)) => Ok(((s[0] - 128) as nat + 128 * v, n + 1)),
            Err(e) => Err(e),
        }
    }
}

/// Parse a 32-bit varint: at most five bytes, value below 2^32.
pub open spec fn parse_varint_u32(s: Seq<u8>) -> Result<(u32, int), DecodeError> {
    match parse_varint_rec(s, 5) {
        Ok((v, n)) => if v < 0x1_0000_0000 {
            Ok((v as u32, n))
        } else {
            Err(DecodeError::InvalidVarint)
        },
        Err(e) => Err(e),
    }
}

/// Parse a 64-bit varint: at most ten bytes, value below 2^64.
pub open spec fn parse_varint_u64(s: Seq<u8>) -> Result<(u64, int), DecodeError> {
    match parse_varint_rec(s, 10) {
        Ok((v, n)) => if v < 0x1_0000_0000_0000_0000 {
            Ok((v as u64, n))
        } else {
            Err(DecodeError::InvalidVarint)
        },
        Err(e) => Err(e),
    }
}

/// A successful parse consumes between one and `max` bytes and yields a
/// value below 2^(7*max).
pub proof fn lemma_parse_varint_rec_bound(s: Seq<u8>, max: nat)
    requires
        1 <= max,
    ensures
        parse_varint_rec(s, max) matches Ok((v, n)) ==> {
            &&& v < pow2(7 * max)
            &&& 1 <= n <= max
            &&& n <= s.len()
        },
    decreases max,
{
    if s.len() == 0 {
    } else if s[0] < 128 {
        assert(128 <= pow2(7 * max)) by {
            lemma2_to64();
            if 7 < 7 * max {
                lemma_pow2_strictly_increases(7, 7 * max);
            }
        };
    } else if max <= 1 {
    } else {
        lemma_parse_varint_rec_bound(s.skip(1), (max - 1) as nat);
        if let Ok((v, n)) = parse_varint_rec(s.skip(1), (max - 1) as nat) {
            lemma_pow2_adds(7, 7 * (max - 1) as nat);
            assert(7 * max == 7 + 7 * (max - 1) as nat);
            lemma2_to64();
            let d = (s[0] - 128) as nat;
            assert(d < 128);
            assert(d + 128 * v < 128 * pow2(7 * (max - 1) as nat)) by (nonlinear_arith)
                requires d < 128, v < pow2(7 * (max - 1) as nat);
        }
    }
}

/// Parsing the canonical encoding of `n` (with anything after it) yields
/// `n` and consumes exactly the encoding.
pub proof fn lemma_varint_parse_enc(n: nat, rest: Seq<u8>, max: nat)
    requires
        varint_len(n) <= max,
    ensures
        parse_varint_rec(varint_enc(n) + rest, max) == Ok::<(nat, int), DecodeError>((
            n,
            varint_len(n),
        )),
    decreases n,
{
    let s = varint_enc(n) + rest;
    if n < 128 {
        assert(s[0] == n as u8);
    } else {
        assert(s[0] == (128 + (n % 128)) as u8);
        assert(varint_len(n) == 1 + varint_len(n / 128));
        assert(s.skip(1) =~= varint_enc(n / 128) + rest);
        lemma_varint_parse_enc(n / 128, rest, (max - 1) as nat);
        lemma_fundamental_div_mod(n as int, 128);
        assert((s[0] - 128) as nat + 128 * (n / 128) == n);
    }
}

/// Values below 2^(7*k) encode in at most `k` bytes.
pub proof fn lemma_varint_len_le(n: nat, k: nat)
    requires
        n < pow2(7 * k),
        1 <= k,
    ensures
        varint_len(n) <= k,
    decreases k,
{
    if n < 128 {
    } else {
        if k == 1 {
            lemma2_to64();
            assert(false);
        }
        lemma_pow2_adds(7, 7 * (k - 1) as nat);
        lemma2_to64();
        assert(n / 128 < pow2(7 * (k - 1) as nat)) by (nonlinear_arith)
            requires n < 128 * pow2(7 * (k - 1) as nat);
        lemma_varint_len_le(n / 128, (k - 1) as nat);
    }
}

/// Values at or above 2^(7*(k-1)) need at least `k` bytes: together with
/// `lemma_varint_len_le` this pins the documented minimal byte length.
pub proof fn lemma_varint_len_ge(n: nat, k: nat)
    requires
        pow2(7 * (k - 1) as nat) <= n,
        1 <= k,
    ensures
        varint_len(n) >= k,
    decreases k,
{
    if k == 1 {
    } else {
        lemma_pow2_adds(7, 7 * (k - 2) as nat);
        lemma2_to64();
        lemma_pow2_pos(7 * (k - 2) as nat);
        assert(n >= 128);
        assert(n / 128 >= pow2(7 * (k - 2) as nat)) by (nonlinear_arith)
            requires n >= 128 * pow2(7 * (k - 2) as nat);
        lemma_varint_len_ge(n / 128, (k - 1) as nat);
    }
}

/// Any 32-bit value round-trips: its canonical encoding, followed by
/// anything, parses back to the same value, consuming exactly the
/// encoding, which is at most five bytes long.
pub proof fn lemma_varint_u32_roundtrip(v: u32, rest: Seq<u8>)
    ensures
        parse_varint_u32(varint_enc(v as nat) + rest) == Ok::<(u32, int), DecodeError>((
            v,
            varint_len(v as nat),
        )),
        1 <= varint_len(v as nat) <= 5,
{
    lemma2_to64();
    lemma2_to64_rest();
    lemma_varint_len_le(v as nat, 5);
    lemma_varint_parse_enc(v as nat, rest, 5);
}

/// Any 64-bit value round-trips: its canonical encoding, followed by
/// anything, parses back to the same value, consuming exactly the
/// encoding, which is at most ten bytes long.
pub proof fn lemma_varint_u64_roundtrip(v: u64, rest: Seq<u8>)
    ensures
        parse_varint_u64(varint_enc(v as nat) + rest) == Ok::<(u64, int), DecodeError>((
            v,
            varint_len(v as nat),
        )),
        1 <= varint_len(v as nat) <= 10,
{
    lemma2_to64();
    lemma2_to64_rest_helper();
    lemma_varint_len_le(v as nat, 10);
    lemma_varint_parse_enc(v as nat, rest, 10);
}

proof fn lemma2_to64_rest_helper()
    ensures
        pow2(70) > 0x1_0000_0000_0000_0000,
{
    lemma2_to64();
    lemma_pow2_strictly_increases(64, 70);
}

/// Read at most `max` varint bytes, accumulating into a wide integer.
fn read_varint_raw(data: &Vec<u8>, pos: &mut usize, max: u8) -> (r: Result<u128, DecodeError>)
    requires
        *old(pos) <= data@.len(),
        1 <= max <= 10,
    ensures
        match parse_varint_rec(data@.skip(*old(pos) as int), max as nat) {
            Ok((v, n)) => r matches Ok(rv) && rv as nat == v && *final(pos) == *old(pos) + n,
            Err(e) => r matches Err(re) && re == e,
        },
        *old(pos) <= *final(pos) <= data@.len(),
    decreases max,
{
    let ghost rest = data@.skip(*pos as int);
    if *pos == data.len() {
        return Err(DecodeError::UnexpectedEof);
    }
    let b = data[*pos];
    *pos = *pos + 1;
    assert(rest[0] == b);
    if b < 128 {
        Ok(b as u128)
    } else if max == 1 {
        Err(DecodeError::InvalidVarint)
    } else {
        assert(data@.skip(*pos as int) =~= rest.skip(1));
        let r = read_varint_raw(data, pos, max - 1);
        match r {
            Ok(v) => {
                proof {
                    lemma_parse_varint_rec_bound(rest.skip(1), (max - 1) as nat);
                    lemma2_to64();
                    lemma2_to64_rest();
                    if 7 * (max - 1) < 63 {
                        lemma_pow2_strictly_increases(7 * (max - 1) as nat, 63);
                    }
                    assert(v < 0x8000_0000_0000_0000u128);
                }
                Ok(((b - 128) as u128) + 128 * v)
            },
            Err(e) => Err(e),
        }
    }
}

/// Read a 32-bit varint from `data` starting at `*pos`, advancing `*pos`
/// past the bytes consumed. Behaves exactly as `parse_varint_u32` on the
/// remaining bytes.
pub fn read_varint_u32(data: &Vec<u8>, pos: &mut usize) -> (r: Result<u32, DecodeError>)
    requires
        *old(pos) <= data@.len(),
    ensures
        match parse_varint_u32(data@.skip(*old(pos) as int)) {
            Ok((v, n)) => r matches Ok(rv) && rv == v && *final(pos) == *old(pos) + n,
            Err(e) => r matches Err(re) && re == e,
        },
        *old(pos) <= *final(pos) <= data@.len(),
{
    match read_varint_raw(data, pos, 5) {
        Ok(v) => if v < 0x1_0000_0000u128 {
            Ok(v as u32)
        } else {
            Err(DecodeError::InvalidVarint)
        },
        Err(e) => Err(e),
    }
}

/// Read a 64-bit varint from `data` starting at `*pos`, advancing `*pos`
/// past the bytes consumed. Behaves exactly as `parse_varint_u64` on the
/// remaining bytes.
pub fn read_varint_u64(data: &Vec<u8>, pos: &mut usize) -> (r: Result<u64, DecodeError>)
    requires
        *old(pos) <= data@.len(),
    ensures
        match parse_varint_u64(data@.skip(*old(pos) as int)) {
            Ok((v, n)) => r matches Ok(rv) && rv == v && *final(pos) == *old(pos) + n,
            Err(e) => r matches Err(re) && re == e,
        },
        *old(pos) <= *final(pos) <= data@.len(),
{
    match read_varint_raw(data, pos, 10) {
        Ok(v) => if v < 0x1_0000_0000_0000_0000u128 {
            Ok(v as u64)
        } else {
            Err(DecodeError::InvalidVarint)
        },
        Err(e) => Err(e),
    }
}

/// Append the canonical varint encoding of `v` to `out`.
pub fn write_varint_u64(out: &mut Vec<u8>, v: u64)
    ensures
        final(out)@ == old(out)@ + varint_enc(v as nat),
    decreases v,
{
    if v < 128 {
        out.push(v as u8);
        assert(out@ =~= old(out)@ + varint_enc(v as nat));
    } else {
        let ghost before = out@;
        out.push((128 + (v % 128)) as u8);
        write_varint_u64(out, v / 128);
        assert(out@ =~= before + varint_enc(v as nat));
    }
}

/// Append the canonical varint encoding of `v` to `out`.
pub fn write_varint_u32(out: &mut Vec<u8>, v: u32)
    ensures
        final(out)@ == old(out)@ + varint_enc(v as nat),
{
    write_varint_u64(out, v as u64);
}

} // verus!
