//! The 15-bit pack: a byte buffer carried inside a JSON string. Bits are
//! accumulated low-bit-first and emitted as one UTF-16 code unit per
//! fifteen bits, so every unit stays at or below 0x7FFF and is printable
//! string content. Unpacking takes fifteen bits back per unit and emits
//! bytes; a final partial group comes out as trailing zero bits.

use vstd::prelude::*;
use vstd::arithmetic::power2::{pow2, lemma_pow2_adds, lemma2_to64};
use vstd::arithmetic::div_mod::{
    lemma_fundamental_div_mod, lemma_fundamental_div_mod_converse, lemma_small_mod,
    lemma_div_multiples_vanish_fancy,
};

verus! {

/// The value of a byte sequence read as one little-endian number: the
/// first byte is least significant.
pub open spec fn bytes_val(s: Seq<u8>) -> nat
    decreases s.len(),
{
    if s.len() == 0 {
        0
    } else {
        s[0] as nat + 256 * bytes_val(s.skip(1))
    }
}

/// The value of a unit sequence read base 2^15: the first unit is least
/// significant.
pub open spec fn units_val(s: Seq<u16>) -> nat
    decreases s.len(),
{
    if s.len() == 0 {
        0
    } else {
        s[0] as nat + 32768 * units_val(s.skip(1))
    }
}

pub proof fn lemma_bytes_val_bound(s: Seq<u8>)
    ensures
        bytes_val(s) < pow2(8 * s.len()),
    decreases s.len(),
{
    if s.len() == 0 {
        lemma2_to64();
    } else {
        lemma_bytes_val_bound(s.skip(1));
        lemma_pow2_adds(8, 8 * (s.len() - 1) as nat);
        lemma2_to64();
        assert(s[0] as nat + 256 * bytes_val(s.skip(1)) < 256 * pow2(8 * (s.len() - 1) as nat))
            by (nonlinear_arith)
            requires
                s[0] < 256,
                bytes_val(s.skip(1)) < pow2(8 * (s.len() - 1) as nat),
        ;
    }
}

pub proof fn lemma_bytes_val_push(s: Seq<u8>, x: u8)
    ensures
        bytes_val(s.push(x)) == bytes_val(s) + x as nat * pow2(8 * s.len()),
    decreases s.len(),
{
    if s.len() == 0 {
        assert(s.push(x) =~= seq![x]);
        assert(s.push(x).skip(1) =~= Seq::<u8>::empty());
        assert(s.push(x)[0] == x);
        assert(bytes_val(Seq::<u8>::empty()) == 0);
        lemma2_to64();
        assert(x as nat * pow2(0) == x as nat);
    } else {
        assert(s.push(x).skip(1) =~= s.skip(1).push(x));
        assert(s.push(x)[0] == s[0]);
        lemma_bytes_val_push(s.skip(1), x);
        lemma_pow2_adds(8, 8 * (s.len() - 1) as nat);
        lemma2_to64();
        assert(256 * (bytes_val(s.skip(1)) + x as nat * pow2(8 * (s.len() - 1) as nat)) == 256
            * bytes_val(s.skip(1)) + x as nat * (256 * pow2(8 * (s.len() - 1) as nat)))
            by (nonlinear_arith);
    }
}

pub proof fn lemma_units_val_push(s: Seq<u16>, x: u16)
    ensures
        units_val(s.push(x)) == units_val(s) + x as nat * pow2(15 * s.len()),
    decreases s.len(),
{
    if s.len() == 0 {
        assert(s.push(x) =~= seq![x]);
        assert(s.push(x).skip(1) =~= Seq::<u16>::empty());
        assert(s.push(x)[0] == x);
        assert(units_val(Seq::<u16>::empty()) == 0);
        lemma2_to64();
        assert(x as nat * pow2(0) == x as nat);
    } else {
        assert(s.push(x).skip(1) =~= s.skip(1).push(x));
        assert(s.push(x)[0] == s[0]);
        lemma_units_val_push(s.skip(1), x);
        lemma_pow2_adds(15, 15 * (s.len() - 1) as nat);
        lemma2_to64();
        assert(32768 * (units_val(s.skip(1)) + x as nat * pow2(15 * (s.len() - 1) as nat)) == 32768
            * units_val(s.skip(1)) + x as nat * (32768 * pow2(15 * (s.len() - 1) as nat)))
            by (nonlinear_arith);
    }
}

pub proof fn lemma_bytes_val_take_succ(s: Seq<u8>, i: int)
    requires
        0 <= i < s.len(),
    ensures
        bytes_val(s.take(i + 1)) == bytes_val(s.take(i)) + s[i] as nat * pow2(8 * i as nat),
{
    assert(s.take(i + 1) =~= s.take(i).push(s[i]));
    lemma_bytes_val_push(s.take(i), s[i]);
}

pub proof fn lemma_units_val_take_succ(s: Seq<u16>, i: int)
    requires
        0 <= i < s.len(),
    ensures
        units_val(s.take(i + 1)) == units_val(s.take(i)) + s[i] as nat * pow2(15 * i as nat),
{
    assert(s.take(i + 1) =~= s.take(i).push(s[i]));
    lemma_units_val_push(s.take(i), s[i]);
}

/// A byte sequence whose value is zero is all zero bytes.
pub proof fn lemma_bytes_val_zero(s: Seq<u8>)
    requires
        bytes_val(s) == 0,
    ensures
        forall|j: int| 0 <= j < s.len() ==> s[j] == 0,
    decreases s.len(),
{
    if s.len() > 0 {
        lemma_bytes_val_zero(s.skip(1));
        assert forall|j: int| 0 <= j < s.len() implies s[j] == 0 by {
            if j > 0 {
                assert(s.skip(1)[j - 1] == s[j]);
            }
        }
    }
}

/// Little-endian byte values are unique: a longer sequence with the same
/// value as a shorter one agrees on the prefix and is zero beyond it.
pub proof fn lemma_bytes_val_unique(d: Seq<u8>, b: Seq<u8>)
    requires
        d.len() >= b.len(),
        bytes_val(d) == bytes_val(b),
    ensures
        forall|j: int| 0 <= j < b.len() ==> d[j] == b[j],
        forall|j: int| b.len() <= j < d.len() ==> d[j] == 0,
    decreases b.len(),
{
    if b.len() == 0 {
        lemma_bytes_val_zero(d);
    } else {
        let vd = bytes_val(d.skip(1));
        let vb = bytes_val(b.skip(1));
        lemma_fundamental_div_mod_converse(bytes_val(d) as int, 256, vd as int, d[0] as int);
        lemma_fundamental_div_mod_converse(bytes_val(b) as int, 256, vb as int, b[0] as int);
        assert(d[0] == b[0]);
        assert(vd == vb);
        lemma_bytes_val_unique(d.skip(1), b.skip(1));
        assert forall|j: int| 0 <= j < b.len() implies d[j] == b[j] by {
            if j > 0 {
                assert(d.skip(1)[j - 1] == d[j]);
                assert(b.skip(1)[j - 1] == b[j]);
            }
        }
        assert forall|j: int| b.len() <= j < d.len() implies d[j] == 0 by {
            assert(d.skip(1)[j - 1] == d[j]);
        }
    }
}

/// Pack bytes into 15-bit units, low-bit-first: the result is the unique
/// base-2^15 digit string of the buffer's value, one unit per full or
/// partial fifteen bits of input.
pub fn pack15(data: &Vec<u8>) -> (r: Vec<u16>)
    ensures
        r@.len() == (8 * data@.len() + 14) / 15,
        forall|i: int| 0 <= i < r@.len() ==> r@[i] < 32768,
        units_val(r@) == bytes_val(data@),
{
    let mut out: Vec<u16> = Vec::new();
    let mut acc: u32 = 0;
    let mut bits: usize = 0;
    let mut mult: u32 = 1;
    let mut i: usize = 0;
    proof {
        lemma2_to64();
        assert(data@.take(0int) =~= Seq::<u8>::empty());
    }
    while i < data.len()
        invariant
            i <= data@.len(),
            8 * i == 15 * out@.len() + bits,
            bits < 15,
            mult as nat == pow2(bits as nat),
            acc < mult,
            forall|k: int| 0 <= k < out@.len() ==> out@[k] < 32768,
            units_val(out@) + acc as nat * pow2(15 * out@.len()) == bytes_val(
                data@.take(i as int),
            ),
        decreases data@.len() - i,
    {
        let ghost out0 = out@;
        let ghost acc0 = acc as nat;
        let ghost bits0 = bits as nat;
        let b = data[i];
        proof {
            lemma2_to64();
            assert(mult <= 0x4000) by {
                if bits < 14 {
                    vstd::arithmetic::power2::lemma_pow2_strictly_increases(bits as nat, 14);
                }
            }
            assert((b as u32) * mult <= 255 * 0x4000) by (nonlinear_arith)
                requires b <= 255, mult <= 0x4000u32;
        }
        acc = acc + (b as u32) * mult;
        mult = mult * 256;
        bits = bits + 8;
        i = i + 1;
        proof {
            lemma_bytes_val_take_succ(data@, i as int - 1);
            lemma_pow2_adds(bits0, 8);
            lemma_pow2_adds(15 * out0.len(), bits0);
            assert(15 * out0.len() + bits0 == 8 * (i - 1));
            // the new buffered bits land exactly at weight 2^(8(i-1))
            assert((acc0 + b as nat * pow2(bits0)) * pow2(15 * out0.len()) == acc0 * pow2(15
                * out0.len()) + b as nat * (pow2(bits0) * pow2(15 * out0.len())))
                by (nonlinear_arith);
            assert(acc as nat == acc0 + b as nat * pow2(bits0));
            assert(acc < mult) by (nonlinear_arith)
                requires
                    acc as nat == acc0 + b as nat * pow2(bits0),
                    acc0 < pow2(bits0),
                    b < 256,
                    mult as nat == 256 * pow2(bits0),
            ;
        }
        if bits >= 15 {
            let ghost outm = out@;
            let ghost accm = acc as nat;
            let ghost bitsm = bits as nat;
            let unit = (acc % 32768) as u16;
            out.push(unit);
            acc = acc / 32768;
            mult = mult / 32768;
            bits = bits - 15;
            proof {
                lemma_units_val_push(outm, unit);
                lemma_fundamental_div_mod(accm as int, 32768);
                lemma_pow2_adds(15 * outm.len(), 15);
                // moving one unit out of the accumulator preserves the value
                assert((unit as nat + 32768 * (accm / 32768)) * pow2(15 * outm.len()) == unit
                    as nat * pow2(15 * outm.len()) + (accm / 32768) * (32768 * pow2(15
                    * outm.len()))) by (nonlinear_arith);
                assert(accm * pow2(15 * outm.len()) == unit as nat * pow2(15 * outm.len()) + (accm
                    / 32768) * pow2(15 * outm.len() + 15));
                lemma_pow2_adds((bitsm - 15) as nat, 15);
                assert(acc < mult) by (nonlinear_arith)
                    requires
                        acc as nat == accm / 32768,
                        accm < pow2(bitsm),
                        pow2(bitsm) == 32768 * pow2((bitsm - 15) as nat),
                        mult as nat == pow2((bitsm - 15) as nat),
                ;
                assert(mult as nat == pow2(bits as nat)) by {
                    assert(pow2(bitsm) == 32768 * pow2((bitsm - 15) as nat));
                }
            }
        }
    }
    proof {
        assert(data@.take(i as int) =~= data@);
    }
    if bits > 0 {
        proof {
            lemma2_to64();
            assert(acc < 32768) by {
                if bits < 15 {
                    vstd::arithmetic::power2::lemma_pow2_strictly_increases(bits as nat, 15);
                }
            }
            lemma_units_val_push(out@, (acc as u16));
        }
        let ghost k = out@.len() as int;
        out.push(acc as u16);
        proof {
            lemma_div_multiples_vanish_fancy(k + 1, bits as int - 1, 15);
            assert(15 * (k + 1) + (bits - 1) == 8 * data@.len() + 14);
        }
        out
    } else {
        proof {
            let k = out@.len() as int;
            lemma_div_multiples_vanish_fancy(k, 14, 15);
            assert(15 * k + 14 == 8 * data@.len() + 14);
        }
        out
    }
}

/// Unpack 15-bit units into bytes, low-bit-first: eight bits per output
/// byte, leftover high bits (fewer than eight) discarded. The result is
/// the base-256 digit string, `15n/8` bytes long, of the units' value.
pub fn unpack15(units: &Vec<u16>) -> (r: Vec<u8>)
    requires
        forall|i: int| 0 <= i < units@.len() ==> units@[i] < 32768,
    ensures
        r@.len() == 15 * units@.len() / 8,
        bytes_val(r@) == units_val(units@) % pow2(8 * r@.len()),
{
    let mut out: Vec<u8> = Vec::new();
    let mut acc: u32 = 0;
    let mut bits: usize = 0;
    let mut j: usize = 0;
    proof {
        lemma2_to64();
        assert(units@.take(0int) =~= Seq::<u16>::empty());
    }
    while j < units.len()
        invariant
            j <= units@.len(),
            forall|i: int| 0 <= i < units@.len() ==> units@[i] < 32768,
            15 * j == 8 * out@.len() + bits,
            bits < 8,
            acc < pow2(bits as nat),
            units_val(units@.take(j as int)) == bytes_val(out@) + acc as nat * pow2(8
                * out@.len()),
        decreases units@.len() - j,
    {
        let ghost out0 = out@;
        let ghost acc0 = acc as nat;
        let ghost bits0 = bits as nat;
        let c = units[j];
        proof {
            lemma2_to64();
            assert(pow2(bits0) <= 0x80) by {
                if bits0 < 7 {
                    vstd::arithmetic::power2::lemma_pow2_strictly_increases(bits0, 7);
                }
            }
            assert((c as u32) * pow2(bits0) <= 32767 * 0x80) by (nonlinear_arith)
                requires c < 32768, pow2(bits0) <= 0x80;
        }
        let mult = pow2_u32(bits);
        acc = acc + (c as u32) * mult;
        bits = bits + 15;
        j = j + 1;
        proof {
            lemma_units_val_take_succ(units@, j as int - 1);
            lemma_pow2_adds(8 * out0.len(), bits0);
            assert(8 * out0.len() + bits0 == 15 * (j - 1));
            assert((acc0 + c as nat * pow2(bits0)) * pow2(8 * out0.len()) == acc0 * pow2(8
                * out0.len()) + c as nat * (pow2(bits0) * pow2(8 * out0.len())))
                by (nonlinear_arith);
            lemma_pow2_adds(bits0, 15);
            assert((acc as nat) < pow2(bits as nat)) by (nonlinear_arith)
                requires
                    acc as nat == acc0 + c as nat * pow2(bits0),
                    acc0 < pow2(bits0),
                    c < 32768,
                    pow2(bits as nat) == 32768 * pow2(bits0),
            ;
        }
        while bits >= 8
            invariant
                forall|i: int| 0 <= i < units@.len() ==> units@[i] < 32768,
                j <= units@.len(),
                15 * j == 8 * out@.len() + bits,
                bits < 23,
                acc < pow2(bits as nat),
                units_val(units@.take(j as int)) == bytes_val(out@) + acc as nat * pow2(8
                    * out@.len()),
            decreases bits,
        {
            let ghost outm = out@;
            let ghost accm = acc as nat;
            let ghost bitsm = bits as nat;
            let byte = (acc % 256) as u8;
            out.push(byte);
            acc = acc / 256;
            bits = bits - 8;
            proof {
                lemma2_to64();
                lemma_bytes_val_push(outm, byte);
                lemma_fundamental_div_mod(accm as int, 256);
                lemma_pow2_adds(8 * outm.len(), 8);
                assert((byte as nat + 256 * (accm / 256)) * pow2(8 * outm.len()) == byte as nat
                    * pow2(8 * outm.len()) + (accm / 256) * (256 * pow2(8 * outm.len())))
                    by (nonlinear_arith);
                assert(accm * pow2(8 * outm.len()) == byte as nat * pow2(8 * outm.len()) + (accm
                    / 256) * pow2(8 * outm.len() + 8));
                lemma_pow2_adds((bitsm - 8) as nat, 8);
                assert(acc < pow2(bits as nat)) by (nonlinear_arith)
                    requires
                        acc as nat == accm / 256,
                        accm < pow2(bitsm),
                        pow2(bitsm) == 256 * pow2((bitsm - 8) as nat),
                        bits as nat == (bitsm - 8) as nat,
                ;
            }
        }
    }
    proof {
        assert(units@.take(j as int) =~= units@);
        let k = out@.len() as int;
        lemma_div_multiples_vanish_fancy(k, bits as int, 8);
        assert(8 * k + bits == 15 * units@.len());
        lemma_bytes_val_bound(out@);
        lemma_fundamental_div_mod_converse(
            units_val(units@) as int,
            pow2(8 * out@.len()) as int,
            acc as int,
            bytes_val(out@) as int,
        );
    }
    out
}

/// 2^e for small exponents, as a machine word.
fn pow2_u32(e: usize) -> (r: u32)
    requires
        e < 31,
    ensures
        r as nat == pow2(e as nat),
    decreases e,
{
    proof {
        lemma2_to64();
    }
    if e == 0 {
        1
    } else {
        let half = pow2_u32(e - 1);
        proof {
            lemma_pow2_adds((e - 1) as nat, 1);
            assert(pow2(e as nat) == pow2((e - 1) as nat) * 2);
            if (e - 1) < 30 {
                vstd::arithmetic::power2::lemma_pow2_strictly_increases((e - 1) as nat, 30);
            }
            assert(pow2(30) == 0x40000000) by {
                vstd::arithmetic::power2::lemma2_to64();
            }
        }
        half * 2
    }
}

/// Packing then unpacking returns the original bytes followed by fewer
/// than two zero bytes of padding.
pub proof fn lemma_unpack_pack(b: Seq<u8>, u: Seq<u16>, d: Seq<u8>)
    requires
        u.len() == (8 * b.len() + 14) / 15,
        units_val(u) == bytes_val(b),
        d.len() == 15 * u.len() / 8,
        bytes_val(d) == units_val(u) % pow2(8 * d.len()),
    ensures
        d.len() >= b.len(),
        forall|j: int| 0 <= j < b.len() ==> d[j] == b[j],
        forall|j: int| b.len() <= j < d.len() ==> d[j] == 0,
{
    let n = b.len() as int;
    let m = u.len() as int;
    let k = d.len() as int;
    assert(15 * m >= 8 * n) by (nonlinear_arith)
        requires m == (8 * n + 14) / 15, n >= 0;
    assert(8 * k + 8 > 15 * m) by (nonlinear_arith)
        requires k == 15 * m / 8, m >= 0;
    assert(8 * k >= 8 * n - 7);
    assert(k >= n);
    lemma_bytes_val_bound(b);
    assert(pow2(8 * b.len()) <= pow2(8 * d.len())) by {
        if b.len() < d.len() {
            vstd::arithmetic::power2::lemma_pow2_strictly_increases(8 * b.len(), 8 * d.len());
        }
    }
    lemma_small_mod(bytes_val(b), pow2(8 * d.len()));
    lemma_bytes_val_unique(d, b);
}

} // verus!
