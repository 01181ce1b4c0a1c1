//! Round-trip laws of the Forge payload codec: serializing a
//! well-formed payload and parsing it back yields the same payload, and
//! the 15-bit pack preserves the serialized bytes exactly.

use vstd::prelude::*;
use vstd::utf8::{encode_utf8, decode_utf8, valid_utf8};
use vstd::seq_lib::*;
use crate::error::DecodeError;
use crate::varint::varint_enc;
use crate::codec::{bool_enc, parse_bool, string_enc, string_fits, u16_enc};
use crate::bitpack::{bytes_val, units_val};
use crate::forge_data::{
    ChanView, ModView, ForgeView, is_mod_channel, chan_path, mod_channels, nonmod_channels,
    modchan_entry_enc, modchan_entries_enc, chan_entry_enc, chan_entries_enc, mod_flag,
    opt_string_enc, mod_enc, mods_enc, forge_payload_enc, modchan_encodable, chan_encodable,
    mod_encodable, forge_encodable, starts_with, packed_string, units_of, parse_modchan_entry,
    parse_modchan_entries, parse_chan_entry, parse_chan_entries, parse_mod, parse_mods,
    parse_forge_payload,
};

verus! {

/// A valid UTF-8 sequence beginning with a colon byte decodes to a colon
/// followed by the decoding of the rest.
proof fn lemma_colon_first(t: Seq<u8>)
    requires
        t.len() > 0,
        t[0] == 58u8,
        valid_utf8(t),
    ensures
        valid_utf8(t.skip(1)),
        decode_utf8(t) =~= seq![':'] + decode_utf8(t.skip(1)),
{
    assert(vstd::utf8::is_leading_byte_width_1(58u8));
    assert(vstd::utf8::valid_first_scalar(t));
    assert(vstd::utf8::length_of_first_scalar(t) == 1);
    assert(vstd::utf8::pop_first_scalar(t) =~= t.skip(1));
    assert((58u8 & 0x7F) == 58u8) by (bit_vector);
    assert(vstd::utf8::decode_first_codepoint(t) == 58u32);
    assert(':' as u32 == 58);
    vstd::utf8::char_u32_cast(':', 58);
    assert(vstd::utf8::decode_first_scalar(t) as char == ':');
}

/// A channel name whose UTF-8 form begins with `m:` splits, at the
/// character level, into the mod name, a colon, and a path whose UTF-8
/// form is exactly the bytes after the colon.
pub proof fn lemma_mod_prefix_split(name: Seq<char>, m: Seq<char>)
    requires
        starts_with(encode_utf8(name), encode_utf8(m) + seq![58u8]),
        encode_utf8(name).len() > encode_utf8(m).len() + 1,
    ensures
        name =~= m + seq![':'] + name.skip(m.len() as int + 1),
        name.len() > m.len(),
        valid_utf8(encode_utf8(name).skip(encode_utf8(m).len() as int + 1)),
        decode_utf8(encode_utf8(name).skip(encode_utf8(m).len() as int + 1)) =~= name.skip(
            m.len() as int + 1,
        ),
        encode_utf8(name.skip(m.len() as int + 1)) =~= encode_utf8(name).skip(
            encode_utf8(m).len() as int + 1,
        ),
{
    let b = encode_utf8(name);
    let k = encode_utf8(m).len() as int;
    vstd::utf8::encode_utf8_valid_utf8(name);
    vstd::utf8::encode_utf8_decode_utf8(name);
    vstd::utf8::encode_utf8_decode_utf8(m);
    let p = encode_utf8(m) + seq![58u8];
    assert(b[k] == 58u8) by {
        assert(b.take(p.len() as int)[k] == b[k]);
        assert(p[k] == 58u8);
    }
    assert(!vstd::utf8::is_continuation_byte(58u8));
    vstd::utf8::is_char_boundary_iff_not_is_continuation_byte(b, k);
    vstd::utf8::valid_utf8_split(b, k);
    vstd::utf8::decode_utf8_split(b, k);
    assert(b.subrange(0, k) =~= encode_utf8(m)) by {
        assert forall|i: int| 0 <= i < k implies b.subrange(0, k)[i] == encode_utf8(m)[i] by {
            assert(b.take(p.len() as int)[i] == b[i]);
            assert(p[i] == encode_utf8(m)[i]);
        }
    }
    let tail0 = b.subrange(k, b.len() as int);
    assert(tail0[0] == 58u8);
    lemma_colon_first(tail0);
    assert(tail0.skip(1) =~= b.skip(k + 1));
    assert(decode_utf8(b) =~= m + seq![':'] + decode_utf8(b.skip(k + 1)));
    assert(name =~= m + seq![':'] + decode_utf8(b.skip(k + 1)));
    assert(decode_utf8(b.skip(k + 1)) =~= name.skip(m.len() as int + 1));
    vstd::utf8::decode_utf8_encode_utf8(b.skip(k + 1));
}

/// The channels of each mod in order, concatenated: what parsing the mod
/// list yields.
pub open spec fn concat_mod_chans(ms: Seq<ModView>, chans: Seq<ChanView>) -> Seq<ChanView>
    decreases ms.len(),
{
    if ms.len() == 0 {
        seq![]
    } else {
        mod_channels(chans, ms[0].0) + concat_mod_chans(ms.skip(1), chans)
    }
}

/// Parsing the encoding of one channel entry under `m` gives the
/// channel back and consumes exactly the encoding.
#[verifier::spinoff_prover]
#[verifier::rlimit(100)]
proof fn lemma_modchan_entry_parse_enc(c: ChanView, m: Seq<char>, rest: Seq<u8>)
    requires
        is_mod_channel(c, m),
        modchan_encodable(c, m),
    ensures
        parse_modchan_entry(modchan_entry_enc(c, m) + rest, m) == Ok::<
            (ChanView, int),
            DecodeError,
        >((c, modchan_entry_enc(c, m).len() as int)),
{
    let t = c.0.skip(m.len() as int + 1);
    lemma_mod_prefix_split(c.0, m);
    assert(chan_path(c, m) =~= encode_utf8(t));
    let e1 = string_enc(t);
    let e2 = string_enc(c.1);
    let e3 = bool_enc(c.2);
    let whole = modchan_entry_enc(c, m) + rest;
    assert(whole =~= e1 + (e2 + (e3 + rest)));
    assert(string_fits(t));
    crate::codec::lemma_string_parse_enc(t, e2 + (e3 + rest));
    let n1 = e1.len() as int;
    assert(whole.skip(n1) =~= e2 + (e3 + rest));
    crate::codec::lemma_string_parse_enc(c.1, e3 + rest);
    let n2 = e2.len() as int;
    assert(whole.skip(n1 + n2) =~= e3 + rest);
    assert(parse_bool(e3 + rest) == Ok::<(bool, int), DecodeError>((c.2, 1))) by {
        assert((e3 + rest)[0] == e3[0]);
    }
    assert(m + seq![':'] + t =~= c.0);
    assert((c.0, c.1, c.2) == c);
}

/// Parsing the encoding of a run of channels listed under `m` gives the
/// run back and consumes exactly the encoding.
#[verifier::spinoff_prover]
#[verifier::rlimit(100)]
proof fn lemma_modchan_entries_parse_enc(cs: Seq<ChanView>, m: Seq<char>, rest: Seq<u8>)
    requires
        forall|j: int| 0 <= j < cs.len() ==> is_mod_channel(#[trigger] cs[j], m),
        forall|j: int| 0 <= j < cs.len() ==> modchan_encodable(#[trigger] cs[j], m),
    ensures
        parse_modchan_entries(modchan_entries_enc(cs, m) + rest, cs.len(), m) == Ok::<
            (Seq<ChanView>, int),
            DecodeError,
        >((cs, modchan_entries_enc(cs, m).len() as int)),
    decreases cs.len(),
{
    if cs.len() == 0 {
        assert(modchan_entries_enc(cs, m) =~= Seq::<u8>::empty());
        assert(cs =~= Seq::<ChanView>::empty());
    } else {
        let c = cs[0];
        let e = modchan_entry_enc(c, m);
        let etail = modchan_entries_enc(cs.skip(1), m);
        let whole = modchan_entries_enc(cs, m) + rest;
        assert(whole =~= e + (etail + rest));
        lemma_modchan_entry_parse_enc(c, m, etail + rest);
        assert(whole.skip(e.len() as int) =~= etail + rest);
        assert forall|j: int| 0 <= j < cs.skip(1).len() implies is_mod_channel(
            #[trigger] cs.skip(1)[j],
            m,
        ) && modchan_encodable(cs.skip(1)[j], m) by {
            assert(cs.skip(1)[j] == cs[j + 1]);
        }
        lemma_modchan_entries_parse_enc(cs.skip(1), m, rest);
        assert(seq![c] + cs.skip(1) =~= cs);
    }
}

/// Parsing the encoding of one stand-alone channel entry gives the
/// channel back and consumes exactly the encoding.
#[verifier::spinoff_prover]
#[verifier::rlimit(100)]
proof fn lemma_chan_entry_parse_enc(c: ChanView, rest: Seq<u8>)
    requires
        chan_encodable(c),
    ensures
        parse_chan_entry(chan_entry_enc(c) + rest) == Ok::<(ChanView, int), DecodeError>((
            c,
            chan_entry_enc(c).len() as int,
        )),
{
    let e1 = string_enc(c.0);
    let e2 = string_enc(c.1);
    let e3 = bool_enc(c.2);
    let whole = chan_entry_enc(c) + rest;
    assert(whole =~= e1 + (e2 + (e3 + rest)));
    crate::codec::lemma_string_parse_enc(c.0, e2 + (e3 + rest));
    let n1 = e1.len() as int;
    assert(whole.skip(n1) =~= e2 + (e3 + rest));
    crate::codec::lemma_string_parse_enc(c.1, e3 + rest);
    let n2 = e2.len() as int;
    assert(whole.skip(n1 + n2) =~= e3 + rest);
    assert(parse_bool(e3 + rest) == Ok::<(bool, int), DecodeError>((c.2, 1))) by {
        assert((e3 + rest)[0] == e3[0]);
    }
    assert((c.0, c.1, c.2) == c);
}

/// Parsing the encoding of a run of stand-alone channels gives the run
/// back and consumes exactly the encoding.
#[verifier::spinoff_prover]
#[verifier::rlimit(100)]
proof fn lemma_chan_entries_parse_enc(cs: Seq<ChanView>, rest: Seq<u8>)
    requires
        forall|j: int| 0 <= j < cs.len() ==> chan_encodable(#[trigger] cs[j]),
    ensures
        parse_chan_entries(chan_entries_enc(cs) + rest, cs.len()) == Ok::<
            (Seq<ChanView>, int),
            DecodeError,
        >((cs, chan_entries_enc(cs).len() as int)),
    decreases cs.len(),
{
    if cs.len() == 0 {
        assert(chan_entries_enc(cs) =~= Seq::<u8>::empty());
        assert(cs =~= Seq::<ChanView>::empty());
    } else {
        let c = cs[0];
        let e = chan_entry_enc(c);
        let etail = chan_entries_enc(cs.skip(1));
        let whole = chan_entries_enc(cs) + rest;
        assert(whole =~= e + (etail + rest));
        lemma_chan_entry_parse_enc(c, etail + rest);
        assert(whole.skip(e.len() as int) =~= etail + rest);
        assert forall|j: int| 0 <= j < cs.skip(1).len() implies chan_encodable(
            #[trigger] cs.skip(1)[j],
        ) by {
            assert(cs.skip(1)[j] == cs[j + 1]);
        }
        lemma_chan_entries_parse_enc(cs.skip(1), rest);
        assert(seq![c] + cs.skip(1) =~= cs);
    }
}

/// Parsing the encoding of one mod gives the mod and its channels back
/// and consumes exactly the encoding.
#[verifier::spinoff_prover]
#[verifier::rlimit(100)]
proof fn lemma_mod_parse_enc(m: ModView, chans: Seq<ChanView>, rest: Seq<u8>)
    requires
        mod_encodable(m, chans),
    ensures
        parse_mod(mod_enc(m, chans) + rest) == Ok::<((ModView, Seq<ChanView>), int), DecodeError>(
            ((m, mod_channels(chans, m.0)), mod_enc(m, chans).len() as int),
        ),
{
    let mc = mod_channels(chans, m.0);
    let cnt = mc.len() as nat;
    let flag = mod_flag(cnt, m.1 is Some);
    let e1 = varint_enc(flag);
    let e2 = string_enc(m.0);
    let e3 = opt_string_enc(m.1);
    let e4 = modchan_entries_enc(mc, m.0);
    let whole = mod_enc(m, chans) + rest;
    assert(flag <= 0xFFFF_FFFF);
    assert(whole =~= e1 + (e2 + (e3 + (e4 + rest))));
    crate::varint::lemma_varint_u32_roundtrip(flag as u32, e2 + (e3 + (e4 + rest)));
    let n1 = e1.len() as int;
    assert(whole.skip(n1) =~= e2 + (e3 + (e4 + rest)));
    crate::codec::lemma_string_parse_enc(m.0, e3 + (e4 + rest));
    let n2 = e2.len() as int;
    assert(whole.skip(n1 + n2) =~= e3 + (e4 + rest));
    assert(flag % 2 == (if m.1 is Some { 0int } else { 1int }));
    assert(flag / 2 == cnt);
    match m.1 {
        Some(v) => {
            crate::codec::lemma_string_parse_enc(v, e4 + rest);
        },
        None => {},
    }
    let n3 = e3.len() as int;
    assert(whole.skip(n1 + n2 + n3) =~= e4 + rest);
    assert forall|j: int| 0 <= j < mc.len() implies is_mod_channel(#[trigger] mc[j], m.0)
        && modchan_encodable(mc[j], m.0) by {
        chans.lemma_filter_pred(|c: ChanView| is_mod_channel(c, m.0), j);
    }
    lemma_modchan_entries_parse_enc(mc, m.0, rest);
    assert((m.0, m.1) == m);
}

/// Parsing the encoding of the mod list gives the mods back together
/// with their channels in grouped order.
#[verifier::spinoff_prover]
#[verifier::rlimit(100)]
proof fn lemma_mods_parse_enc(ms: Seq<ModView>, chans: Seq<ChanView>, rest: Seq<u8>)
    requires
        forall|k: int| 0 <= k < ms.len() ==> mod_encodable(#[trigger] ms[k], chans),
    ensures
        parse_mods(mods_enc(ms, chans) + rest, ms.len()) == Ok::<
            ((Seq<ModView>, Seq<ChanView>), int),
            DecodeError,
        >(((ms, concat_mod_chans(ms, chans)), mods_enc(ms, chans).len() as int)),
    decreases ms.len(),
{
    if ms.len() == 0 {
        assert(mods_enc(ms, chans) =~= Seq::<u8>::empty());
        assert(concat_mod_chans(ms, chans) =~= Seq::<ChanView>::empty());
        assert(ms =~= Seq::<ModView>::empty());
    } else {
        let m = ms[0];
        let e = mod_enc(m, chans);
        let etail = mods_enc(ms.skip(1), chans);
        let whole = mods_enc(ms, chans) + rest;
        assert(whole =~= e + (etail + rest));
        lemma_mod_parse_enc(m, chans, etail + rest);
        assert(whole.skip(e.len() as int) =~= etail + rest);
        assert forall|k: int| 0 <= k < ms.skip(1).len() implies mod_encodable(
            #[trigger] ms.skip(1)[k],
            chans,
        ) by {
            assert(ms.skip(1)[k] == ms[k + 1]);
        }
        lemma_mods_parse_enc(ms.skip(1), chans, rest);
        assert(seq![m] + ms.skip(1) =~= ms);
        assert(mod_channels(chans, m.0) + concat_mod_chans(ms.skip(1), chans) =~= concat_mod_chans(
            ms,
            chans,
        ));
    }
}

/// A payload that encodes into a form that decodes back to itself: it is
/// marked truncated, every length fits, and the channel list is grouped
/// exactly as decoding produces it: each mod's channels in order, then
/// the channels of no mod.
#[verifier::opaque]
pub open spec fn forge_wf(v: ForgeView) -> bool {
    &&& v.2 == true
    &&& forge_encodable(v)
    &&& v.1 == concat_mod_chans(v.0, v.1) + nonmod_channels(v.1, v.0)
}

/// Parsing the encoding of a well-formed payload gives the payload back
/// and consumes exactly the encoding: the serialized form round-trips.
#[verifier::spinoff_prover]
#[verifier::rlimit(100)]
pub proof fn lemma_forge_parse_enc(v: ForgeView, rest: Seq<u8>)
    requires
        forge_encodable(v),
        v.2 == true,
    ensures
        parse_forge_payload(forge_payload_enc(v) + rest, v.3) == Ok::<(ForgeView, int), DecodeError>(
            (
                (
                    v.0,
                    concat_mod_chans(v.0, v.1) + nonmod_channels(v.1, v.0),
                    true,
                    v.3,
                ),
                forge_payload_enc(v).len() as int,
            ),
        ),
{
    let e1 = bool_enc(v.2);
    let e2 = u16_enc(v.0.len() as u16);
    let e3 = mods_enc(v.0, v.1);
    let nm = nonmod_channels(v.1, v.0);
    let e4 = varint_enc(nm.len());
    let e5 = chan_entries_enc(nm);
    let whole = forge_payload_enc(v) + rest;
    let n3 = e3.len() as int;
    let n4 = e4.len() as int;
    let n5 = e5.len() as int;
    assert(parse_bool(whole) == Ok::<(bool, int), DecodeError>((true, 1))) by {
        assert(whole[0] == e1[0]);
    }
    assert(crate::codec::parse_be(whole.skip(1), 2) == Ok::<(nat, int), DecodeError>((
        v.0.len() as nat,
        2,
    ))) by {
        assert(whole.skip(1) =~= e2 + (e3 + e4 + e5 + rest));
        vstd::arithmetic::power2::lemma2_to64();
        crate::codec::lemma_be_parse_enc(v.0.len() as nat, 2, e3 + e4 + e5 + rest);
    }
    assert(parse_mods(whole.skip(3), v.0.len() as nat) == Ok::<
        ((Seq<ModView>, Seq<ChanView>), int),
        DecodeError,
    >(((v.0, concat_mod_chans(v.0, v.1)), n3))) by {
        crate::codec::lemma_be_enc_len(v.0.len() as nat, 2);
        assert(whole.skip(3int) =~= e3 + (e4 + e5 + rest));
        lemma_mods_parse_enc(v.0, v.1, e4 + e5 + rest);
    }
    assert(crate::varint::parse_varint_u32(whole.skip(3 + n3)) == Ok::<(u32, int), DecodeError>((
        nm.len() as u32,
        n4,
    ))) by {
        crate::codec::lemma_be_enc_len(v.0.len() as nat, 2);
        assert(whole.skip(3int) =~= e3 + (e4 + (e5 + rest)));
        crate::codec::lemma_skip_add(whole, 3, n3);
        crate::codec::lemma_skip_concat(e3, e4 + (e5 + rest));
        assert(whole.skip(3 + n3) =~= e4 + (e5 + rest));
        crate::varint::lemma_varint_u32_roundtrip(nm.len() as u32, e5 + rest);
    }
    assert(parse_chan_entries(whole.skip(3 + n3 + n4), nm.len()) == Ok::<
        (Seq<ChanView>, int),
        DecodeError,
    >((nm, n5))) by {
        crate::codec::lemma_be_enc_len(v.0.len() as nat, 2);
        assert(whole.skip(3int) =~= e3 + (e4 + (e5 + rest)));
        crate::codec::lemma_skip_add(whole, 3, n3);
        crate::codec::lemma_skip_concat(e3, e4 + (e5 + rest));
        crate::codec::lemma_skip_add(whole, 3 + n3, n4);
        crate::codec::lemma_skip_concat(e4, e5 + rest);
        assert(whole.skip(3 + n3 + n4) =~= e5 + rest);
        lemma_chan_entries_parse_enc(nm, rest);
    }
    assert(forge_payload_enc(v).len() == 3 + n3 + n4 + n5) by {
        crate::codec::lemma_be_enc_len(v.0.len() as nat, 2);
    }
}

/// The whole codec round-trips: packing a well-formed payload into a
/// string (`encode_optimized`) and unpacking it (`decode_optimized`)
/// yields a buffer that parses back (`deserialize_optimized`) to the
/// same payload. `cs` is the packed string's characters and `d` the
/// unpacked buffer, each constrained exactly as those functions ensure.
#[verifier::spinoff_prover]
#[verifier::rlimit(100)]
pub proof fn lemma_forge_roundtrip(v: ForgeView, cs: Seq<char>, d: Seq<u8>)
    requires
        forge_wf(v),
        packed_string(cs, forge_payload_enc(v)),
        d.len() == 15 * (cs.len() - 2) / 8,
        bytes_val(d) == units_val(units_of(cs.skip(2))) % vstd::arithmetic::power2::pow2(
            8 * d.len(),
        ),
    ensures
        parse_forge_payload(d, v.3) == Ok::<(ForgeView, int), DecodeError>(
            (v, forge_payload_enc(v).len() as int),
        ),
{
    let b = forge_payload_enc(v);
    assert(d =~= b + d.skip(b.len() as int)) by {
        let u = units_of(cs.skip(2));
        assert(u.len() == cs.len() - 2);
        assert forall|i: int| 0 <= i < u.len() implies u[i] < 32768 by {
            assert((cs.skip(2)[i] as u32) < 0x8000);
        }
        crate::bitpack::lemma_unpack_pack(b, u, d);
    }
    assert(forge_encodable(v) && v.2 == true) by {
        reveal(forge_wf);
    }
    lemma_forge_parse_enc(v, d.skip(b.len() as int));
    assert((v.0, concat_mod_chans(v.0, v.1) + nonmod_channels(v.1, v.0), true, v.3) == v) by {
        reveal(forge_wf);
    }
}

} // verus!
