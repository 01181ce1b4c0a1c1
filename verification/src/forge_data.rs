//! The Forge mod-list payload: a list of (mod id, optional version) pairs
//! and (channel name, version, optional) triples, serialized into one
//! byte buffer. Channels whose name is `modid:path` for a listed mod are
//! written under that mod with only the path; all other channels follow
//! the mod list with their full name. The buffer is carried inside a JSON
//! string through the 15-bit pack (`bitpack`).

use vstd::prelude::*;
use vstd::utf8::{encode_utf8, decode_utf8, valid_utf8};
use vstd::string::{StrSliceExecFns, StringExecFns};
use crate::error::{DecodeError, EncodeError};
use crate::varint::{varint_enc, parse_varint_u32, read_varint_u32, write_varint_u32};
use crate::codec::{
    STRING_LIMIT, bool_enc, parse_bool, u16_enc, parse_be, string_enc, string_fits, parse_string,
    read_bool, write_bool, read_u16, write_u16, read_string, write_string, push_bytes, copy_range,
};
use crate::bitpack::{bytes_val, units_val};

verus! {

/// One mod entry: its id and an optional version.
#[derive(Clone, Debug)]
pub struct ForgeModData {
    pub name: String,
    pub version: Option<String>,
}

/// One channel entry: its full name, its version, and whether it is
/// optional.
#[derive(Clone, Debug)]
pub struct ForgeChannelData {
    pub name: String,
    pub version: String,
    pub optional: bool,
}

/// The whole Forge payload of a status response.
#[derive(Clone, Debug)]
pub struct ForgeData {
    pub mods: Vec<ForgeModData>,
    pub channels: Vec<ForgeChannelData>,
    pub truncated: bool,
    pub fmlversion: u8,
}

pub type ModView = (Seq<char>, Option<Seq<char>>);

pub type ChanView = (Seq<char>, Seq<char>, bool);

pub type ForgeView = (Seq<ModView>, Seq<ChanView>, bool, u8);

impl View for ForgeModData {
    type V = ModView;

    open spec fn view(&self) -> ModView {
        (
            self.name@,
            match self.version {
                Some(ref v) => Some(v@),
                None => None,
            },
        )
    }
}

impl View for ForgeChannelData {
    type V = ChanView;

    open spec fn view(&self) -> ChanView {
        (self.name@, self.version@, self.optional)
    }
}

impl View for ForgeData {
    type V = ForgeView;

    open spec fn view(&self) -> ForgeView {
        (
            self.mods@.map_values(|m: ForgeModData| m@),
            self.channels@.map_values(|c: ForgeChannelData| c@),
            self.truncated,
            self.fmlversion,
        )
    }
}

/// `b` begins with `p`.
pub open spec fn starts_with(b: Seq<u8>, p: Seq<u8>) -> bool {
    b.len() >= p.len() && b.take(p.len() as int) == p
}

/// The channel's UTF-8 name begins with the mod's UTF-8 name, a colon,
/// and at least one more byte: the channel is listed under that mod.
pub open spec fn is_mod_channel(c: ChanView, m: Seq<char>) -> bool {
    starts_with(encode_utf8(c.0), encode_utf8(m) + seq![58u8]) && encode_utf8(c.0).len()
        > encode_utf8(m).len() + 1
}

/// The bytes of the channel name with the `modid:` prefix stripped.
pub open spec fn chan_path(c: ChanView, m: Seq<char>) -> Seq<u8> {
    encode_utf8(c.0).skip(encode_utf8(m).len() as int + 1)
}

/// The channels listed under mod `m`, in list order.
pub open spec fn mod_channels(chans: Seq<ChanView>, m: Seq<char>) -> Seq<ChanView> {
    chans.filter(|c: ChanView| is_mod_channel(c, m))
}

/// A channel claimed by no listed mod.
pub open spec fn is_nonmod_channel(c: ChanView, mods: Seq<ModView>) -> bool {
    forall|k: int| 0 <= k < mods.len() ==> !is_mod_channel(c, #[trigger] mods[k].0)
}

/// The channels claimed by no listed mod, in list order.
pub open spec fn nonmod_channels(chans: Seq<ChanView>, mods: Seq<ModView>) -> Seq<ChanView> {
    chans.filter(|c: ChanView| is_nonmod_channel(c, mods))
}

/// One channel entry under a mod: path (as a string), version, optional.
pub open spec fn modchan_entry_enc(c: ChanView, m: Seq<char>) -> Seq<u8> {
    varint_enc(chan_path(c, m).len()) + chan_path(c, m) + string_enc(c.1) + bool_enc(c.2)
}

pub open spec fn modchan_entries_enc(cs: Seq<ChanView>, m: Seq<char>) -> Seq<u8>
    decreases cs.len(),
{
    if cs.len() == 0 {
        seq![]
    } else {
        modchan_entry_enc(cs[0], m) + modchan_entries_enc(cs.skip(1), m)
    }
}

/// One stand-alone channel entry: full name, version, optional.
pub open spec fn chan_entry_enc(c: ChanView) -> Seq<u8> {
    string_enc(c.0) + string_enc(c.1) + bool_enc(c.2)
}

pub open spec fn chan_entries_enc(cs: Seq<ChanView>) -> Seq<u8>
    decreases cs.len(),
{
    if cs.len() == 0 {
        seq![]
    } else {
        chan_entry_enc(cs[0]) + chan_entries_enc(cs.skip(1))
    }
}

/// The flag before each mod: channel count shifted up one bit, the low
/// bit set when the mod carries no version.
pub open spec fn mod_flag(chan_count: nat, has_version: bool) -> nat {
    2 * chan_count + if has_version {
        0nat
    } else {
        1nat
    }
}

pub open spec fn opt_string_enc(v: Option<Seq<char>>) -> Seq<u8> {
    match v {
        Some(s) => string_enc(s),
        None => seq![],
    }
}

/// One mod: flag, id, version if any, then its channels.
pub open spec fn mod_enc(m: ModView, chans: Seq<ChanView>) -> Seq<u8> {
    varint_enc(mod_flag(mod_channels(chans, m.0).len(), m.1 is Some)) + string_enc(m.0)
        + opt_string_enc(m.1) + modchan_entries_enc(mod_channels(chans, m.0), m.0)
}

pub open spec fn mods_enc(ms: Seq<ModView>, chans: Seq<ChanView>) -> Seq<u8>
    decreases ms.len(),
{
    if ms.len() == 0 {
        seq![]
    } else {
        mod_enc(ms[0], chans) + mods_enc(ms.skip(1), chans)
    }
}

/// The whole payload: truncated flag, mod count, mods with their
/// channels, then the count and entries of the remaining channels.
pub open spec fn forge_payload_enc(v: ForgeView) -> Seq<u8> {
    bool_enc(v.2) + u16_enc(v.0.len() as u16) + mods_enc(v.0, v.1) + varint_enc(
        nonmod_channels(v.1, v.0).len(),
    ) + chan_entries_enc(nonmod_channels(v.1, v.0))
}

pub open spec fn modchan_encodable(c: ChanView, m: Seq<char>) -> bool {
    chan_path(c, m).len() <= STRING_LIMIT && string_fits(c.1)
}

pub open spec fn chan_encodable(c: ChanView) -> bool {
    string_fits(c.0) && string_fits(c.1)
}

pub open spec fn mod_encodable(m: ModView, chans: Seq<ChanView>) -> bool {
    &&& mod_channels(chans, m.0).len() <= 0x7FFF_FFFF
    &&& string_fits(m.0)
    &&& (m.1 matches Some(v) ==> string_fits(v))
    &&& forall|j: int| 0 <= j < mod_channels(chans, m.0).len() ==> modchan_encodable(
        #[trigger] mod_channels(chans, m.0)[j],
        m.0,
    )
}

/// Every length in the payload fits the field that carries it.
pub open spec fn forge_encodable(v: ForgeView) -> bool {
    &&& v.0.len() <= 0xFFFF
    &&& forall|k: int| 0 <= k < v.0.len() ==> mod_encodable(#[trigger] v.0[k], v.1)
    &&& nonmod_channels(v.1, v.0).len() <= 0xFFFF_FFFF
    &&& forall|j: int| 0 <= j < nonmod_channels(v.1, v.0).len() ==> chan_encodable(
        #[trigger] nonmod_channels(v.1, v.0)[j],
    )
}

/// Snoc form of `modchan_entries_enc`.
pub proof fn lemma_modchan_entries_enc_push(cs: Seq<ChanView>, c: ChanView, m: Seq<char>)
    ensures
        modchan_entries_enc(cs.push(c), m) == modchan_entries_enc(cs, m) + modchan_entry_enc(c, m),
    decreases cs.len(),
{
    if cs.len() == 0 {
        assert(cs.push(c)[0] == c);
        assert(cs.push(c).skip(1) =~= Seq::<ChanView>::empty());
        assert(modchan_entries_enc(Seq::<ChanView>::empty(), m) == Seq::<u8>::empty());
        assert(modchan_entries_enc(cs.push(c), m) =~= modchan_entry_enc(c, m));
        assert(modchan_entries_enc(cs, m) + modchan_entry_enc(c, m) =~= modchan_entry_enc(c, m));
    } else {
        assert(cs.push(c).skip(1) =~= cs.skip(1).push(c));
        assert(cs.push(c)[0] == cs[0]);
        lemma_modchan_entries_enc_push(cs.skip(1), c, m);
        assert(modchan_entries_enc(cs.push(c), m) =~= modchan_entries_enc(cs, m)
            + modchan_entry_enc(c, m));
    }
}

/// Snoc form of `chan_entries_enc`.
pub proof fn lemma_chan_entries_enc_push(cs: Seq<ChanView>, c: ChanView)
    ensures
        chan_entries_enc(cs.push(c)) == chan_entries_enc(cs) + chan_entry_enc(c),
    decreases cs.len(),
{
    if cs.len() == 0 {
        assert(cs.push(c)[0] == c);
        assert(cs.push(c).skip(1) =~= Seq::<ChanView>::empty());
        assert(chan_entries_enc(Seq::<ChanView>::empty()) == Seq::<u8>::empty());
        assert(chan_entries_enc(cs.push(c)) =~= chan_entry_enc(c));
        assert(chan_entries_enc(cs) + chan_entry_enc(c) =~= chan_entry_enc(c));
    } else {
        assert(cs.push(c).skip(1) =~= cs.skip(1).push(c));
        assert(cs.push(c)[0] == cs[0]);
        lemma_chan_entries_enc_push(cs.skip(1), c);
        assert(chan_entries_enc(cs.push(c)) =~= chan_entries_enc(cs) + chan_entry_enc(c));
    }
}

/// Snoc form of `mods_enc`.
pub proof fn lemma_mods_enc_push(ms: Seq<ModView>, m: ModView, chans: Seq<ChanView>)
    ensures
        mods_enc(ms.push(m), chans) == mods_enc(ms, chans) + mod_enc(m, chans),
    decreases ms.len(),
{
    if ms.len() == 0 {
        assert(ms.push(m)[0] == m);
        assert(ms.push(m).skip(1) =~= Seq::<ModView>::empty());
        assert(mods_enc(Seq::<ModView>::empty(), chans) == Seq::<u8>::empty());
        assert(mods_enc(ms.push(m), chans) =~= mod_enc(m, chans));
        assert(mods_enc(ms, chans) + mod_enc(m, chans) =~= mod_enc(m, chans));
    } else {
        assert(ms.push(m).skip(1) =~= ms.skip(1).push(m));
        assert(ms.push(m)[0] == ms[0]);
        lemma_mods_enc_push(ms.skip(1), m, chans);
        assert(mods_enc(ms.push(m), chans) =~= mods_enc(ms, chans) + mod_enc(m, chans));
    }
}

/// Whether the channel's byte name begins with `mod_b ++ ':'` and has at
/// least one byte after the colon.
fn channel_matches(chan_name: &String, mod_b: &Vec<u8>) -> (r: bool)
    ensures
        r == (starts_with(encode_utf8(chan_name@), mod_b@ + seq![58u8]) && encode_utf8(
            chan_name@,
        ).len() > mod_b@.len() + 1),
{
    let nb = chan_name.as_str().as_bytes_vec();
    if nb.len() <= mod_b.len() || nb.len() - mod_b.len() <= 1 {
        return false;
    }
    if nb[mod_b.len()] != 58u8 {
        proof {
            let p = mod_b@ + seq![58u8];
            assert(nb@.take(p.len() as int)[mod_b@.len() as int] == nb@[mod_b@.len() as int]);
        }
        return false;
    }
    let mut i: usize = 0;
    while i < mod_b.len()
        invariant
            i <= mod_b@.len(),
            mod_b@.len() + 1 < nb@.len(),
            nb@ == encode_utf8(chan_name@),
            forall|j: int| 0 <= j < i ==> nb@[j] == mod_b@[j],
        decreases mod_b@.len() - i,
    {
        if nb[i] != mod_b[i] {
            proof {
                let p = mod_b@ + seq![58u8];
                assert(nb@.take(p.len() as int)[i as int] == nb@[i as int]);
                assert(p[i as int] == mod_b@[i as int]);
            }
            return false;
        }
        i = i + 1;
    }
    proof {
        let p = mod_b@ + seq![58u8];
        assert(nb@.take(p.len() as int) =~= p);
    }
    true
}

impl ForgeData {
    /// Serialize the payload into `buf`. Appends exactly
    /// `forge_payload_enc` of this value and succeeds exactly when every
    /// length fits its field; on failure `buf` is unchanged.
    #[verifier::spinoff_prover]
    pub fn serialize_optimized(&self, buf: &mut Vec<u8>) -> (r: Result<(), EncodeError>)
        ensures
            match r {
                Ok(()) => forge_encodable(self@) && final(buf)@ == old(buf)@ + forge_payload_enc(
                    self@,
                ),
                Err(e) => !forge_encodable(self@) && e == EncodeError::LengthExceedsLimit
                    && final(buf)@ == old(buf)@,
            },
    {
        let ghost mv = self.mods@.map_values(|m: ForgeModData| m@);
        let ghost cv = self.channels@.map_values(|c: ForgeChannelData| c@);
        let mut tmp: Vec<u8> = Vec::new();
        write_bool(&mut tmp, self.truncated);
        if self.mods.len() > 0xFFFF {
            return Err(EncodeError::LengthExceedsLimit);
        }
        write_u16(&mut tmp, self.mods.len() as u16);
        let ghost head = bool_enc(self.truncated) + u16_enc(mv.len() as u16);
        assert(tmp@ =~= head + mods_enc(mv.take(0int), cv)) by {
            assert(mv.take(0int) =~= Seq::<ModView>::empty());
        }
        let mut i: usize = 0;
        while i < self.mods.len()
            invariant
                i <= self.mods@.len(),
                mv == self.mods@.map_values(|m: ForgeModData| m@),
                cv == self.channels@.map_values(|c: ForgeChannelData| c@),
                mv.len() == self.mods@.len(),
                tmp@ == head + mods_enc(mv.take(i as int), cv),
                forall|k: int| 0 <= k < i ==> mod_encodable(#[trigger] mv[k], cv),
            decreases self.mods@.len() - i,
        {
            let ghost tmp0 = tmp@;
            let m = &self.mods[i];
            assert(m@ == mv[i as int]);
            let mod_b = m.name.as_str().as_bytes_vec();
            // first pass: count this mod's channels
            let mut count: usize = 0;
            let mut j: usize = 0;
            while j < self.channels.len()
                invariant
                    j <= self.channels@.len(),
                    cv == self.channels@.map_values(|c: ForgeChannelData| c@),
                    cv.len() == self.channels@.len(),
                    mod_b@ == encode_utf8(m.name@),
                    m == &self.mods[i as int],
                    0 <= i < self.mods@.len(),
                    count == mod_channels(cv.take(j as int), m.name@).len(),
                    count <= j,
                decreases self.channels@.len() - j,
            {
                let c = &self.channels[j];
                assert(c@ == cv[j as int]);
                let matches = channel_matches(&c.name, &mod_b);
                proof {
                    assert(cv.take(j as int + 1) =~= cv.take(j as int).push(cv[j as int]));
                    reveal_filter_push(cv.take(j as int), cv[j as int], m.name@);
                }
                if matches {
                    count = count + 1;
                }
                j = j + 1;
            }
            assert(cv.take(cv.len() as int) =~= cv);
            if count > 0x7FFF_FFFF {
                proof {
                    assert(!mod_encodable(mv[i as int], cv));
                    assert(!forge_encodable(self@));
                }
                return Err(EncodeError::LengthExceedsLimit);
            }
            let flag: u32 = (count as u32) * 2 + (if m.version.is_none() {
                1
            } else {
                0
            });
            write_varint_u32(&mut tmp, flag);
            match write_string(&mut tmp, &m.name) {
                Ok(()) => {},
                Err(_) => {
                    proof {
                        assert(!mod_encodable(mv[i as int], cv));
                        assert(!forge_encodable(self@));
                    }
                    return Err(EncodeError::LengthExceedsLimit);
                },
            }
            match &m.version {
                Some(v) => {
                    match write_string(&mut tmp, v) {
                        Ok(()) => {},
                        Err(_) => {
                            proof {
                                assert(mv[i as int].1 matches Some(vv) && !string_fits(vv));
                                assert(!mod_encodable(mv[i as int], cv));
                                assert(!forge_encodable(self@));
                            }
                            return Err(EncodeError::LengthExceedsLimit);
                        },
                    }
                },
                None => {},
            }
            let ghost modhead = varint_enc(
                mod_flag(mod_channels(cv, m.name@).len(), mv[i as int].1 is Some),
            ) + string_enc(m.name@) + opt_string_enc(mv[i as int].1);
            assert(tmp@ =~= tmp0 + modhead + modchan_entries_enc(
                mod_channels(cv.take(0int), m.name@),
                m.name@,
            )) by {
                assert(cv.take(0int) =~= Seq::<ChanView>::empty());
            }
            // second pass: write this mod's channels
            let mut j: usize = 0;
            while j < self.channels.len()
                invariant
                    j <= self.channels@.len(),
                    cv == self.channels@.map_values(|c: ForgeChannelData| c@),
                    cv.len() == self.channels@.len(),
                    mod_b@ == encode_utf8(m.name@),
                    m == &self.mods[i as int],
                    0 <= i < self.mods@.len(),
                    mv == self.mods@.map_values(|mm: ForgeModData| mm@),
                    tmp@ == tmp0 + modhead + modchan_entries_enc(
                        mod_channels(cv.take(j as int), m.name@),
                        m.name@,
                    ),
                    forall|t: int| 0 <= t < mod_channels(cv.take(j as int), m.name@).len()
                        ==> modchan_encodable(
                        #[trigger] mod_channels(cv.take(j as int), m.name@)[t],
                        m.name@,
                    ),
                decreases self.channels@.len() - j,
            {
                let c = &self.channels[j];
                assert(c@ == cv[j as int]);
                let matches = channel_matches(&c.name, &mod_b);
                proof {
                    assert(cv.take(j as int + 1) =~= cv.take(j as int).push(cv[j as int]));
                    reveal_filter_push(cv.take(j as int), cv[j as int], m.name@);
                }
                if matches {
                    let nb = c.name.as_str().as_bytes_vec();
                    let nblen = nb.len();
                    assert(mod_b@.len() + 1 < nblen);
                    let pb = copy_range(&nb, mod_b.len() + 1, nblen);
                    assert(pb@ =~= chan_path(cv[j as int], m.name@));
                    if pb.len() > STRING_LIMIT as usize {
                        proof {
                            let t = lemma_filter_index(
                                cv,
                                |cc: ChanView| is_mod_channel(cc, m.name@),
                                j as int,
                            );
                            assert(!modchan_encodable(mod_channels(cv, m.name@)[t], m.name@));
                            assert(!mod_encodable(mv[i as int], cv));
                            assert(!forge_encodable(self@));
                        }
                        return Err(EncodeError::LengthExceedsLimit);
                    }
                    let ghost tmpj = tmp@;
                    write_varint_u32(&mut tmp, pb.len() as u32);
                    push_bytes(&mut tmp, &pb);
                    match write_string(&mut tmp, &c.version) {
                        Ok(()) => {},
                        Err(_) => {
                            proof {
                                let t = lemma_filter_index(
                                    cv,
                                    |cc: ChanView| is_mod_channel(cc, m.name@),
                                    j as int,
                                );
                                assert(!modchan_encodable(mod_channels(cv, m.name@)[t], m.name@));
                                assert(!mod_encodable(mv[i as int], cv));
                                assert(!forge_encodable(self@));
                            }
                            return Err(EncodeError::LengthExceedsLimit);
                        },
                    }
                    write_bool(&mut tmp, c.optional);
                    proof {
                        assert(tmp@ =~= tmpj + modchan_entry_enc(cv[j as int], m.name@));
                        lemma_modchan_entries_enc_push(
                            mod_channels(cv.take(j as int), m.name@),
                            cv[j as int],
                            m.name@,
                        );
                        assert(tmp@ =~= tmp0 + modhead + modchan_entries_enc(
                            mod_channels(cv.take(j as int + 1), m.name@),
                            m.name@,
                        ));
                    }
                }
                j = j + 1;
            }
            proof {
                assert(cv.take(cv.len() as int) =~= cv);
                assert(mod_encodable(mv[i as int], cv));
                assert(tmp@ =~= tmp0 + mod_enc(mv[i as int], cv));
                lemma_mods_enc_push(mv.take(i as int), mv[i as int], cv);
                assert(mv.take(i as int + 1) =~= mv.take(i as int).push(mv[i as int]));
                assert(tmp@ =~= head + mods_enc(mv.take(i as int + 1), cv));
            }
            i = i + 1;
        }
        assert(mv.take(mv.len() as int) =~= mv);
        // the channels claimed by no mod, with their full names
        let mut count: usize = 0;
        let mut j: usize = 0;
        while j < self.channels.len()
            invariant
                j <= self.channels@.len(),
                cv == self.channels@.map_values(|c: ForgeChannelData| c@),
                mv == self.mods@.map_values(|m: ForgeModData| m@),
                cv.len() == self.channels@.len(),
                count == nonmod_channels(cv.take(j as int), mv).len(),
                count <= j,
            decreases self.channels@.len() - j,
        {
            let c = &self.channels[j];
            assert(c@ == cv[j as int]);
            let nm = self.channel_is_nonmod(j);
            proof {
                assert(cv.take(j as int + 1) =~= cv.take(j as int).push(cv[j as int]));
                reveal_nonmod_filter_push(cv.take(j as int), cv[j as int], mv);
            }
            if nm {
                count = count + 1;
            }
            j = j + 1;
        }
        assert(cv.take(cv.len() as int) =~= cv);
        if count > 0xFFFF_FFFFusize {
            return Err(EncodeError::LengthExceedsLimit);
        }
        write_varint_u32(&mut tmp, count as u32);
        let ghost mid = tmp@;
        assert(tmp@ =~= mid + chan_entries_enc(nonmod_channels(cv.take(0int), mv))) by {
            assert(cv.take(0int) =~= Seq::<ChanView>::empty());
        }
        let mut j: usize = 0;
        while j < self.channels.len()
            invariant
                j <= self.channels@.len(),
                cv == self.channels@.map_values(|c: ForgeChannelData| c@),
                mv == self.mods@.map_values(|m: ForgeModData| m@),
                cv.len() == self.channels@.len(),
                tmp@ == mid + chan_entries_enc(nonmod_channels(cv.take(j as int), mv)),
                forall|t: int| 0 <= t < nonmod_channels(cv.take(j as int), mv).len()
                    ==> chan_encodable(#[trigger] nonmod_channels(cv.take(j as int), mv)[t]),
            decreases self.channels@.len() - j,
        {
            let c = &self.channels[j];
            assert(c@ == cv[j as int]);
            let nm = self.channel_is_nonmod(j);
            proof {
                assert(cv.take(j as int + 1) =~= cv.take(j as int).push(cv[j as int]));
                reveal_nonmod_filter_push(cv.take(j as int), cv[j as int], mv);
            }
            if nm {
                let ghost tmpj = tmp@;
                match write_string(&mut tmp, &c.name) {
                    Ok(()) => {},
                    Err(_) => {
                        proof {
                            let t = lemma_filter_index(
                                cv,
                                |cc: ChanView| is_nonmod_channel(cc, mv),
                                j as int,
                            );
                            assert(!chan_encodable(nonmod_channels(cv, mv)[t]));
                            assert(!forge_encodable(self@));
                        }
                        return Err(EncodeError::LengthExceedsLimit);
                    },
                }
                match write_string(&mut tmp, &c.version) {
                    Ok(()) => {},
                    Err(_) => {
                        proof {
                            let t = lemma_filter_index(
                                cv,
                                |cc: ChanView| is_nonmod_channel(cc, mv),
                                j as int,
                            );
                            assert(!chan_encodable(nonmod_channels(cv, mv)[t]));
                            assert(!forge_encodable(self@));
                        }
                        return Err(EncodeError::LengthExceedsLimit);
                    },
                }
                write_bool(&mut tmp, c.optional);
                proof {
                    assert(tmp@ =~= tmpj + chan_entry_enc(cv[j as int]));
                    lemma_chan_entries_enc_push(
                        nonmod_channels(cv.take(j as int), mv),
                        cv[j as int],
                    );
                    assert(tmp@ =~= mid + chan_entries_enc(
                        nonmod_channels(cv.take(j as int + 1), mv),
                    ));
                }
            }
            j = j + 1;
        }
        assert(cv.take(cv.len() as int) =~= cv);
        push_bytes(buf, &tmp);
        assert(buf@ =~= old(buf)@ + forge_payload_enc(self@));
        Ok(())
    }

    /// Whether channel `j` is claimed by no listed mod.
    fn channel_is_nonmod(&self, j: usize) -> (r: bool)
        requires
            j < self.channels@.len(),
        ensures
            r == is_nonmod_channel(
                self.channels@.map_values(|c: ForgeChannelData| c@)[j as int],
                self.mods@.map_values(|m: ForgeModData| m@),
            ),
    {
        let ghost mv = self.mods@.map_values(|m: ForgeModData| m@);
        let ghost cvj = self.channels@.map_values(|c: ForgeChannelData| c@)[j as int];
        let c = &self.channels[j];
        assert(c@ == cvj);
        let mut k: usize = 0;
        while k < self.mods.len()
            invariant
                k <= self.mods@.len(),
                mv == self.mods@.map_values(|m: ForgeModData| m@),
                mv.len() == self.mods@.len(),
                c == &self.channels[j as int],
                j < self.channels@.len(),
                cvj == self.channels@.map_values(|cc: ForgeChannelData| cc@)[j as int],
                forall|t: int| 0 <= t < k ==> !is_mod_channel(cvj, #[trigger] mv[t].0),
            decreases self.mods@.len() - k,
        {
            let mb = self.mods[k].name.as_str().as_bytes_vec();
            assert(self.mods@[k as int]@ == mv[k as int]);
            if channel_matches(&c.name, &mb) {
                proof {
                    assert(is_mod_channel(cvj, mv[k as int].0));
                    assert(!is_nonmod_channel(cvj, mv));
                }
                return false;
            }
            k = k + 1;
        }
        true
    }
}

/// Filtering a pushed element either appends it or not, by the filter's
/// own recursion.
proof fn reveal_filter_push(s: Seq<ChanView>, c: ChanView, m: Seq<char>)
    ensures
        mod_channels(s.push(c), m) == if is_mod_channel(c, m) {
            mod_channels(s, m).push(c)
        } else {
            mod_channels(s, m)
        },
{
    let pred = |cc: ChanView| is_mod_channel(cc, m);
    assert(s.push(c).drop_last() =~= s);
    assert(s.push(c).last() == c);
    reveal_with_fuel(Seq::filter, 2);
    if pred(c) {
        assert(s.push(c).filter(pred) =~= s.filter(pred).push(c));
    } else {
        assert(s.push(c).filter(pred) =~= s.filter(pred));
    }
}

proof fn reveal_nonmod_filter_push(s: Seq<ChanView>, c: ChanView, mods: Seq<ModView>)
    ensures
        nonmod_channels(s.push(c), mods) == if is_nonmod_channel(c, mods) {
            nonmod_channels(s, mods).push(c)
        } else {
            nonmod_channels(s, mods)
        },
{
    let pred = |cc: ChanView| is_nonmod_channel(cc, mods);
    assert(s.push(c).drop_last() =~= s);
    assert(s.push(c).last() == c);
    reveal_with_fuel(Seq::filter, 2);
    if pred(c) {
        assert(s.push(c).filter(pred) =~= s.filter(pred).push(c));
    } else {
        assert(s.push(c).filter(pred) =~= s.filter(pred));
    }
}

/// An element satisfying the filter predicate appears in the filtered
/// sequence; returns its index there.
proof fn lemma_filter_index<A>(s: Seq<A>, pred: spec_fn(A) -> bool, i: int) -> (t: int)
    requires
        0 <= i < s.len(),
        pred(s[i]),
    ensures
        0 <= t < s.filter(pred).len(),
        s.filter(pred)[t] == s[i],
{
    s.lemma_filter_contains(pred, i);
    let t = choose|t: int|
        0 <= t < s.filter(pred).len() && s.filter(pred)[t] == s[i];
    t
}

/// Parse one channel entry written under mod `m`: path, version,
/// optional; the channel's full name is `m:path`.
pub open spec fn parse_modchan_entry(s: Seq<u8>, m: Seq<char>) -> Result<(ChanView, int), DecodeError> {
    match parse_string(s) {
        Ok((path, n1)) => match parse_string(s.skip(n1)) {
            Ok((ver, n2)) => match parse_bool(s.skip(n1 + n2)) {
                Ok((opt, n3)) => Ok(((m + seq![':'] + path, ver, opt), n1 + n2 + n3)),
                Err(e) => Err(e),
            },
            Err(e) => Err(e),
        },
        Err(e) => Err(e),
    }
}

/// Parse `count` channel entries written under mod `m`.
pub open spec fn parse_modchan_entries(s: Seq<u8>, count: nat, m: Seq<char>) -> Result<
    (Seq<ChanView>, int),
    DecodeError,
>
    decreases count,
{
    if count == 0 {
        Ok((seq![], 0))
    } else {
        match parse_modchan_entry(s, m) {
            Ok((c, n)) => match parse_modchan_entries(s.skip(n), (count - 1) as nat, m) {
                Ok((rest, n2)) => Ok((seq![c] + rest, n + n2)),
                Err(e) => Err(e),
            },
            Err(e) => Err(e),
        }
    }
}

/// Parse one stand-alone channel entry: full name, version, optional.
pub open spec fn parse_chan_entry(s: Seq<u8>) -> Result<(ChanView, int), DecodeError> {
    match parse_string(s) {
        Ok((name, n1)) => match parse_string(s.skip(n1)) {
            Ok((ver, n2)) => match parse_bool(s.skip(n1 + n2)) {
                Ok((opt, n3)) => Ok(((name, ver, opt), n1 + n2 + n3)),
                Err(e) => Err(e),
            },
            Err(e) => Err(e),
        },
        Err(e) => Err(e),
    }
}

/// Parse `count` stand-alone channel entries.
pub open spec fn parse_chan_entries(s: Seq<u8>, count: nat) -> Result<
    (Seq<ChanView>, int),
    DecodeError,
>
    decreases count,
{
    if count == 0 {
        Ok((seq![], 0))
    } else {
        match parse_chan_entry(s) {
            Ok((c, n)) => match parse_chan_entries(s.skip(n), (count - 1) as nat) {
                Ok((rest, n2)) => Ok((seq![c] + rest, n + n2)),
                Err(e) => Err(e),
            },
            Err(e) => Err(e),
        }
    }
}

/// Parse one mod: flag, id, version when the low flag bit is clear, then
/// `flag/2` channels under the mod's id.
pub open spec fn parse_mod(s: Seq<u8>) -> Result<((ModView, Seq<ChanView>), int), DecodeError> {
    match parse_varint_u32(s) {
        Ok((flag, n1)) => match parse_string(s.skip(n1)) {
            Ok((name, n2)) => {
                let vres: Result<(Option<Seq<char>>, int), DecodeError> = if flag % 2 == 0 {
                    match parse_string(s.skip(n1 + n2)) {
                        Ok((v, n)) => Ok((Some(v), n)),
                        Err(e) => Err(e),
                    }
                } else {
                    Ok((None, 0))
                };
                match vres {
                    Ok((ver, n3)) => match parse_modchan_entries(
                        s.skip(n1 + n2 + n3),
                        (flag / 2) as nat,
                        name,
                    ) {
                        Ok((chans, n4)) => Ok((((name, ver), chans), n1 + n2 + n3 + n4)),
                        Err(e) => Err(e),
                    },
                    Err(e) => Err(e),
                }
            },
            Err(e) => Err(e),
        },
        Err(e) => Err(e),
    }
}

/// Parse `count` mods and collect the channels listed under them.
pub open spec fn parse_mods(s: Seq<u8>, count: nat) -> Result<
    ((Seq<ModView>, Seq<ChanView>), int),
    DecodeError,
>
    decreases count,
{
    if count == 0 {
        Ok(((seq![], seq![]), 0))
    } else {
        match parse_mod(s) {
            Ok(((m, chans), n)) => match parse_mods(s.skip(n), (count - 1) as nat) {
                Ok(((mods2, chans2), n2)) => Ok(((seq![m] + mods2, chans + chans2), n + n2)),
                Err(e) => Err(e),
            },
            Err(e) => Err(e),
        }
    }
}

/// Parse a whole payload: the truncated flag on the wire is read but the
/// result is always marked truncated, as the packed form only carries
/// truncated data.
pub open spec fn parse_forge_payload(s: Seq<u8>, fml: u8) -> Result<(ForgeView, int), DecodeError> {
    match parse_bool(s) {
        Ok((_tr, n1)) => match parse_be(s.skip(n1), 2) {
            Ok((count, n2)) => match parse_mods(s.skip(n1 + n2), count) {
                Ok(((mods, mchans), n3)) => match parse_varint_u32(s.skip(n1 + n2 + n3)) {
                    Ok((nmcount, n4)) => match parse_chan_entries(
                        s.skip(n1 + n2 + n3 + n4),
                        nmcount as nat,
                    ) {
                        Ok((nmchans, n5)) => Ok(
                            ((mods, mchans + nmchans, true, fml), n1 + n2 + n3 + n4 + n5),
                        ),
                        Err(e) => Err(e),
                    },
                    Err(e) => Err(e),
                },
                Err(e) => Err(e),
            },
            Err(e) => Err(e),
        },
        Err(e) => Err(e),
    }
}

/// Read `count` channel entries under mod `mname`.
#[verifier::spinoff_prover]
fn read_modchan_entries(data: &Vec<u8>, pos: &mut usize, count: u32, mname: &String) -> (r: Result<
    Vec<ForgeChannelData>,
    DecodeError,
>)
    requires
        *old(pos) <= data@.len(),
    ensures
        match parse_modchan_entries(data@.skip(*old(pos) as int), count as nat, mname@) {
            Ok((vs, n)) => r matches Ok(rv) && rv@.map_values(|c: ForgeChannelData| c@) == vs
                && *final(pos) == *old(pos) + n,
            Err(e) => r matches Err(re) && re == e,
        },
        *old(pos) <= *final(pos) <= data@.len(),
{
    let ghost rest0 = data@.skip(*pos as int);
    let ghost p0 = *pos;
    let mut p = *pos;
    let mut out: Vec<ForgeChannelData> = Vec::new();
    let mut k: u32 = 0;
    while k < count
        invariant
            p0 <= p <= data@.len(),
            k <= count,
            p0 == *old(pos),
            *pos == *old(pos),
            rest0 == data@.skip(p0 as int),
            ({
                let cur = parse_modchan_entries(
                    data@.skip(p as int),
                    (count - k) as nat,
                    mname@,
                );
                let whole = parse_modchan_entries(rest0, count as nat, mname@);
                match cur {
                    Ok((vs, n)) => whole == Ok::<(Seq<ChanView>, int), DecodeError>(
                        (out@.map_values(|c: ForgeChannelData| c@) + vs, (p - p0) + n),
                    ),
                    Err(e) => whole == Err::<(Seq<ChanView>, int), DecodeError>(e),
                }
            }),
        decreases count - k,
    {
        let ghost pb = p;
        let ghost s_cur = data@.skip(pb as int);
        let path = match read_string(data, &mut p) {
            Ok(v) => v,
            Err(e) => {
                return Err(e);
            },
        };
        proof {
            assert(data@.skip(p as int) =~= s_cur.skip(p - pb));
        }
        let ver = match read_string(data, &mut p) {
            Ok(v) => v,
            Err(e) => {
                return Err(e);
            },
        };
        proof {
            assert(data@.skip(p as int) =~= s_cur.skip(p - pb));
        }
        let opt = match read_bool(data, &mut p) {
            Ok(v) => v,
            Err(e) => {
                return Err(e);
            },
        };
        proof {
            assert(data@.skip(p as int) =~= s_cur.skip(p - pb));
        }
        let mut nm = mname.clone();
        nm.append(":");
        proof {
            reveal_strlit(":");
            assert(":"@ =~= seq![':']);
        }
        nm.append(path.as_str());
        let cd = ForgeChannelData { name: nm, version: ver, optional: opt };
        proof {
            assert(cd@.0 =~= mname@ + seq![':'] + path@);
            assert(out@.push(cd).map_values(|c: ForgeChannelData| c@) =~= out@.map_values(
                |c: ForgeChannelData| c@,
            ).push(cd@));
        }
        let ghost vsum = out@.map_values(|c: ForgeChannelData| c@);
        out.push(cd);
        k = k + 1;
        proof {
            let cur2 = parse_modchan_entries(data@.skip(p as int), (count - k) as nat, mname@);
            match cur2 {
                Ok((vs2, n2)) => {
                    assert(vsum + (seq![cd@] + vs2) =~= (vsum + seq![cd@]) + vs2);
                    assert(vsum.push(cd@) =~= vsum + seq![cd@]);
                },
                Err(_) => {},
            }
        }
    }
    proof {
        assert(out@.map_values(|c: ForgeChannelData| c@) + seq![] =~= out@.map_values(
            |c: ForgeChannelData| c@,
        ));
    }
    *pos = p;
    Ok(out)
}

/// Read `count` stand-alone channel entries.
#[verifier::spinoff_prover]
fn read_chan_entries(data: &Vec<u8>, pos: &mut usize, count: u32) -> (r: Result<
    Vec<ForgeChannelData>,
    DecodeError,
>)
    requires
        *old(pos) <= data@.len(),
    ensures
        match parse_chan_entries(data@.skip(*old(pos) as int), count as nat) {
            Ok((vs, n)) => r matches Ok(rv) && rv@.map_values(|c: ForgeChannelData| c@) == vs
                && *final(pos) == *old(pos) + n,
            Err(e) => r matches Err(re) && re == e,
        },
        *old(pos) <= *final(pos) <= data@.len(),
{
    let ghost rest0 = data@.skip(*pos as int);
    let ghost p0 = *pos;
    let mut p = *pos;
    let mut out: Vec<ForgeChannelData> = Vec::new();
    let mut k: u32 = 0;
    while k < count
        invariant
            p0 <= p <= data@.len(),
            k <= count,
            p0 == *old(pos),
            *pos == *old(pos),
            rest0 == data@.skip(p0 as int),
            ({
                let cur = parse_chan_entries(data@.skip(p as int), (count - k) as nat);
                let whole = parse_chan_entries(rest0, count as nat);
                match cur {
                    Ok((vs, n)) => whole == Ok::<(Seq<ChanView>, int), DecodeError>(
                        (out@.map_values(|c: ForgeChannelData| c@) + vs, (p - p0) + n),
                    ),
                    Err(e) => whole == Err::<(Seq<ChanView>, int), DecodeError>(e),
                }
            }),
        decreases count - k,
    {
        let ghost pb = p;
        let ghost s_cur = data@.skip(pb as int);
        let name = match read_string(data, &mut p) {
            Ok(v) => v,
            Err(e) => {
                return Err(e);
            },
        };
        proof {
            assert(data@.skip(p as int) =~= s_cur.skip(p - pb));
        }
        let ver = match read_string(data, &mut p) {
            Ok(v) => v,
            Err(e) => {
                return Err(e);
            },
        };
        proof {
            assert(data@.skip(p as int) =~= s_cur.skip(p - pb));
        }
        let opt = match read_bool(data, &mut p) {
            Ok(v) => v,
            Err(e) => {
                return Err(e);
            },
        };
        proof {
            assert(data@.skip(p as int) =~= s_cur.skip(p - pb));
        }
        let cd = ForgeChannelData { name, version: ver, optional: opt };
        proof {
            assert(out@.push(cd).map_values(|c: ForgeChannelData| c@) =~= out@.map_values(
                |c: ForgeChannelData| c@,
            ).push(cd@));
        }
        let ghost vsum = out@.map_values(|c: ForgeChannelData| c@);
        out.push(cd);
        k = k + 1;
        proof {
            let cur2 = parse_chan_entries(data@.skip(p as int), (count - k) as nat);
            match cur2 {
                Ok((vs2, n2)) => {
                    assert(vsum + (seq![cd@] + vs2) =~= (vsum + seq![cd@]) + vs2);
                    assert(vsum.push(cd@) =~= vsum + seq![cd@]);
                },
                Err(_) => {},
            }
        }
    }
    proof {
        assert(out@.map_values(|c: ForgeChannelData| c@) + seq![] =~= out@.map_values(
            |c: ForgeChannelData| c@,
        ));
    }
    *pos = p;
    Ok(out)
}

/// Read `count` mods and the channels listed under them.
#[verifier::rlimit(100)]
#[verifier::spinoff_prover]
fn read_mods(data: &Vec<u8>, pos: &mut usize, count: u16) -> (r: Result<
    (Vec<ForgeModData>, Vec<ForgeChannelData>),
    DecodeError,
>)
    requires
        *old(pos) <= data@.len(),
    ensures
        match parse_mods(data@.skip(*old(pos) as int), count as nat) {
            Ok(((ms, cs), n)) => r matches Ok(rv) && rv.0@.map_values(|m: ForgeModData| m@) == ms
                && rv.1@.map_values(|c: ForgeChannelData| c@) == cs && *final(pos) == *old(pos)
                + n,
            Err(e) => r matches Err(re) && re == e,
        },
        *old(pos) <= *final(pos) <= data@.len(),
{
    let ghost rest0 = data@.skip(*pos as int);
    let ghost p0 = *pos;
    let mut p = *pos;
    let mut mods_out: Vec<ForgeModData> = Vec::new();
    let mut chans_out: Vec<ForgeChannelData> = Vec::new();
    let mut k: u16 = 0;
    while k < count
        invariant
            p0 <= p <= data@.len(),
            k <= count,
            p0 == *old(pos),
            *pos == *old(pos),
            rest0 == data@.skip(p0 as int),
            ({
                let cur = parse_mods(data@.skip(p as int), (count - k) as nat);
                let whole = parse_mods(rest0, count as nat);
                match cur {
                    Ok(((ms, cs), n)) => whole == Ok::<
                        ((Seq<ModView>, Seq<ChanView>), int),
                        DecodeError,
                    >(
                        (
                            (
                                mods_out@.map_values(|m: ForgeModData| m@) + ms,
                                chans_out@.map_values(|c: ForgeChannelData| c@) + cs,
                            ),
                            (p - p0) + n,
                        ),
                    ),
                    Err(e) => whole == Err::<((Seq<ModView>, Seq<ChanView>), int), DecodeError>(
                        e,
                    ),
                }
            }),
        decreases count - k,
    {
        let ghost pb = p;
        let ghost s_cur = data@.skip(pb as int);
        let flag = match read_varint_u32(data, &mut p) {
            Ok(v) => v,
            Err(e) => {
                return Err(e);
            },
        };
        proof {
            assert(data@.skip(p as int) =~= s_cur.skip(p - pb));
        }
        let name = match read_string(data, &mut p) {
            Ok(v) => v,
            Err(e) => {
                return Err(e);
            },
        };
        proof {
            assert(data@.skip(p as int) =~= s_cur.skip(p - pb));
        }
        let version = if flag % 2 == 0 {
            match read_string(data, &mut p) {
                Ok(v) => Some(v),
                Err(e) => {
                    return Err(e);
                },
            }
        } else {
            None
        };
        proof {
            assert(data@.skip(p as int) =~= s_cur.skip(p - pb));
        }
        let sub = match read_modchan_entries(data, &mut p, flag / 2, &name) {
            Ok(v) => v,
            Err(e) => {
                return Err(e);
            },
        };
        proof {
            assert(data@.skip(p as int) =~= s_cur.skip(p - pb));
        }
        let md = ForgeModData { name, version };
        let ghost msum = mods_out@.map_values(|m: ForgeModData| m@);
        let ghost csum = chans_out@.map_values(|c: ForgeChannelData| c@);
        let ghost subv = sub@.map_values(|c: ForgeChannelData| c@);
        proof {
            assert(mods_out@.push(md).map_values(|m: ForgeModData| m@) =~= msum.push(md@));
        }
        mods_out.push(md);
        let mut sub2 = sub;
        let ghost chans_before = chans_out@;
        chans_out.append(&mut sub2);
        proof {
            assert(chans_out@.map_values(|c: ForgeChannelData| c@) =~= csum + subv);
        }
        k = k + 1;
        proof {
            let cur2 = parse_mods(data@.skip(p as int), (count - k) as nat);
            match cur2 {
                Ok(((ms2, cs2), n2)) => {
                    assert(msum + (seq![md@] + ms2) =~= msum.push(md@) + ms2);
                    assert(csum + (subv + cs2) =~= (csum + subv) + cs2);
                },
                Err(_) => {},
            }
        }
    }
    proof {
        assert(mods_out@.map_values(|m: ForgeModData| m@) + seq![] =~= mods_out@.map_values(
            |m: ForgeModData| m@,
        ));
        assert(chans_out@.map_values(|c: ForgeChannelData| c@) + seq![] =~= chans_out@.map_values(
            |c: ForgeChannelData| c@,
        ));
    }
    *pos = p;
    Ok((mods_out, chans_out))
}

impl ForgeData {
    /// Parse a serialized payload. Trailing bytes beyond the parsed
    /// fields are ignored: unpacking pads the buffer with partial-group
    /// zero bits. Behaves exactly as `parse_forge_payload` on `value`.
    #[verifier::spinoff_prover]
    pub fn deserialize_optimized(value: Vec<u8>, fmlversion: u8) -> (r: Result<
        ForgeData,
        DecodeError,
    >)
        ensures
            match parse_forge_payload(value@, fmlversion) {
                Ok((v, n)) => r matches Ok(fd) && fd@ == v,
                Err(e) => r matches Err(re) && re == e,
            },
    {
        let mut pos: usize = 0;
        proof {
            assert(value@.skip(0int) =~= value@);
        }
        let _wire_truncated = match read_bool(&value, &mut pos) {
            Ok(v) => v,
            Err(e) => {
                return Err(e);
            },
        };
        let count = match read_u16(&value, &mut pos) {
            Ok(v) => v,
            Err(e) => {
                return Err(e);
            },
        };
        let (mods, mchans) = match read_mods(&value, &mut pos, count) {
            Ok(v) => v,
            Err(e) => {
                return Err(e);
            },
        };
        let nmcount = match read_varint_u32(&value, &mut pos) {
            Ok(v) => v,
            Err(e) => {
                return Err(e);
            },
        };
        let nmchans = match read_chan_entries(&value, &mut pos, nmcount) {
            Ok(v) => v,
            Err(e) => {
                return Err(e);
            },
        };
        let mut channels = mchans;
        let mut nm2 = nmchans;
        let ghost mcv = channels@.map_values(|c: ForgeChannelData| c@);
        let ghost nmcv = nm2@.map_values(|c: ForgeChannelData| c@);
        let ghost chans_before = channels@;
        channels.append(&mut nm2);
        proof {
            assert(channels@.map_values(|c: ForgeChannelData| c@) =~= mcv + nmcv);
        }
        let fd = ForgeData { mods, channels, truncated: true, fmlversion };
        proof {
            if let Ok((v, n)) = parse_forge_payload(value@, fmlversion) {
                assert(fd@.0 == v.0);
                assert(fd@.1 == v.1);
            }
        }
        Ok(fd)
    }
}

/// Each character taken as one 15-bit unit: its low fifteen bits.
pub open spec fn units_of(cs: Seq<char>) -> Seq<u16> {
    cs.map_values(|c: char| ((c as u32) % 0x8000) as u16)
}

/// The packed-string shape: two header units carrying the payload byte
/// length (low fifteen bits, then the next fifteen), then one unit per
/// fifteen payload bits; every unit stays below 0x8000.
pub open spec fn packed_string(cs: Seq<char>, payload: Seq<u8>) -> bool {
    &&& cs.len() == 2 + (8 * payload.len() + 14) / 15
    &&& forall|i: int| 0 <= i < cs.len() ==> (#[trigger] cs[i] as u32) < 0x8000
    &&& cs[0] as u32 == payload.len() as int % 0x8000
    &&& cs[1] as u32 == payload.len() as int / 0x8000
    &&& units_val(units_of(cs.skip(2))) == bytes_val(payload)
}

/// Relies on `char::from_u32`: every value below 0xD800 is a Unicode
/// scalar, so the conversion succeeds and keeps the value.
#[verifier::external_body]
fn char_from_unit(u: u16) -> (c: char)
    requires
        u < 0x8000,
    ensures
        c as u32 == u as u32,
{
    char::from_u32(u as u32).unwrap()
}

/// Relies on `String::push`: appends exactly the given character.
#[verifier::external_body]
fn push_char(s: &mut String, c: char)
    ensures
        final(s)@ == old(s)@.push(c),
{
    s.push(c);
}

impl ForgeData {
    /// Serialize and pack this payload into one JSON-safe string: two
    /// header units with the byte length, then fifteen payload bits per
    /// character. Fails when a length overflows its field or the payload
    /// exceeds the thirty bits the header can carry.
    #[verifier::spinoff_prover]
    pub fn encode_optimized(&self) -> (r: Result<String, EncodeError>)
        ensures
            match r {
                Ok(out) => forge_encodable(self@) && forge_payload_enc(self@).len() < 0x4000_0000
                    && packed_string(out@, forge_payload_enc(self@)),
                Err(e) => (!forge_encodable(self@) || forge_payload_enc(self@).len()
                    >= 0x4000_0000) && e == EncodeError::LengthExceedsLimit,
            },
    {
        let mut buf: Vec<u8> = Vec::new();
        match self.serialize_optimized(&mut buf) {
            Ok(()) => {},
            Err(e) => {
                return Err(e);
            },
        }
        let n = buf.len();
        if n >= 0x4000_0000 {
            return Err(EncodeError::LengthExceedsLimit);
        }
        let units = crate::bitpack::pack15(&buf);
        let mut out = String::new();
        push_char(&mut out, char_from_unit((n % 0x8000) as u16));
        push_char(&mut out, char_from_unit((n / 0x8000) as u16));
        let ghost head = out@;
        let mut i: usize = 0;
        while i < units.len()
            invariant
                i <= units@.len(),
                forall|t: int| 0 <= t < units@.len() ==> units@[t] < 0x8000,
                out@.len() == 2 + i,
                head == out@.take(2int),
                forall|t: int| 0 <= t < i ==> (#[trigger] out@.skip(2)[t] as u32) == units@[t],
                forall|t: int| 0 <= t < out@.len() ==> (#[trigger] out@[t] as u32) < 0x8000,
            decreases units@.len() - i,
        {
            let c = char_from_unit(units[i]);
            let ghost out0 = out@;
            push_char(&mut out, c);
            proof {
                assert(out@.take(2int) =~= out0.take(2int));
                assert(out@.skip(2) =~= out0.skip(2).push(c));
                assert forall|t: int| 0 <= t < i + 1 implies (#[trigger] out@.skip(2)[t] as u32)
                    == units@[t] by {
                    if t < i {
                        assert(out@.skip(2)[t] == out0.skip(2)[t]);
                    }
                }
            }
            i = i + 1;
        }
        proof {
            assert(units_of(out@.skip(2)) =~= units@) by {
                assert(units_of(out@.skip(2)).len() == units@.len());
                assert forall|t: int| 0 <= t < units@.len() implies units_of(out@.skip(2))[t]
                    == units@[t] by {
                    assert((out@.skip(2)[t] as u32) == units@[t]);
                }
            }
            assert(out@[0] == head[0]);
            assert(out@[1] == head[1]);
        }
        Ok(out)
    }

    /// Strip the two header units and unpack fifteen bits per character
    /// into bytes, low-bit-first; a short string yields an empty buffer.
    pub fn decode_optimized(value: String) -> (r: Vec<u8>)
        ensures
            value@.len() >= 2 ==> {
                &&& r@.len() == 15 * (value@.len() - 2) / 8
                &&& bytes_val(r@) == units_val(units_of(value@.skip(2))) % vstd::arithmetic::power2::pow2(
                    8 * r@.len(),
                )
            },
            value@.len() < 2 ==> r@.len() == 0,
    {
        let len = value.as_str().unicode_len();
        let mut units: Vec<u16> = Vec::new();
        if len < 2 {
            let r = crate::bitpack::unpack15(&units);
            return r;
        }
        let mut i: usize = 2;
        while i < len
            invariant
                2 <= i <= len,
                len == value@.len(),
                units@.len() == i - 2,
                forall|t: int| 0 <= t < units@.len() ==> #[trigger] units@[t]
                    == ((value@[t + 2] as u32) % 0x8000) as u16,
            decreases len - i,
        {
            let c = value.as_str().get_char(i);
            let u = ((c as u32) % 0x8000) as u16;
            units.push(u);
            i = i + 1;
        }
        proof {
            assert(units@ =~= units_of(value@.skip(2)));
            assert(forall|t: int| 0 <= t < units@.len() ==> #[trigger] units@[t] < 0x8000);
        }
        crate::bitpack::unpack15(&units)
    }
}


} // verus!
