//! Wire codecs for the sequence shapes the packets carry: strings,
//! identifiers, identifier/string pairs, and string triples. A sequence
//! is a varint count followed by that many elements; the count is
//! written by the packet codecs, these functions handle the elements.

use vstd::prelude::*;
use crate::error::{DecodeError, EncodeError};
use crate::varint::{varint_enc, parse_varint_u32, read_varint_u32, write_varint_u32};
use crate::codec::{string_enc, string_fits, parse_string, read_string, write_string};
use crate::resource::{
    ResourceLocation, rl_enc, rl_fits, rl_wf, parse_rl, read_resource_location,
    write_resource_location,
};

verus! {

pub type RlView = (Seq<char>, Seq<char>);

// ---- lists of strings ----

pub open spec fn string_list_enc(vs: Seq<Seq<char>>) -> Seq<u8>
    decreases vs.len(),
{
    if vs.len() == 0 {
        seq![]
    } else {
        string_enc(vs[0]) + string_list_enc(vs.skip(1))
    }
}

pub open spec fn parse_string_list(s: Seq<u8>, count: nat) -> Result<(Seq<Seq<char>>, int), DecodeError>
    decreases count,
{
    if count == 0 {
        Ok((seq![], 0))
    } else {
        match parse_string(s) {
            Ok((v, n)) => match parse_string_list(s.skip(n), (count - 1) as nat) {
                Ok((vs, n2)) => Ok((seq![v] + vs, n + n2)),
                Err(e) => Err(e),
            },
            Err(e) => Err(e),
        }
    }
}

pub proof fn lemma_string_list_enc_push(vs: Seq<Seq<char>>, v: Seq<char>)
    ensures
        string_list_enc(vs.push(v)) == string_list_enc(vs) + string_enc(v),
    decreases vs.len(),
{
    if vs.len() == 0 {
        assert(vs.push(v)[0] == v);
        assert(vs.push(v).skip(1) =~= Seq::<Seq<char>>::empty());
        assert(string_list_enc(Seq::<Seq<char>>::empty()) == Seq::<u8>::empty());
        assert(string_list_enc(vs.push(v)) =~= string_enc(v));
        assert(string_list_enc(vs) + string_enc(v) =~= string_enc(v));
    } else {
        assert(vs.push(v).skip(1) =~= vs.skip(1).push(v));
        assert(vs.push(v)[0] == vs[0]);
        lemma_string_list_enc_push(vs.skip(1), v);
        assert(string_list_enc(vs.push(v)) =~= string_list_enc(vs) + string_enc(v));
    }
}

pub proof fn lemma_string_list_parse_enc(vs: Seq<Seq<char>>, rest: Seq<u8>)
    requires
        forall|j: int| 0 <= j < vs.len() ==> string_fits(#[trigger] vs[j]),
    ensures
        parse_string_list(string_list_enc(vs) + rest, vs.len()) == Ok::<
            (Seq<Seq<char>>, int),
            DecodeError,
        >((vs, string_list_enc(vs).len() as int)),
    decreases vs.len(),
{
    if vs.len() == 0 {
        assert(string_list_enc(vs) =~= Seq::<u8>::empty());
        assert(vs =~= Seq::<Seq<char>>::empty());
    } else {
        let e = string_enc(vs[0]);
        let etail = string_list_enc(vs.skip(1));
        let whole = string_list_enc(vs) + rest;
        assert(whole =~= e + (etail + rest));
        crate::codec::lemma_string_parse_enc(vs[0], etail + rest);
        assert(whole.skip(e.len() as int) =~= etail + rest);
        assert forall|j: int| 0 <= j < vs.skip(1).len() implies string_fits(
            #[trigger] vs.skip(1)[j],
        ) by {
            assert(vs.skip(1)[j] == vs[j + 1]);
        }
        lemma_string_list_parse_enc(vs.skip(1), rest);
        assert(seq![vs[0]] + vs.skip(1) =~= vs);
    }
}

/// Read `count` strings.
pub fn read_string_list(data: &Vec<u8>, pos: &mut usize, count: u32) -> (r: Result<
    Vec<String>,
    DecodeError,
>)
    requires
        *old(pos) <= data@.len(),
    ensures
        match parse_string_list(data@.skip(*old(pos) as int), count as nat) {
            Ok((vs, n)) => r matches Ok(rv) && rv@.map_values(|x: String| x@) == vs && *final(pos)
                == *old(pos) + n,
            Err(e) => r matches Err(re) && re == e,
        },
        *old(pos) <= *final(pos) <= data@.len(),
{
    let ghost rest0 = data@.skip(*pos as int);
    let ghost p0 = *pos;
    let mut p = *pos;
    let mut out: Vec<String> = Vec::new();
    let mut k: u32 = 0;
    while k < count
        invariant
            p0 <= p <= data@.len(),
            k <= count,
            p0 == *old(pos),
            *pos == *old(pos),
            rest0 == data@.skip(p0 as int),
            ({
                let cur = parse_string_list(data@.skip(p as int), (count - k) as nat);
                let whole = parse_string_list(rest0, count as nat);
                match cur {
                    Ok((vs, n)) => whole == Ok::<(Seq<Seq<char>>, int), DecodeError>(
                        (out@.map_values(|x: String| x@) + vs, (p - p0) + n),
                    ),
                    Err(e) => whole == Err::<(Seq<Seq<char>>, int), DecodeError>(e),
                }
            }),
        decreases count - k,
    {
        let ghost pb = p;
        let ghost s_cur = data@.skip(pb as int);
        let v = match read_string(data, &mut p) {
            Ok(v) => v,
            Err(e) => {
                return Err(e);
            },
        };
        proof {
            assert(data@.skip(p as int) =~= s_cur.skip(p - pb));
            assert(out@.push(v).map_values(|x: String| x@) =~= out@.map_values(
                |x: String| x@,
            ).push(v@));
        }
        let ghost vsum = out@.map_values(|x: String| x@);
        let ghost vv = v@;
        out.push(v);
        k = k + 1;
        proof {
            let cur2 = parse_string_list(data@.skip(p as int), (count - k) as nat);
            match cur2 {
                Ok((vs2, n2)) => {
                    assert(vsum + (seq![vv] + vs2) =~= vsum.push(vv) + vs2);
                },
                Err(_) => {},
            }
        }
    }
    proof {
        assert(out@.map_values(|x: String| x@) + seq![] =~= out@.map_values(|x: String| x@));
    }
    *pos = p;
    Ok(out)
}

/// Append each string in order; fails when one exceeds the string bound.
pub fn write_string_list(out: &mut Vec<u8>, vs: &Vec<String>) -> (r: Result<(), EncodeError>)
    ensures
        match r {
            Ok(()) => (forall|j: int| 0 <= j < vs@.len() ==> string_fits((#[trigger] vs@[j])@))
                && final(out)@ == old(out)@ + string_list_enc(vs@.map_values(|x: String| x@)),
            Err(e) => e == EncodeError::LengthExceedsLimit && final(out)@ == old(out)@ && !(
            forall|j: int| 0 <= j < vs@.len() ==> string_fits((#[trigger] vs@[j])@)),
        },
{
    let ghost vsv = vs@.map_values(|x: String| x@);
    let mut tmp: Vec<u8> = Vec::new();
    let mut i: usize = 0;
    assert(tmp@ =~= string_list_enc(vsv.take(0int))) by {
        assert(vsv.take(0int) =~= Seq::<Seq<char>>::empty());
    }
    while i < vs.len()
        invariant
            i <= vs@.len(),
            vsv == vs@.map_values(|x: String| x@),
            vsv.len() == vs@.len(),
            tmp@ == string_list_enc(vsv.take(i as int)),
            forall|j: int| 0 <= j < i ==> string_fits(#[trigger] vsv[j]),
        decreases vs@.len() - i,
    {
        assert(vs@[i as int]@ == vsv[i as int]);
        match write_string(&mut tmp, &vs[i]) {
            Ok(()) => {},
            Err(_) => {
                return Err(EncodeError::LengthExceedsLimit);
            },
        }
        proof {
            lemma_string_list_enc_push(vsv.take(i as int), vsv[i as int]);
            assert(vsv.take(i as int + 1) =~= vsv.take(i as int).push(vsv[i as int]));
        }
        i = i + 1;
    }
    assert(vsv.take(vsv.len() as int) =~= vsv);
    proof {
        assert forall|j: int| 0 <= j < vs@.len() implies string_fits((#[trigger] vs@[j])@) by {
            assert(vs@[j]@ == vsv[j]);
        }
    }
    crate::codec::push_bytes(out, &tmp);
    Ok(())
}

// ---- lists of identifiers ----

pub open spec fn rl_list_enc(vs: Seq<RlView>) -> Seq<u8>
    decreases vs.len(),
{
    if vs.len() == 0 {
        seq![]
    } else {
        rl_enc(vs[0]) + rl_list_enc(vs.skip(1))
    }
}

pub open spec fn parse_rl_list(s: Seq<u8>, count: nat) -> Result<(Seq<RlView>, int), DecodeError>
    decreases count,
{
    if count == 0 {
        Ok((seq![], 0))
    } else {
        match parse_rl(s) {
            Ok((v, n)) => match parse_rl_list(s.skip(n), (count - 1) as nat) {
                Ok((vs, n2)) => Ok((seq![v] + vs, n + n2)),
                Err(e) => Err(e),
            },
            Err(e) => Err(e),
        }
    }
}

pub proof fn lemma_rl_list_enc_push(vs: Seq<RlView>, v: RlView)
    ensures
        rl_list_enc(vs.push(v)) == rl_list_enc(vs) + rl_enc(v),
    decreases vs.len(),
{
    if vs.len() == 0 {
        assert(vs.push(v)[0] == v);
        assert(vs.push(v).skip(1) =~= Seq::<RlView>::empty());
        assert(rl_list_enc(Seq::<RlView>::empty()) == Seq::<u8>::empty());
        assert(rl_list_enc(vs.push(v)) =~= rl_enc(v));
        assert(rl_list_enc(vs) + rl_enc(v) =~= rl_enc(v));
    } else {
        assert(vs.push(v).skip(1) =~= vs.skip(1).push(v));
        assert(vs.push(v)[0] == vs[0]);
        lemma_rl_list_enc_push(vs.skip(1), v);
        assert(rl_list_enc(vs.push(v)) =~= rl_list_enc(vs) + rl_enc(v));
    }
}

pub proof fn lemma_rl_list_parse_enc(vs: Seq<RlView>, rest: Seq<u8>)
    requires
        forall|j: int| 0 <= j < vs.len() ==> rl_wf(#[trigger] vs[j]),
    ensures
        parse_rl_list(rl_list_enc(vs) + rest, vs.len()) == Ok::<(Seq<RlView>, int), DecodeError>((
            vs,
            rl_list_enc(vs).len() as int,
        )),
    decreases vs.len(),
{
    if vs.len() == 0 {
        assert(rl_list_enc(vs) =~= Seq::<u8>::empty());
        assert(vs =~= Seq::<RlView>::empty());
    } else {
        let e = rl_enc(vs[0]);
        let etail = rl_list_enc(vs.skip(1));
        let whole = rl_list_enc(vs) + rest;
        assert(whole =~= e + (etail + rest));
        crate::resource::lemma_rl_parse_enc(vs[0], etail + rest);
        assert(whole.skip(e.len() as int) =~= etail + rest);
        assert forall|j: int| 0 <= j < vs.skip(1).len() implies rl_wf(#[trigger] vs.skip(1)[j]) by {
            assert(vs.skip(1)[j] == vs[j + 1]);
        }
        lemma_rl_list_parse_enc(vs.skip(1), rest);
        assert(seq![vs[0]] + vs.skip(1) =~= vs);
    }
}

/// Read `count` identifiers.
pub fn read_rl_list(data: &Vec<u8>, pos: &mut usize, count: u32) -> (r: Result<
    Vec<ResourceLocation>,
    DecodeError,
>)
    requires
        *old(pos) <= data@.len(),
    ensures
        match parse_rl_list(data@.skip(*old(pos) as int), count as nat) {
            Ok((vs, n)) => r matches Ok(rv) && rv@.map_values(|x: ResourceLocation| x@) == vs
                && *final(pos) == *old(pos) + n,
            Err(e) => r matches Err(re) && re == e,
        },
        *old(pos) <= *final(pos) <= data@.len(),
{
    let ghost rest0 = data@.skip(*pos as int);
    let ghost p0 = *pos;
    let mut p = *pos;
    let mut out: Vec<ResourceLocation> = Vec::new();
    let mut k: u32 = 0;
    while k < count
        invariant
            p0 <= p <= data@.len(),
            k <= count,
            p0 == *old(pos),
            *pos == *old(pos),
            rest0 == data@.skip(p0 as int),
            ({
                let cur = parse_rl_list(data@.skip(p as int), (count - k) as nat);
                let whole = parse_rl_list(rest0, count as nat);
                match cur {
                    Ok((vs, n)) => whole == Ok::<(Seq<RlView>, int), DecodeError>(
                        (out@.map_values(|x: ResourceLocation| x@) + vs, (p - p0) + n),
                    ),
                    Err(e) => whole == Err::<(Seq<RlView>, int), DecodeError>(e),
                }
            }),
        decreases count - k,
    {
        let ghost pb = p;
        let ghost s_cur = data@.skip(pb as int);
        let v = match read_resource_location(data, &mut p) {
            Ok(v) => v,
            Err(e) => {
                return Err(e);
            },
        };
        proof {
            assert(data@.skip(p as int) =~= s_cur.skip(p - pb));
            assert(out@.push(v).map_values(|x: ResourceLocation| x@) =~= out@.map_values(
                |x: ResourceLocation| x@,
            ).push(v@));
        }
        let ghost vsum = out@.map_values(|x: ResourceLocation| x@);
        let ghost vv = v@;
        out.push(v);
        k = k + 1;
        proof {
            let cur2 = parse_rl_list(data@.skip(p as int), (count - k) as nat);
            match cur2 {
                Ok((vs2, n2)) => {
                    assert(vsum + (seq![vv] + vs2) =~= vsum.push(vv) + vs2);
                },
                Err(_) => {},
            }
        }
    }
    proof {
        assert(out@.map_values(|x: ResourceLocation| x@) + seq![] =~= out@.map_values(
            |x: ResourceLocation| x@,
        ));
    }
    *pos = p;
    Ok(out)
}

/// Append each identifier in order; succeeds exactly when every
/// identifier fits the string bound.
pub fn write_rl_list(out: &mut Vec<u8>, vs: &Vec<ResourceLocation>) -> (r: Result<
    (),
    EncodeError,
>)
    ensures
        match r {
            Ok(()) => (forall|j: int| 0 <= j < vs@.len() ==> rl_fits((#[trigger] vs@[j])@))
                && final(out)@ == old(out)@ + rl_list_enc(
                vs@.map_values(|x: ResourceLocation| x@),
            ),
            Err(e) => e == EncodeError::LengthExceedsLimit && final(out)@ == old(out)@ && !(
            forall|j: int| 0 <= j < vs@.len() ==> rl_fits((#[trigger] vs@[j])@)),
        },
{
    let ghost vsv = vs@.map_values(|x: ResourceLocation| x@);
    let mut tmp: Vec<u8> = Vec::new();
    let mut i: usize = 0;
    assert(tmp@ =~= rl_list_enc(vsv.take(0int))) by {
        assert(vsv.take(0int) =~= Seq::<RlView>::empty());
    }
    while i < vs.len()
        invariant
            i <= vs@.len(),
            vsv == vs@.map_values(|x: ResourceLocation| x@),
            vsv.len() == vs@.len(),
            tmp@ == rl_list_enc(vsv.take(i as int)),
            forall|j: int| 0 <= j < i ==> rl_fits(#[trigger] vsv[j]),
        decreases vs@.len() - i,
    {
        assert(vs@[i as int]@ == vsv[i as int]);
        match write_resource_location(&mut tmp, &vs[i]) {
            Ok(()) => {},
            Err(_) => {
                return Err(EncodeError::LengthExceedsLimit);
            },
        }
        proof {
            lemma_rl_list_enc_push(vsv.take(i as int), vsv[i as int]);
            assert(vsv.take(i as int + 1) =~= vsv.take(i as int).push(vsv[i as int]));
        }
        i = i + 1;
    }
    assert(vsv.take(vsv.len() as int) =~= vsv);
    proof {
        assert forall|j: int| 0 <= j < vs@.len() implies rl_fits((#[trigger] vs@[j])@) by {
            assert(vs@[j]@ == vsv[j]);
        }
    }
    crate::codec::push_bytes(out, &tmp);
    Ok(())
}

// ---- lists of (identifier, string) pairs ----

pub open spec fn rl_string_enc(v: (RlView, Seq<char>)) -> Seq<u8> {
    rl_enc(v.0) + string_enc(v.1)
}

pub open spec fn rl_string_list_enc(vs: Seq<(RlView, Seq<char>)>) -> Seq<u8>
    decreases vs.len(),
{
    if vs.len() == 0 {
        seq![]
    } else {
        rl_string_enc(vs[0]) + rl_string_list_enc(vs.skip(1))
    }
}

pub open spec fn parse_rl_string(s: Seq<u8>) -> Result<((RlView, Seq<char>), int), DecodeError> {
    match parse_rl(s) {
        Ok((v, n)) => match parse_string(s.skip(n)) {
            Ok((w, n2)) => Ok(((v, w), n + n2)),
            Err(e) => Err(e),
        },
        Err(e) => Err(e),
    }
}

pub open spec fn parse_rl_string_list(s: Seq<u8>, count: nat) -> Result<
    (Seq<(RlView, Seq<char>)>, int),
    DecodeError,
>
    decreases count,
{
    if count == 0 {
        Ok((seq![], 0))
    } else {
        match parse_rl_string(s) {
            Ok((v, n)) => match parse_rl_string_list(s.skip(n), (count - 1) as nat) {
                Ok((vs, n2)) => Ok((seq![v] + vs, n + n2)),
                Err(e) => Err(e),
            },
            Err(e) => Err(e),
        }
    }
}

pub proof fn lemma_rl_string_list_enc_push(vs: Seq<(RlView, Seq<char>)>, v: (RlView, Seq<char>))
    ensures
        rl_string_list_enc(vs.push(v)) == rl_string_list_enc(vs) + rl_string_enc(v),
    decreases vs.len(),
{
    if vs.len() == 0 {
        assert(vs.push(v)[0] == v);
        assert(vs.push(v).skip(1) =~= Seq::<(RlView, Seq<char>)>::empty());
        assert(rl_string_list_enc(Seq::<(RlView, Seq<char>)>::empty()) == Seq::<u8>::empty());
        assert(rl_string_list_enc(vs.push(v)) =~= rl_string_enc(v));
        assert(rl_string_list_enc(vs) + rl_string_enc(v) =~= rl_string_enc(v));
    } else {
        assert(vs.push(v).skip(1) =~= vs.skip(1).push(v));
        assert(vs.push(v)[0] == vs[0]);
        lemma_rl_string_list_enc_push(vs.skip(1), v);
        assert(rl_string_list_enc(vs.push(v)) =~= rl_string_list_enc(vs) + rl_string_enc(v));
    }
}

#[verifier::rlimit(100)]
pub proof fn lemma_rl_string_parse_enc(v: (RlView, Seq<char>), rest: Seq<u8>)
    requires
        rl_wf(v.0),
        string_fits(v.1),
    ensures
        parse_rl_string(rl_string_enc(v) + rest) == Ok::<((RlView, Seq<char>), int), DecodeError>(
            (v, rl_string_enc(v).len() as int),
        ),
{
    let e1 = rl_enc(v.0);
    let e2 = string_enc(v.1);
    let whole = rl_string_enc(v) + rest;
    assert(whole =~= e1 + (e2 + rest));
    crate::resource::lemma_rl_parse_enc(v.0, e2 + rest);
    assert(whole.skip(e1.len() as int) =~= e2 + rest);
    crate::codec::lemma_string_parse_enc(v.1, rest);
    assert((v.0, v.1) == v);
}

pub proof fn lemma_rl_string_list_parse_enc(vs: Seq<(RlView, Seq<char>)>, rest: Seq<u8>)
    requires
        forall|j: int| 0 <= j < vs.len() ==> rl_wf(#[trigger] vs[j].0),
        forall|j: int| 0 <= j < vs.len() ==> string_fits(#[trigger] vs[j].1),
    ensures
        parse_rl_string_list(rl_string_list_enc(vs) + rest, vs.len()) == Ok::<
            (Seq<(RlView, Seq<char>)>, int),
            DecodeError,
        >((vs, rl_string_list_enc(vs).len() as int)),
    decreases vs.len(),
{
    if vs.len() == 0 {
        assert(rl_string_list_enc(vs) =~= Seq::<u8>::empty());
        assert(vs =~= Seq::<(RlView, Seq<char>)>::empty());
    } else {
        let e = rl_string_enc(vs[0]);
        let etail = rl_string_list_enc(vs.skip(1));
        let whole = rl_string_list_enc(vs) + rest;
        assert(whole =~= e + (etail + rest));
        lemma_rl_string_parse_enc(vs[0], etail + rest);
        assert(whole.skip(e.len() as int) =~= etail + rest);
        assert forall|j: int| 0 <= j < vs.skip(1).len() implies rl_wf(#[trigger] vs.skip(1)[j].0)
            && string_fits(vs.skip(1)[j].1) by {
            assert(vs.skip(1)[j] == vs[j + 1]);
        }
        lemma_rl_string_list_parse_enc(vs.skip(1), rest);
        assert(seq![vs[0]] + vs.skip(1) =~= vs);
    }
}

/// Read `count` (identifier, string) pairs.
pub fn read_rl_string_list(data: &Vec<u8>, pos: &mut usize, count: u32) -> (r: Result<
    Vec<(ResourceLocation, String)>,
    DecodeError,
>)
    requires
        *old(pos) <= data@.len(),
    ensures
        match parse_rl_string_list(data@.skip(*old(pos) as int), count as nat) {
            Ok((vs, n)) => r matches Ok(rv) && rv@.map_values(
                |x: (ResourceLocation, String)| (x.0@, x.1@),
            ) == vs && *final(pos) == *old(pos) + n,
            Err(e) => r matches Err(re) && re == e,
        },
        *old(pos) <= *final(pos) <= data@.len(),
{
    let ghost rest0 = data@.skip(*pos as int);
    let ghost p0 = *pos;
    let mut p = *pos;
    let mut out: Vec<(ResourceLocation, String)> = Vec::new();
    let mut k: u32 = 0;
    while k < count
        invariant
            p0 <= p <= data@.len(),
            k <= count,
            p0 == *old(pos),
            *pos == *old(pos),
            rest0 == data@.skip(p0 as int),
            ({
                let cur = parse_rl_string_list(data@.skip(p as int), (count - k) as nat);
                let whole = parse_rl_string_list(rest0, count as nat);
                match cur {
                    Ok((vs, n)) => whole == Ok::<(Seq<(RlView, Seq<char>)>, int), DecodeError>(
                        (
                            out@.map_values(|x: (ResourceLocation, String)| (x.0@, x.1@)) + vs,
                            (p - p0) + n,
                        ),
                    ),
                    Err(e) => whole == Err::<(Seq<(RlView, Seq<char>)>, int), DecodeError>(e),
                }
            }),
        decreases count - k,
    {
        let ghost pb = p;
        let ghost s_cur = data@.skip(pb as int);
        let rl = match read_resource_location(data, &mut p) {
            Ok(v) => v,
            Err(e) => {
                return Err(e);
            },
        };
        proof {
            assert(data@.skip(p as int) =~= s_cur.skip(p - pb));
        }
        let w = match read_string(data, &mut p) {
            Ok(v) => v,
            Err(e) => {
                return Err(e);
            },
        };
        proof {
            assert(data@.skip(p as int) =~= s_cur.skip(p - pb));
        }
        let ghost vv = (rl@, w@);
        proof {
            assert(out@.push((rl, w)).map_values(|x: (ResourceLocation, String)| (x.0@, x.1@))
                =~= out@.map_values(|x: (ResourceLocation, String)| (x.0@, x.1@)).push(vv));
        }
        let ghost vsum = out@.map_values(|x: (ResourceLocation, String)| (x.0@, x.1@));
        out.push((rl, w));
        k = k + 1;
        proof {
            let cur2 = parse_rl_string_list(data@.skip(p as int), (count - k) as nat);
            match cur2 {
                Ok((vs2, n2)) => {
                    assert(vsum + (seq![vv] + vs2) =~= vsum.push(vv) + vs2);
                },
                Err(_) => {},
            }
        }
    }
    proof {
        assert(out@.map_values(|x: (ResourceLocation, String)| (x.0@, x.1@)) + seq![]
            =~= out@.map_values(|x: (ResourceLocation, String)| (x.0@, x.1@)));
    }
    *pos = p;
    Ok(out)
}

/// Append each (identifier, string) pair in order; succeeds exactly
/// when every identifier and string fits the wire bound.
pub fn write_rl_string_list(out: &mut Vec<u8>, vs: &Vec<(ResourceLocation, String)>) -> (r: Result<
    (),
    EncodeError,
>)
    ensures
        match r {
            Ok(()) => (forall|j: int|
                0 <= j < vs@.len() ==> rl_fits((#[trigger] vs@[j]).0@) && string_fits(vs@[j].1@))
                && final(out)@ == old(out)@ + rl_string_list_enc(
                vs@.map_values(|x: (ResourceLocation, String)| (x.0@, x.1@)),
            ),
            Err(e) => e == EncodeError::LengthExceedsLimit && final(out)@ == old(out)@ && !(
            forall|j: int|
                0 <= j < vs@.len() ==> rl_fits((#[trigger] vs@[j]).0@) && string_fits(vs@[j].1@)),
        },
{
    let ghost vsv = vs@.map_values(|x: (ResourceLocation, String)| (x.0@, x.1@));
    let mut tmp: Vec<u8> = Vec::new();
    let mut i: usize = 0;
    assert(tmp@ =~= rl_string_list_enc(vsv.take(0int))) by {
        assert(vsv.take(0int) =~= Seq::<(RlView, Seq<char>)>::empty());
    }
    while i < vs.len()
        invariant
            i <= vs@.len(),
            vsv == vs@.map_values(|x: (ResourceLocation, String)| (x.0@, x.1@)),
            vsv.len() == vs@.len(),
            tmp@ == rl_string_list_enc(vsv.take(i as int)),
            forall|j: int| 0 <= j < i ==> rl_fits((#[trigger] vs@[j]).0@) && string_fits(
                vs@[j].1@,
            ),
        decreases vs@.len() - i,
    {
        let ghost tmp0 = tmp@;
        assert((vs@[i as int].0@, vs@[i as int].1@) == vsv[i as int]);
        match write_resource_location(&mut tmp, &vs[i].0) {
            Ok(()) => {},
            Err(_) => {
                return Err(EncodeError::LengthExceedsLimit);
            },
        }
        match write_string(&mut tmp, &vs[i].1) {
            Ok(()) => {},
            Err(_) => {
                return Err(EncodeError::LengthExceedsLimit);
            },
        }
        proof {
            assert(tmp@ =~= tmp0 + rl_string_enc(vsv[i as int]));
            lemma_rl_string_list_enc_push(vsv.take(i as int), vsv[i as int]);
            assert(vsv.take(i as int + 1) =~= vsv.take(i as int).push(vsv[i as int]));
        }
        i = i + 1;
    }
    assert(vsv.take(vsv.len() as int) =~= vsv);
    crate::codec::push_bytes(out, &tmp);
    Ok(())
}

// ---- lists of (string, (string, string)) entries ----

pub open spec fn string3_enc(v: (Seq<char>, (Seq<char>, Seq<char>))) -> Seq<u8> {
    string_enc(v.0) + string_enc(v.1.0) + string_enc(v.1.1)
}

pub open spec fn string3_list_enc(vs: Seq<(Seq<char>, (Seq<char>, Seq<char>))>) -> Seq<u8>
    decreases vs.len(),
{
    if vs.len() == 0 {
        seq![]
    } else {
        string3_enc(vs[0]) + string3_list_enc(vs.skip(1))
    }
}

pub open spec fn parse_string3(s: Seq<u8>) -> Result<
    ((Seq<char>, (Seq<char>, Seq<char>)), int),
    DecodeError,
> {
    match parse_string(s) {
        Ok((a, n1)) => match parse_string(s.skip(n1)) {
            Ok((b, n2)) => match parse_string(s.skip(n1 + n2)) {
                Ok((c, n3)) => Ok(((a, (b, c)), n1 + n2 + n3)),
                Err(e) => Err(e),
            },
            Err(e) => Err(e),
        },
        Err(e) => Err(e),
    }
}

pub open spec fn parse_string3_list(s: Seq<u8>, count: nat) -> Result<
    (Seq<(Seq<char>, (Seq<char>, Seq<char>))>, int),
    DecodeError,
>
    decreases count,
{
    if count == 0 {
        Ok((seq![], 0))
    } else {
        match parse_string3(s) {
            Ok((v, n)) => match parse_string3_list(s.skip(n), (count - 1) as nat) {
                Ok((vs, n2)) => Ok((seq![v] + vs, n + n2)),
                Err(e) => Err(e),
            },
            Err(e) => Err(e),
        }
    }
}

pub proof fn lemma_string3_list_enc_push(
    vs: Seq<(Seq<char>, (Seq<char>, Seq<char>))>,
    v: (Seq<char>, (Seq<char>, Seq<char>)),
)
    ensures
        string3_list_enc(vs.push(v)) == string3_list_enc(vs) + string3_enc(v),
    decreases vs.len(),
{
    if vs.len() == 0 {
        assert(vs.push(v)[0] == v);
        assert(vs.push(v).skip(1) =~= Seq::<(Seq<char>, (Seq<char>, Seq<char>))>::empty());
        assert(string3_list_enc(Seq::<(Seq<char>, (Seq<char>, Seq<char>))>::empty())
            == Seq::<u8>::empty());
        assert(string3_list_enc(vs.push(v)) =~= string3_enc(v));
        assert(string3_list_enc(vs) + string3_enc(v) =~= string3_enc(v));
    } else {
        assert(vs.push(v).skip(1) =~= vs.skip(1).push(v));
        assert(vs.push(v)[0] == vs[0]);
        lemma_string3_list_enc_push(vs.skip(1), v);
        assert(string3_list_enc(vs.push(v)) =~= string3_list_enc(vs) + string3_enc(v));
    }
}

#[verifier::rlimit(100)]
pub proof fn lemma_string3_parse_enc(v: (Seq<char>, (Seq<char>, Seq<char>)), rest: Seq<u8>)
    requires
        string_fits(v.0),
        string_fits(v.1.0),
        string_fits(v.1.1),
    ensures
        parse_string3(string3_enc(v) + rest) == Ok::<
            ((Seq<char>, (Seq<char>, Seq<char>)), int),
            DecodeError,
        >((v, string3_enc(v).len() as int)),
{
    let e1 = string_enc(v.0);
    let e2 = string_enc(v.1.0);
    let e3 = string_enc(v.1.1);
    let whole = string3_enc(v) + rest;
    assert(whole =~= e1 + (e2 + (e3 + rest)));
    crate::codec::lemma_string_parse_enc(v.0, e2 + (e3 + rest));
    assert(whole.skip(e1.len() as int) =~= e2 + (e3 + rest));
    crate::codec::lemma_string_parse_enc(v.1.0, e3 + rest);
    assert(whole.skip(e1.len() as int + e2.len() as int) =~= e3 + rest);
    crate::codec::lemma_string_parse_enc(v.1.1, rest);
    assert((v.0, (v.1.0, v.1.1)) == v);
}

#[verifier::spinoff_prover]
#[verifier::rlimit(100)]
pub proof fn lemma_string3_list_parse_enc(vs: Seq<(Seq<char>, (Seq<char>, Seq<char>))>, rest: Seq<u8>)
    requires
        forall|j: int| 0 <= j < vs.len() ==> string_fits(#[trigger] vs[j].0) && string_fits(
            vs[j].1.0,
        ) && string_fits(vs[j].1.1),
    ensures
        parse_string3_list(string3_list_enc(vs) + rest, vs.len()) == Ok::<
            (Seq<(Seq<char>, (Seq<char>, Seq<char>))>, int),
            DecodeError,
        >((vs, string3_list_enc(vs).len() as int)),
    decreases vs.len(),
{
    if vs.len() == 0 {
        assert(string3_list_enc(vs) =~= Seq::<u8>::empty());
        assert(vs =~= Seq::<(Seq<char>, (Seq<char>, Seq<char>))>::empty());
    } else {
        let e = string3_enc(vs[0]);
        let etail = string3_list_enc(vs.skip(1));
        let whole = string3_list_enc(vs) + rest;
        assert(whole =~= e + (etail + rest));
        lemma_string3_parse_enc(vs[0], etail + rest);
        assert(whole.skip(e.len() as int) =~= etail + rest);
        assert forall|j: int| 0 <= j < vs.skip(1).len() implies string_fits(
            #[trigger] vs.skip(1)[j].0,
        ) && string_fits(vs.skip(1)[j].1.0) && string_fits(vs.skip(1)[j].1.1) by {
            assert(vs.skip(1)[j] == vs[j + 1]);
        }
        lemma_string3_list_parse_enc(vs.skip(1), rest);
        assert(seq![vs[0]] + vs.skip(1) =~= vs);
    }
}

/// Read `count` (string, (string, string)) entries.
pub fn read_string3_list(data: &Vec<u8>, pos: &mut usize, count: u32) -> (r: Result<
    Vec<(String, (String, String))>,
    DecodeError,
>)
    requires
        *old(pos) <= data@.len(),
    ensures
        match parse_string3_list(data@.skip(*old(pos) as int), count as nat) {
            Ok((vs, n)) => r matches Ok(rv) && rv@.map_values(
                |x: (String, (String, String))| (x.0@, (x.1.0@, x.1.1@)),
            ) == vs && *final(pos) == *old(pos) + n,
            Err(e) => r matches Err(re) && re == e,
        },
        *old(pos) <= *final(pos) <= data@.len(),
{
    let ghost rest0 = data@.skip(*pos as int);
    let ghost p0 = *pos;
    let mut p = *pos;
    let mut out: Vec<(String, (String, String))> = Vec::new();
    let mut k: u32 = 0;
    while k < count
        invariant
            p0 <= p <= data@.len(),
            k <= count,
            p0 == *old(pos),
            *pos == *old(pos),
            rest0 == data@.skip(p0 as int),
            ({
                let cur = parse_string3_list(data@.skip(p as int), (count - k) as nat);
                let whole = parse_string3_list(rest0, count as nat);
                match cur {
                    Ok((vs, n)) => whole == Ok::<
                        (Seq<(Seq<char>, (Seq<char>, Seq<char>))>, int),
                        DecodeError,
                    >(
                        (
                            out@.map_values(
                                |x: (String, (String, String))| (x.0@, (x.1.0@, x.1.1@)),
                            ) + vs,
                            (p - p0) + n,
                        ),
                    ),
                    Err(e) => whole == Err::<
                        (Seq<(Seq<char>, (Seq<char>, Seq<char>))>, int),
                        DecodeError,
                    >(e),
                }
            }),
        decreases count - k,
    {
        let ghost pb = p;
        let ghost s_cur = data@.skip(pb as int);
        let a = match read_string(data, &mut p) {
            Ok(v) => v,
            Err(e) => {
                return Err(e);
            },
        };
        proof {
            assert(data@.skip(p as int) =~= s_cur.skip(p - pb));
        }
        let b = match read_string(data, &mut p) {
            Ok(v) => v,
            Err(e) => {
                return Err(e);
            },
        };
        proof {
            assert(data@.skip(p as int) =~= s_cur.skip(p - pb));
        }
        let c = match read_string(data, &mut p) {
            Ok(v) => v,
            Err(e) => {
                return Err(e);
            },
        };
        proof {
            assert(data@.skip(p as int) =~= s_cur.skip(p - pb));
        }
        let ghost vv = (a@, (b@, c@));
        proof {
            assert(out@.push((a, (b, c))).map_values(
                |x: (String, (String, String))| (x.0@, (x.1.0@, x.1.1@)),
            ) =~= out@.map_values(
                |x: (String, (String, String))| (x.0@, (x.1.0@, x.1.1@)),
            ).push(vv));
        }
        let ghost vsum = out@.map_values(|x: (String, (String, String))| (x.0@, (x.1.0@, x.1.1@)));
        out.push((a, (b, c)));
        k = k + 1;
        proof {
            let cur2 = parse_string3_list(data@.skip(p as int), (count - k) as nat);
            match cur2 {
                Ok((vs2, n2)) => {
                    assert(vsum + (seq![vv] + vs2) =~= vsum.push(vv) + vs2);
                },
                Err(_) => {},
            }
        }
    }
    proof {
        assert(out@.map_values(|x: (String, (String, String))| (x.0@, (x.1.0@, x.1.1@))) + seq![]
            =~= out@.map_values(|x: (String, (String, String))| (x.0@, (x.1.0@, x.1.1@))));
    }
    *pos = p;
    Ok(out)
}

/// Append each (string, (string, string)) entry in order; succeeds
/// exactly when every string fits the wire bound.
pub fn write_string3_list(out: &mut Vec<u8>, vs: &Vec<(String, (String, String))>) -> (r: Result<
    (),
    EncodeError,
>)
    ensures
        match r {
            Ok(()) => (forall|j: int|
                0 <= j < vs@.len() ==> string_fits((#[trigger] vs@[j]).0@) && string_fits(
                    vs@[j].1.0@,
                ) && string_fits(vs@[j].1.1@)) && final(out)@ == old(out)@ + string3_list_enc(
                vs@.map_values(|x: (String, (String, String))| (x.0@, (x.1.0@, x.1.1@))),
            ),
            Err(e) => e == EncodeError::LengthExceedsLimit && final(out)@ == old(out)@ && !(
            forall|j: int|
                0 <= j < vs@.len() ==> string_fits((#[trigger] vs@[j]).0@) && string_fits(
                    vs@[j].1.0@,
                ) && string_fits(vs@[j].1.1@)),
        },
{
    let ghost vsv = vs@.map_values(|x: (String, (String, String))| (x.0@, (x.1.0@, x.1.1@)));
    let mut tmp: Vec<u8> = Vec::new();
    let mut i: usize = 0;
    assert(tmp@ =~= string3_list_enc(vsv.take(0int))) by {
        assert(vsv.take(0int) =~= Seq::<(Seq<char>, (Seq<char>, Seq<char>))>::empty());
    }
    while i < vs.len()
        invariant
            i <= vs@.len(),
            vsv == vs@.map_values(|x: (String, (String, String))| (x.0@, (x.1.0@, x.1.1@))),
            vsv.len() == vs@.len(),
            tmp@ == string3_list_enc(vsv.take(i as int)),
            forall|j: int| 0 <= j < i ==> string_fits((#[trigger] vs@[j]).0@) && string_fits(
                vs@[j].1.0@,
            ) && string_fits(vs@[j].1.1@),
        decreases vs@.len() - i,
    {
        let ghost tmp0 = tmp@;
        assert((vs@[i as int].0@, (vs@[i as int].1.0@, vs@[i as int].1.1@)) == vsv[i as int]);
        match write_string(&mut tmp, &vs[i].0) {
            Ok(()) => {},
            Err(_) => {
                return Err(EncodeError::LengthExceedsLimit);
            },
        }
        match write_string(&mut tmp, &vs[i].1.0) {
            Ok(()) => {},
            Err(_) => {
                return Err(EncodeError::LengthExceedsLimit);
            },
        }
        match write_string(&mut tmp, &vs[i].1.1) {
            Ok(()) => {},
            Err(_) => {
                return Err(EncodeError::LengthExceedsLimit);
            },
        }
        proof {
            assert(tmp@ =~= tmp0 + string3_enc(vsv[i as int]));
            lemma_string3_list_enc_push(vsv.take(i as int), vsv[i as int]);
            assert(vsv.take(i as int + 1) =~= vsv.take(i as int).push(vsv[i as int]));
        }
        i = i + 1;
    }
    assert(vsv.take(vsv.len() as int) =~= vsv);
    crate::codec::push_bytes(out, &tmp);
    Ok(())
}

// ---- lists of varint-encoded 32-bit values ----

pub open spec fn u32var_list_enc(vs: Seq<u32>) -> Seq<u8>
    decreases vs.len(),
{
    if vs.len() == 0 {
        seq![]
    } else {
        varint_enc(vs[0] as nat) + u32var_list_enc(vs.skip(1))
    }
}

pub open spec fn parse_u32var_list(s: Seq<u8>, count: nat) -> Result<(Seq<u32>, int), DecodeError>
    decreases count,
{
    if count == 0 {
        Ok((seq![], 0))
    } else {
        match parse_varint_u32(s) {
            Ok((v, n)) => match parse_u32var_list(s.skip(n), (count - 1) as nat) {
                Ok((vs, n2)) => Ok((seq![v] + vs, n + n2)),
                Err(e) => Err(e),
            },
            Err(e) => Err(e),
        }
    }
}

pub proof fn lemma_u32var_list_enc_push(vs: Seq<u32>, v: u32)
    ensures
        u32var_list_enc(vs.push(v)) == u32var_list_enc(vs) + varint_enc(v as nat),
    decreases vs.len(),
{
    if vs.len() == 0 {
        assert(vs.push(v)[0] == v);
        assert(vs.push(v).skip(1) =~= Seq::<u32>::empty());
        assert(u32var_list_enc(Seq::<u32>::empty()) == Seq::<u8>::empty());
        assert(u32var_list_enc(vs.push(v)) =~= varint_enc(v as nat));
        assert(u32var_list_enc(vs) + varint_enc(v as nat) =~= varint_enc(v as nat));
    } else {
        assert(vs.push(v).skip(1) =~= vs.skip(1).push(v));
        assert(vs.push(v)[0] == vs[0]);
        lemma_u32var_list_enc_push(vs.skip(1), v);
        assert(u32var_list_enc(vs.push(v)) =~= u32var_list_enc(vs) + varint_enc(v as nat));
    }
}

pub proof fn lemma_u32var_list_parse_enc(vs: Seq<u32>, rest: Seq<u8>)
    ensures
        parse_u32var_list(u32var_list_enc(vs) + rest, vs.len()) == Ok::<
            (Seq<u32>, int),
            DecodeError,
        >((vs, u32var_list_enc(vs).len() as int)),
    decreases vs.len(),
{
    if vs.len() == 0 {
        assert(u32var_list_enc(vs) =~= Seq::<u8>::empty());
        assert(vs =~= Seq::<u32>::empty());
    } else {
        let e = varint_enc(vs[0] as nat);
        let etail = u32var_list_enc(vs.skip(1));
        let whole = u32var_list_enc(vs) + rest;
        assert(whole =~= e + (etail + rest));
        crate::varint::lemma_varint_u32_roundtrip(vs[0], etail + rest);
        assert(whole.skip(e.len() as int) =~= etail + rest);
        lemma_u32var_list_parse_enc(vs.skip(1), rest);
        assert(seq![vs[0]] + vs.skip(1) =~= vs);
    }
}

/// Read `count` varint-encoded values.
pub fn read_u32var_list(data: &Vec<u8>, pos: &mut usize, count: u32) -> (r: Result<
    Vec<u32>,
    DecodeError,
>)
    requires
        *old(pos) <= data@.len(),
    ensures
        match parse_u32var_list(data@.skip(*old(pos) as int), count as nat) {
            Ok((vs, n)) => r matches Ok(rv) && rv@ == vs && *final(pos) == *old(pos) + n,
            Err(e) => r matches Err(re) && re == e,
        },
        *old(pos) <= *final(pos) <= data@.len(),
{
    let ghost rest0 = data@.skip(*pos as int);
    let ghost p0 = *pos;
    let mut p = *pos;
    let mut out: Vec<u32> = Vec::new();
    let mut k: u32 = 0;
    while k < count
        invariant
            p0 <= p <= data@.len(),
            k <= count,
            p0 == *old(pos),
            *pos == *old(pos),
            rest0 == data@.skip(p0 as int),
            ({
                let cur = parse_u32var_list(data@.skip(p as int), (count - k) as nat);
                let whole = parse_u32var_list(rest0, count as nat);
                match cur {
                    Ok((vs, n)) => whole == Ok::<(Seq<u32>, int), DecodeError>(
                        (out@ + vs, (p - p0) + n),
                    ),
                    Err(e) => whole == Err::<(Seq<u32>, int), DecodeError>(e),
                }
            }),
        decreases count - k,
    {
        let ghost pb = p;
        let ghost s_cur = data@.skip(pb as int);
        let v = match read_varint_u32(data, &mut p) {
            Ok(v) => v,
            Err(e) => {
                return Err(e);
            },
        };
        proof {
            assert(data@.skip(p as int) =~= s_cur.skip(p - pb));
        }
        let ghost vsum = out@;
        out.push(v);
        k = k + 1;
        proof {
            let cur2 = parse_u32var_list(data@.skip(p as int), (count - k) as nat);
            match cur2 {
                Ok((vs2, n2)) => {
                    assert(vsum + (seq![v] + vs2) =~= vsum.push(v) + vs2);
                },
                Err(_) => {},
            }
        }
    }
    proof {
        assert(out@ + seq![] =~= out@);
    }
    *pos = p;
    Ok(out)
}

/// Append each value's varint form in order; this cannot fail.
pub fn write_u32var_list(out: &mut Vec<u8>, vs: &Vec<u32>)
    ensures
        final(out)@ == old(out)@ + u32var_list_enc(vs@),
{
    let mut i: usize = 0;
    let ghost before = out@;
    assert(out@ =~= before + u32var_list_enc(vs@.take(0int))) by {
        assert(vs@.take(0int) =~= Seq::<u32>::empty());
    }
    while i < vs.len()
        invariant
            i <= vs@.len(),
            out@ == before + u32var_list_enc(vs@.take(i as int)),
        decreases vs@.len() - i,
    {
        write_varint_u32(out, vs[i]);
        proof {
            lemma_u32var_list_enc_push(vs@.take(i as int), vs@[i as int]);
            assert(vs@.take(i as int + 1) =~= vs@.take(i as int).push(vs@[i as int]));
        }
        i = i + 1;
    }
    assert(vs@.take(vs@.len() as int) =~= vs@);
}

// ---- lists of (identifier, varint value) pairs ----

pub open spec fn rl_u32_enc(v: (RlView, u32)) -> Seq<u8> {
    rl_enc(v.0) + varint_enc(v.1 as nat)
}

pub open spec fn rl_u32_list_enc(vs: Seq<(RlView, u32)>) -> Seq<u8>
    decreases vs.len(),
{
    if vs.len() == 0 {
        seq![]
    } else {
        rl_u32_enc(vs[0]) + rl_u32_list_enc(vs.skip(1))
    }
}

pub open spec fn parse_rl_u32(s: Seq<u8>) -> Result<((RlView, u32), int), DecodeError> {
    match parse_rl(s) {
        Ok((v, n)) => match parse_varint_u32(s.skip(n)) {
            Ok((w, n2)) => Ok(((v, w), n + n2)),
            Err(e) => Err(e),
        },
        Err(e) => Err(e),
    }
}

pub open spec fn parse_rl_u32_list(s: Seq<u8>, count: nat) -> Result<
    (Seq<(RlView, u32)>, int),
    DecodeError,
>
    decreases count,
{
    if count == 0 {
        Ok((seq![], 0))
    } else {
        match parse_rl_u32(s) {
            Ok((v, n)) => match parse_rl_u32_list(s.skip(n), (count - 1) as nat) {
                Ok((vs, n2)) => Ok((seq![v] + vs, n + n2)),
                Err(e) => Err(e),
            },
            Err(e) => Err(e),
        }
    }
}

pub proof fn lemma_rl_u32_list_enc_push(vs: Seq<(RlView, u32)>, v: (RlView, u32))
    ensures
        rl_u32_list_enc(vs.push(v)) == rl_u32_list_enc(vs) + rl_u32_enc(v),
    decreases vs.len(),
{
    if vs.len() == 0 {
        assert(vs.push(v)[0] == v);
        assert(vs.push(v).skip(1) =~= Seq::<(RlView, u32)>::empty());
        assert(rl_u32_list_enc(Seq::<(RlView, u32)>::empty()) == Seq::<u8>::empty());
        assert(rl_u32_list_enc(vs.push(v)) =~= rl_u32_enc(v));
        assert(rl_u32_list_enc(vs) + rl_u32_enc(v) =~= rl_u32_enc(v));
    } else {
        assert(vs.push(v).skip(1) =~= vs.skip(1).push(v));
        assert(vs.push(v)[0] == vs[0]);
        lemma_rl_u32_list_enc_push(vs.skip(1), v);
        assert(rl_u32_list_enc(vs.push(v)) =~= rl_u32_list_enc(vs) + rl_u32_enc(v));
    }
}

#[verifier::rlimit(100)]
pub proof fn lemma_rl_u32_parse_enc(v: (RlView, u32), rest: Seq<u8>)
    requires
        rl_wf(v.0),
    ensures
        parse_rl_u32(rl_u32_enc(v) + rest) == Ok::<((RlView, u32), int), DecodeError>((
            v,
            rl_u32_enc(v).len() as int,
        )),
{
    let e1 = rl_enc(v.0);
    let whole = rl_u32_enc(v) + rest;
    assert(whole =~= e1 + (varint_enc(v.1 as nat) + rest));
    crate::resource::lemma_rl_parse_enc(v.0, varint_enc(v.1 as nat) + rest);
    assert(whole.skip(e1.len() as int) =~= varint_enc(v.1 as nat) + rest);
    crate::varint::lemma_varint_u32_roundtrip(v.1, rest);
    assert((v.0, v.1) == v);
}

pub proof fn lemma_rl_u32_list_parse_enc(vs: Seq<(RlView, u32)>, rest: Seq<u8>)
    requires
        forall|j: int| 0 <= j < vs.len() ==> rl_wf(#[trigger] vs[j].0),
    ensures
        parse_rl_u32_list(rl_u32_list_enc(vs) + rest, vs.len()) == Ok::<
            (Seq<(RlView, u32)>, int),
            DecodeError,
        >((vs, rl_u32_list_enc(vs).len() as int)),
    decreases vs.len(),
{
    if vs.len() == 0 {
        assert(rl_u32_list_enc(vs) =~= Seq::<u8>::empty());
        assert(vs =~= Seq::<(RlView, u32)>::empty());
    } else {
        let e = rl_u32_enc(vs[0]);
        let etail = rl_u32_list_enc(vs.skip(1));
        let whole = rl_u32_list_enc(vs) + rest;
        assert(whole =~= e + (etail + rest));
        lemma_rl_u32_parse_enc(vs[0], etail + rest);
        assert(whole.skip(e.len() as int) =~= etail + rest);
        assert forall|j: int| 0 <= j < vs.skip(1).len() implies rl_wf(
            #[trigger] vs.skip(1)[j].0,
        ) by {
            assert(vs.skip(1)[j] == vs[j + 1]);
        }
        lemma_rl_u32_list_parse_enc(vs.skip(1), rest);
        assert(seq![vs[0]] + vs.skip(1) =~= vs);
    }
}

/// Read `count` (identifier, varint value) pairs.
pub fn read_rl_u32_list(data: &Vec<u8>, pos: &mut usize, count: u32) -> (r: Result<
    Vec<(ResourceLocation, u32)>,
    DecodeError,
>)
    requires
        *old(pos) <= data@.len(),
    ensures
        match parse_rl_u32_list(data@.skip(*old(pos) as int), count as nat) {
            Ok((vs, n)) => r matches Ok(rv) && rv@.map_values(
                |x: (ResourceLocation, u32)| (x.0@, x.1),
            ) == vs && *final(pos) == *old(pos) + n,
            Err(e) => r matches Err(re) && re == e,
        },
        *old(pos) <= *final(pos) <= data@.len(),
{
    let ghost rest0 = data@.skip(*pos as int);
    let ghost p0 = *pos;
    let mut p = *pos;
    let mut out: Vec<(ResourceLocation, u32)> = Vec::new();
    let mut k: u32 = 0;
    while k < count
        invariant
            p0 <= p <= data@.len(),
            k <= count,
            p0 == *old(pos),
            *pos == *old(pos),
            rest0 == data@.skip(p0 as int),
            ({
                let cur = parse_rl_u32_list(data@.skip(p as int), (count - k) as nat);
                let whole = parse_rl_u32_list(rest0, count as nat);
                match cur {
                    Ok((vs, n)) => whole == Ok::<(Seq<(RlView, u32)>, int), DecodeError>(
                        (
                            out@.map_values(|x: (ResourceLocation, u32)| (x.0@, x.1)) + vs,
                            (p - p0) + n,
                        ),
                    ),
                    Err(e) => whole == Err::<(Seq<(RlView, u32)>, int), DecodeError>(e),
                }
            }),
        decreases count - k,
    {
        let ghost pb = p;
        let ghost s_cur = data@.skip(pb as int);
        let rl = match read_resource_location(data, &mut p) {
            Ok(v) => v,
            Err(e) => {
                return Err(e);
            },
        };
        proof {
            assert(data@.skip(p as int) =~= s_cur.skip(p - pb));
        }
        let w = match read_varint_u32(data, &mut p) {
            Ok(v) => v,
            Err(e) => {
                return Err(e);
            },
        };
        proof {
            assert(data@.skip(p as int) =~= s_cur.skip(p - pb));
        }
        let ghost vv = (rl@, w);
        proof {
            assert(out@.push((rl, w)).map_values(|x: (ResourceLocation, u32)| (x.0@, x.1))
                =~= out@.map_values(|x: (ResourceLocation, u32)| (x.0@, x.1)).push(vv));
        }
        let ghost vsum = out@.map_values(|x: (ResourceLocation, u32)| (x.0@, x.1));
        out.push((rl, w));
        k = k + 1;
        proof {
            let cur2 = parse_rl_u32_list(data@.skip(p as int), (count - k) as nat);
            match cur2 {
                Ok((vs2, n2)) => {
                    assert(vsum + (seq![vv] + vs2) =~= vsum.push(vv) + vs2);
                },
                Err(_) => {},
            }
        }
    }
    proof {
        assert(out@.map_values(|x: (ResourceLocation, u32)| (x.0@, x.1)) + seq![]
            =~= out@.map_values(|x: (ResourceLocation, u32)| (x.0@, x.1)));
    }
    *pos = p;
    Ok(out)
}

/// Append each (identifier, varint value) pair in order; succeeds
/// exactly when every identifier fits the string bound.
pub fn write_rl_u32_list(out: &mut Vec<u8>, vs: &Vec<(ResourceLocation, u32)>) -> (r: Result<
    (),
    EncodeError,
>)
    ensures
        match r {
            Ok(()) => (forall|j: int| 0 <= j < vs@.len() ==> rl_fits((#[trigger] vs@[j]).0@))
                && final(out)@ == old(out)@ + rl_u32_list_enc(
                vs@.map_values(|x: (ResourceLocation, u32)| (x.0@, x.1)),
            ),
            Err(e) => e == EncodeError::LengthExceedsLimit && final(out)@ == old(out)@ && !(
            forall|j: int| 0 <= j < vs@.len() ==> rl_fits((#[trigger] vs@[j]).0@)),
        },
{
    let ghost vsv = vs@.map_values(|x: (ResourceLocation, u32)| (x.0@, x.1));
    let mut tmp: Vec<u8> = Vec::new();
    let mut i: usize = 0;
    assert(tmp@ =~= rl_u32_list_enc(vsv.take(0int))) by {
        assert(vsv.take(0int) =~= Seq::<(RlView, u32)>::empty());
    }
    while i < vs.len()
        invariant
            i <= vs@.len(),
            vsv == vs@.map_values(|x: (ResourceLocation, u32)| (x.0@, x.1)),
            vsv.len() == vs@.len(),
            tmp@ == rl_u32_list_enc(vsv.take(i as int)),
            forall|j: int| 0 <= j < i ==> rl_fits((#[trigger] vs@[j]).0@),
        decreases vs@.len() - i,
    {
        let ghost tmp0 = tmp@;
        assert((vs@[i as int].0@, vs@[i as int].1) == vsv[i as int]);
        match write_resource_location(&mut tmp, &vs[i].0) {
            Ok(()) => {},
            Err(_) => {
                return Err(EncodeError::LengthExceedsLimit);
            },
        }
        write_varint_u32(&mut tmp, vs[i].1);
        proof {
            assert(tmp@ =~= tmp0 + rl_u32_enc(vsv[i as int]));
            lemma_rl_u32_list_enc_push(vsv.take(i as int), vsv[i as int]);
            assert(vsv.take(i as int + 1) =~= vsv.take(i as int).push(vsv[i as int]));
        }
        i = i + 1;
    }
    assert(vsv.take(vsv.len() as int) =~= vsv);
    crate::codec::push_bytes(out, &tmp);
    Ok(())
}

// ---- lists of (identifier, identifier) pairs ----

pub open spec fn rl_pair_enc(v: (RlView, RlView)) -> Seq<u8> {
    rl_enc(v.0) + rl_enc(v.1)
}

pub open spec fn rl_pair_list_enc(vs: Seq<(RlView, RlView)>) -> Seq<u8>
    decreases vs.len(),
{
    if vs.len() == 0 {
        seq![]
    } else {
        rl_pair_enc(vs[0]) + rl_pair_list_enc(vs.skip(1))
    }
}

pub open spec fn parse_rl_pair(s: Seq<u8>) -> Result<((RlView, RlView), int), DecodeError> {
    match parse_rl(s) {
        Ok((v, n)) => match parse_rl(s.skip(n)) {
            Ok((w, n2)) => Ok(((v, w), n + n2)),
            Err(e) => Err(e),
        },
        Err(e) => Err(e),
    }
}

pub open spec fn parse_rl_pair_list(s: Seq<u8>, count: nat) -> Result<
    (Seq<(RlView, RlView)>, int),
    DecodeError,
>
    decreases count,
{
    if count == 0 {
        Ok((seq![], 0))
    } else {
        match parse_rl_pair(s) {
            Ok((v, n)) => match parse_rl_pair_list(s.skip(n), (count - 1) as nat) {
                Ok((vs, n2)) => Ok((seq![v] + vs, n + n2)),
                Err(e) => Err(e),
            },
            Err(e) => Err(e),
        }
    }
}

pub proof fn lemma_rl_pair_list_enc_push(vs: Seq<(RlView, RlView)>, v: (RlView, RlView))
    ensures
        rl_pair_list_enc(vs.push(v)) == rl_pair_list_enc(vs) + rl_pair_enc(v),
    decreases vs.len(),
{
    if vs.len() == 0 {
        assert(vs.push(v)[0] == v);
        assert(vs.push(v).skip(1) =~= Seq::<(RlView, RlView)>::empty());
        assert(rl_pair_list_enc(Seq::<(RlView, RlView)>::empty()) == Seq::<u8>::empty());
        assert(rl_pair_list_enc(vs.push(v)) =~= rl_pair_enc(v));
        assert(rl_pair_list_enc(vs) + rl_pair_enc(v) =~= rl_pair_enc(v));
    } else {
        assert(vs.push(v).skip(1) =~= vs.skip(1).push(v));
        assert(vs.push(v)[0] == vs[0]);
        lemma_rl_pair_list_enc_push(vs.skip(1), v);
        assert(rl_pair_list_enc(vs.push(v)) =~= rl_pair_list_enc(vs) + rl_pair_enc(v));
    }
}

#[verifier::rlimit(100)]
pub proof fn lemma_rl_pair_parse_enc(v: (RlView, RlView), rest: Seq<u8>)
    requires
        rl_wf(v.0),
        rl_wf(v.1),
    ensures
        parse_rl_pair(rl_pair_enc(v) + rest) == Ok::<((RlView, RlView), int), DecodeError>((
            v,
            rl_pair_enc(v).len() as int,
        )),
{
    let e1 = rl_enc(v.0);
    let whole = rl_pair_enc(v) + rest;
    assert(whole =~= e1 + (rl_enc(v.1) + rest));
    crate::resource::lemma_rl_parse_enc(v.0, rl_enc(v.1) + rest);
    assert(whole.skip(e1.len() as int) =~= rl_enc(v.1) + rest);
    crate::resource::lemma_rl_parse_enc(v.1, rest);
    assert((v.0, v.1) == v);
}

pub proof fn lemma_rl_pair_list_parse_enc(vs: Seq<(RlView, RlView)>, rest: Seq<u8>)
    requires
        forall|j: int| 0 <= j < vs.len() ==> rl_wf(#[trigger] vs[j].0) && rl_wf(vs[j].1),
    ensures
        parse_rl_pair_list(rl_pair_list_enc(vs) + rest, vs.len()) == Ok::<
            (Seq<(RlView, RlView)>, int),
            DecodeError,
        >((vs, rl_pair_list_enc(vs).len() as int)),
    decreases vs.len(),
{
    if vs.len() == 0 {
        assert(rl_pair_list_enc(vs) =~= Seq::<u8>::empty());
        assert(vs =~= Seq::<(RlView, RlView)>::empty());
    } else {
        let e = rl_pair_enc(vs[0]);
        let etail = rl_pair_list_enc(vs.skip(1));
        let whole = rl_pair_list_enc(vs) + rest;
        assert(whole =~= e + (etail + rest));
        lemma_rl_pair_parse_enc(vs[0], etail + rest);
        assert(whole.skip(e.len() as int) =~= etail + rest);
        assert forall|j: int| 0 <= j < vs.skip(1).len() implies rl_wf(#[trigger] vs.skip(1)[j].0)
            && rl_wf(vs.skip(1)[j].1) by {
            assert(vs.skip(1)[j] == vs[j + 1]);
        }
        lemma_rl_pair_list_parse_enc(vs.skip(1), rest);
        assert(seq![vs[0]] + vs.skip(1) =~= vs);
    }
}

/// Read `count` (identifier, identifier) pairs.
pub fn read_rl_pair_list(data: &Vec<u8>, pos: &mut usize, count: u32) -> (r: Result<
    Vec<(ResourceLocation, ResourceLocation)>,
    DecodeError,
>)
    requires
        *old(pos) <= data@.len(),
    ensures
        match parse_rl_pair_list(data@.skip(*old(pos) as int), count as nat) {
            Ok((vs, n)) => r matches Ok(rv) && rv@.map_values(
                |x: (ResourceLocation, ResourceLocation)| (x.0@, x.1@),
            ) == vs && *final(pos) == *old(pos) + n,
            Err(e) => r matches Err(re) && re == e,
        },
        *old(pos) <= *final(pos) <= data@.len(),
{
    let ghost rest0 = data@.skip(*pos as int);
    let ghost p0 = *pos;
    let mut p = *pos;
    let mut out: Vec<(ResourceLocation, ResourceLocation)> = Vec::new();
    let mut k: u32 = 0;
    while k < count
        invariant
            p0 <= p <= data@.len(),
            k <= count,
            p0 == *old(pos),
            *pos == *old(pos),
            rest0 == data@.skip(p0 as int),
            ({
                let cur = parse_rl_pair_list(data@.skip(p as int), (count - k) as nat);
                let whole = parse_rl_pair_list(rest0, count as nat);
                match cur {
                    Ok((vs, n)) => whole == Ok::<(Seq<(RlView, RlView)>, int), DecodeError>(
                        (
                            out@.map_values(
                                |x: (ResourceLocation, ResourceLocation)| (x.0@, x.1@),
                            ) + vs,
                            (p - p0) + n,
                        ),
                    ),
                    Err(e) => whole == Err::<(Seq<(RlView, RlView)>, int), DecodeError>(e),
                }
            }),
        decreases count - k,
    {
        let ghost pb = p;
        let ghost s_cur = data@.skip(pb as int);
        let a = match read_resource_location(data, &mut p) {
            Ok(v) => v,
            Err(e) => {
                return Err(e);
            },
        };
        proof {
            assert(data@.skip(p as int) =~= s_cur.skip(p - pb));
        }
        let b = match read_resource_location(data, &mut p) {
            Ok(v) => v,
            Err(e) => {
                return Err(e);
            },
        };
        proof {
            assert(data@.skip(p as int) =~= s_cur.skip(p - pb));
        }
        let ghost vv = (a@, b@);
        proof {
            assert(out@.push((a, b)).map_values(
                |x: (ResourceLocation, ResourceLocation)| (x.0@, x.1@),
            ) =~= out@.map_values(|x: (ResourceLocation, ResourceLocation)| (x.0@, x.1@)).push(
                vv,
            ));
        }
        let ghost vsum = out@.map_values(|x: (ResourceLocation, ResourceLocation)| (x.0@, x.1@));
        out.push((a, b));
        k = k + 1;
        proof {
            let cur2 = parse_rl_pair_list(data@.skip(p as int), (count - k) as nat);
            match cur2 {
                Ok((vs2, n2)) => {
                    assert(vsum + (seq![vv] + vs2) =~= vsum.push(vv) + vs2);
                },
                Err(_) => {},
            }
        }
    }
    proof {
        assert(out@.map_values(|x: (ResourceLocation, ResourceLocation)| (x.0@, x.1@)) + seq![]
            =~= out@.map_values(|x: (ResourceLocation, ResourceLocation)| (x.0@, x.1@)));
    }
    *pos = p;
    Ok(out)
}

/// Append each (identifier, identifier) pair in order; succeeds exactly
/// when every identifier fits the string bound.
pub fn write_rl_pair_list(
    out: &mut Vec<u8>,
    vs: &Vec<(ResourceLocation, ResourceLocation)>,
) -> (r: Result<(), EncodeError>)
    ensures
        match r {
            Ok(()) => (forall|j: int|
                0 <= j < vs@.len() ==> rl_fits((#[trigger] vs@[j]).0@) && rl_fits(vs@[j].1@))
                && final(out)@ == old(out)@ + rl_pair_list_enc(
                vs@.map_values(|x: (ResourceLocation, ResourceLocation)| (x.0@, x.1@)),
            ),
            Err(e) => e == EncodeError::LengthExceedsLimit && final(out)@ == old(out)@ && !(
            forall|j: int|
                0 <= j < vs@.len() ==> rl_fits((#[trigger] vs@[j]).0@) && rl_fits(vs@[j].1@)),
        },
{
    let ghost vsv = vs@.map_values(|x: (ResourceLocation, ResourceLocation)| (x.0@, x.1@));
    let mut tmp: Vec<u8> = Vec::new();
    let mut i: usize = 0;
    assert(tmp@ =~= rl_pair_list_enc(vsv.take(0int))) by {
        assert(vsv.take(0int) =~= Seq::<(RlView, RlView)>::empty());
    }
    while i < vs.len()
        invariant
            i <= vs@.len(),
            vsv == vs@.map_values(|x: (ResourceLocation, ResourceLocation)| (x.0@, x.1@)),
            vsv.len() == vs@.len(),
            tmp@ == rl_pair_list_enc(vsv.take(i as int)),
            forall|j: int| 0 <= j < i ==> rl_fits((#[trigger] vs@[j]).0@) && rl_fits(vs@[j].1@),
        decreases vs@.len() - i,
    {
        let ghost tmp0 = tmp@;
        assert((vs@[i as int].0@, vs@[i as int].1@) == vsv[i as int]);
        match write_resource_location(&mut tmp, &vs[i].0) {
            Ok(()) => {},
            Err(_) => {
                return Err(EncodeError::LengthExceedsLimit);
            },
        }
        match write_resource_location(&mut tmp, &vs[i].1) {
            Ok(()) => {},
            Err(_) => {
                return Err(EncodeError::LengthExceedsLimit);
            },
        }
        proof {
            assert(tmp@ =~= tmp0 + rl_pair_enc(vsv[i as int]));
            lemma_rl_pair_list_enc_push(vsv.take(i as int), vsv[i as int]);
            assert(vsv.take(i as int + 1) =~= vsv.take(i as int).push(vsv[i as int]));
        }
        i = i + 1;
    }
    assert(vsv.take(vsv.len() as int) =~= vsv);
    crate::codec::push_bytes(out, &tmp);
    Ok(())
}

} // verus!
