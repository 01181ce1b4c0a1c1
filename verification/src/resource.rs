//! Namespaced identifiers of the form `namespace:path`. On the wire an
//! identifier is one length-prefixed string; decoding splits it at the
//! first colon, defaults the namespace to `minecraft` when no colon is
//! present, and rejects an empty path.

use vstd::prelude::*;
use vstd::utf8::{encode_utf8, decode_utf8, valid_utf8};
use vstd::string::{StrSliceExecFns, StringExecFns};
use crate::error::{DecodeError, EncodeError};
use crate::varint::{varint_enc, parse_varint_u32, read_varint_u32, write_varint_u32};
use crate::codec::{STRING_LIMIT, copy_range, push_bytes, string_from_utf8};

verus! {

/// A namespaced identifier.
#[derive(Clone, Debug)]
pub struct ResourceLocation {
    pub namespace: String,
    pub path: String,
}

impl View for ResourceLocation {
    type V = (Seq<char>, Seq<char>);

    open spec fn view(&self) -> (Seq<char>, Seq<char>) {
        (self.namespace@, self.path@)
    }
}

/// The namespace assumed when the wire form carries no colon.
pub open spec fn default_namespace() -> Seq<char> {
    "minecraft"@
}

/// The bytes of the identifier's single-string wire form.
pub open spec fn rl_bytes(v: (Seq<char>, Seq<char>)) -> Seq<u8> {
    encode_utf8(v.0) + seq![58u8] + encode_utf8(v.1)
}

/// The full wire encoding: a length-prefixed string `namespace:path`.
pub open spec fn rl_enc(v: (Seq<char>, Seq<char>)) -> Seq<u8> {
    varint_enc(rl_bytes(v).len()) + rl_bytes(v)
}

/// An identifier whose wire form fits the string bound: what encoding
/// asks, and nothing more.
pub open spec fn rl_fits(v: (Seq<char>, Seq<char>)) -> bool {
    rl_bytes(v).len() <= STRING_LIMIT
}

/// An identifier that encodes into a form that decodes back to itself:
/// the namespace holds no colon, the path is nonempty, and the whole
/// fits the string bound.
pub open spec fn rl_wf(v: (Seq<char>, Seq<char>)) -> bool {
    &&& forall|i: int| 0 <= i < encode_utf8(v.0).len() ==> encode_utf8(v.0)[i] != 58u8
    &&& v.1.len() > 0
    &&& rl_fits(v)
}

/// The index of the first colon byte in `b`, or `b.len()` if none.
pub open spec fn first_colon(b: Seq<u8>) -> int
    decreases b.len(),
{
    if b.len() == 0 {
        0
    } else if b[0] == 58u8 {
        0
    } else {
        1 + first_colon(b.skip(1))
    }
}

pub proof fn lemma_first_colon_range(b: Seq<u8>)
    ensures
        0 <= first_colon(b) <= b.len(),
        first_colon(b) < b.len() ==> b[first_colon(b)] == 58u8,
        forall|j: int| 0 <= j < first_colon(b) ==> b[j] != 58u8,
    decreases b.len(),
{
    if b.len() == 0 {
    } else if b[0] == 58u8 {
    } else {
        lemma_first_colon_range(b.skip(1));
        assert forall|j: int| 0 <= j < first_colon(b) implies b[j] != 58u8 by {
            if j > 0 {
                assert(b.skip(1)[j - 1] == b[j]);
            }
        }
    }
}

/// If `b[i]` is the first colon byte, `first_colon` finds exactly `i`.
pub proof fn lemma_first_colon_at(b: Seq<u8>, i: int)
    requires
        0 <= i < b.len(),
        b[i] == 58u8,
        forall|j: int| 0 <= j < i ==> b[j] != 58u8,
    ensures
        first_colon(b) == i,
    decreases b.len(),
{
    if i > 0 {
        lemma_first_colon_at(b.skip(1), i - 1);
    }
}

/// If `b` holds no colon byte, `first_colon` is `b.len()`.
pub proof fn lemma_first_colon_none(b: Seq<u8>)
    requires
        forall|j: int| 0 <= j < b.len() ==> b[j] != 58u8,
    ensures
        first_colon(b) == b.len(),
{
    lemma_first_colon_range(b);
}

/// Parse one identifier from the front of `s`: a length-prefixed string,
/// split at the first colon; without a colon the namespace defaults; an
/// empty path is rejected as `InvalidEnumTag` (it names no identifier).
pub open spec fn parse_rl(s: Seq<u8>) -> Result<((Seq<char>, Seq<char>), int), DecodeError> {
    match parse_varint_u32(s) {
        Ok((len, n)) => if len > STRING_LIMIT {
            Err(DecodeError::LengthExceedsLimit)
        } else if s.len() < n + len {
            Err(DecodeError::UnexpectedEof)
        } else {
            let b = s.subrange(n, n + len);
            let i = first_colon(b);
            let ns_b = if i < b.len() { b.take(i) } else { seq![] };
            let p_b = if i < b.len() { b.skip(i + 1) } else { b };
            if p_b.len() == 0 {
                Err(DecodeError::InvalidEnumTag)
            } else if valid_utf8(ns_b) && valid_utf8(p_b) {
                let ns = if i < b.len() { decode_utf8(ns_b) } else { default_namespace() };
                Ok(((ns, decode_utf8(p_b)), n + len))
            } else {
                Err(DecodeError::InvalidUtf8)
            }
        },
        Err(e) => Err(e),
    }
}

/// Read one identifier, advancing `*pos`. Behaves exactly as `parse_rl`
/// on the remaining bytes.
pub fn read_resource_location(data: &Vec<u8>, pos: &mut usize) -> (r: Result<
    ResourceLocation,
    DecodeError,
>)
    requires
        *old(pos) <= data@.len(),
    ensures
        match parse_rl(data@.skip(*old(pos) as int)) {
            Ok((v, n)) => r matches Ok(rv) && rv@ == v && *final(pos) == *old(pos) + n,
            Err(e) => r matches Err(re) && re == e,
        },
        *old(pos) <= *final(pos) <= data@.len(),
{
    let ghost rest = data@.skip(*pos as int);
    let ghost p0 = *pos;
    let len = match read_varint_u32(data, pos) {
        Ok(l) => l,
        Err(e) => {
            return Err(e);
        },
    };
    if len > STRING_LIMIT {
        return Err(DecodeError::LengthExceedsLimit);
    }
    if (data.len() - *pos) < len as usize {
        return Err(DecodeError::UnexpectedEof);
    }
    let b = copy_range(data, *pos, *pos + len as usize);
    let ghost n = *pos - p0;
    proof {
        assert(data@.subrange(p0 + n, p0 + n + len as int) =~= rest.subrange(
            n as int,
            n + len as int,
        ));
    }
    // find the first colon byte
    let mut i: usize = 0;
    while i < b.len() && b[i] != 58u8
        invariant
            i <= b@.len(),
            forall|j: int| 0 <= j < i ==> b@[j] != 58u8,
        decreases b@.len() - i,
    {
        i = i + 1;
    }
    proof {
        if i < b@.len() {
            lemma_first_colon_at(b@, i as int);
        } else {
            lemma_first_colon_none(b@);
        }
    }
    let has_colon = i < b.len();
    let (ns_b, p_b) = if has_colon {
        (copy_range(&b, 0, i), copy_range(&b, i + 1, b.len()))
    } else {
        (Vec::new(), copy_range(&b, 0, b.len()))
    };
    proof {
        if has_colon {
            assert(ns_b@ =~= b@.take(i as int));
            assert(p_b@ =~= b@.skip(i as int + 1));
        } else {
            assert(p_b@ =~= b@);
        }
    }
    if p_b.len() == 0 {
        return Err(DecodeError::InvalidEnumTag);
    }
    let ns_s = match string_from_utf8(ns_b) {
        Some(s) => s,
        None => {
            return Err(DecodeError::InvalidUtf8);
        },
    };
    let p_s = match string_from_utf8(p_b) {
        Some(s) => s,
        None => {
            return Err(DecodeError::InvalidUtf8);
        },
    };
    let namespace = if has_colon {
        ns_s
    } else {
        String::from_str("minecraft")
    };
    *pos = *pos + len as usize;
    Ok(ResourceLocation { namespace, path: p_s })
}

/// Append the wire form of `rl`; fails if `namespace:path` exceeds the
/// string byte bound.
pub fn write_resource_location(out: &mut Vec<u8>, rl: &ResourceLocation) -> (r: Result<
    (),
    EncodeError,
>)
    ensures
        match r {
            Ok(()) => rl_fits(rl@) && final(out)@ == old(out)@ + rl_enc(rl@),
            Err(e) => !rl_fits(rl@) && e == EncodeError::LengthExceedsLimit && final(out)@ == old(
                out,
            )@,
        },
{
    let ns_b = rl.namespace.as_str().as_bytes_vec();
    let p_b = rl.path.as_str().as_bytes_vec();
    if ns_b.len() >= STRING_LIMIT as usize || p_b.len() > STRING_LIMIT as usize - 1 - ns_b.len() {
        return Err(EncodeError::LengthExceedsLimit);
    }
    let total = ns_b.len() + 1 + p_b.len();
    let ghost before = out@;
    write_varint_u32(out, total as u32);
    push_bytes(out, &ns_b);
    out.push(58u8);
    push_bytes(out, &p_b);
    assert(out@ =~= before + rl_enc(rl@));
    Ok(())
}

/// Encoding a well-formed identifier and parsing it back yields the same
/// identifier and consumes exactly the encoding.
pub proof fn lemma_rl_parse_enc(v: (Seq<char>, Seq<char>), rest: Seq<u8>)
    requires
        rl_wf(v),
    ensures
        parse_rl(rl_enc(v) + rest) == Ok::<((Seq<char>, Seq<char>), int), DecodeError>((
            v,
            rl_enc(v).len() as int,
        )),
{
    let b = rl_bytes(v);
    let whole = rl_enc(v) + rest;
    crate::varint::lemma_varint_u32_roundtrip(b.len() as u32, b + rest);
    assert(whole =~= varint_enc(b.len() as u32 as nat) + (b + rest));
    let n = crate::varint::varint_len(b.len());
    assert(whole.subrange(n, n + b.len() as int) =~= b);
    let nsb = encode_utf8(v.0);
    let pb = encode_utf8(v.1);
    lemma_first_colon_at(b, nsb.len() as int);
    assert(b.take(nsb.len() as int) =~= nsb);
    assert(b.skip(nsb.len() as int + 1) =~= pb);
    broadcast use crate::codec::encode_utf8_valid_utf8_use;

    lemma_encode_utf8_len(v.1);
}

/// A nonempty character sequence has a nonempty UTF-8 encoding.
pub proof fn lemma_encode_utf8_len(chars: Seq<char>)
    ensures
        encode_utf8(chars).len() >= chars.len(),
    decreases chars.len(),
{
    if chars.len() > 0 {
        lemma_encode_utf8_len(chars.drop_first());
    }
}

} // verus!
