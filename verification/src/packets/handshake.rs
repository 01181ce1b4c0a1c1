//! The handshake state: the client's intention packet, and the marker a
//! modded client appends to the hostname field to identify itself.

use vstd::prelude::*;
use vstd::utf8::{encode_utf8, decode_utf8, valid_utf8};
use vstd::string::{StrSliceExecFns, StringExecFns};
use crate::error::{DecodeError, EncodeError};
use crate::varint::{varint_enc, parse_varint_u32, read_varint_u32, write_varint_u32};
use crate::codec::{
    string_enc, string_fits, parse_string, u16_enc, parse_be, read_string, write_string, read_u16,
    write_u16, copy_range, string_from_utf8,
};

verus! {

/// What the client wants the connection for; the handshake moves the
/// connection to the matching state. Wire form: a varint tag in
/// declaration order.
#[derive(Clone, Copy, Debug, PartialEq, Eq, Structural)]
pub enum Intention {
    Status,
    Login,
}

pub open spec fn intention_tag(i: Intention) -> nat {
    match i {
        Intention::Status => 0,
        Intention::Login => 1,
    }
}

/// The kind of client, recognized by a marker appended to the hostname.
#[derive(Clone, Copy, Debug, PartialEq, Eq, Structural, Hash)]
pub enum ClientIdentifier {
    Vanilla,
    Forge,
    Fabric,
}

impl Default for ClientIdentifier {
    /// An unmarked hostname means a vanilla client.
    fn default() -> (r: Self)
        ensures
            r == ClientIdentifier::Vanilla,
    {
        ClientIdentifier::Vanilla
    }
}

/// The six marker bytes a Forge client appends to the hostname.
pub open spec fn fml_marker_bytes() -> Seq<u8> {
    seq![0u8, 70u8, 77u8, 76u8, 51u8, 0u8]
}

/// The marker as characters (it is pure ASCII).
pub open spec fn fml_marker_chars() -> Seq<char> {
    "\u{0}FML3\u{0}"@
}

/// The suffix a client kind appends to the hostname on the wire.
pub open spec fn identifier_suffix(id: ClientIdentifier) -> Seq<char> {
    match id {
        ClientIdentifier::Forge => fml_marker_chars(),
        _ => seq![],
    }
}

/// The marker's characters are ASCII with the marker's byte values.
pub proof fn lemma_fml_marker()
    ensures
        fml_marker_chars().len() == 6,
        encode_utf8(fml_marker_chars()) == fml_marker_bytes(),
{
    reveal_strlit("\u{0}FML3\u{0}");
    let cs = fml_marker_chars();
    assert(vstd::utf8::is_ascii_chars(cs)) by {
        assert(cs[0] == '\u{0}' && cs[1] == 'F' && cs[2] == 'M' && cs[3] == 'L' && cs[4] == '3'
            && cs[5] == '\u{0}');
    }
    vstd::utf8::is_ascii_chars_encode_utf8(cs);
    assert(encode_utf8(cs) =~= fml_marker_bytes()) by {
        assert(cs[0] as u8 == 0u8 && cs[1] as u8 == 70u8 && cs[2] as u8 == 77u8 && cs[3] as u8
            == 76u8 && cs[4] as u8 == 51u8 && cs[5] as u8 == 0u8);
    }
}

/// UTF-8 encoding distributes over concatenation.
pub proof fn lemma_encode_utf8_concat(a: Seq<char>, b: Seq<char>)
    ensures
        encode_utf8(a + b) == encode_utf8(a) + encode_utf8(b),
    decreases a.len(),
{
    if a.len() == 0 {
        assert(a + b =~= b);
        assert(encode_utf8(a) =~= Seq::<u8>::empty());
        assert(encode_utf8(a) + encode_utf8(b) =~= encode_utf8(b));
    } else {
        assert((a + b)[0] == a[0]);
        assert((a + b).drop_first() =~= a.drop_first() + b);
        lemma_encode_utf8_concat(a.drop_first(), b);
        assert(encode_utf8(a + b) =~= encode_utf8(a) + encode_utf8(b));
    }
}

/// Whether a hostname's UTF-8 form ends in the Forge marker.
pub open spec fn ends_with_fml(b: Seq<u8>) -> bool {
    b.len() >= 6 && b.skip(b.len() - 6) == fml_marker_bytes()
}

impl ClientIdentifier {
    /// The marker this client kind appends to the hostname on the wire.
    pub fn marker_string(&self) -> (r: String)
        ensures
            r@ == identifier_suffix(*self),
    {
        match self {
            ClientIdentifier::Forge => {
                let s = String::from_str("\u{0}FML3\u{0}");
                proof {
                    reveal_strlit("\u{0}FML3\u{0}");
                }
                s
            },
            _ => String::new(),
        }
    }

    /// Split the wire hostname into the real hostname and the client
    /// kind: a trailing Forge marker is stripped, anything else is a
    /// vanilla client (the Fabric kind leaves no marker).
    pub fn split_from_ip(ip: String) -> (r: (String, ClientIdentifier))
        ensures
            ({
                let b = encode_utf8(ip@);
                if ends_with_fml(b) {
                    &&& r.1 == ClientIdentifier::Forge
                    &&& encode_utf8(r.0@) == b.take(b.len() - 6)
                    &&& r.0@ == decode_utf8(b.take(b.len() - 6))
                } else {
                    r.1 == ClientIdentifier::Vanilla && r.0 == ip
                }
            }),
    {
        let nb = ip.as_str().as_bytes_vec();
        let n = nb.len();
        let is_forge = n >= 6 && nb[n - 6] == 0 && nb[n - 5] == 70 && nb[n - 4] == 77 && nb[n - 3]
            == 76 && nb[n - 2] == 51 && nb[n - 1] == 0;
        proof {
            if n >= 6 {
                assert(ends_with_fml(nb@) <==> (nb@[n - 6] == 0u8 && nb@[n - 5] == 70u8 && nb@[n
                    - 4] == 77u8 && nb@[n - 3] == 76u8 && nb@[n - 2] == 51u8 && nb@[n - 1] == 0u8))
                    by {
                    if nb@.skip(n - 6) == fml_marker_bytes() {
                        assert(forall|j: int| 0 <= j < 6 ==> nb@.skip(n - 6)[j]
                            == fml_marker_bytes()[j]);
                    }
                    if nb@[n - 6] == 0u8 && nb@[n - 5] == 70u8 && nb@[n - 4] == 77u8 && nb@[n - 3]
                        == 76u8 && nb@[n - 2] == 51u8 && nb@[n - 1] == 0u8 {
                        assert(nb@.skip(n - 6) =~= fml_marker_bytes());
                    }
                }
            }
        }
        if !is_forge {
            return (ip, ClientIdentifier::Vanilla);
        }
        let host_b = copy_range(&nb, 0, n - 6);
        proof {
            vstd::utf8::encode_utf8_valid_utf8(ip@);
            assert(!vstd::utf8::is_continuation_byte(0u8));
            vstd::utf8::is_char_boundary_iff_not_is_continuation_byte(nb@, n - 6);
            vstd::utf8::valid_utf8_split(nb@, n - 6);
            assert(host_b@ =~= nb@.subrange(0, n - 6));
            assert(nb@.take(n - 6) =~= nb@.subrange(0, n - 6));
        }
        let host = match string_from_utf8(host_b) {
            Some(s) => s,
            None => {
                proof {
                    assert(false);
                }
                String::new()
            },
        };
        proof {
            vstd::utf8::decode_utf8_encode_utf8(nb@.take(n - 6));
        }
        (host, ClientIdentifier::Forge)
    }
}

/// The first packet of every connection: protocol version, hostname
/// (with the client marker appended), port, and the client's intention.
#[derive(Clone, Debug)]
pub struct ClientIntentionPacket {
    pub protocol_version: u32,
    pub hostname: String,
    pub port: u16,
    pub intention: Intention,
    pub identifier: ClientIdentifier,
}

pub type IntentionView = (u32, Seq<char>, u16, Intention, ClientIdentifier);

impl View for ClientIntentionPacket {
    type V = IntentionView;

    open spec fn view(&self) -> IntentionView {
        (self.protocol_version, self.hostname@, self.port, self.intention, self.identifier)
    }
}

/// The body encoding of the intention packet.
pub open spec fn intention_enc(v: IntentionView) -> Seq<u8> {
    varint_enc(v.0 as nat) + string_enc(v.1 + identifier_suffix(v.4)) + u16_enc(v.2) + varint_enc(
        intention_tag(v.3),
    )
}

/// Parse the intention packet body: the hostname is split from any
/// trailing Forge marker; an unknown intention tag is rejected.
pub open spec fn parse_intention(s: Seq<u8>) -> Result<(IntentionView, int), DecodeError> {
    match parse_varint_u32(s) {
        Ok((proto, n1)) => match parse_string(s.skip(n1)) {
            Ok((h, n2)) => {
                let hb = encode_utf8(h);
                let id = if ends_with_fml(hb) {
                    ClientIdentifier::Forge
                } else {
                    ClientIdentifier::Vanilla
                };
                let host = if ends_with_fml(hb) {
                    decode_utf8(hb.take(hb.len() - 6))
                } else {
                    h
                };
                match parse_be(s.skip(n1 + n2), 2) {
                    Ok((port, n3)) => match parse_varint_u32(s.skip(n1 + n2 + n3)) {
                        Ok((tag, n4)) => if tag == 0 {
                            Ok(
                                (
                                    (proto, host, port as u16, Intention::Status, id),
                                    n1 + n2 + n3 + n4,
                                ),
                            )
                        } else if tag == 1 {
                            Ok(
                                (
                                    (proto, host, port as u16, Intention::Login, id),
                                    n1 + n2 + n3 + n4,
                                ),
                            )
                        } else {
                            Err(DecodeError::InvalidEnumTag)
                        },
                        Err(e) => Err(e),
                    },
                    Err(e) => Err(e),
                }
            },
            Err(e) => Err(e),
        },
        Err(e) => Err(e),
    }
}

impl ClientIntentionPacket {
    /// Append the packet body; fails when the marked hostname exceeds
    /// the string bound.
    pub fn write_into(&self, out: &mut Vec<u8>) -> (r: Result<(), EncodeError>)
        ensures
            match r {
                Ok(()) => string_fits(self@.1 + identifier_suffix(self@.4)) && final(out)@ == old(
                    out,
                )@ + intention_enc(self@),
                Err(e) => !string_fits(self@.1 + identifier_suffix(self@.4)) && e
                    == EncodeError::LengthExceedsLimit && final(out)@ == old(out)@,
            },
    {
        let mut marked = self.hostname.clone();
        match self.identifier {
            ClientIdentifier::Forge => {
                marked.append("\u{0}FML3\u{0}");
                proof {
                    reveal_strlit("\u{0}FML3\u{0}");
                }
            },
            _ => {
                proof {
                    assert(marked@ =~= self.hostname@ + identifier_suffix(self.identifier));
                }
            },
        }
        let mut tmp: Vec<u8> = Vec::new();
        write_varint_u32(&mut tmp, self.protocol_version);
        match write_string(&mut tmp, &marked) {
            Ok(()) => {},
            Err(_) => {
                return Err(EncodeError::LengthExceedsLimit);
            },
        }
        write_u16(&mut tmp, self.port);
        let tag: u32 = match self.intention {
            Intention::Status => 0,
            Intention::Login => 1,
        };
        write_varint_u32(&mut tmp, tag);
        crate::codec::push_bytes(out, &tmp);
        assert(out@ =~= old(out)@ + intention_enc(self@));
        Ok(())
    }

    /// Read the packet body, advancing `*pos`. Behaves exactly as
    /// `parse_intention` on the remaining bytes.
    pub fn read_from(data: &Vec<u8>, pos: &mut usize) -> (r: Result<
        ClientIntentionPacket,
        DecodeError,
    >)
        requires
            *old(pos) <= data@.len(),
        ensures
            match parse_intention(data@.skip(*old(pos) as int)) {
                Ok((v, n)) => r matches Ok(rv) && rv@ == v && *final(pos) == *old(pos) + n,
                Err(e) => r matches Err(re) && re == e,
            },
            *old(pos) <= *final(pos) <= data@.len(),
    {
        let ghost p0 = *pos;
        let ghost s_cur = data@.skip(p0 as int);
        let mut p = *pos;
        let proto = match read_varint_u32(data, &mut p) {
            Ok(v) => v,
            Err(e) => {
                return Err(e);
            },
        };
        proof {
            assert(data@.skip(p as int) =~= s_cur.skip(p - p0));
        }
        let h = match read_string(data, &mut p) {
            Ok(v) => v,
            Err(e) => {
                return Err(e);
            },
        };
        proof {
            assert(data@.skip(p as int) =~= s_cur.skip(p - p0));
            vstd::utf8::encode_utf8_decode_utf8(h@);
        }
        let (host, id) = ClientIdentifier::split_from_ip(h);
        let port = match read_u16(data, &mut p) {
            Ok(v) => v,
            Err(e) => {
                return Err(e);
            },
        };
        proof {
            assert(data@.skip(p as int) =~= s_cur.skip(p - p0));
        }
        let tag = match read_varint_u32(data, &mut p) {
            Ok(v) => v,
            Err(e) => {
                return Err(e);
            },
        };
        let intention = if tag == 0 {
            Intention::Status
        } else if tag == 1 {
            Intention::Login
        } else {
            return Err(DecodeError::InvalidEnumTag);
        };
        *pos = p;
        Ok(
            ClientIntentionPacket {
                protocol_version: proto,
                hostname: host,
                port,
                intention,
                identifier: id,
            },
        )
    }
}

/// An intention packet survives the wire: encoding and parsing it back
/// yields the same packet. A Fabric client leaves no marker and reads
/// back as vanilla, and a vanilla hostname that itself ends in the Forge
/// marker reads back as Forge, so both are left out here.
#[verifier::spinoff_prover]
#[verifier::rlimit(100)]
pub proof fn lemma_intention_roundtrip(v: IntentionView, rest: Seq<u8>)
    requires
        string_fits(v.1 + identifier_suffix(v.4)),
        v.4 != ClientIdentifier::Fabric,
        v.4 == ClientIdentifier::Vanilla ==> !ends_with_fml(encode_utf8(v.1)),
    ensures
        parse_intention(intention_enc(v) + rest) == Ok::<(IntentionView, int), DecodeError>((
            v,
            intention_enc(v).len() as int,
        )),
{
    let e1 = varint_enc(v.0 as nat);
    let marked = v.1 + identifier_suffix(v.4);
    let e2 = string_enc(marked);
    let e3 = u16_enc(v.2);
    let e4 = varint_enc(intention_tag(v.3));
    let whole = intention_enc(v) + rest;
    assert(whole =~= e1 + (e2 + (e3 + (e4 + rest))));
    crate::varint::lemma_varint_u32_roundtrip(v.0, e2 + (e3 + (e4 + rest)));
    let n1 = e1.len() as int;
    assert(whole.skip(n1) =~= e2 + (e3 + (e4 + rest)));
    crate::codec::lemma_string_parse_enc(marked, e3 + (e4 + rest));
    let n2 = e2.len() as int;
    let hb = encode_utf8(marked);
    match v.4 {
        ClientIdentifier::Forge => {
            lemma_encode_utf8_concat(v.1, fml_marker_chars());
            lemma_fml_marker();
            assert(hb =~= encode_utf8(v.1) + fml_marker_bytes());
            assert(hb.skip(hb.len() - 6) =~= fml_marker_bytes());
            assert(ends_with_fml(hb));
            assert(hb.take(hb.len() - 6) =~= encode_utf8(v.1));
            vstd::utf8::encode_utf8_decode_utf8(v.1);
        },
        _ => {
            assert(marked =~= v.1);
        },
    }
    assert(whole.skip(n1 + n2) =~= e3 + (e4 + rest));
    vstd::arithmetic::power2::lemma2_to64();
    crate::codec::lemma_be_enc_len(v.2 as nat, 2);
    crate::codec::lemma_be_parse_enc(v.2 as nat, 2, e4 + rest);
    crate::codec::lemma_skip_add(whole, n1 + n2, 2);
    crate::codec::lemma_skip_concat(e3, e4 + rest);
    assert(whole.skip(n1 + n2 + 2) =~= e4 + rest);
    crate::varint::lemma_varint_u32_roundtrip(intention_tag(v.3) as u32, rest);
    assert((v.0, v.1, v.2, v.3, v.4) == v);
}

} // verus!
