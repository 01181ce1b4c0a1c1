//! The login state: hello with name and profile id, the key exchange
//! packet that carries the shared secret, custom query payloads, and the
//! clientbound error body.

use vstd::prelude::*;
use crate::error::{DecodeError, EncodeError};
use crate::varint::{varint_enc, parse_varint_u32, read_varint_u32, write_varint_u32};
use crate::codec::{
    string_enc, string_fits, parse_string, u64_enc, parse_be, bytes_enc, parse_bytes, read_string,
    write_string, read_u64, write_u64, read_prefixed_bytes, write_prefixed_bytes, read_rest,
    push_bytes,
};
use crate::resource::{ResourceLocation, rl_enc, rl_wf, parse_rl, read_resource_location,
    write_resource_location};

verus! {

/// A profile id: the two big-endian halves of a sixteen-byte UUID.
#[derive(Clone, Copy, Debug, PartialEq, Eq, Structural)]
pub struct Uuid {
    pub most: u64,
    pub least: u64,
}

/// The sixteen-byte wire form of a UUID.
pub open spec fn uuid_enc(v: Uuid) -> Seq<u8> {
    u64_enc(v.most) + u64_enc(v.least)
}

pub open spec fn parse_uuid(s: Seq<u8>) -> Result<(Uuid, int), DecodeError> {
    match parse_be(s, 8) {
        Ok((m, n1)) => match parse_be(s.skip(n1), 8) {
            Ok((l, n2)) => Ok((Uuid { most: m as u64, least: l as u64 }, n1 + n2)),
            Err(e) => Err(e),
        },
        Err(e) => Err(e),
    }
}

pub fn read_uuid(data: &Vec<u8>, pos: &mut usize) -> (r: Result<Uuid, DecodeError>)
    requires
        *old(pos) <= data@.len(),
    ensures
        match parse_uuid(data@.skip(*old(pos) as int)) {
            Ok((v, n)) => r matches Ok(rv) && rv == v && *final(pos) == *old(pos) + n,
            Err(e) => r matches Err(re) && re == e,
        },
        *old(pos) <= *final(pos) <= data@.len(),
{
    let ghost p0 = *pos;
    let ghost s_cur = data@.skip(p0 as int);
    let mut p = *pos;
    let m = match read_u64(data, &mut p) {
        Ok(v) => v,
        Err(e) => {
            return Err(e);
        },
    };
    proof {
        assert(data@.skip(p as int) =~= s_cur.skip(p - p0));
    }
    let l = match read_u64(data, &mut p) {
        Ok(v) => v,
        Err(e) => {
            return Err(e);
        },
    };
    *pos = p;
    Ok(Uuid { most: m, least: l })
}

pub fn write_uuid(out: &mut Vec<u8>, v: &Uuid)
    ensures
        final(out)@ == old(out)@ + uuid_enc(*v),
{
    let ghost before = out@;
    write_u64(out, v.most);
    write_u64(out, v.least);
    assert(out@ =~= before + uuid_enc(*v));
}

pub proof fn lemma_uuid_parse_enc(v: Uuid, rest: Seq<u8>)
    ensures
        parse_uuid(uuid_enc(v) + rest) == Ok::<(Uuid, int), DecodeError>((v, 16)),
{
    let whole = uuid_enc(v) + rest;
    vstd::arithmetic::power2::lemma2_to64();
    vstd::arithmetic::power2::lemma2_to64_rest();
    crate::codec::lemma_be_enc_len(v.most as nat, 8);
    crate::codec::lemma_be_enc_len(v.least as nat, 8);
    assert(whole =~= u64_enc(v.most) + (u64_enc(v.least) + rest));
    crate::codec::lemma_be_parse_enc(v.most as nat, 8, u64_enc(v.least) + rest);
    assert(whole.skip(8int) =~= u64_enc(v.least) + rest);
    crate::codec::lemma_be_parse_enc(v.least as nat, 8, rest);
}

/// The first login packet: the player's name and profile id.
#[derive(Clone, Debug)]
pub struct ServerboundHelloPacket {
    pub name: String,
    pub uuid: Uuid,
}

pub type HelloView = (Seq<char>, Uuid);

impl View for ServerboundHelloPacket {
    type V = HelloView;

    open spec fn view(&self) -> HelloView {
        (self.name@, self.uuid)
    }
}

pub open spec fn hello_enc(v: HelloView) -> Seq<u8> {
    string_enc(v.0) + uuid_enc(v.1)
}

pub open spec fn parse_hello(s: Seq<u8>) -> Result<(HelloView, int), DecodeError> {
    match parse_string(s) {
        Ok((name, n1)) => match parse_uuid(s.skip(n1)) {
            Ok((u, n2)) => Ok(((name, u), n1 + n2)),
            Err(e) => Err(e),
        },
        Err(e) => Err(e),
    }
}

impl ServerboundHelloPacket {
    pub fn write_into(&self, out: &mut Vec<u8>) -> (r: Result<(), EncodeError>)
        ensures
            match r {
                Ok(()) => string_fits(self@.0) && final(out)@ == old(out)@ + hello_enc(self@),
                Err(e) => !string_fits(self@.0) && e == EncodeError::LengthExceedsLimit
                    && final(out)@ == old(out)@,
            },
    {
        let mut tmp: Vec<u8> = Vec::new();
        match write_string(&mut tmp, &self.name) {
            Ok(()) => {},
            Err(_) => {
                return Err(EncodeError::LengthExceedsLimit);
            },
        }
        write_uuid(&mut tmp, &self.uuid);
        push_bytes(out, &tmp);
        assert(out@ =~= old(out)@ + hello_enc(self@));
        Ok(())
    }

    pub fn read_from(data: &Vec<u8>, pos: &mut usize) -> (r: Result<
        ServerboundHelloPacket,
        DecodeError,
    >)
        requires
            *old(pos) <= data@.len(),
        ensures
            match parse_hello(data@.skip(*old(pos) as int)) {
                Ok((v, n)) => r matches Ok(rv) && rv@ == v && *final(pos) == *old(pos) + n,
                Err(e) => r matches Err(re) && re == e,
            },
            *old(pos) <= *final(pos) <= data@.len(),
    {
        let ghost p0 = *pos;
        let ghost s_cur = data@.skip(p0 as int);
        let mut p = *pos;
        let name = match read_string(data, &mut p) {
            Ok(v) => v,
            Err(e) => {
                return Err(e);
            },
        };
        proof {
            assert(data@.skip(p as int) =~= s_cur.skip(p - p0));
        }
        let uuid = match read_uuid(data, &mut p) {
            Ok(v) => v,
            Err(e) => {
                return Err(e);
            },
        };
        *pos = p;
        Ok(ServerboundHelloPacket { name, uuid })
    }
}

/// A hello packet survives the wire.
pub proof fn lemma_hello_roundtrip(v: HelloView, rest: Seq<u8>)
    requires
        string_fits(v.0),
    ensures
        parse_hello(hello_enc(v) + rest) == Ok::<(HelloView, int), DecodeError>((
            v,
            hello_enc(v).len() as int,
        )),
{
    let e1 = string_enc(v.0);
    let whole = hello_enc(v) + rest;
    assert(whole =~= e1 + (uuid_enc(v.1) + rest));
    crate::codec::lemma_string_parse_enc(v.0, uuid_enc(v.1) + rest);
    assert(whole.skip(e1.len() as int) =~= uuid_enc(v.1) + rest);
    lemma_uuid_parse_enc(v.1, rest);
    crate::codec::lemma_be_enc_len(v.1.most as nat, 8);
    crate::codec::lemma_be_enc_len(v.1.least as nat, 8);
    assert((v.0, v.1) == v);
}

/// The key-exchange packet: the shared secret the peers will encrypt
/// with, as a length-prefixed byte array.
#[derive(Clone, Debug)]
pub struct ServerboundKeyPacket {
    pub shared_secret: Vec<u8>,
}

impl View for ServerboundKeyPacket {
    type V = Seq<u8>;

    open spec fn view(&self) -> Seq<u8> {
        self.shared_secret@
    }
}

pub open spec fn key_enc(v: Seq<u8>) -> Seq<u8> {
    bytes_enc(v)
}

pub open spec fn parse_key(s: Seq<u8>) -> Result<(Seq<u8>, int), DecodeError> {
    parse_bytes(s)
}

impl ServerboundKeyPacket {
    /// Succeeds exactly when the secret fits its varint length prefix.
    pub fn write_into(&self, out: &mut Vec<u8>) -> (r: Result<(), EncodeError>)
        ensures
            match r {
                Ok(()) => self@.len() <= u32::MAX && final(out)@ == old(out)@ + key_enc(self@),
                Err(e) => self@.len() > u32::MAX && e == EncodeError::LengthExceedsLimit
                    && final(out)@ == old(out)@,
            },
    {
        write_prefixed_bytes(out, &self.shared_secret)
    }

    pub fn read_from(data: &Vec<u8>, pos: &mut usize) -> (r: Result<
        ServerboundKeyPacket,
        DecodeError,
    >)
        requires
            *old(pos) <= data@.len(),
        ensures
            match parse_key(data@.skip(*old(pos) as int)) {
                Ok((v, n)) => r matches Ok(rv) && rv@ == v && *final(pos) == *old(pos) + n,
                Err(e) => r matches Err(re) && re == e,
            },
            *old(pos) <= *final(pos) <= data@.len(),
    {
        match read_prefixed_bytes(data, pos) {
            Ok(b) => Ok(ServerboundKeyPacket { shared_secret: b }),
            Err(e) => Err(e),
        }
    }
}

/// A key packet survives the wire.
pub proof fn lemma_key_roundtrip(v: Seq<u8>, rest: Seq<u8>)
    requires
        v.len() <= u32::MAX,
    ensures
        parse_key(key_enc(v) + rest) == Ok::<(Seq<u8>, int), DecodeError>((
            v,
            key_enc(v).len() as int,
        )),
{
    crate::codec::lemma_bytes_parse_enc(v, rest);
}

/// The compression control packet: the threshold above which payloads
/// are compressed, effective from the next frame on.
#[derive(Clone, Copy, Debug, PartialEq, Eq, Structural)]
pub struct ClientboundLoginCompressionPacket {
    pub threshold: u32,
}

pub open spec fn compression_enc(threshold: u32) -> Seq<u8> {
    varint_enc(threshold as nat)
}

impl ClientboundLoginCompressionPacket {
    pub fn write_into(&self, out: &mut Vec<u8>)
        ensures
            final(out)@ == old(out)@ + compression_enc(self.threshold),
    {
        write_varint_u32(out, self.threshold);
    }

    pub fn read_from(data: &Vec<u8>, pos: &mut usize) -> (r: Result<
        ClientboundLoginCompressionPacket,
        DecodeError,
    >)
        requires
            *old(pos) <= data@.len(),
        ensures
            match parse_varint_u32(data@.skip(*old(pos) as int)) {
                Ok((v, n)) => r matches Ok(rv) && rv.threshold == v && *final(pos) == *old(pos)
                    + n,
                Err(e) => r matches Err(re) && re == e,
            },
            *old(pos) <= *final(pos) <= data@.len(),
    {
        match read_varint_u32(data, pos) {
            Ok(v) => Ok(ClientboundLoginCompressionPacket { threshold: v }),
            Err(e) => Err(e),
        }
    }
}

/// The profile packet that completes login: the player's id and name.
#[derive(Clone, Debug)]
pub struct ClientboundGameProfilePacket {
    pub uuid: Uuid,
    pub name: String,
}

pub type GameProfileView = (Uuid, Seq<char>);

impl View for ClientboundGameProfilePacket {
    type V = GameProfileView;

    open spec fn view(&self) -> GameProfileView {
        (self.uuid, self.name@)
    }
}

pub open spec fn game_profile_enc(v: GameProfileView) -> Seq<u8> {
    uuid_enc(v.0) + string_enc(v.1)
}

pub open spec fn parse_game_profile(s: Seq<u8>) -> Result<(GameProfileView, int), DecodeError> {
    match parse_uuid(s) {
        Ok((u, n1)) => match parse_string(s.skip(n1)) {
            Ok((name, n2)) => Ok(((u, name), n1 + n2)),
            Err(e) => Err(e),
        },
        Err(e) => Err(e),
    }
}

impl ClientboundGameProfilePacket {
    pub fn write_into(&self, out: &mut Vec<u8>) -> (r: Result<(), EncodeError>)
        ensures
            match r {
                Ok(()) => string_fits(self@.1) && final(out)@ == old(out)@ + game_profile_enc(
                    self@,
                ),
                Err(e) => !string_fits(self@.1) && e == EncodeError::LengthExceedsLimit
                    && final(out)@ == old(out)@,
            },
    {
        let mut tmp: Vec<u8> = Vec::new();
        write_uuid(&mut tmp, &self.uuid);
        match write_string(&mut tmp, &self.name) {
            Ok(()) => {},
            Err(_) => {
                return Err(EncodeError::LengthExceedsLimit);
            },
        }
        push_bytes(out, &tmp);
        assert(out@ =~= old(out)@ + game_profile_enc(self@));
        Ok(())
    }

    pub fn read_from(data: &Vec<u8>, pos: &mut usize) -> (r: Result<
        ClientboundGameProfilePacket,
        DecodeError,
    >)
        requires
            *old(pos) <= data@.len(),
        ensures
            match parse_game_profile(data@.skip(*old(pos) as int)) {
                Ok((v, n)) => r matches Ok(rv) && rv@ == v && *final(pos) == *old(pos) + n,
                Err(e) => r matches Err(re) && re == e,
            },
            *old(pos) <= *final(pos) <= data@.len(),
    {
        let ghost p0 = *pos;
        let ghost s_cur = data@.skip(p0 as int);
        let mut p = *pos;
        let uuid = match read_uuid(data, &mut p) {
            Ok(v) => v,
            Err(e) => {
                return Err(e);
            },
        };
        proof {
            assert(data@.skip(p as int) =~= s_cur.skip(p - p0));
        }
        let name = match read_string(data, &mut p) {
            Ok(v) => v,
            Err(e) => {
                return Err(e);
            },
        };
        *pos = p;
        Ok(ClientboundGameProfilePacket { uuid, name })
    }
}

/// A game-profile packet survives the wire.
pub proof fn lemma_game_profile_roundtrip(v: GameProfileView, rest: Seq<u8>)
    requires
        string_fits(v.1),
    ensures
        parse_game_profile(game_profile_enc(v) + rest) == Ok::<(GameProfileView, int), DecodeError>(
            (v, game_profile_enc(v).len() as int),
        ),
{
    let whole = game_profile_enc(v) + rest;
    assert(whole =~= uuid_enc(v.0) + (string_enc(v.1) + rest));
    lemma_uuid_parse_enc(v.0, string_enc(v.1) + rest);
    crate::codec::lemma_be_enc_len(v.0.most as nat, 8);
    crate::codec::lemma_be_enc_len(v.0.least as nat, 8);
    assert(whole.skip(16int) =~= string_enc(v.1) + rest);
    crate::codec::lemma_string_parse_enc(v.1, rest);
    assert((v.0, v.1) == v);
}

/// The clientbound error body: raw bytes to the end of the packet.
#[derive(Clone, Debug)]
pub struct ClientboundLoginErrorPacket {
    pub stuff: Vec<u8>,
}

impl View for ClientboundLoginErrorPacket {
    type V = Seq<u8>;

    open spec fn view(&self) -> Seq<u8> {
        self.stuff@
    }
}

impl ClientboundLoginErrorPacket {
    /// The body is the raw bytes themselves.
    pub fn write_into(&self, out: &mut Vec<u8>)
        ensures
            final(out)@ == old(out)@ + self@,
    {
        push_bytes(out, &self.stuff);
    }

    /// Everything to the end of the body is the error payload.
    pub fn read_from(data: &Vec<u8>, pos: &mut usize) -> (r: ClientboundLoginErrorPacket)
        requires
            *old(pos) <= data@.len(),
        ensures
            r@ == data@.skip(*old(pos) as int),
            *final(pos) == data@.len(),
    {
        let stuff = read_rest(data, pos);
        ClientboundLoginErrorPacket { stuff }
    }
}

/// A custom query payload: an optional identifier followed by raw bytes
/// to the end of the packet. Decoding tries the identifier first and
/// falls back to an unidentified payload.
#[derive(Clone, Debug)]
pub struct CustomQuery {
    pub identifier: Option<ResourceLocation>,
    pub data: Vec<u8>,
}

pub type CustomQueryView = (Option<(Seq<char>, Seq<char>)>, Seq<u8>);

impl View for CustomQuery {
    type V = CustomQueryView;

    open spec fn view(&self) -> CustomQueryView {
        (
            match self.identifier {
                Some(ref rl) => Some(rl@),
                None => None,
            },
            self.data@,
        )
    }
}

/// The identifier, when present, fits the string bound: exactly when
/// the payload encodes.
pub open spec fn custom_query_encodable(v: CustomQueryView) -> bool {
    match v.0 {
        Some(rl) => crate::resource::rl_fits(rl),
        None => true,
    }
}

pub open spec fn custom_query_enc(v: CustomQueryView) -> Seq<u8> {
    (match v.0 {
        Some(rl) => rl_enc(rl),
        None => seq![],
    }) + v.1
}

/// Parse a custom query: if the front parses as an identifier it becomes
/// the identifier, otherwise the whole body is unidentified data. The
/// whole remaining body is always consumed.
pub open spec fn parse_custom_query(s: Seq<u8>) -> (CustomQueryView, int) {
    match parse_rl(s) {
        Ok((rl, n)) => ((Some(rl), s.skip(n)), s.len() as int),
        Err(_) => ((None, s), s.len() as int),
    }
}

impl CustomQuery {
    /// Succeeds exactly when any identifier fits the string bound.
    pub fn write_into(&self, out: &mut Vec<u8>) -> (r: Result<(), EncodeError>)
        ensures
            match r {
                Ok(()) => custom_query_encodable(self@) && final(out)@ == old(out)@
                    + custom_query_enc(self@),
                Err(e) => !custom_query_encodable(self@) && e == EncodeError::LengthExceedsLimit
                    && final(out)@ == old(out)@,
            },
    {
        let mut tmp: Vec<u8> = Vec::new();
        match self.identifier {
            Some(ref rl) => {
                match write_resource_location(&mut tmp, rl) {
                    Ok(()) => {},
                    Err(_) => {
                        return Err(EncodeError::LengthExceedsLimit);
                    },
                }
            },
            None => {},
        }
        push_bytes(&mut tmp, &self.data);
        push_bytes(out, &tmp);
        assert(out@ =~= old(out)@ + custom_query_enc(self@));
        Ok(())
    }

    pub fn read_from(data: &Vec<u8>, pos: &mut usize) -> (r: CustomQuery)
        requires
            *old(pos) <= data@.len(),
        ensures
            r@ == parse_custom_query(data@.skip(*old(pos) as int)).0,
            *final(pos) == data@.len(),
    {
        let ghost p0 = *pos;
        let ghost s_cur = data@.skip(p0 as int);
        let mut p = *pos;
        let mut p2 = p;
        let identifier = match read_resource_location(data, &mut p2) {
            Ok(rl) => {
                p = p2;
                Some(rl)
            },
            Err(_) => None,
        };
        proof {
            assert(data@.skip(p as int) =~= s_cur.skip(p - p0));
        }
        let rest = read_rest(data, &mut p);
        *pos = p;
        CustomQuery { identifier, data: rest }
    }
}

/// The serverbound custom query answer: a transaction id and an optional
/// query payload, its presence marked by one boolean.
#[derive(Clone, Debug)]
pub struct ServerboundCustomQueryPacket {
    pub transaction_id: u32,
    pub query: Option<CustomQuery>,
}

pub type CustomQueryPacketView = (u32, Option<CustomQueryView>);

impl View for ServerboundCustomQueryPacket {
    type V = CustomQueryPacketView;

    open spec fn view(&self) -> CustomQueryPacketView {
        (
            self.transaction_id,
            match self.query {
                Some(ref q) => Some(q@),
                None => None,
            },
        )
    }
}

/// The payload, when present, is itself encodable.
pub open spec fn custom_query_packet_encodable(v: CustomQueryPacketView) -> bool {
    match v.1 {
        Some(q) => custom_query_encodable(q),
        None => true,
    }
}

pub open spec fn custom_query_packet_enc(v: CustomQueryPacketView) -> Seq<u8> {
    varint_enc(v.0 as nat) + crate::codec::bool_enc(v.1 is Some) + (match v.1 {
        Some(q) => custom_query_enc(q),
        None => seq![],
    })
}

/// Parse the packet: a varint transaction id, a presence boolean, and
/// the query payload taking the rest of the body when present.
pub open spec fn parse_custom_query_packet(s: Seq<u8>) -> Result<
    (CustomQueryPacketView, int),
    DecodeError,
> {
    match parse_varint_u32(s) {
        Ok((tid, n1)) => match crate::codec::parse_bool(s.skip(n1)) {
            Ok((present, n2)) => if present {
                Ok(((tid, Some(parse_custom_query(s.skip(n1 + n2)).0)), s.len() as int))
            } else {
                Ok(((tid, None), n1 + n2))
            },
            Err(e) => Err(e),
        },
        Err(e) => Err(e),
    }
}

impl ServerboundCustomQueryPacket {
    /// Succeeds exactly when any identifier in the payload fits the
    /// string bound.
    pub fn write_into(&self, out: &mut Vec<u8>) -> (r: Result<(), EncodeError>)
        ensures
            match r {
                Ok(()) => custom_query_packet_encodable(self@) && final(out)@ == old(out)@
                    + custom_query_packet_enc(self@),
                Err(e) => !custom_query_packet_encodable(self@) && e
                    == EncodeError::LengthExceedsLimit && final(out)@ == old(out)@,
            },
    {
        let mut tmp: Vec<u8> = Vec::new();
        write_varint_u32(&mut tmp, self.transaction_id);
        crate::codec::write_bool(&mut tmp, self.query.is_some());
        match self.query {
            Some(ref q) => {
                match q.write_into(&mut tmp) {
                    Ok(()) => {},
                    Err(_) => {
                        return Err(EncodeError::LengthExceedsLimit);
                    },
                }
            },
            None => {},
        }
        push_bytes(out, &tmp);
        assert(out@ =~= old(out)@ + custom_query_packet_enc(self@));
        Ok(())
    }

    pub fn read_from(data: &Vec<u8>, pos: &mut usize) -> (r: Result<
        ServerboundCustomQueryPacket,
        DecodeError,
    >)
        requires
            *old(pos) <= data@.len(),
        ensures
            match parse_custom_query_packet(data@.skip(*old(pos) as int)) {
                Ok((v, n)) => r matches Ok(rv) && rv@ == v && *final(pos) == *old(pos) + n,
                Err(e) => r matches Err(re) && re == e,
            },
            *old(pos) <= *final(pos) <= data@.len(),
    {
        let ghost p0 = *pos;
        let ghost s_cur = data@.skip(p0 as int);
        let mut p = *pos;
        let tid = match read_varint_u32(data, &mut p) {
            Ok(v) => v,
            Err(e) => {
                return Err(e);
            },
        };
        proof {
            assert(data@.skip(p as int) =~= s_cur.skip(p - p0));
        }
        let present = match crate::codec::read_bool(data, &mut p) {
            Ok(v) => v,
            Err(e) => {
                return Err(e);
            },
        };
        proof {
            assert(data@.skip(p as int) =~= s_cur.skip(p - p0));
        }
        if present {
            let q = CustomQuery::read_from(data, &mut p);
            *pos = p;
            assert(p == data@.len());
            Ok(ServerboundCustomQueryPacket { transaction_id: tid, query: Some(q) })
        } else {
            *pos = p;
            Ok(ServerboundCustomQueryPacket { transaction_id: tid, query: None })
        }
    }
}

/// A custom query answer survives the wire when its payload carries an
/// identifier: without one, a payload that itself begins like an
/// identifier string would decode as one, so that case is left out.
pub proof fn lemma_custom_query_packet_roundtrip(v: CustomQueryPacketView)
    requires
        (match v.1 {
            Some(q) => q.0 matches Some(rl) && rl_wf(rl),
            None => true,
        }),
    ensures
        parse_custom_query_packet(custom_query_packet_enc(v)) == Ok::<
            (CustomQueryPacketView, int),
            DecodeError,
        >((v, custom_query_packet_enc(v).len() as int)),
{
    let e1 = varint_enc(v.0 as nat);
    let e2 = crate::codec::bool_enc(v.1 is Some);
    let whole = custom_query_packet_enc(v);
    match v.1 {
        Some(q) => {
            let e3 = custom_query_enc(q);
            assert(whole =~= e1 + (e2 + e3));
            crate::varint::lemma_varint_u32_roundtrip(v.0, e2 + e3);
            let n1 = e1.len() as int;
            assert(whole.skip(n1) =~= e2 + e3);
            assert((e2 + e3)[0] == e2[0]);
            assert(whole.skip(n1 + 1) =~= e3);
            let rl = q.0->0;
            assert(e3 =~= rl_enc(rl) + q.1);
            crate::resource::lemma_rl_parse_enc(rl, q.1);
            let n = rl_enc(rl).len() as int;
            assert(e3.skip(n) =~= q.1);
            assert(parse_custom_query(e3).0 == q);
        },
        None => {
            assert(whole =~= e1 + (e2 + Seq::<u8>::empty()));
            crate::varint::lemma_varint_u32_roundtrip(v.0, e2 + Seq::<u8>::empty());
            let n1 = e1.len() as int;
            assert(whole.skip(n1) =~= e2 + Seq::<u8>::empty());
            assert((e2 + Seq::<u8>::empty())[0] == e2[0]);
        },
    }
}

} // verus!
