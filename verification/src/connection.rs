//! The connection state machine, seen from the client side: it owns the
//! compression threshold and the two encryption streams, holds the
//! active protocol state, and moves between states only on the control
//! packets that the protocol defines. State changes swap the packet
//! tables; the threshold and ciphers persist across them and are each
//! set at most once.

use vstd::prelude::*;
use crate::error::{DecodeError, EncodeError, ProtocolError};
use crate::state::{ConnectionState, Direction};
use crate::varint::{varint_enc, parse_varint_u32, read_varint_u32, write_varint_u32};
use crate::codec::{string_enc, parse_string, read_string, read_rest};
use crate::crypto::{Cfb8, cfb8_encrypt, cfb8_encrypt_reg, cfb8_decrypt, cfb8_decrypt_reg};
use crate::frame::{frame_enc, parse_frame, encode_frame, decode_frame};
use crate::packets::handshake::{ClientIntentionPacket, Intention, intention_enc, identifier_suffix};
use crate::packets::login::{
    ServerboundHelloPacket, ServerboundKeyPacket, ServerboundCustomQueryPacket,
    ClientboundLoginErrorPacket, ClientboundGameProfilePacket, ClientboundLoginCompressionPacket,
    hello_enc, key_enc, custom_query_packet_enc, parse_game_profile, GameProfileView,
};
use crate::packets::game::{ClientboundAnimatePacket, animate_enc, parse_animate};

verus! {

/// A serverbound status-state packet.
#[derive(Clone, Debug)]
pub enum ServerboundStatusPacket {
    StatusRequest,
}

/// A serverbound login-state packet.
#[derive(Clone, Debug)]
pub enum ServerboundLoginPacket {
    Hello(ServerboundHelloPacket),
    Key(ServerboundKeyPacket),
    CustomQueryAnswer(ServerboundCustomQueryPacket),
    LoginAcknowledged,
}

/// A serverbound configuration-state packet.
#[derive(Clone, Debug)]
pub enum ServerboundConfigurationPacket {
    FinishConfiguration,
}

/// A serverbound game-state packet.
#[derive(Clone, Debug)]
pub enum ServerboundGamePacket {
    ConfigurationAcknowledged,
}

/// A clientbound status-state packet; the response carries the JSON
/// status document as one string.
#[derive(Clone, Debug)]
pub enum ClientboundStatusPacket {
    StatusResponse(String),
}

/// A clientbound login-state packet.
#[derive(Clone, Debug)]
pub enum ClientboundLoginPacket {
    LoginDisconnect(ClientboundLoginErrorPacket),
    GameProfile(ClientboundGameProfilePacket),
    LoginCompression(ClientboundLoginCompressionPacket),
}

/// A clientbound configuration-state packet.
#[derive(Clone, Debug)]
pub enum ClientboundConfigurationPacket {
    FinishConfiguration,
}

/// A clientbound game-state packet.
#[derive(Clone, Debug)]
pub enum ClientboundGamePacket {
    Animate(ClientboundAnimatePacket),
    StartConfiguration,
}

/// A decoded clientbound packet, tagged by the state it arrived in.
#[derive(Clone, Debug)]
pub enum ClientboundPacket {
    Status(ClientboundStatusPacket),
    Login(ClientboundLoginPacket),
    Configuration(ClientboundConfigurationPacket),
    Game(ClientboundGamePacket),
}

/// Spec-level images of the clientbound packets.
pub enum CbStatusView {
    StatusResponse(Seq<char>),
}

pub enum CbLoginView {
    LoginDisconnect(Seq<u8>),
    GameProfile(GameProfileView),
    LoginCompression(u32),
}

pub enum CbConfigurationView {
    FinishConfiguration,
}

pub enum CbGameView {
    Animate(ClientboundAnimatePacket),
    StartConfiguration,
}

pub enum ClientboundPacketView {
    Status(CbStatusView),
    Login(CbLoginView),
    Configuration(CbConfigurationView),
    Game(CbGameView),
}

impl View for ClientboundPacket {
    type V = ClientboundPacketView;

    open spec fn view(&self) -> ClientboundPacketView {
        match self {
            ClientboundPacket::Status(ClientboundStatusPacket::StatusResponse(s)) =>
                ClientboundPacketView::Status(CbStatusView::StatusResponse(s@)),
            ClientboundPacket::Login(ClientboundLoginPacket::LoginDisconnect(p)) =>
                ClientboundPacketView::Login(CbLoginView::LoginDisconnect(p@)),
            ClientboundPacket::Login(ClientboundLoginPacket::GameProfile(p)) =>
                ClientboundPacketView::Login(CbLoginView::GameProfile(p@)),
            ClientboundPacket::Login(ClientboundLoginPacket::LoginCompression(p)) =>
                ClientboundPacketView::Login(CbLoginView::LoginCompression(p.threshold)),
            ClientboundPacket::Configuration(ClientboundConfigurationPacket::FinishConfiguration)
                => ClientboundPacketView::Configuration(CbConfigurationView::FinishConfiguration),
            ClientboundPacket::Game(ClientboundGamePacket::Animate(p)) =>
                ClientboundPacketView::Game(CbGameView::Animate(*p)),
            ClientboundPacket::Game(ClientboundGamePacket::StartConfiguration) =>
                ClientboundPacketView::Game(CbGameView::StartConfiguration),
        }
    }
}

// ---- the packet id tables, as body encodings and body parsers ----

pub open spec fn sb_handshake_body_enc(p: ClientIntentionPacket) -> Seq<u8> {
    varint_enc(0x00) + intention_enc(p@)
}

pub open spec fn sb_status_body_enc(p: ServerboundStatusPacket) -> Seq<u8> {
    varint_enc(0x00)
}

pub open spec fn sb_login_body_enc(p: ServerboundLoginPacket) -> Seq<u8> {
    match p {
        ServerboundLoginPacket::Hello(q) => varint_enc(0x00) + hello_enc(q@),
        ServerboundLoginPacket::Key(q) => varint_enc(0x01) + key_enc(q@),
        ServerboundLoginPacket::CustomQueryAnswer(q) => varint_enc(0x02) + custom_query_packet_enc(
            q@,
        ),
        ServerboundLoginPacket::LoginAcknowledged => varint_enc(0x03),
    }
}

pub open spec fn sb_configuration_body_enc(p: ServerboundConfigurationPacket) -> Seq<u8> {
    varint_enc(0x03)
}

pub open spec fn sb_game_body_enc(p: ServerboundGamePacket) -> Seq<u8> {
    varint_enc(0x0b)
}

/// A login packet whose lengths fit their fields: exactly when its
/// body encodes.
pub open spec fn sb_login_encodable(p: ServerboundLoginPacket) -> bool {
    match p {
        ServerboundLoginPacket::Hello(q) => crate::codec::string_fits(q@.0),
        ServerboundLoginPacket::Key(q) => q@.len() <= u32::MAX,
        ServerboundLoginPacket::CustomQueryAnswer(q) =>
            crate::packets::login::custom_query_packet_encodable(q@),
        ServerboundLoginPacket::LoginAcknowledged => true,
    }
}

/// Whether a clientbound id is in the table of the given state.
pub open spec fn cb_id_known(state: ConnectionState, id: u32) -> bool {
    match state {
        ConnectionState::Handshake => false,
        ConnectionState::Status => id == 0x00,
        ConnectionState::Login => id == 0x00 || id == 0x02 || id == 0x03,
        ConnectionState::Configuration => id == 0x02,
        ConnectionState::Game => id == 0x03 || id == 0x65,
    }
}

/// Dispatch a clientbound frame body by the active state's table. An id
/// outside the table is `UnknownPacketId` and fatal: the byte offset of
/// anything after a misread id cannot be trusted.
pub open spec fn parse_clientbound(state: ConnectionState, s: Seq<u8>) -> Result<
    ClientboundPacketView,
    ProtocolError,
> {
    match parse_varint_u32(s) {
        Err(e) => Err(ProtocolError::Decode(e)),
        Ok((id, n)) => if !cb_id_known(state, id) {
            Err(ProtocolError::UnknownPacketId(state, Direction::Clientbound, id))
        } else {
            match state {
                ConnectionState::Handshake => Err(
                    ProtocolError::UnknownPacketId(state, Direction::Clientbound, id),
                ),
                ConnectionState::Status => match parse_string(s.skip(n)) {
                    Ok((json, _m)) => Ok(
                        ClientboundPacketView::Status(CbStatusView::StatusResponse(json)),
                    ),
                    Err(e) => Err(ProtocolError::Decode(e)),
                },
                ConnectionState::Login => {
                    if id == 0x00 {
                        Ok(
                            ClientboundPacketView::Login(
                                CbLoginView::LoginDisconnect(s.skip(n)),
                            ),
                        )
                    } else if id == 0x02 {
                        match parse_game_profile(s.skip(n)) {
                            Ok((v, _m)) => Ok(
                                ClientboundPacketView::Login(CbLoginView::GameProfile(v)),
                            ),
                            Err(e) => Err(ProtocolError::Decode(e)),
                        }
                    } else {
                        match parse_varint_u32(s.skip(n)) {
                            Ok((t, _m)) => Ok(
                                ClientboundPacketView::Login(CbLoginView::LoginCompression(t)),
                            ),
                            Err(e) => Err(ProtocolError::Decode(e)),
                        }
                    }
                },
                ConnectionState::Configuration => Ok(
                    ClientboundPacketView::Configuration(
                        CbConfigurationView::FinishConfiguration,
                    ),
                ),
                ConnectionState::Game => {
                    if id == 0x03 {
                        match parse_animate(s.skip(n)) {
                            Ok((v, _m)) => Ok(ClientboundPacketView::Game(CbGameView::Animate(v))),
                            Err(e) => Err(ProtocolError::Decode(e)),
                        }
                    } else {
                        Ok(ClientboundPacketView::Game(CbGameView::StartConfiguration))
                    }
                },
            }
        },
    }
}

/// What a decoded packet does to the connection: the compression packet
/// sets the threshold once (a second time is an error), finishing
/// configuration enters the game state, and a start-configuration
/// request returns to configuration. Nothing else moves.
pub open spec fn apply_clientbound(
    state: ConnectionState,
    compression: Option<u32>,
    v: ClientboundPacketView,
) -> Result<(ConnectionState, Option<u32>), ProtocolError> {
    match v {
        ClientboundPacketView::Login(CbLoginView::LoginCompression(t)) => if compression is Some {
            Err(ProtocolError::AlreadySet)
        } else {
            Ok((state, Some(t)))
        },
        ClientboundPacketView::Configuration(CbConfigurationView::FinishConfiguration) => Ok(
            (ConnectionState::Game, compression),
        ),
        ClientboundPacketView::Game(CbGameView::StartConfiguration) => Ok(
            (ConnectionState::Configuration, compression),
        ),
        _ => Ok((state, compression)),
    }
}

/// One client-side connection: the active state, the compression
/// threshold once set, and the two cipher streams once set.
pub struct Connection {
    pub state: ConnectionState,
    pub compression: Option<u32>,
    pub cipher_out: Option<Cfb8>,
    pub cipher_in: Option<Cfb8>,
}

/// The wire bytes a connection sends for a frame body: the frame under
/// the current threshold, encrypted when the outgoing cipher is active.
pub open spec fn sealed_bytes(c: Connection, body: Seq<u8>) -> Seq<u8> {
    match c.cipher_out {
        Some(ci) => cfb8_encrypt(ci.key@, ci.register@, frame_enc(body, c.compression)),
        None => frame_enc(body, c.compression),
    }
}

/// Framing this body under the connection's threshold overflows a
/// 32-bit length prefix: the one way sending a well-formed packet can
/// still fail.
pub open spec fn seal_fails(c: Connection, body: Seq<u8>) -> bool {
    !crate::frame::frame_encodable(body, c.compression)
}

/// How sending advances the outgoing cipher: present exactly as before,
/// with its register run over the sent frame.
pub open spec fn cipher_out_after(c0: Connection, c1: Connection, body: Seq<u8>) -> bool {
    match c0.cipher_out {
        Some(ci) => c1.cipher_out matches Some(cn) && cn.key@ == ci.key@ && cn.register@
            == cfb8_encrypt_reg(ci.key@, ci.register@, frame_enc(body, c0.compression)),
        None => c1.cipher_out is None,
    }
}

impl Connection {
    /// Ciphers, when set, are well formed, and both directions are set
    /// together.
    pub open spec fn wf(&self) -> bool {
        &&& (match self.cipher_out {
            Some(c) => c.wf(),
            None => true,
        })
        &&& (match self.cipher_in {
            Some(c) => c.wf(),
            None => true,
        })
        &&& (self.cipher_out is Some <==> self.cipher_in is Some)
    }

    /// A fresh connection: handshake state, nothing set.
    pub fn new() -> (r: Connection)
        ensures
            r.wf(),
            r.state == ConnectionState::Handshake,
            r.compression is None,
            r.cipher_out is None,
            r.cipher_in is None,
    {
        Connection { state: ConnectionState::Handshake, compression: None, cipher_out: None, cipher_in: None }
    }

    /// Install the encryption context once; a second activation is
    /// refused. Both directions start from the shared secret as key and
    /// initialization vector, effective from the next frame.
    pub fn enable_encryption(&mut self, secret: &Vec<u8>) -> (r: Result<(), ProtocolError>)
        requires
            old(self).wf(),
            secret@.len() == 16,
        ensures
            final(self).wf(),
            final(self).state == old(self).state,
            final(self).compression == old(self).compression,
            match r {
                Ok(()) => {
                    &&& old(self).cipher_out is None
                    &&& final(self).cipher_out matches Some(co) && co.key@ == secret@
                        && co.register@ == secret@
                    &&& final(self).cipher_in matches Some(ci) && ci.key@ == secret@
                        && ci.register@ == secret@
                },
                Err(e) => e == ProtocolError::AlreadySet && old(self).cipher_out is Some
                    && *final(self) == *old(self),
            },
    {
        if self.cipher_out.is_some() {
            return Err(ProtocolError::AlreadySet);
        }
        self.cipher_out = Some(Cfb8::new(secret));
        self.cipher_in = Some(Cfb8::new(secret));
        Ok(())
    }

    /// Frame a body under the current threshold and encrypt it if the
    /// outgoing cipher is active.
    fn seal(&mut self, body: &Vec<u8>) -> (r: Result<Vec<u8>, ProtocolError>)
        requires
            old(self).wf(),
        ensures
            final(self).wf(),
            final(self).state == old(self).state,
            final(self).compression == old(self).compression,
            final(self).cipher_in == old(self).cipher_in,
            match r {
                Ok(b) => b@ == sealed_bytes(*old(self), body@) && !seal_fails(*old(self), body@)
                    && cipher_out_after(*old(self), *final(self), body@),
                Err(e) => *final(self) == *old(self) && seal_fails(*old(self), body@) && e
                    == ProtocolError::Encode(EncodeError::LengthExceedsLimit),
            },
    {
        let frame = match encode_frame(body, self.compression) {
            Ok(f) => f,
            Err(e) => {
                return Err(e);
            },
        };
        match self.cipher_out {
            Some(ref mut c) => {
                let sealed = c.encrypt(&frame);
                Ok(sealed)
            },
            None => Ok(frame),
        }
    }

    /// Send the handshake intention: only valid in the handshake state,
    /// and moves the connection to the state the client intends.
    pub fn send_handshake(&mut self, p: &ClientIntentionPacket) -> (r: Result<
        Vec<u8>,
        ProtocolError,
    >)
        requires
            old(self).wf(),
        ensures
            final(self).wf(),
            final(self).compression == old(self).compression,
            final(self).cipher_in == old(self).cipher_in,
            match r {
                Ok(b) => {
                    &&& old(self).state == ConnectionState::Handshake
                    &&& crate::codec::string_fits(p@.1 + identifier_suffix(p@.4))
                    &&& !seal_fails(*old(self), sb_handshake_body_enc(*p))
                    &&& b@ == sealed_bytes(*old(self), sb_handshake_body_enc(*p))
                    &&& cipher_out_after(*old(self), *final(self), sb_handshake_body_enc(*p))
                    &&& final(self).state == (match p.intention {
                        Intention::Status => ConnectionState::Status,
                        Intention::Login => ConnectionState::Login,
                    })
                },
                Err(e) => {
                    &&& *final(self) == *old(self)
                    &&& if old(self).state != ConnectionState::Handshake {
                        e == ProtocolError::WrongState
                    } else {
                        e == ProtocolError::Encode(EncodeError::LengthExceedsLimit) && (
                        !crate::codec::string_fits(p@.1 + identifier_suffix(p@.4)) || seal_fails(
                            *old(self),
                            sb_handshake_body_enc(*p),
                        ))
                    }
                },
            },
    {
        match self.state {
            ConnectionState::Handshake => {},
            _ => {
                return Err(ProtocolError::WrongState);
            },
        }
        let mut body: Vec<u8> = Vec::new();
        write_varint_u32(&mut body, 0x00);
        match p.write_into(&mut body) {
            Ok(()) => {},
            Err(e) => {
                return Err(ProtocolError::Encode(e));
            },
        }
        assert(body@ =~= sb_handshake_body_enc(*p));
        let b = match self.seal(&body) {
            Ok(b) => b,
            Err(e) => {
                return Err(e);
            },
        };
        self.state = match p.intention {
            Intention::Status => ConnectionState::Status,
            Intention::Login => ConnectionState::Login,
        };
        Ok(b)
    }

    /// Send the status request: only valid in the status state.
    pub fn send_status(&mut self, p: &ServerboundStatusPacket) -> (r: Result<
        Vec<u8>,
        ProtocolError,
    >)
        requires
            old(self).wf(),
        ensures
            final(self).wf(),
            final(self).state == old(self).state,
            final(self).compression == old(self).compression,
            final(self).cipher_in == old(self).cipher_in,
            match r {
                Ok(b) => {
                    &&& old(self).state == ConnectionState::Status
                    &&& !seal_fails(*old(self), sb_status_body_enc(*p))
                    &&& b@ == sealed_bytes(*old(self), sb_status_body_enc(*p))
                    &&& cipher_out_after(*old(self), *final(self), sb_status_body_enc(*p))
                },
                Err(e) => {
                    &&& *final(self) == *old(self)
                    &&& if old(self).state != ConnectionState::Status {
                        e == ProtocolError::WrongState
                    } else {
                        e == ProtocolError::Encode(EncodeError::LengthExceedsLimit) && seal_fails(
                            *old(self),
                            sb_status_body_enc(*p),
                        )
                    }
                },
            },
    {
        match self.state {
            ConnectionState::Status => {},
            _ => {
                return Err(ProtocolError::WrongState);
            },
        }
        let mut body: Vec<u8> = Vec::new();
        write_varint_u32(&mut body, 0x00);
        assert(body@ =~= sb_status_body_enc(*p));
        self.seal(&body)
    }

    /// Send a login packet: only valid in the login state. Sending the
    /// key packet activates encryption for both directions, effective
    /// from the very next frame (the key frame itself travels under the
    /// previous setting, which is none); activating twice is refused.
    /// Acknowledging the login moves the connection to configuration.
    pub fn send_login(&mut self, p: &ServerboundLoginPacket) -> (r: Result<Vec<u8>, ProtocolError>)
        requires
            old(self).wf(),
            p matches ServerboundLoginPacket::Key(k) ==> k.shared_secret@.len() == 16,
        ensures
            final(self).wf(),
            final(self).compression == old(self).compression,
            match r {
                Ok(b) => {
                    &&& old(self).state == ConnectionState::Login
                    &&& sb_login_encodable(*p)
                    &&& !seal_fails(*old(self), sb_login_body_enc(*p))
                    &&& b@ == sealed_bytes(*old(self), sb_login_body_enc(*p))
                    &&& final(self).state == (match *p {
                        ServerboundLoginPacket::LoginAcknowledged => ConnectionState::Configuration,
                        _ => old(self).state,
                    })
                    &&& (match *p {
                        ServerboundLoginPacket::Key(ref k) => {
                            &&& old(self).cipher_out is None
                            &&& final(self).cipher_out matches Some(co) && co.key@
                                == k.shared_secret@ && co.register@ == k.shared_secret@
                            &&& final(self).cipher_in matches Some(ci) && ci.key@
                                == k.shared_secret@ && ci.register@ == k.shared_secret@
                        },
                        _ => {
                            &&& cipher_out_after(*old(self), *final(self), sb_login_body_enc(*p))
                            &&& final(self).cipher_in == old(self).cipher_in
                        },
                    })
                },
                Err(e) => {
                    &&& *final(self) == *old(self)
                    &&& if old(self).state != ConnectionState::Login {
                        e == ProtocolError::WrongState
                    } else if (p matches ServerboundLoginPacket::Key(_)) && old(
                        self,
                    ).cipher_out is Some {
                        e == ProtocolError::AlreadySet
                    } else {
                        e == ProtocolError::Encode(EncodeError::LengthExceedsLimit) && (
                        !sb_login_encodable(*p) || seal_fails(*old(self), sb_login_body_enc(*p)))
                    }
                },
            },
    {
        match self.state {
            ConnectionState::Login => {},
            _ => {
                return Err(ProtocolError::WrongState);
            },
        }
        match p {
            ServerboundLoginPacket::Key(_) => {
                if self.cipher_out.is_some() {
                    return Err(ProtocolError::AlreadySet);
                }
            },
            _ => {},
        }
        let mut body: Vec<u8> = Vec::new();
        match p {
            ServerboundLoginPacket::Hello(q) => {
                write_varint_u32(&mut body, 0x00);
                match q.write_into(&mut body) {
                    Ok(()) => {},
                    Err(e) => {
                        return Err(ProtocolError::Encode(e));
                    },
                }
            },
            ServerboundLoginPacket::Key(q) => {
                write_varint_u32(&mut body, 0x01);
                match q.write_into(&mut body) {
                    Ok(()) => {},
                    Err(e) => {
                        return Err(ProtocolError::Encode(e));
                    },
                }
            },
            ServerboundLoginPacket::CustomQueryAnswer(q) => {
                write_varint_u32(&mut body, 0x02);
                match q.write_into(&mut body) {
                    Ok(()) => {},
                    Err(e) => {
                        return Err(ProtocolError::Encode(e));
                    },
                }
            },
            ServerboundLoginPacket::LoginAcknowledged => {
                write_varint_u32(&mut body, 0x03);
            },
        }
        assert(body@ =~= sb_login_body_enc(*p));
        let b = match self.seal(&body) {
            Ok(b) => b,
            Err(e) => {
                return Err(e);
            },
        };
        match p {
            ServerboundLoginPacket::Key(q) => {
                self.cipher_out = Some(Cfb8::new(&q.shared_secret));
                self.cipher_in = Some(Cfb8::new(&q.shared_secret));
            },
            ServerboundLoginPacket::LoginAcknowledged => {
                self.state = ConnectionState::Configuration;
            },
            _ => {},
        }
        Ok(b)
    }

    /// Send the configuration acknowledgement: only valid in the
    /// configuration state.
    pub fn send_configuration(&mut self, p: &ServerboundConfigurationPacket) -> (r: Result<
        Vec<u8>,
        ProtocolError,
    >)
        requires
            old(self).wf(),
        ensures
            final(self).wf(),
            final(self).state == old(self).state,
            final(self).compression == old(self).compression,
            final(self).cipher_in == old(self).cipher_in,
            match r {
                Ok(b) => {
                    &&& old(self).state == ConnectionState::Configuration
                    &&& !seal_fails(*old(self), sb_configuration_body_enc(*p))
                    &&& b@ == sealed_bytes(*old(self), sb_configuration_body_enc(*p))
                    &&& cipher_out_after(*old(self), *final(self), sb_configuration_body_enc(*p))
                },
                Err(e) => {
                    &&& *final(self) == *old(self)
                    &&& if old(self).state != ConnectionState::Configuration {
                        e == ProtocolError::WrongState
                    } else {
                        e == ProtocolError::Encode(EncodeError::LengthExceedsLimit) && seal_fails(
                            *old(self),
                            sb_configuration_body_enc(*p),
                        )
                    }
                },
            },
    {
        match self.state {
            ConnectionState::Configuration => {},
            _ => {
                return Err(ProtocolError::WrongState);
            },
        }
        let mut body: Vec<u8> = Vec::new();
        write_varint_u32(&mut body, 0x03);
        assert(body@ =~= sb_configuration_body_enc(*p));
        self.seal(&body)
    }

    /// Send a game-state packet: only valid in the game state.
    pub fn send_game(&mut self, p: &ServerboundGamePacket) -> (r: Result<Vec<u8>, ProtocolError>)
        requires
            old(self).wf(),
        ensures
            final(self).wf(),
            final(self).state == old(self).state,
            final(self).compression == old(self).compression,
            final(self).cipher_in == old(self).cipher_in,
            match r {
                Ok(b) => {
                    &&& old(self).state == ConnectionState::Game
                    &&& !seal_fails(*old(self), sb_game_body_enc(*p))
                    &&& b@ == sealed_bytes(*old(self), sb_game_body_enc(*p))
                    &&& cipher_out_after(*old(self), *final(self), sb_game_body_enc(*p))
                },
                Err(e) => {
                    &&& *final(self) == *old(self)
                    &&& if old(self).state != ConnectionState::Game {
                        e == ProtocolError::WrongState
                    } else {
                        e == ProtocolError::Encode(EncodeError::LengthExceedsLimit) && seal_fails(
                            *old(self),
                            sb_game_body_enc(*p),
                        )
                    }
                },
            },
    {
        match self.state {
            ConnectionState::Game => {},
            _ => {
                return Err(ProtocolError::WrongState);
            },
        }
        let mut body: Vec<u8> = Vec::new();
        write_varint_u32(&mut body, 0x0b);
        assert(body@ =~= sb_game_body_enc(*p));
        self.seal(&body)
    }

    /// Decrypt arrived bytes with the incoming stream, in arrival
    /// order; without encryption the bytes pass through unchanged.
    pub fn decrypt_incoming(&mut self, raw: &Vec<u8>) -> (r: Vec<u8>)
        requires
            old(self).wf(),
        ensures
            final(self).wf(),
            final(self).state == old(self).state,
            final(self).compression == old(self).compression,
            final(self).cipher_out == old(self).cipher_out,
            match old(self).cipher_in {
                Some(ci) => {
                    &&& r@ == cfb8_decrypt(ci.key@, ci.register@, raw@)
                    &&& final(self).cipher_in matches Some(cn) && cn.key@ == ci.key@
                        && cn.register@ == cfb8_decrypt_reg(ci.key@, ci.register@, raw@)
                },
                None => r@ == raw@ && final(self).cipher_in is None,
            },
    {
        match self.cipher_in {
            Some(ref mut c) => c.decrypt(raw),
            None => crate::codec::copy_range(raw, 0, raw.len()),
        }
    }

    /// Take one frame from the front of `buf` (already decrypted),
    /// decode it against the active state's table, and apply any state
    /// transition or setting it carries. `Ok(None)` means the buffer
    /// does not yet hold a complete frame; every error is fatal.
    pub fn process_frame(&mut self, buf: &Vec<u8>) -> (r: Result<
        Option<(ClientboundPacket, usize)>,
        ProtocolError,
    >)
        requires
            old(self).wf(),
        ensures
            final(self).wf(),
            final(self).cipher_in == old(self).cipher_in,
            final(self).cipher_out == old(self).cipher_out,
            match parse_frame(buf@, old(self).compression) {
                Ok(None) => r matches Ok(None) && *final(self) == *old(self),
                Err(e) => r matches Err(re) && re == e && *final(self) == *old(self),
                Ok(Some((body, n))) => match parse_clientbound(old(self).state, body) {
                    Err(e) => r matches Err(re) && re == e && *final(self) == *old(self),
                    Ok(v) => match apply_clientbound(old(self).state, old(self).compression, v) {
                        Ok((st, cp)) => r matches Ok(Some((pkt, rn))) && pkt@ == v && rn == n
                            && final(self).state == st && final(self).compression == cp,
                        Err(e) => r matches Err(re) && re == e && *final(self) == *old(self),
                    },
                },
            },
    {
        let (body, consumed) = match decode_frame(buf, self.compression) {
            Ok(Some(x)) => x,
            Ok(None) => {
                return Ok(None);
            },
            Err(e) => {
                return Err(e);
            },
        };
        let mut p: usize = 0;
        proof {
            assert(body@.skip(0int) =~= body@);
        }
        let id = match read_varint_u32(&body, &mut p) {
            Ok(v) => v,
            Err(e) => {
                return Err(ProtocolError::Decode(e));
            },
        };
        let pkt: ClientboundPacket = match self.state {
            ConnectionState::Handshake => {
                return Err(
                    ProtocolError::UnknownPacketId(self.state, Direction::Clientbound, id),
                );
            },
            ConnectionState::Status => {
                if id != 0x00 {
                    return Err(
                        ProtocolError::UnknownPacketId(self.state, Direction::Clientbound, id),
                    );
                }
                match read_string(&body, &mut p) {
                    Ok(json) => ClientboundPacket::Status(
                        ClientboundStatusPacket::StatusResponse(json),
                    ),
                    Err(e) => {
                        return Err(ProtocolError::Decode(e));
                    },
                }
            },
            ConnectionState::Login => {
                if id == 0x00 {
                    let stuff = read_rest(&body, &mut p);
                    ClientboundPacket::Login(
                        ClientboundLoginPacket::LoginDisconnect(
                            ClientboundLoginErrorPacket { stuff },
                        ),
                    )
                } else if id == 0x02 {
                    match ClientboundGameProfilePacket::read_from(&body, &mut p) {
                        Ok(q) => ClientboundPacket::Login(ClientboundLoginPacket::GameProfile(q)),
                        Err(e) => {
                            return Err(ProtocolError::Decode(e));
                        },
                    }
                } else if id == 0x03 {
                    match read_varint_u32(&body, &mut p) {
                        Ok(t) => ClientboundPacket::Login(
                            ClientboundLoginPacket::LoginCompression(
                                ClientboundLoginCompressionPacket { threshold: t },
                            ),
                        ),
                        Err(e) => {
                            return Err(ProtocolError::Decode(e));
                        },
                    }
                } else {
                    return Err(
                        ProtocolError::UnknownPacketId(self.state, Direction::Clientbound, id),
                    );
                }
            },
            ConnectionState::Configuration => {
                if id != 0x02 {
                    return Err(
                        ProtocolError::UnknownPacketId(self.state, Direction::Clientbound, id),
                    );
                }
                ClientboundPacket::Configuration(ClientboundConfigurationPacket::FinishConfiguration)
            },
            ConnectionState::Game => {
                if id == 0x03 {
                    match ClientboundAnimatePacket::read_from(&body, &mut p) {
                        Ok(q) => ClientboundPacket::Game(ClientboundGamePacket::Animate(q)),
                        Err(e) => {
                            return Err(ProtocolError::Decode(e));
                        },
                    }
                } else if id == 0x65 {
                    ClientboundPacket::Game(ClientboundGamePacket::StartConfiguration)
                } else {
                    return Err(
                        ProtocolError::UnknownPacketId(self.state, Direction::Clientbound, id),
                    );
                }
            },
        };
        match pkt {
            ClientboundPacket::Login(ClientboundLoginPacket::LoginCompression(ref c)) => {
                if self.compression.is_some() {
                    return Err(ProtocolError::AlreadySet);
                }
                self.compression = Some(c.threshold);
            },
            ClientboundPacket::Configuration(
                ClientboundConfigurationPacket::FinishConfiguration,
            ) => {
                self.state = ConnectionState::Game;
            },
            ClientboundPacket::Game(ClientboundGamePacket::StartConfiguration) => {
                self.state = ConnectionState::Configuration;
            },
            _ => {},
        }
        Ok(Some((pkt, consumed)))
    }
}

// ---- the clientbound tables as encodings, and their laws ----

/// The state a clientbound packet belongs to.
pub open spec fn state_of_cb(v: ClientboundPacketView) -> ConnectionState {
    match v {
        ClientboundPacketView::Status(_) => ConnectionState::Status,
        ClientboundPacketView::Login(_) => ConnectionState::Login,
        ClientboundPacketView::Configuration(_) => ConnectionState::Configuration,
        ClientboundPacketView::Game(_) => ConnectionState::Game,
    }
}

/// The frame body (id and packet body) of a clientbound packet.
pub open spec fn cb_body_enc(v: ClientboundPacketView) -> Seq<u8> {
    match v {
        ClientboundPacketView::Status(CbStatusView::StatusResponse(json)) => varint_enc(0x00)
            + string_enc(json),
        ClientboundPacketView::Login(CbLoginView::LoginDisconnect(d)) => varint_enc(0x00) + d,
        ClientboundPacketView::Login(CbLoginView::GameProfile(g)) => varint_enc(0x02)
            + crate::packets::login::game_profile_enc(g),
        ClientboundPacketView::Login(CbLoginView::LoginCompression(t)) => varint_enc(0x03)
            + varint_enc(t as nat),
        ClientboundPacketView::Configuration(CbConfigurationView::FinishConfiguration) =>
            varint_enc(0x02),
        ClientboundPacketView::Game(CbGameView::Animate(a)) => varint_enc(0x03) + animate_enc(a),
        ClientboundPacketView::Game(CbGameView::StartConfiguration) => varint_enc(0x65),
    }
}

/// Whether a clientbound packet can be put on the wire: its strings fit
/// their bounds.
pub open spec fn cb_encodable(v: ClientboundPacketView) -> bool {
    match v {
        ClientboundPacketView::Status(CbStatusView::StatusResponse(json)) =>
            crate::codec::string_fits(json),
        ClientboundPacketView::Login(CbLoginView::GameProfile(g)) => crate::codec::string_fits(
            g.1,
        ),
        _ => true,
    }
}

/// Every clientbound packet round-trips through its own state's table:
/// decoding the encoding of a packet, in the state it belongs to, gives
/// the packet back.
pub proof fn lemma_clientbound_roundtrip(v: ClientboundPacketView)
    requires
        cb_encodable(v),
    ensures
        parse_clientbound(state_of_cb(v), cb_body_enc(v)) == Ok::<
            ClientboundPacketView,
            ProtocolError,
        >(v),
{
    match v {
        ClientboundPacketView::Status(CbStatusView::StatusResponse(json)) => {
            let e = string_enc(json);
            crate::varint::lemma_varint_u32_roundtrip(0x00, e);
            let n = crate::varint::varint_len(0x00);
            assert(cb_body_enc(v).skip(n) =~= e + Seq::<u8>::empty());
            crate::codec::lemma_string_parse_enc(json, Seq::<u8>::empty());
        },
        ClientboundPacketView::Login(CbLoginView::LoginDisconnect(d)) => {
            crate::varint::lemma_varint_u32_roundtrip(0x00, d);
            let n = crate::varint::varint_len(0x00);
            assert(cb_body_enc(v).skip(n) =~= d);
        },
        ClientboundPacketView::Login(CbLoginView::GameProfile(g)) => {
            let e = crate::packets::login::game_profile_enc(g);
            crate::varint::lemma_varint_u32_roundtrip(0x02, e);
            let n = crate::varint::varint_len(0x02);
            assert(cb_body_enc(v).skip(n) =~= e + Seq::<u8>::empty());
            crate::packets::login::lemma_game_profile_roundtrip(g, Seq::<u8>::empty());
        },
        ClientboundPacketView::Login(CbLoginView::LoginCompression(t)) => {
            crate::varint::lemma_varint_u32_roundtrip(0x03, varint_enc(t as nat));
            let n = crate::varint::varint_len(0x03);
            assert(cb_body_enc(v).skip(n) =~= varint_enc(t as nat) + Seq::<u8>::empty());
            crate::varint::lemma_varint_u32_roundtrip(t, Seq::<u8>::empty());
        },
        ClientboundPacketView::Configuration(CbConfigurationView::FinishConfiguration) => {
            crate::varint::lemma_varint_u32_roundtrip(0x02, Seq::<u8>::empty());
            assert(cb_body_enc(v) =~= varint_enc(0x02) + Seq::<u8>::empty());
        },
        ClientboundPacketView::Game(CbGameView::Animate(a)) => {
            let e = animate_enc(a);
            crate::varint::lemma_varint_u32_roundtrip(0x03, e);
            let n = crate::varint::varint_len(0x03);
            assert(cb_body_enc(v).skip(n) =~= e + Seq::<u8>::empty());
            crate::packets::game::lemma_animate_roundtrip(a, Seq::<u8>::empty());
        },
        ClientboundPacketView::Game(CbGameView::StartConfiguration) => {
            crate::varint::lemma_varint_u32_roundtrip(0x65, Seq::<u8>::empty());
            assert(cb_body_enc(v) =~= varint_enc(0x65) + Seq::<u8>::empty());
        },
    }
}

/// Packet ids are scoped to their state: after the move to the game
/// state, a body carrying the configuration-only id no longer decodes,
/// it is an unknown id and fatal.
pub proof fn lemma_configuration_id_rejected_in_game(s: Seq<u8>)
    requires
        parse_varint_u32(s) matches Ok((id, n)) && id == 0x02,
    ensures
        parse_clientbound(ConnectionState::Game, s) == Err::<ClientboundPacketView, ProtocolError>(
            ProtocolError::UnknownPacketId(ConnectionState::Game, Direction::Clientbound, 0x02),
        ),
{
}

} // verus!
