//! The connection state machine: state-scoped ids, the compression and
//! encryption settings, and the wire scenarios.

use mcwire::connection::{
    ClientboundConfigurationPacket, ClientboundGamePacket, ClientboundLoginPacket,
    ClientboundPacket, Connection, ServerboundConfigurationPacket, ServerboundGamePacket,
    ServerboundLoginPacket, ServerboundStatusPacket,
};
use mcwire::crypto::Cfb8;
use mcwire::error::{DecodeError, ProtocolError};
use mcwire::packets::handshake::{ClientIdentifier, ClientIntentionPacket, Intention};
use mcwire::packets::login::{ServerboundHelloPacket, ServerboundKeyPacket, Uuid};
use mcwire::state::{ConnectionState, Direction};

fn login_connection() -> Connection {
    let mut conn = Connection::new();
    let hs = ClientIntentionPacket {
        protocol_version: 765,
        hostname: String::from("localhost"),
        port: 25565,
        intention: Intention::Login,
        identifier: ClientIdentifier::Vanilla,
    };
    conn.send_handshake(&hs).unwrap();
    assert_eq!(conn.state, ConnectionState::Login);
    conn
}

#[test]
fn handshake_chooses_the_next_state() {
    let mut conn = Connection::new();
    let hs = ClientIntentionPacket {
        protocol_version: 765,
        hostname: String::from("localhost"),
        port: 25565,
        intention: Intention::Status,
        identifier: ClientIdentifier::Vanilla,
    };
    conn.send_handshake(&hs).unwrap();
    assert_eq!(conn.state, ConnectionState::Status);
    conn.send_status(&ServerboundStatusPacket::StatusRequest).unwrap();
    // a second handshake is out of state
    assert_eq!(conn.send_handshake(&hs), Err(ProtocolError::WrongState));
}

#[test]
fn hello_packet_wire_bytes_exact() {
    // varint(len) || 0x00 || varint(5) || "Steve" || sixteen UUID bytes
    let mut conn = login_connection();
    let hello = ServerboundLoginPacket::Hello(ServerboundHelloPacket {
        name: String::from("Steve"),
        uuid: Uuid { most: 0x0001020304050607, least: 0x08090A0B0C0D0E0F },
    });
    let bytes = conn.send_login(&hello).unwrap();
    let mut expected = vec![23u8, 0x00, 5];
    expected.extend_from_slice(b"Steve");
    expected.extend_from_slice(&[0, 1, 2, 3, 4, 5, 6, 7, 8, 9, 10, 11, 12, 13, 14, 15]);
    assert_eq!(bytes, expected);
}

#[test]
fn configuration_to_game_scopes_packet_ids() {
    let mut conn = login_connection();
    conn.send_login(&ServerboundLoginPacket::LoginAcknowledged).unwrap();
    assert_eq!(conn.state, ConnectionState::Configuration);

    // the server finishes configuration: body is the id alone
    let finish_frame = vec![1u8, 0x02];
    let (pkt, consumed) = conn.process_frame(&finish_frame).unwrap().unwrap();
    assert_eq!(consumed, 2);
    match pkt {
        ClientboundPacket::Configuration(ClientboundConfigurationPacket::FinishConfiguration) => {},
        _ => panic!("wrong packet"),
    }
    assert_eq!(conn.state, ConnectionState::Game);

    // the configuration-only id no longer decodes
    match conn.process_frame(&finish_frame) {
        Err(ProtocolError::UnknownPacketId(st, dir, id)) => {
            assert_eq!(st, ConnectionState::Game);
            assert_eq!(dir, Direction::Clientbound);
            assert_eq!(id, 0x02);
        },
        _ => panic!("configuration id must be unknown in game state"),
    }
    // and the configuration-only variant no longer encodes
    assert_eq!(
        conn.send_configuration(&ServerboundConfigurationPacket::FinishConfiguration),
        Err(ProtocolError::WrongState)
    );

    // the server can cycle back to configuration
    let start_frame = vec![1u8, 0x65];
    let (pkt2, _) = conn.process_frame(&start_frame).unwrap().unwrap();
    match pkt2 {
        ClientboundPacket::Game(ClientboundGamePacket::StartConfiguration) => {},
        _ => panic!("wrong packet"),
    }
    assert_eq!(conn.state, ConnectionState::Configuration);
}

#[test]
fn compression_threshold_sets_once() {
    let mut conn = login_connection();
    // LoginCompression: id 0x03, threshold 64
    let frame = vec![2u8, 0x03, 64];
    let (pkt, _) = conn.process_frame(&frame).unwrap().unwrap();
    match pkt {
        ClientboundPacket::Login(ClientboundLoginPacket::LoginCompression(c)) => {
            assert_eq!(c.threshold, 64)
        },
        _ => panic!("wrong packet"),
    }
    assert_eq!(conn.compression, Some(64));
    // a second threshold packet is refused; it now arrives in the
    // post-threshold frame form (zero marker, then id and body)
    let frame2 = vec![3u8, 0x00, 0x03, 64];
    match conn.process_frame(&frame2) {
        Err(ProtocolError::AlreadySet) => {},
        _ => panic!("second threshold must be refused"),
    }
    assert_eq!(conn.compression, Some(64));
}

#[test]
fn compressed_frames_after_threshold() {
    let mut conn = login_connection();
    let frame = vec![2u8, 0x03, 8];
    conn.process_frame(&frame).unwrap();
    // the next outgoing packet is long enough to be compressed
    let hello = ServerboundLoginPacket::Hello(ServerboundHelloPacket {
        name: String::from("Steve"),
        uuid: Uuid { most: 1, least: 2 },
    });
    let bytes = conn.send_login(&hello).unwrap();
    // frame length varint, then a nonzero data length: the packet was
    // compressed
    assert!(bytes[1] != 0);
}

#[test]
fn key_exchange_activates_encryption_for_the_next_frame() {
    let secret: Vec<u8> = (1u8..17).collect();

    // an unencrypted reference connection for comparison
    let mut plain_conn = login_connection();
    let ack_plain = plain_conn.send_login(&ServerboundLoginPacket::LoginAcknowledged).unwrap();

    let mut conn = login_connection();
    let key = ServerboundLoginPacket::Key(ServerboundKeyPacket { shared_secret: secret.clone() });
    let key_bytes = conn.send_login(&key).unwrap();
    // the key frame itself travels unencrypted
    assert_eq!(key_bytes[0] as usize, key_bytes.len() - 1);

    // the same logical next packet now produces different raw bytes
    let ack_sealed = conn.send_login(&ServerboundLoginPacket::LoginAcknowledged).unwrap();
    assert_eq!(ack_sealed.len(), ack_plain.len());
    assert_ne!(ack_sealed, ack_plain);

    // decrypting with the correct key and IV reproduces the plaintext
    let mut dec = Cfb8::new(&secret);
    let recovered = dec.decrypt(&ack_sealed);
    assert_eq!(recovered, ack_plain);
}

#[test]
fn encryption_sets_once() {
    let secret: Vec<u8> = (1u8..17).collect();
    let mut conn = login_connection();
    let key = ServerboundLoginPacket::Key(ServerboundKeyPacket { shared_secret: secret.clone() });
    conn.send_login(&key).unwrap();
    assert_eq!(conn.send_login(&key), Err(ProtocolError::AlreadySet));
}

#[test]
fn cfb8_known_answer() {
    // AES-128 of the zero block under the zero key begins 0x66, so the
    // first CFB8 keystream byte is 0x66
    let zeros = vec![0u8; 16];
    let mut enc = Cfb8::new(&zeros);
    let c = enc.encrypt(&vec![0u8]);
    assert_eq!(c, vec![0x66]);
}

#[test]
fn cfb8_stream_roundtrip() {
    let secret: Vec<u8> = (10u8..26).collect();
    let mut enc = Cfb8::new(&secret);
    let mut dec = Cfb8::new(&secret);
    let data: Vec<u8> = (0..200u8).collect();
    // split the stream to check that state carries across calls
    let c1 = enc.encrypt(&data[..77].to_vec());
    let c2 = enc.encrypt(&data[77..].to_vec());
    let p1 = dec.decrypt(&c1);
    let p2 = dec.decrypt(&c2);
    let mut recovered = p1;
    recovered.extend_from_slice(&p2);
    assert_eq!(recovered, data);
}

#[test]
fn decrypt_incoming_tracks_the_stream() {
    let secret: Vec<u8> = (1u8..17).collect();
    let mut conn = login_connection();
    conn.send_login(&ServerboundLoginPacket::Key(ServerboundKeyPacket {
        shared_secret: secret.clone(),
    }))
    .unwrap();

    // the server encrypts a LoginCompression frame with the same secret
    let mut server_out = Cfb8::new(&secret);
    let plain_frame = vec![2u8, 0x03, 32];
    let wire = server_out.encrypt(&plain_frame);
    assert_ne!(wire, plain_frame);

    let decrypted = conn.decrypt_incoming(&wire);
    assert_eq!(decrypted, plain_frame);
    let (pkt, _) = conn.process_frame(&decrypted).unwrap().unwrap();
    match pkt {
        ClientboundPacket::Login(ClientboundLoginPacket::LoginCompression(c)) => {
            assert_eq!(c.threshold, 32)
        },
        _ => panic!("wrong packet"),
    }
}

#[test]
fn status_response_carries_json_text() {
    let mut conn = Connection::new();
    let hs = ClientIntentionPacket {
        protocol_version: 765,
        hostname: String::from("localhost"),
        port: 25565,
        intention: Intention::Status,
        identifier: ClientIdentifier::Vanilla,
    };
    conn.send_handshake(&hs).unwrap();
    let json = "{\"version\":{\"name\":\"1.20\",\"protocol\":765}}";
    let mut body = vec![0x00u8, json.len() as u8];
    body.extend_from_slice(json.as_bytes());
    let mut frame = vec![body.len() as u8];
    frame.extend_from_slice(&body);
    let (pkt, _) = conn.process_frame(&frame).unwrap().unwrap();
    match pkt {
        ClientboundPacket::Status(mcwire::connection::ClientboundStatusPacket::StatusResponse(
            s,
        )) => assert_eq!(s, json),
        _ => panic!("wrong packet"),
    }
}

#[test]
fn truncated_frame_decode_inside_body_is_eof() {
    let mut conn = login_connection();
    // a complete frame whose body declares a longer string than present
    let frame = vec![3u8, 0x02, 0x00, 0x05];
    match conn.process_frame(&frame) {
        Err(ProtocolError::Decode(DecodeError::UnexpectedEof)) => {},
        _ => panic!("short body must end in unexpected eof"),
    }
}
