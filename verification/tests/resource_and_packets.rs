//! Identifiers and per-packet wire round trips.

use mcwire::resource::{read_resource_location, write_resource_location, ResourceLocation};
use mcwire::packets::handshake::{ClientIdentifier, ClientIntentionPacket, Intention};
use mcwire::packets::login::{
    ServerboundHelloPacket, ServerboundKeyPacket, ServerboundCustomQueryPacket, CustomQuery, Uuid,
};
use mcwire::packets::game::{AnimationAction, ClientboundAnimatePacket};
use mcwire::error::DecodeError;

#[test]
fn resource_location_roundtrip() {
    let rl = ResourceLocation { namespace: String::from("forge"), path: String::from("channel") };
    let mut out = Vec::new();
    write_resource_location(&mut out, &rl).unwrap();
    let mut pos = 0usize;
    let got = read_resource_location(&out, &mut pos).unwrap();
    assert_eq!(got.namespace, "forge");
    assert_eq!(got.path, "channel");
    assert_eq!(pos, out.len());
}

#[test]
fn resource_location_default_namespace() {
    // a plain string without a colon gets the default namespace
    let data = vec![5u8, b's', b't', b'o', b'n', b'e'];
    let mut pos = 0usize;
    let got = read_resource_location(&data, &mut pos).unwrap();
    assert_eq!(got.namespace, "minecraft");
    assert_eq!(got.path, "stone");
}

#[test]
fn resource_location_empty_path_rejected() {
    let data = vec![3u8, b'n', b's', b':'];
    let mut pos = 0usize;
    match read_resource_location(&data, &mut pos) {
        Err(DecodeError::InvalidEnumTag) => {},
        _ => panic!("an empty path must be rejected"),
    }
}

#[test]
fn marker_strings() {
    assert_eq!(ClientIdentifier::Forge.marker_string(), "\u{0}FML3\u{0}");
    assert_eq!(ClientIdentifier::Vanilla.marker_string(), "");
    assert_eq!(ClientIdentifier::Fabric.marker_string(), "");
}

#[test]
fn split_from_ip_recognizes_forge_marker() {
    let (host, id) = ClientIdentifier::split_from_ip(String::from("mc.example.org\u{0}FML3\u{0}"));
    assert_eq!(host, "mc.example.org");
    assert_eq!(id, ClientIdentifier::Forge);

    let (host2, id2) = ClientIdentifier::split_from_ip(String::from("mc.example.org"));
    assert_eq!(host2, "mc.example.org");
    assert_eq!(id2, ClientIdentifier::Vanilla);
}

#[test]
fn intention_packet_roundtrip_vanilla_and_forge() {
    for id in [ClientIdentifier::Vanilla, ClientIdentifier::Forge] {
        let p = ClientIntentionPacket {
            protocol_version: 765,
            hostname: String::from("play.example.net"),
            port: 25565,
            intention: Intention::Login,
            identifier: id,
        };
        let mut out = Vec::new();
        p.write_into(&mut out).unwrap();
        let mut pos = 0usize;
        let got = ClientIntentionPacket::read_from(&out, &mut pos).unwrap();
        assert_eq!(got.protocol_version, 765);
        assert_eq!(got.hostname, "play.example.net");
        assert_eq!(got.port, 25565);
        assert_eq!(got.intention, Intention::Login);
        assert_eq!(got.identifier, id);
        assert_eq!(pos, out.len());
    }
}

#[test]
fn hello_packet_roundtrip() {
    let p = ServerboundHelloPacket {
        name: String::from("Steve"),
        uuid: Uuid { most: 0x0011223344556677, least: 0x8899AABBCCDDEEFF },
    };
    let mut out = Vec::new();
    p.write_into(&mut out).unwrap();
    let mut pos = 0usize;
    let got = ServerboundHelloPacket::read_from(&out, &mut pos).unwrap();
    assert_eq!(got.name, "Steve");
    assert_eq!(got.uuid, p.uuid);
}

#[test]
fn key_packet_roundtrip() {
    let p = ServerboundKeyPacket { shared_secret: (0u8..16).collect() };
    let mut out = Vec::new();
    p.write_into(&mut out).unwrap();
    let mut pos = 0usize;
    let got = ServerboundKeyPacket::read_from(&out, &mut pos).unwrap();
    assert_eq!(got.shared_secret, p.shared_secret);
}

#[test]
fn custom_query_roundtrip_with_identifier() {
    let p = ServerboundCustomQueryPacket {
        transaction_id: 7,
        query: Some(CustomQuery {
            identifier: Some(ResourceLocation {
                namespace: String::from("fml"),
                path: String::from("handshake"),
            }),
            data: vec![9, 9, 9],
        }),
    };
    let mut out = Vec::new();
    p.write_into(&mut out).unwrap();
    let mut pos = 0usize;
    let got = ServerboundCustomQueryPacket::read_from(&out, &mut pos).unwrap();
    assert_eq!(got.transaction_id, 7);
    let q = got.query.unwrap();
    let rl = q.identifier.unwrap();
    assert_eq!(rl.namespace, "fml");
    assert_eq!(rl.path, "handshake");
    assert_eq!(q.data, vec![9, 9, 9]);
}

#[test]
fn animate_packet_roundtrip_and_bad_tag() {
    let p = ClientboundAnimatePacket { id: 42, action: AnimationAction::CriticalHit };
    let mut out = Vec::new();
    p.write_into(&mut out);
    assert_eq!(out, vec![42, 4]);
    let mut pos = 0usize;
    let got = ClientboundAnimatePacket::read_from(&out, &mut pos).unwrap();
    assert_eq!(got, p);

    let bad = vec![1u8, 6];
    let mut pos2 = 0usize;
    assert_eq!(
        ClientboundAnimatePacket::read_from(&bad, &mut pos2),
        Err(DecodeError::InvalidEnumTag)
    );
}
