//! The Forge payload codec: serialization, 15-bit packing, and the
//! round trips the status string depends on.

use mcwire::forge_data::{ForgeChannelData, ForgeData, ForgeModData};
use mcwire::packets::forge::{
    ClientboundModDataPacket, ClientboundModListPacket, ClientboundConfigDataPacket,
    ClientboundRegistryPacket, ForgeRegistryData, ServerboundAcknowledgePacket,
    ServerboundModListReplyPacket, ServerboundForgePacket, ClientboundForgePacket,
};
use mcwire::resource::ResourceLocation;

fn roundtrip(fd: &ForgeData) -> ForgeData {
    let s = fd.encode_optimized().unwrap();
    let bytes = ForgeData::decode_optimized(s);
    ForgeData::deserialize_optimized(bytes, fd.fmlversion).unwrap()
}

fn assert_same(a: &ForgeData, b: &ForgeData) {
    assert_eq!(a.truncated, b.truncated);
    assert_eq!(a.fmlversion, b.fmlversion);
    assert_eq!(a.mods.len(), b.mods.len());
    for (x, y) in a.mods.iter().zip(b.mods.iter()) {
        assert_eq!(x.name, y.name);
        assert_eq!(x.version, y.version);
    }
    assert_eq!(a.channels.len(), b.channels.len());
    for (x, y) in a.channels.iter().zip(b.channels.iter()) {
        assert_eq!(x.name, y.name);
        assert_eq!(x.version, y.version);
        assert_eq!(x.optional, y.optional);
    }
}

#[test]
fn forge_roundtrip_zero_mods() {
    let fd = ForgeData { mods: vec![], channels: vec![], truncated: true, fmlversion: 3 };
    let got = roundtrip(&fd);
    assert_same(&fd, &got);
}

#[test]
fn forge_roundtrip_one_mod_no_version_no_channels() {
    let fd = ForgeData {
        mods: vec![ForgeModData { name: String::from("examplemod"), version: None }],
        channels: vec![],
        truncated: true,
        fmlversion: 3,
    };
    let got = roundtrip(&fd);
    assert_same(&fd, &got);
}

#[test]
fn forge_roundtrip_mods_sharing_channel_namespace() {
    // two mods, each with channels in its own namespace, one channel of
    // no mod; channels grouped as decoding produces them
    let fd = ForgeData {
        mods: vec![
            ForgeModData { name: String::from("alpha"), version: Some(String::from("1.0")) },
            ForgeModData { name: String::from("beta"), version: None },
        ],
        channels: vec![
            ForgeChannelData {
                name: String::from("alpha:main"),
                version: String::from("1"),
                optional: false,
            },
            ForgeChannelData {
                name: String::from("alpha:aux"),
                version: String::from("2"),
                optional: true,
            },
            ForgeChannelData {
                name: String::from("beta:main"),
                version: String::from("1"),
                optional: false,
            },
            ForgeChannelData {
                name: String::from("other:misc"),
                version: String::from("9"),
                optional: true,
            },
        ],
        truncated: true,
        fmlversion: 3,
    };
    let got = roundtrip(&fd);
    assert_same(&fd, &got);
}

#[test]
fn forge_header_carries_packed_payload_length() {
    let fd = ForgeData {
        mods: vec![ForgeModData { name: String::from("m"), version: Some(String::from("7")) }],
        channels: vec![],
        truncated: true,
        fmlversion: 3,
    };
    let mut payload = Vec::new();
    fd.serialize_optimized(&mut payload).unwrap();
    let s = fd.encode_optimized().unwrap();
    let units: Vec<u32> = s.chars().map(|c| c as u32).collect();
    let header_len = (units[0] & 0x7FFF) as usize | (((units[1] & 0x7FFF) as usize) << 15);
    assert_eq!(header_len, payload.len());
    // every emitted unit is printable string content below 0x8000
    assert!(units.iter().all(|&u| u < 0x8000));
    // unit count: two header units plus one per fifteen payload bits
    assert_eq!(units.len(), 2 + (8 * payload.len() + 14) / 15);
}

#[test]
fn forge_serialized_bytes_exact() {
    // truncated flag, mod count, flag varint (no channels, no version),
    // mod id, then the count of channels of no mod
    let fd = ForgeData {
        mods: vec![ForgeModData { name: String::from("ab"), version: None }],
        channels: vec![],
        truncated: true,
        fmlversion: 3,
    };
    let mut payload = Vec::new();
    fd.serialize_optimized(&mut payload).unwrap();
    assert_eq!(payload, vec![1, 0, 1, 0b1, 2, b'a', b'b', 0]);
}

#[test]
fn mod_list_reply_roundtrip_and_reply_building() {
    let ml = ClientboundModListPacket {
        mods: vec![String::from("alpha"), String::from("beta")],
        channels: vec![(
            ResourceLocation { namespace: String::from("alpha"), path: String::from("main") },
            String::from("1"),
        )],
        registries: vec![ResourceLocation {
            namespace: String::from("minecraft"),
            path: String::from("block"),
        }],
        padding: 0,
    };
    let mut out = Vec::new();
    ml.write_into(&mut out).unwrap();
    let mut pos = 0usize;
    let got = ClientboundModListPacket::read_from(&out, &mut pos).unwrap();
    assert_eq!(got.mods, ml.mods);
    assert_eq!(got.padding, 0);
    assert_eq!(got.registries.len(), 1);
    assert_eq!(got.registries[0].path, "block");

    let reply = ServerboundModListReplyPacket::reply_to(&ml);
    assert_eq!(reply.mods, ml.mods);
    assert_eq!(reply.registries.len(), 1);
    assert_eq!(reply.registries[0].1, "");
    let mut out2 = Vec::new();
    reply.write_into(&mut out2).unwrap();
    let mut pos2 = 0usize;
    let back = ServerboundModListReplyPacket::read_from(&out2, &mut pos2).unwrap();
    assert_eq!(back.mods, reply.mods);
    assert_eq!(back.registries[0].0.path, "block");
}

#[test]
fn mod_data_roundtrip() {
    let p = ClientboundModDataPacket {
        list: vec![
            (String::from("alpha"), (String::from("Alpha"), String::from("1.0"))),
            (String::from("beta"), (String::from("Beta"), String::from("2.0"))),
        ],
    };
    let mut out = Vec::new();
    p.write_into(&mut out).unwrap();
    let mut pos = 0usize;
    let got = ClientboundModDataPacket::read_from(&out, &mut pos).unwrap();
    assert_eq!(got.list, p.list);
}

#[test]
fn forge_packet_frame_roundtrip() {
    let pkt = ServerboundForgePacket::Acknowledge(ServerboundAcknowledgePacket::new());
    let frame = pkt.write_to_vec().unwrap();
    assert_eq!(frame, vec![1, 0x63]);
    match ServerboundForgePacket::read_from_buf(&frame).unwrap() {
        ServerboundForgePacket::Acknowledge(_) => {},
        _ => panic!("wrong packet"),
    }

    let cfg = ClientboundForgePacket::ConfigData(ClientboundConfigDataPacket {
        filename: String::from("server.toml"),
        filedata: vec![1, 2, 3],
    });
    let frame2 = cfg.write_to_vec().unwrap();
    match ClientboundForgePacket::read_from_buf(&frame2).unwrap() {
        ClientboundForgePacket::ConfigData(p) => {
            assert_eq!(p.filename, "server.toml");
            assert_eq!(p.filedata, vec![1, 2, 3]);
        },
        _ => panic!("wrong packet"),
    }
}

fn rl(ns: &str, path: &str) -> mcwire::resource::ResourceLocation {
    mcwire::resource::ResourceLocation { namespace: ns.to_string(), path: path.to_string() }
}

#[test]
fn registry_packet_roundtrip_with_tables() {
    let pkt = ClientboundRegistryPacket {
        registry: rl("minecraft", "block"),
        data: Some(ForgeRegistryData {
            ids: vec![(rl("minecraft", "stone"), 1), (rl("minecraft", "dirt"), 2)],
            aliases: vec![(rl("minecraft", "grass"), rl("minecraft", "grass_block"))],
            overrides: vec![(rl("minecraft", "stone"), "forge".to_string())],
            blocked: vec![300, 7],
            dummied: vec![rl("minecraft", "air")],
        }),
    };
    let mut out = Vec::new();
    pkt.write_into(&mut out).unwrap();
    let mut pos = 0usize;
    let got = ClientboundRegistryPacket::read_from(&out, &mut pos).unwrap();
    assert_eq!(pos, out.len());
    assert_eq!(got.registry.path, "block");
    let d = got.data.unwrap();
    assert_eq!(d.ids.len(), 2);
    assert_eq!(d.ids[0].0.path, "stone");
    assert_eq!(d.ids[0].1, 1);
    assert_eq!(d.aliases[0].1.path, "grass_block");
    assert_eq!(d.overrides[0].1, "forge");
    assert_eq!(d.blocked, vec![300, 7]);
    assert_eq!(d.dummied[0].path, "air");
}

#[test]
fn registry_packet_roundtrip_without_tables() {
    let pkt = ClientboundRegistryPacket { registry: rl("minecraft", "item"), data: None };
    let mut out = Vec::new();
    pkt.write_into(&mut out).unwrap();
    let mut pos = 0usize;
    let got = ClientboundRegistryPacket::read_from(&out, &mut pos).unwrap();
    assert_eq!(got.registry.path, "item");
    assert!(got.data.is_none());
}

#[test]
fn registry_packet_through_the_forge_frame() {
    let pkt = ClientboundForgePacket::Registry(ClientboundRegistryPacket {
        registry: rl("minecraft", "block"),
        data: Some(ForgeRegistryData {
            ids: vec![(rl("minecraft", "stone"), 1)],
            aliases: vec![],
            overrides: vec![],
            blocked: vec![],
            dummied: vec![],
        }),
    });
    let frame = pkt.write_to_vec().unwrap();
    match ClientboundForgePacket::read_from_buf(&frame).unwrap() {
        ClientboundForgePacket::Registry(p) => {
            assert_eq!(p.registry.path, "block");
            assert_eq!(p.data.unwrap().ids[0].1, 1);
        },
        _ => panic!("wrong packet"),
    }
}
