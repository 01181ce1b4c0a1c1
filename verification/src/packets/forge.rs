//! The Forge handshake channel: its serverbound and clientbound packets
//! with their ids, and whole-frame encode/decode for one packet at a
//! time (the channel runs without compression or encryption).

use vstd::prelude::*;
use crate::error::{DecodeError, EncodeError, ProtocolError};
use crate::state::{ConnectionState, Direction};
use crate::varint::{varint_enc, parse_varint_u32, read_varint_u32, write_varint_u32};
use crate::codec::{
    string_enc, string_fits, parse_string, u8_enc, parse_be, bytes_enc, parse_bytes, read_string,
    write_string, read_u8, write_u8, read_prefixed_bytes, write_prefixed_bytes, read_rest,
    push_bytes,
};
use crate::resource::{ResourceLocation, rl_fits};
use crate::lists::{
    RlView, string_list_enc, parse_string_list, read_string_list, write_string_list, rl_list_enc,
    parse_rl_list, read_rl_list, write_rl_list, rl_string_list_enc, parse_rl_string_list,
    read_rl_string_list, write_rl_string_list, string3_list_enc, parse_string3_list,
    read_string3_list, write_string3_list,
};

verus! {

/// The acknowledgement the client sends after each Forge stage.
#[derive(Clone, Copy, Debug, PartialEq, Eq, Structural, Default)]
pub struct ServerboundAcknowledgePacket {}

impl ServerboundAcknowledgePacket {
    pub fn new() -> (r: Self)
        ensures
            r == (ServerboundAcknowledgePacket {  }),
    {
        ServerboundAcknowledgePacket {  }
    }
}

/// The client's reply to the server's mod list: its own mods, channels,
/// and registries (each registry with an empty marker version).
#[derive(Clone, Debug)]
pub struct ServerboundModListReplyPacket {
    pub mods: Vec<String>,
    pub channels: Vec<(ResourceLocation, String)>,
    pub registries: Vec<(ResourceLocation, String)>,
}

pub type ModListReplyView = (Seq<Seq<char>>, Seq<(RlView, Seq<char>)>, Seq<(RlView, Seq<char>)>);

impl View for ServerboundModListReplyPacket {
    type V = ModListReplyView;

    open spec fn view(&self) -> ModListReplyView {
        (
            self.mods@.map_values(|x: String| x@),
            self.channels@.map_values(|x: (ResourceLocation, String)| (x.0@, x.1@)),
            self.registries@.map_values(|x: (ResourceLocation, String)| (x.0@, x.1@)),
        )
    }
}

pub open spec fn mod_list_reply_enc(v: ModListReplyView) -> Seq<u8> {
    varint_enc(v.0.len()) + string_list_enc(v.0) + varint_enc(v.1.len()) + rl_string_list_enc(v.1)
        + varint_enc(v.2.len()) + rl_string_list_enc(v.2)
}

/// Every count fits its varint prefix and every identifier and string
/// its wire bound: exactly when the packet encodes.
pub open spec fn mod_list_reply_encodable(p: ServerboundModListReplyPacket) -> bool {
    &&& p.mods@.len() <= u32::MAX
    &&& p.channels@.len() <= u32::MAX
    &&& p.registries@.len() <= u32::MAX
    &&& forall|j: int| 0 <= j < p.mods@.len() ==> string_fits((#[trigger] p.mods@[j])@)
    &&& forall|j: int| 0 <= j < p.channels@.len() ==> rl_fits((#[trigger] p.channels@[j]).0@)
        && string_fits(p.channels@[j].1@)
    &&& forall|j: int| 0 <= j < p.registries@.len() ==> rl_fits((#[trigger] p.registries@[j]).0@)
        && string_fits(p.registries@[j].1@)
}

pub open spec fn parse_mod_list_reply(s: Seq<u8>) -> Result<(ModListReplyView, int), DecodeError> {
    match parse_varint_u32(s) {
        Ok((c1, n1)) => match parse_string_list(s.skip(n1), c1 as nat) {
            Ok((mods, n2)) => match parse_varint_u32(s.skip(n1 + n2)) {
                Ok((c2, n3)) => match parse_rl_string_list(s.skip(n1 + n2 + n3), c2 as nat) {
                    Ok((chans, n4)) => match parse_varint_u32(s.skip(n1 + n2 + n3 + n4)) {
                        Ok((c3, n5)) => match parse_rl_string_list(
                            s.skip(n1 + n2 + n3 + n4 + n5),
                            c3 as nat,
                        ) {
                            Ok((regs, n6)) => Ok(
                                ((mods, chans, regs), n1 + n2 + n3 + n4 + n5 + n6),
                            ),
                            Err(e) => Err(e),
                        },
                        Err(e) => Err(e),
                    },
                    Err(e) => Err(e),
                },
                Err(e) => Err(e),
            },
            Err(e) => Err(e),
        },
        Err(e) => Err(e),
    }
}

impl ServerboundModListReplyPacket {
    /// Succeeds exactly when every length fits its field.
    pub fn write_into(&self, out: &mut Vec<u8>) -> (r: Result<(), EncodeError>)
        ensures
            match r {
                Ok(()) => mod_list_reply_encodable(*self) && final(out)@ == old(out)@
                    + mod_list_reply_enc(self@),
                Err(e) => !mod_list_reply_encodable(*self) && e == EncodeError::LengthExceedsLimit
                    && final(out)@ == old(out)@,
            },
    {
        let mut tmp: Vec<u8> = Vec::new();
        if self.mods.len() > u32::MAX as usize || self.channels.len() > u32::MAX as usize
            || self.registries.len() > u32::MAX as usize {
            return Err(EncodeError::LengthExceedsLimit);
        }
        write_varint_u32(&mut tmp, self.mods.len() as u32);
        match write_string_list(&mut tmp, &self.mods) {
            Ok(()) => {},
            Err(_) => {
                return Err(EncodeError::LengthExceedsLimit);
            },
        }
        write_varint_u32(&mut tmp, self.channels.len() as u32);
        match write_rl_string_list(&mut tmp, &self.channels) {
            Ok(()) => {},
            Err(_) => {
                return Err(EncodeError::LengthExceedsLimit);
            },
        }
        write_varint_u32(&mut tmp, self.registries.len() as u32);
        match write_rl_string_list(&mut tmp, &self.registries) {
            Ok(()) => {},
            Err(_) => {
                return Err(EncodeError::LengthExceedsLimit);
            },
        }
        push_bytes(out, &tmp);
        assert(out@ =~= old(out)@ + mod_list_reply_enc(self@));
        Ok(())
    }

    pub fn read_from(data: &Vec<u8>, pos: &mut usize) -> (r: Result<
        ServerboundModListReplyPacket,
        DecodeError,
    >)
        requires
            *old(pos) <= data@.len(),
        ensures
            match parse_mod_list_reply(data@.skip(*old(pos) as int)) {
                Ok((v, n)) => r matches Ok(rv) && rv@ == v && *final(pos) == *old(pos) + n,
                Err(e) => r matches Err(re) && re == e,
            },
            *old(pos) <= *final(pos) <= data@.len(),
    {
        let ghost p0 = *pos;
        let ghost s_cur = data@.skip(p0 as int);
        let mut p = *pos;
        let c1 = match read_varint_u32(data, &mut p) {
            Ok(v) => v,
            Err(e) => {
                return Err(e);
            },
        };
        proof {
            assert(data@.skip(p as int) =~= s_cur.skip(p - p0));
        }
        let mods = match read_string_list(data, &mut p, c1) {
            Ok(v) => v,
            Err(e) => {
                return Err(e);
            },
        };
        proof {
            assert(data@.skip(p as int) =~= s_cur.skip(p - p0));
        }
        let c2 = match read_varint_u32(data, &mut p) {
            Ok(v) => v,
            Err(e) => {
                return Err(e);
            },
        };
        proof {
            assert(data@.skip(p as int) =~= s_cur.skip(p - p0));
        }
        let channels = match read_rl_string_list(data, &mut p, c2) {
            Ok(v) => v,
            Err(e) => {
                return Err(e);
            },
        };
        proof {
            assert(data@.skip(p as int) =~= s_cur.skip(p - p0));
        }
        let c3 = match read_varint_u32(data, &mut p) {
            Ok(v) => v,
            Err(e) => {
                return Err(e);
            },
        };
        proof {
            assert(data@.skip(p as int) =~= s_cur.skip(p - p0));
        }
        let registries = match read_rl_string_list(data, &mut p, c3) {
            Ok(v) => v,
            Err(e) => {
                return Err(e);
            },
        };
        *pos = p;
        Ok(ServerboundModListReplyPacket { mods, channels, registries })
    }
}

/// The server's mod list: mods, channels, registry names, one padding
/// byte.
#[derive(Clone, Debug)]
pub struct ClientboundModListPacket {
    pub mods: Vec<String>,
    pub channels: Vec<(ResourceLocation, String)>,
    pub registries: Vec<ResourceLocation>,
    pub padding: u8,
}

pub type ModListView = (Seq<Seq<char>>, Seq<(RlView, Seq<char>)>, Seq<RlView>, u8);

impl View for ClientboundModListPacket {
    type V = ModListView;

    open spec fn view(&self) -> ModListView {
        (
            self.mods@.map_values(|x: String| x@),
            self.channels@.map_values(|x: (ResourceLocation, String)| (x.0@, x.1@)),
            self.registries@.map_values(|x: ResourceLocation| x@),
            self.padding,
        )
    }
}

pub open spec fn mod_list_enc(v: ModListView) -> Seq<u8> {
    varint_enc(v.0.len()) + string_list_enc(v.0) + varint_enc(v.1.len()) + rl_string_list_enc(v.1)
        + varint_enc(v.2.len()) + rl_list_enc(v.2) + u8_enc(v.3)
}

/// Every count fits its varint prefix and every identifier and string
/// its wire bound: exactly when the packet encodes.
pub open spec fn mod_list_encodable(p: ClientboundModListPacket) -> bool {
    &&& p.mods@.len() <= u32::MAX
    &&& p.channels@.len() <= u32::MAX
    &&& p.registries@.len() <= u32::MAX
    &&& forall|j: int| 0 <= j < p.mods@.len() ==> string_fits((#[trigger] p.mods@[j])@)
    &&& forall|j: int| 0 <= j < p.channels@.len() ==> rl_fits((#[trigger] p.channels@[j]).0@)
        && string_fits(p.channels@[j].1@)
    &&& forall|j: int| 0 <= j < p.registries@.len() ==> rl_fits((#[trigger] p.registries@[j])@)
}

pub open spec fn parse_mod_list(s: Seq<u8>) -> Result<(ModListView, int), DecodeError> {
    match parse_varint_u32(s) {
        Ok((c1, n1)) => match parse_string_list(s.skip(n1), c1 as nat) {
            Ok((mods, n2)) => match parse_varint_u32(s.skip(n1 + n2)) {
                Ok((c2, n3)) => match parse_rl_string_list(s.skip(n1 + n2 + n3), c2 as nat) {
                    Ok((chans, n4)) => match parse_varint_u32(s.skip(n1 + n2 + n3 + n4)) {
                        Ok((c3, n5)) => match parse_rl_list(
                            s.skip(n1 + n2 + n3 + n4 + n5),
                            c3 as nat,
                        ) {
                            Ok((regs, n6)) => match parse_be(
                                s.skip(n1 + n2 + n3 + n4 + n5 + n6),
                                1,
                            ) {
                                Ok((pad, n7)) => Ok(
                                    (
                                        (mods, chans, regs, pad as u8),
                                        n1 + n2 + n3 + n4 + n5 + n6 + n7,
                                    ),
                                ),
                                Err(e) => Err(e),
                            },
                            Err(e) => Err(e),
                        },
                        Err(e) => Err(e),
                    },
                    Err(e) => Err(e),
                },
                Err(e) => Err(e),
            },
            Err(e) => Err(e),
        },
        Err(e) => Err(e),
    }
}

impl ClientboundModListPacket {
    /// Succeeds exactly when every length fits its field.
    pub fn write_into(&self, out: &mut Vec<u8>) -> (r: Result<(), EncodeError>)
        ensures
            match r {
                Ok(()) => mod_list_encodable(*self) && final(out)@ == old(out)@ + mod_list_enc(
                    self@,
                ),
                Err(e) => !mod_list_encodable(*self) && e == EncodeError::LengthExceedsLimit
                    && final(out)@ == old(out)@,
            },
    {
        let mut tmp: Vec<u8> = Vec::new();
        if self.mods.len() > u32::MAX as usize || self.channels.len() > u32::MAX as usize
            || self.registries.len() > u32::MAX as usize {
            return Err(EncodeError::LengthExceedsLimit);
        }
        write_varint_u32(&mut tmp, self.mods.len() as u32);
        match write_string_list(&mut tmp, &self.mods) {
            Ok(()) => {},
            Err(_) => {
                return Err(EncodeError::LengthExceedsLimit);
            },
        }
        write_varint_u32(&mut tmp, self.channels.len() as u32);
        match write_rl_string_list(&mut tmp, &self.channels) {
            Ok(()) => {},
            Err(_) => {
                return Err(EncodeError::LengthExceedsLimit);
            },
        }
        write_varint_u32(&mut tmp, self.registries.len() as u32);
        match write_rl_list(&mut tmp, &self.registries) {
            Ok(()) => {},
            Err(_) => {
                return Err(EncodeError::LengthExceedsLimit);
            },
        }
        write_u8(&mut tmp, self.padding);
        push_bytes(out, &tmp);
        assert(out@ =~= old(out)@ + mod_list_enc(self@));
        Ok(())
    }

    pub fn read_from(data: &Vec<u8>, pos: &mut usize) -> (r: Result<
        ClientboundModListPacket,
        DecodeError,
    >)
        requires
            *old(pos) <= data@.len(),
        ensures
            match parse_mod_list(data@.skip(*old(pos) as int)) {
                Ok((v, n)) => r matches Ok(rv) && rv@ == v && *final(pos) == *old(pos) + n,
                Err(e) => r matches Err(re) && re == e,
            },
            *old(pos) <= *final(pos) <= data@.len(),
    {
        let ghost p0 = *pos;
        let ghost s_cur = data@.skip(p0 as int);
        let mut p = *pos;
        let c1 = match read_varint_u32(data, &mut p) {
            Ok(v) => v,
            Err(e) => {
                return Err(e);
            },
        };
        proof {
            assert(data@.skip(p as int) =~= s_cur.skip(p - p0));
        }
        let mods = match read_string_list(data, &mut p, c1) {
            Ok(v) => v,
            Err(e) => {
                return Err(e);
            },
        };
        proof {
            assert(data@.skip(p as int) =~= s_cur.skip(p - p0));
        }
        let c2 = match read_varint_u32(data, &mut p) {
            Ok(v) => v,
            Err(e) => {
                return Err(e);
            },
        };
        proof {
            assert(data@.skip(p as int) =~= s_cur.skip(p - p0));
        }
        let channels = match read_rl_string_list(data, &mut p, c2) {
            Ok(v) => v,
            Err(e) => {
                return Err(e);
            },
        };
        proof {
            assert(data@.skip(p as int) =~= s_cur.skip(p - p0));
        }
        let c3 = match read_varint_u32(data, &mut p) {
            Ok(v) => v,
            Err(e) => {
                return Err(e);
            },
        };
        proof {
            assert(data@.skip(p as int) =~= s_cur.skip(p - p0));
        }
        let registries = match read_rl_list(data, &mut p, c3) {
            Ok(v) => v,
            Err(e) => {
                return Err(e);
            },
        };
        proof {
            assert(data@.skip(p as int) =~= s_cur.skip(p - p0));
        }
        let padding = match read_u8(data, &mut p) {
            Ok(v) => v,
            Err(e) => {
                return Err(e);
            },
        };
        *pos = p;
        Ok(ClientboundModListPacket { mods, channels, registries, padding })
    }
}

impl ServerboundModListReplyPacket {
    /// Build the reply to a mod list: echo its mods and channels, and
    /// mark every registry name with an empty version.
    pub fn reply_to(value: &ClientboundModListPacket) -> (r: ServerboundModListReplyPacket)
        ensures
            r@.0 == value@.0,
            r@.1 == value@.1,
            r@.2.len() == value@.2.len(),
            forall|j: int| 0 <= j < value@.2.len() ==> #[trigger] r@.2[j] == (
                value@.2[j],
                Seq::<char>::empty(),
            ),
    {
        let mut registries: Vec<(ResourceLocation, String)> = Vec::new();
        let mut i: usize = 0;
        while i < value.registries.len()
            invariant
                i <= value.registries@.len(),
                registries@.len() == i,
                forall|j: int| 0 <= j < i ==> (#[trigger] registries@[j]).0@
                    == value.registries@[j]@ && registries@[j].1@.len() == 0,
            decreases value.registries@.len() - i,
        {
            let rl = ResourceLocation {
                namespace: clone_string(&value.registries[i].namespace),
                path: clone_string(&value.registries[i].path),
            };
            let empty = String::new();
            registries.push((rl, empty));
            i = i + 1;
        }
        proof {
            let rv = registries@.map_values(|x: (ResourceLocation, String)| (x.0@, x.1@));
            let vv = value.registries@.map_values(|x: ResourceLocation| x@);
            assert forall|j: int| 0 <= j < vv.len() implies #[trigger] rv[j] == (
                vv[j],
                Seq::<char>::empty(),
            ) by {
                assert(registries@[j].1@ =~= Seq::<char>::empty());
            }
        }
        let mods = clone_string_vec(&value.mods);
        let channels = clone_rl_string_vec(&value.channels);
        ServerboundModListReplyPacket { mods, channels, registries }
    }
}

/// Clone a string, keeping its characters.
fn clone_string(s: &String) -> (r: String)
    ensures
        r@ == s@,
{
    s.clone()
}

fn clone_string_vec(v: &Vec<String>) -> (r: Vec<String>)
    ensures
        r@.map_values(|x: String| x@) == v@.map_values(|x: String| x@),
{
    let mut out: Vec<String> = Vec::new();
    let mut i: usize = 0;
    while i < v.len()
        invariant
            i <= v@.len(),
            out@.len() == i,
            forall|j: int| 0 <= j < i ==> #[trigger] out@[j]@ == v@[j]@,
        decreases v@.len() - i,
    {
        out.push(clone_string(&v[i]));
        i = i + 1;
    }
    assert(out@.map_values(|x: String| x@) =~= v@.map_values(|x: String| x@));
    out
}

fn clone_rl_string_vec(v: &Vec<(ResourceLocation, String)>) -> (r: Vec<(ResourceLocation, String)>)
    ensures
        r@.map_values(|x: (ResourceLocation, String)| (x.0@, x.1@)) == v@.map_values(
            |x: (ResourceLocation, String)| (x.0@, x.1@),
        ),
{
    let mut out: Vec<(ResourceLocation, String)> = Vec::new();
    let mut i: usize = 0;
    while i < v.len()
        invariant
            i <= v@.len(),
            out@.len() == i,
            forall|j: int| 0 <= j < i ==> #[trigger] out@[j].0@ == v@[j].0@ && out@[j].1@
                == v@[j].1@,
        decreases v@.len() - i,
    {
        let rl = ResourceLocation {
            namespace: clone_string(&v[i].0.namespace),
            path: clone_string(&v[i].0.path),
        };
        out.push((rl, clone_string(&v[i].1)));
        i = i + 1;
    }
    assert(out@.map_values(|x: (ResourceLocation, String)| (x.0@, x.1@)) =~= v@.map_values(
        |x: (ResourceLocation, String)| (x.0@, x.1@),
    ));
    out
}

/// A configuration file pushed by the server: its name and raw contents.
#[derive(Clone, Debug)]
pub struct ClientboundConfigDataPacket {
    pub filename: String,
    pub filedata: Vec<u8>,
}

pub type ConfigDataView = (Seq<char>, Seq<u8>);

impl View for ClientboundConfigDataPacket {
    type V = ConfigDataView;

    open spec fn view(&self) -> ConfigDataView {
        (self.filename@, self.filedata@)
    }
}

pub open spec fn config_data_enc(v: ConfigDataView) -> Seq<u8> {
    string_enc(v.0) + bytes_enc(v.1)
}

/// The file name fits the string bound and the contents their varint
/// prefix: exactly when the packet encodes.
pub open spec fn config_data_encodable(p: ClientboundConfigDataPacket) -> bool {
    string_fits(p.filename@) && p.filedata@.len() <= u32::MAX
}

pub open spec fn parse_config_data(s: Seq<u8>) -> Result<(ConfigDataView, int), DecodeError> {
    match parse_string(s) {
        Ok((name, n1)) => match parse_bytes(s.skip(n1)) {
            Ok((d, n2)) => Ok(((name, d), n1 + n2)),
            Err(e) => Err(e),
        },
        Err(e) => Err(e),
    }
}

impl ClientboundConfigDataPacket {
    /// Succeeds exactly when both lengths fit their fields.
    pub fn write_into(&self, out: &mut Vec<u8>) -> (r: Result<(), EncodeError>)
        ensures
            match r {
                Ok(()) => config_data_encodable(*self) && final(out)@ == old(out)@
                    + config_data_enc(self@),
                Err(e) => !config_data_encodable(*self) && e == EncodeError::LengthExceedsLimit
                    && final(out)@ == old(out)@,
            },
    {
        let mut tmp: Vec<u8> = Vec::new();
        match write_string(&mut tmp, &self.filename) {
            Ok(()) => {},
            Err(_) => {
                return Err(EncodeError::LengthExceedsLimit);
            },
        }
        match write_prefixed_bytes(&mut tmp, &self.filedata) {
            Ok(()) => {},
            Err(_) => {
                return Err(EncodeError::LengthExceedsLimit);
            },
        }
        push_bytes(out, &tmp);
        assert(out@ =~= old(out)@ + config_data_enc(self@));
        Ok(())
    }

    pub fn read_from(data: &Vec<u8>, pos: &mut usize) -> (r: Result<
        ClientboundConfigDataPacket,
        DecodeError,
    >)
        requires
            *old(pos) <= data@.len(),
        ensures
            match parse_config_data(data@.skip(*old(pos) as int)) {
                Ok((v, n)) => r matches Ok(rv) && rv@ == v && *final(pos) == *old(pos) + n,
                Err(e) => r matches Err(re) && re == e,
            },
            *old(pos) <= *final(pos) <= data@.len(),
    {
        let ghost p0 = *pos;
        let ghost s_cur = data@.skip(p0 as int);
        let mut p = *pos;
        let filename = match read_string(data, &mut p) {
            Ok(v) => v,
            Err(e) => {
                return Err(e);
            },
        };
        proof {
            assert(data@.skip(p as int) =~= s_cur.skip(p - p0));
        }
        let filedata = match read_prefixed_bytes(data, &mut p) {
            Ok(v) => v,
            Err(e) => {
                return Err(e);
            },
        };
        *pos = p;
        Ok(ClientboundConfigDataPacket { filename, filedata })
    }
}

/// The server's table of mods: id to (display name, version).
#[derive(Clone, Debug)]
pub struct ClientboundModDataPacket {
    pub list: Vec<(String, (String, String))>,
}

pub type ModDataView = Seq<(Seq<char>, (Seq<char>, Seq<char>))>;

impl View for ClientboundModDataPacket {
    type V = ModDataView;

    open spec fn view(&self) -> ModDataView {
        self.list@.map_values(|x: (String, (String, String))| (x.0@, (x.1.0@, x.1.1@)))
    }
}

pub open spec fn mod_data_enc(v: ModDataView) -> Seq<u8> {
    varint_enc(v.len()) + string3_list_enc(v)
}

/// The count fits its varint prefix and every string its wire bound:
/// exactly when the packet encodes.
pub open spec fn mod_data_encodable(p: ClientboundModDataPacket) -> bool {
    &&& p.list@.len() <= u32::MAX
    &&& forall|j: int| 0 <= j < p.list@.len() ==> string_fits((#[trigger] p.list@[j]).0@)
        && string_fits(p.list@[j].1.0@) && string_fits(p.list@[j].1.1@)
}

pub open spec fn parse_mod_data(s: Seq<u8>) -> Result<(ModDataView, int), DecodeError> {
    match parse_varint_u32(s) {
        Ok((c, n1)) => match parse_string3_list(s.skip(n1), c as nat) {
            Ok((vs, n2)) => Ok((vs, n1 + n2)),
            Err(e) => Err(e),
        },
        Err(e) => Err(e),
    }
}

impl ClientboundModDataPacket {
    /// Succeeds exactly when every length fits its field.
    pub fn write_into(&self, out: &mut Vec<u8>) -> (r: Result<(), EncodeError>)
        ensures
            match r {
                Ok(()) => mod_data_encodable(*self) && final(out)@ == old(out)@ + mod_data_enc(
                    self@,
                ),
                Err(e) => !mod_data_encodable(*self) && e == EncodeError::LengthExceedsLimit
                    && final(out)@ == old(out)@,
            },
    {
        let mut tmp: Vec<u8> = Vec::new();
        if self.list.len() > u32::MAX as usize {
            return Err(EncodeError::LengthExceedsLimit);
        }
        write_varint_u32(&mut tmp, self.list.len() as u32);
        match write_string3_list(&mut tmp, &self.list) {
            Ok(()) => {},
            Err(_) => {
                return Err(EncodeError::LengthExceedsLimit);
            },
        }
        push_bytes(out, &tmp);
        assert(out@ =~= old(out)@ + mod_data_enc(self@));
        Ok(())
    }

    pub fn read_from(data: &Vec<u8>, pos: &mut usize) -> (r: Result<
        ClientboundModDataPacket,
        DecodeError,
    >)
        requires
            *old(pos) <= data@.len(),
        ensures
            match parse_mod_data(data@.skip(*old(pos) as int)) {
                Ok((v, n)) => r matches Ok(rv) && rv@ == v && *final(pos) == *old(pos) + n,
                Err(e) => r matches Err(re) && re == e,
            },
            *old(pos) <= *final(pos) <= data@.len(),
    {
        let ghost p0 = *pos;
        let ghost s_cur = data@.skip(p0 as int);
        let mut p = *pos;
        let c = match read_varint_u32(data, &mut p) {
            Ok(v) => v,
            Err(e) => {
                return Err(e);
            },
        };
        proof {
            assert(data@.skip(p as int) =~= s_cur.skip(p - p0));
        }
        let list = match read_string3_list(data, &mut p, c) {
            Ok(v) => v,
            Err(e) => {
                return Err(e);
            },
        };
        *pos = p;
        Ok(ClientboundModDataPacket { list })
    }
}

/// A channel-mismatch report: raw bytes to the end of the packet.
#[derive(Clone, Debug)]
pub struct ClientboundChannelMismatchDataPacket {
    pub data: Vec<u8>,
}

impl View for ClientboundChannelMismatchDataPacket {
    type V = Seq<u8>;

    open spec fn view(&self) -> Seq<u8> {
        self.data@
    }
}

/// The registry tables attached to a registry snapshot: ids, aliases,
/// overrides, blocked numeric ids, and dummied entries, each a count
/// followed by its entries.
#[derive(Clone, Debug)]
pub struct ForgeRegistryData {
    pub ids: Vec<(ResourceLocation, u32)>,
    pub aliases: Vec<(ResourceLocation, ResourceLocation)>,
    pub overrides: Vec<(ResourceLocation, String)>,
    pub blocked: Vec<u32>,
    pub dummied: Vec<ResourceLocation>,
}

pub type RegistryDataView = (
    Seq<(RlView, u32)>,
    Seq<(RlView, RlView)>,
    Seq<(RlView, Seq<char>)>,
    Seq<u32>,
    Seq<RlView>,
);

impl View for ForgeRegistryData {
    type V = RegistryDataView;

    open spec fn view(&self) -> RegistryDataView {
        (
            self.ids@.map_values(|x: (ResourceLocation, u32)| (x.0@, x.1)),
            self.aliases@.map_values(|x: (ResourceLocation, ResourceLocation)| (x.0@, x.1@)),
            self.overrides@.map_values(|x: (ResourceLocation, String)| (x.0@, x.1@)),
            self.blocked@,
            self.dummied@.map_values(|x: ResourceLocation| x@),
        )
    }
}

pub open spec fn registry_data_enc(v: RegistryDataView) -> Seq<u8> {
    varint_enc(v.0.len()) + crate::lists::rl_u32_list_enc(v.0) + varint_enc(v.1.len())
        + crate::lists::rl_pair_list_enc(v.1) + varint_enc(v.2.len()) + rl_string_list_enc(v.2)
        + varint_enc(v.3.len()) + crate::lists::u32var_list_enc(v.3) + varint_enc(v.4.len())
        + rl_list_enc(v.4)
}

pub open spec fn parse_registry_data(s: Seq<u8>) -> Result<(RegistryDataView, int), DecodeError> {
    match parse_varint_u32(s) {
        Ok((c1, n1)) => match crate::lists::parse_rl_u32_list(s.skip(n1), c1 as nat) {
            Ok((ids, n2)) => match parse_varint_u32(s.skip(n1 + n2)) {
                Ok((c2, n3)) => match crate::lists::parse_rl_pair_list(
                    s.skip(n1 + n2 + n3),
                    c2 as nat,
                ) {
                    Ok((aliases, n4)) => match parse_varint_u32(s.skip(n1 + n2 + n3 + n4)) {
                        Ok((c3, n5)) => match parse_rl_string_list(
                            s.skip(n1 + n2 + n3 + n4 + n5),
                            c3 as nat,
                        ) {
                            Ok((overrides, n6)) => match parse_varint_u32(
                                s.skip(n1 + n2 + n3 + n4 + n5 + n6),
                            ) {
                                Ok((c4, n7)) => match crate::lists::parse_u32var_list(
                                    s.skip(n1 + n2 + n3 + n4 + n5 + n6 + n7),
                                    c4 as nat,
                                ) {
                                    Ok((blocked, n8)) => match parse_varint_u32(
                                        s.skip(n1 + n2 + n3 + n4 + n5 + n6 + n7 + n8),
                                    ) {
                                        Ok((c5, n9)) => match parse_rl_list(
                                            s.skip(n1 + n2 + n3 + n4 + n5 + n6 + n7 + n8 + n9),
                                            c5 as nat,
                                        ) {
                                            Ok((dummied, n10)) => Ok(
                                                (
                                                    (ids, aliases, overrides, blocked, dummied),
                                                    n1 + n2 + n3 + n4 + n5 + n6 + n7 + n8 + n9
                                                        + n10,
                                                ),
                                            ),
                                            Err(e) => Err(e),
                                        },
                                        Err(e) => Err(e),
                                    },
                                    Err(e) => Err(e),
                                },
                                Err(e) => Err(e),
                            },
                            Err(e) => Err(e),
                        },
                        Err(e) => Err(e),
                    },
                    Err(e) => Err(e),
                },
                Err(e) => Err(e),
            },
            Err(e) => Err(e),
        },
        Err(e) => Err(e),
    }
}

/// Every count fits its varint prefix and every identifier and string
/// its wire bound: exactly when the tables encode.
pub open spec fn registry_data_encodable(p: ForgeRegistryData) -> bool {
    &&& p.ids@.len() <= u32::MAX
    &&& p.aliases@.len() <= u32::MAX
    &&& p.overrides@.len() <= u32::MAX
    &&& p.blocked@.len() <= u32::MAX
    &&& p.dummied@.len() <= u32::MAX
    &&& forall|j: int| 0 <= j < p.ids@.len() ==> rl_fits((#[trigger] p.ids@[j]).0@)
    &&& forall|j: int| 0 <= j < p.aliases@.len() ==> rl_fits((#[trigger] p.aliases@[j]).0@)
        && rl_fits(p.aliases@[j].1@)
    &&& forall|j: int| 0 <= j < p.overrides@.len() ==> rl_fits((#[trigger] p.overrides@[j]).0@)
        && string_fits(p.overrides@[j].1@)
    &&& forall|j: int| 0 <= j < p.dummied@.len() ==> rl_fits((#[trigger] p.dummied@[j])@)
}

impl ForgeRegistryData {
    /// Append the five tables; succeeds exactly when every length fits
    /// its field.
    pub fn write_into(&self, out: &mut Vec<u8>) -> (r: Result<(), EncodeError>)
        ensures
            match r {
                Ok(()) => registry_data_encodable(*self) && final(out)@ == old(out)@
                    + registry_data_enc(self@),
                Err(e) => !registry_data_encodable(*self) && e == EncodeError::LengthExceedsLimit
                    && final(out)@ == old(out)@,
            },
    {
        let mut tmp: Vec<u8> = Vec::new();
        if self.ids.len() > u32::MAX as usize || self.aliases.len() > u32::MAX as usize
            || self.overrides.len() > u32::MAX as usize || self.blocked.len() > u32::MAX as usize
            || self.dummied.len() > u32::MAX as usize {
            return Err(EncodeError::LengthExceedsLimit);
        }
        write_varint_u32(&mut tmp, self.ids.len() as u32);
        match crate::lists::write_rl_u32_list(&mut tmp, &self.ids) {
            Ok(()) => {},
            Err(_) => {
                return Err(EncodeError::LengthExceedsLimit);
            },
        }
        write_varint_u32(&mut tmp, self.aliases.len() as u32);
        match crate::lists::write_rl_pair_list(&mut tmp, &self.aliases) {
            Ok(()) => {},
            Err(_) => {
                return Err(EncodeError::LengthExceedsLimit);
            },
        }
        write_varint_u32(&mut tmp, self.overrides.len() as u32);
        match write_rl_string_list(&mut tmp, &self.overrides) {
            Ok(()) => {},
            Err(_) => {
                return Err(EncodeError::LengthExceedsLimit);
            },
        }
        write_varint_u32(&mut tmp, self.blocked.len() as u32);
        crate::lists::write_u32var_list(&mut tmp, &self.blocked);
        write_varint_u32(&mut tmp, self.dummied.len() as u32);
        match write_rl_list(&mut tmp, &self.dummied) {
            Ok(()) => {},
            Err(_) => {
                return Err(EncodeError::LengthExceedsLimit);
            },
        }
        push_bytes(out, &tmp);
        assert(out@ =~= old(out)@ + registry_data_enc(self@));
        Ok(())
    }

    /// Read the five tables, advancing `*pos`. Behaves exactly as
    /// `parse_registry_data` on the remaining bytes.
    #[verifier::spinoff_prover]
    #[verifier::rlimit(100)]
    pub fn read_from(data: &Vec<u8>, pos: &mut usize) -> (r: Result<
        ForgeRegistryData,
        DecodeError,
    >)
        requires
            *old(pos) <= data@.len(),
        ensures
            match parse_registry_data(data@.skip(*old(pos) as int)) {
                Ok((v, n)) => r matches Ok(rv) && rv@ == v && *final(pos) == *old(pos) + n,
                Err(e) => r matches Err(re) && re == e,
            },
            *old(pos) <= *final(pos) <= data@.len(),
    {
        let ghost p0 = *pos;
        let ghost s_cur = data@.skip(p0 as int);
        let mut p = *pos;
        let c1 = match read_varint_u32(data, &mut p) {
            Ok(v) => v,
            Err(e) => {
                return Err(e);
            },
        };
        proof {
            assert(data@.skip(p as int) =~= s_cur.skip(p - p0));
        }
        let ids = match crate::lists::read_rl_u32_list(data, &mut p, c1) {
            Ok(v) => v,
            Err(e) => {
                return Err(e);
            },
        };
        proof {
            assert(data@.skip(p as int) =~= s_cur.skip(p - p0));
        }
        let c2 = match read_varint_u32(data, &mut p) {
            Ok(v) => v,
            Err(e) => {
                return Err(e);
            },
        };
        proof {
            assert(data@.skip(p as int) =~= s_cur.skip(p - p0));
        }
        let aliases = match crate::lists::read_rl_pair_list(data, &mut p, c2) {
            Ok(v) => v,
            Err(e) => {
                return Err(e);
            },
        };
        proof {
            assert(data@.skip(p as int) =~= s_cur.skip(p - p0));
        }
        let c3 = match read_varint_u32(data, &mut p) {
            Ok(v) => v,
            Err(e) => {
                return Err(e);
            },
        };
        proof {
            assert(data@.skip(p as int) =~= s_cur.skip(p - p0));
        }
        let overrides = match read_rl_string_list(data, &mut p, c3) {
            Ok(v) => v,
            Err(e) => {
                return Err(e);
            },
        };
        proof {
            assert(data@.skip(p as int) =~= s_cur.skip(p - p0));
        }
        let c4 = match read_varint_u32(data, &mut p) {
            Ok(v) => v,
            Err(e) => {
                return Err(e);
            },
        };
        proof {
            assert(data@.skip(p as int) =~= s_cur.skip(p - p0));
        }
        let blocked = match crate::lists::read_u32var_list(data, &mut p, c4) {
            Ok(v) => v,
            Err(e) => {
                return Err(e);
            },
        };
        proof {
            assert(data@.skip(p as int) =~= s_cur.skip(p - p0));
        }
        let c5 = match read_varint_u32(data, &mut p) {
            Ok(v) => v,
            Err(e) => {
                return Err(e);
            },
        };
        proof {
            assert(data@.skip(p as int) =~= s_cur.skip(p - p0));
        }
        let dummied = match read_rl_list(data, &mut p, c5) {
            Ok(v) => v,
            Err(e) => {
                return Err(e);
            },
        };
        *pos = p;
        Ok(ForgeRegistryData { ids, aliases, overrides, blocked, dummied })
    }
}

/// A registry snapshot pushed by the server: the registry's name and,
/// when the presence byte says so, its tables.
#[derive(Clone, Debug)]
pub struct ClientboundRegistryPacket {
    pub registry: ResourceLocation,
    pub data: Option<ForgeRegistryData>,
}

pub type RegistryView = (RlView, Option<RegistryDataView>);

impl View for ClientboundRegistryPacket {
    type V = RegistryView;

    open spec fn view(&self) -> RegistryView {
        (
            self.registry@,
            match self.data {
                Some(ref d) => Some(d@),
                None => None,
            },
        )
    }
}

pub open spec fn registry_enc(v: RegistryView) -> Seq<u8> {
    crate::resource::rl_enc(v.0) + crate::codec::bool_enc(v.1 is Some) + (match v.1 {
        Some(d) => registry_data_enc(d),
        None => seq![],
    })
}

pub open spec fn parse_registry(s: Seq<u8>) -> Result<(RegistryView, int), DecodeError> {
    match crate::resource::parse_rl(s) {
        Ok((rl, n1)) => match crate::codec::parse_bool(s.skip(n1)) {
            Ok((present, n2)) => if present {
                match parse_registry_data(s.skip(n1 + n2)) {
                    Ok((d, n3)) => Ok(((rl, Some(d)), n1 + n2 + n3)),
                    Err(e) => Err(e),
                }
            } else {
                Ok(((rl, None), n1 + n2))
            },
            Err(e) => Err(e),
        },
        Err(e) => Err(e),
    }
}

/// The registry name and any tables fit their fields: exactly when the
/// packet encodes.
pub open spec fn registry_encodable(p: ClientboundRegistryPacket) -> bool {
    &&& rl_fits(p.registry@)
    &&& (match p.data {
        Some(d) => registry_data_encodable(d),
        None => true,
    })
}

impl ClientboundRegistryPacket {
    /// Succeeds exactly when every length fits its field.
    pub fn write_into(&self, out: &mut Vec<u8>) -> (r: Result<(), EncodeError>)
        ensures
            match r {
                Ok(()) => registry_encodable(*self) && final(out)@ == old(out)@ + registry_enc(
                    self@,
                ),
                Err(e) => !registry_encodable(*self) && e == EncodeError::LengthExceedsLimit
                    && final(out)@ == old(out)@,
            },
    {
        let mut tmp: Vec<u8> = Vec::new();
        match crate::resource::write_resource_location(&mut tmp, &self.registry) {
            Ok(()) => {},
            Err(_) => {
                return Err(EncodeError::LengthExceedsLimit);
            },
        }
        crate::codec::write_bool(&mut tmp, self.data.is_some());
        match self.data {
            Some(ref d) => {
                match d.write_into(&mut tmp) {
                    Ok(()) => {},
                    Err(_) => {
                        return Err(EncodeError::LengthExceedsLimit);
                    },
                }
            },
            None => {},
        }
        push_bytes(out, &tmp);
        assert(out@ =~= old(out)@ + registry_enc(self@));
        Ok(())
    }

    /// Read one registry snapshot, advancing `*pos`. Behaves exactly as
    /// `parse_registry` on the remaining bytes.
    pub fn read_from(data: &Vec<u8>, pos: &mut usize) -> (r: Result<
        ClientboundRegistryPacket,
        DecodeError,
    >)
        requires
            *old(pos) <= data@.len(),
        ensures
            match parse_registry(data@.skip(*old(pos) as int)) {
                Ok((v, n)) => r matches Ok(rv) && rv@ == v && *final(pos) == *old(pos) + n,
                Err(e) => r matches Err(re) && re == e,
            },
            *old(pos) <= *final(pos) <= data@.len(),
    {
        let ghost p0 = *pos;
        let ghost s_cur = data@.skip(p0 as int);
        let mut p = *pos;
        let registry = match crate::resource::read_resource_location(data, &mut p) {
            Ok(v) => v,
            Err(e) => {
                return Err(e);
            },
        };
        proof {
            assert(data@.skip(p as int) =~= s_cur.skip(p - p0));
        }
        let present = match crate::codec::read_bool(data, &mut p) {
            Ok(v) => v,
            Err(e) => {
                return Err(e);
            },
        };
        proof {
            assert(data@.skip(p as int) =~= s_cur.skip(p - p0));
        }
        let data_field = if present {
            match ForgeRegistryData::read_from(data, &mut p) {
                Ok(v) => Some(v),
                Err(e) => {
                    return Err(e);
                },
            }
        } else {
            None
        };
        *pos = p;
        Ok(ClientboundRegistryPacket { registry, data: data_field })
    }
}

/// A spec-level image of a serverbound Forge packet.
pub enum ServerboundForgeView {
    ModListReply(ModListReplyView),
    Acknowledge,
}

/// A serverbound packet of the Forge handshake channel.
#[derive(Clone, Debug)]
pub enum ServerboundForgePacket {
    ModListReply(ServerboundModListReplyPacket),
    Acknowledge(ServerboundAcknowledgePacket),
}

impl View for ServerboundForgePacket {
    type V = ServerboundForgeView;

    open spec fn view(&self) -> ServerboundForgeView {
        match self {
            ServerboundForgePacket::ModListReply(p) => ServerboundForgeView::ModListReply(p@),
            ServerboundForgePacket::Acknowledge(_) => ServerboundForgeView::Acknowledge,
        }
    }
}

/// A spec-level image of a clientbound Forge packet.
pub enum ClientboundForgeView {
    ModList(ModListView),
    Registry(RegistryView),
    ConfigData(ConfigDataView),
    ModData(ModDataView),
    ChannelMismatch(Seq<u8>),
}

/// A clientbound packet of the Forge handshake channel.
#[derive(Clone, Debug)]
pub enum ClientboundForgePacket {
    ModList(ClientboundModListPacket),
    Registry(ClientboundRegistryPacket),
    ConfigData(ClientboundConfigDataPacket),
    ModData(ClientboundModDataPacket),
    ChannelMismatch(ClientboundChannelMismatchDataPacket),
}

impl View for ClientboundForgePacket {
    type V = ClientboundForgeView;

    open spec fn view(&self) -> ClientboundForgeView {
        match self {
            ClientboundForgePacket::ModList(p) => ClientboundForgeView::ModList(p@),
            ClientboundForgePacket::Registry(p) => ClientboundForgeView::Registry(p@),
            ClientboundForgePacket::ConfigData(p) => ClientboundForgeView::ConfigData(p@),
            ClientboundForgePacket::ModData(p) => ClientboundForgeView::ModData(p@),
            ClientboundForgePacket::ChannelMismatch(p) => ClientboundForgeView::ChannelMismatch(
                p@,
            ),
        }
    }
}

/// The packet id and body of a serverbound Forge packet.
pub open spec fn sb_forge_body_enc(v: ServerboundForgeView) -> Seq<u8> {
    match v {
        ServerboundForgeView::ModListReply(p) => varint_enc(0x02) + mod_list_reply_enc(p),
        ServerboundForgeView::Acknowledge => varint_enc(0x63),
    }
}

/// The packet id and body of a clientbound Forge packet.
pub open spec fn cb_forge_body_enc(v: ClientboundForgeView) -> Seq<u8> {
    match v {
        ClientboundForgeView::ModList(p) => varint_enc(0x01) + mod_list_enc(p),
        ClientboundForgeView::Registry(p) => varint_enc(0x03) + registry_enc(p),
        ClientboundForgeView::ConfigData(p) => varint_enc(0x04) + config_data_enc(p),
        ClientboundForgeView::ModData(p) => varint_enc(0x05) + mod_data_enc(p),
        ClientboundForgeView::ChannelMismatch(d) => varint_enc(0x06) + d,
    }
}

/// Dispatch a serverbound Forge body by its id; an id outside the table
/// is fatal (the Forge channel rides inside the login state).
pub open spec fn parse_sb_forge_body(s: Seq<u8>) -> Result<
    (ServerboundForgeView, int),
    ProtocolError,
> {
    match parse_varint_u32(s) {
        Ok((id, n)) => if id == 0x02 {
            match parse_mod_list_reply(s.skip(n)) {
                Ok((p, m)) => Ok((ServerboundForgeView::ModListReply(p), n + m)),
                Err(e) => Err(ProtocolError::Decode(e)),
            }
        } else if id == 0x63 {
            Ok((ServerboundForgeView::Acknowledge, n))
        } else {
            Err(ProtocolError::UnknownPacketId(ConnectionState::Login, Direction::Serverbound, id))
        },
        Err(e) => Err(ProtocolError::Decode(e)),
    }
}

/// Dispatch a clientbound Forge body by its id.
pub open spec fn parse_cb_forge_body(s: Seq<u8>) -> Result<
    (ClientboundForgeView, int),
    ProtocolError,
> {
    match parse_varint_u32(s) {
        Ok((id, n)) => if id == 0x01 {
            match parse_mod_list(s.skip(n)) {
                Ok((p, m)) => Ok((ClientboundForgeView::ModList(p), n + m)),
                Err(e) => Err(ProtocolError::Decode(e)),
            }
        } else if id == 0x03 {
            match parse_registry(s.skip(n)) {
                Ok((p, m)) => Ok((ClientboundForgeView::Registry(p), n + m)),
                Err(e) => Err(ProtocolError::Decode(e)),
            }
        } else if id == 0x04 {
            match parse_config_data(s.skip(n)) {
                Ok((p, m)) => Ok((ClientboundForgeView::ConfigData(p), n + m)),
                Err(e) => Err(ProtocolError::Decode(e)),
            }
        } else if id == 0x05 {
            match parse_mod_data(s.skip(n)) {
                Ok((p, m)) => Ok((ClientboundForgeView::ModData(p), n + m)),
                Err(e) => Err(ProtocolError::Decode(e)),
            }
        } else if id == 0x06 {
            Ok((ClientboundForgeView::ChannelMismatch(s.skip(n)), s.len() as int))
        } else {
            Err(ProtocolError::UnknownPacketId(ConnectionState::Login, Direction::Clientbound, id))
        },
        Err(e) => Err(ProtocolError::Decode(e)),
    }
}

/// The packet's own lengths fit their fields and its body fits the
/// frame's 32-bit length prefix: exactly when a frame encodes.
pub open spec fn sb_forge_encodable(p: ServerboundForgePacket) -> bool {
    &&& (match p {
        ServerboundForgePacket::ModListReply(q) => mod_list_reply_encodable(q),
        ServerboundForgePacket::Acknowledge(_) => true,
    })
    &&& sb_forge_body_enc(p@).len() <= u32::MAX
}

impl ServerboundForgePacket {
    /// Encode this packet as one full frame (the Forge channel runs
    /// without compression or encryption). Succeeds exactly when every
    /// length fits its field.
    pub fn write_to_vec(&self) -> (r: Result<Vec<u8>, ProtocolError>)
        ensures
            match r {
                Ok(b) => sb_forge_encodable(*self) && b@ == crate::frame::frame_enc(
                    sb_forge_body_enc(self@),
                    None,
                ),
                Err(e) => !sb_forge_encodable(*self) && e == ProtocolError::Encode(
                    EncodeError::LengthExceedsLimit,
                ),
            },
    {
        let mut body: Vec<u8> = Vec::new();
        match self {
            ServerboundForgePacket::ModListReply(p) => {
                write_varint_u32(&mut body, 0x02);
                match p.write_into(&mut body) {
                    Ok(()) => {},
                    Err(e) => {
                        return Err(ProtocolError::Encode(e));
                    },
                }
            },
            ServerboundForgePacket::Acknowledge(_) => {
                write_varint_u32(&mut body, 0x63);
            },
        }
        assert(body@ =~= sb_forge_body_enc(self@));
        crate::frame::encode_frame(&body, None)
    }

    /// Decode one packet from one full frame held in `buf`; an
    /// incomplete frame is an unexpected end of input.
    pub fn read_from_buf(buf: &Vec<u8>) -> (r: Result<ServerboundForgePacket, ProtocolError>)
        ensures
            match crate::frame::parse_frame(buf@, None) {
                Ok(Some((bodyv, _n))) => match parse_sb_forge_body(bodyv) {
                    Ok((v, _m)) => r matches Ok(rv) && rv@ == v,
                    Err(e) => r matches Err(re) && re == e,
                },
                Ok(None) => r == Err::<ServerboundForgePacket, ProtocolError>(
                    ProtocolError::Decode(DecodeError::UnexpectedEof),
                ),
                Err(e) => r matches Err(re) && re == e,
            },
    {
        let body = match crate::frame::decode_frame(buf, None) {
            Ok(Some((b, _))) => b,
            Ok(None) => {
                return Err(ProtocolError::Decode(DecodeError::UnexpectedEof));
            },
            Err(e) => {
                return Err(e);
            },
        };
        let mut p: usize = 0;
        proof {
            assert(body@.skip(0int) =~= body@);
        }
        let id = match read_varint_u32(&body, &mut p) {
            Ok(v) => v,
            Err(e) => {
                return Err(ProtocolError::Decode(e));
            },
        };
        if id == 0x02 {
            match ServerboundModListReplyPacket::read_from(&body, &mut p) {
                Ok(pk) => Ok(ServerboundForgePacket::ModListReply(pk)),
                Err(e) => Err(ProtocolError::Decode(e)),
            }
        } else if id == 0x63 {
            Ok(ServerboundForgePacket::Acknowledge(ServerboundAcknowledgePacket {  }))
        } else {
            Err(
                ProtocolError::UnknownPacketId(
                    ConnectionState::Login,
                    Direction::Serverbound,
                    id,
                ),
            )
        }
    }
}

/// The packet's own lengths fit their fields and its body fits the
/// frame's 32-bit length prefix: exactly when a frame encodes.
pub open spec fn cb_forge_encodable(p: ClientboundForgePacket) -> bool {
    &&& (match p {
        ClientboundForgePacket::ModList(q) => mod_list_encodable(q),
        ClientboundForgePacket::Registry(q) => registry_encodable(q),
        ClientboundForgePacket::ConfigData(q) => config_data_encodable(q),
        ClientboundForgePacket::ModData(q) => mod_data_encodable(q),
        ClientboundForgePacket::ChannelMismatch(_) => true,
    })
    &&& cb_forge_body_enc(p@).len() <= u32::MAX
}

impl ClientboundForgePacket {
    /// Encode this packet as one full frame. Succeeds exactly when
    /// every length fits its field.
    pub fn write_to_vec(&self) -> (r: Result<Vec<u8>, ProtocolError>)
        ensures
            match r {
                Ok(b) => cb_forge_encodable(*self) && b@ == crate::frame::frame_enc(
                    cb_forge_body_enc(self@),
                    None,
                ),
                Err(e) => !cb_forge_encodable(*self) && e == ProtocolError::Encode(
                    EncodeError::LengthExceedsLimit,
                ),
            },
    {
        let mut body: Vec<u8> = Vec::new();
        match self {
            ClientboundForgePacket::ModList(p) => {
                write_varint_u32(&mut body, 0x01);
                match p.write_into(&mut body) {
                    Ok(()) => {},
                    Err(e) => {
                        return Err(ProtocolError::Encode(e));
                    },
                }
            },
            ClientboundForgePacket::Registry(p) => {
                write_varint_u32(&mut body, 0x03);
                match p.write_into(&mut body) {
                    Ok(()) => {},
                    Err(e) => {
                        return Err(ProtocolError::Encode(e));
                    },
                }
            },
            ClientboundForgePacket::ConfigData(p) => {
                write_varint_u32(&mut body, 0x04);
                match p.write_into(&mut body) {
                    Ok(()) => {},
                    Err(e) => {
                        return Err(ProtocolError::Encode(e));
                    },
                }
            },
            ClientboundForgePacket::ModData(p) => {
                write_varint_u32(&mut body, 0x05);
                match p.write_into(&mut body) {
                    Ok(()) => {},
                    Err(e) => {
                        return Err(ProtocolError::Encode(e));
                    },
                }
            },
            ClientboundForgePacket::ChannelMismatch(p) => {
                write_varint_u32(&mut body, 0x06);
                push_bytes(&mut body, &p.data);
            },
        }
        assert(body@ =~= cb_forge_body_enc(self@));
        crate::frame::encode_frame(&body, None)
    }

    /// Decode one packet from one full frame held in `buf`.
    pub fn read_from_buf(buf: &Vec<u8>) -> (r: Result<ClientboundForgePacket, ProtocolError>)
        ensures
            match crate::frame::parse_frame(buf@, None) {
                Ok(Some((bodyv, _n))) => match parse_cb_forge_body(bodyv) {
                    Ok((v, _m)) => r matches Ok(rv) && rv@ == v,
                    Err(e) => r matches Err(re) && re == e,
                },
                Ok(None) => r == Err::<ClientboundForgePacket, ProtocolError>(
                    ProtocolError::Decode(DecodeError::UnexpectedEof),
                ),
                Err(e) => r matches Err(re) && re == e,
            },
    {
        let body = match crate::frame::decode_frame(buf, None) {
            Ok(Some((b, _))) => b,
            Ok(None) => {
                return Err(ProtocolError::Decode(DecodeError::UnexpectedEof));
            },
            Err(e) => {
                return Err(e);
            },
        };
        let mut p: usize = 0;
        proof {
            assert(body@.skip(0int) =~= body@);
        }
        let id = match read_varint_u32(&body, &mut p) {
            Ok(v) => v,
            Err(e) => {
                return Err(ProtocolError::Decode(e));
            },
        };
        if id == 0x01 {
            match ClientboundModListPacket::read_from(&body, &mut p) {
                Ok(pk) => Ok(ClientboundForgePacket::ModList(pk)),
                Err(e) => Err(ProtocolError::Decode(e)),
            }
        } else if id == 0x03 {
            match ClientboundRegistryPacket::read_from(&body, &mut p) {
                Ok(pk) => Ok(ClientboundForgePacket::Registry(pk)),
                Err(e) => Err(ProtocolError::Decode(e)),
            }
        } else if id == 0x04 {
            match ClientboundConfigDataPacket::read_from(&body, &mut p) {
                Ok(pk) => Ok(ClientboundForgePacket::ConfigData(pk)),
                Err(e) => Err(ProtocolError::Decode(e)),
            }
        } else if id == 0x05 {
            match ClientboundModDataPacket::read_from(&body, &mut p) {
                Ok(pk) => Ok(ClientboundForgePacket::ModData(pk)),
                Err(e) => Err(ProtocolError::Decode(e)),
            }
        } else if id == 0x06 {
            let data = read_rest(&body, &mut p);
            Ok(ClientboundForgePacket::ChannelMismatch(ClientboundChannelMismatchDataPacket {
                data,
            }))
        } else {
            Err(
                ProtocolError::UnknownPacketId(
                    ConnectionState::Login,
                    Direction::Clientbound,
                    id,
                ),
            )
        }
    }
}

// ---- the wire laws of the Forge packets ----

/// Every length and string in a mod-list reply fits its field.
pub open spec fn mod_list_reply_wf(v: ModListReplyView) -> bool {
    &&& v.0.len() <= u32::MAX
    &&& v.1.len() <= u32::MAX
    &&& v.2.len() <= u32::MAX
    &&& forall|j: int| 0 <= j < v.0.len() ==> string_fits(#[trigger] v.0[j])
    &&& forall|j: int| 0 <= j < v.1.len() ==> crate::resource::rl_wf(#[trigger] v.1[j].0)
    &&& forall|j: int| 0 <= j < v.1.len() ==> string_fits(#[trigger] v.1[j].1)
    &&& forall|j: int| 0 <= j < v.2.len() ==> crate::resource::rl_wf(#[trigger] v.2[j].0)
    &&& forall|j: int| 0 <= j < v.2.len() ==> string_fits(#[trigger] v.2[j].1)
}

/// A mod-list reply survives the wire.
#[verifier::spinoff_prover]
#[verifier::rlimit(100)]
pub proof fn lemma_mod_list_reply_roundtrip(v: ModListReplyView, rest: Seq<u8>)
    requires
        mod_list_reply_wf(v),
    ensures
        parse_mod_list_reply(mod_list_reply_enc(v) + rest) == Ok::<
            (ModListReplyView, int),
            DecodeError,
        >((v, mod_list_reply_enc(v).len() as int)),
{
    let e1 = varint_enc(v.0.len());
    let e2 = string_list_enc(v.0);
    let e3 = varint_enc(v.1.len());
    let e4 = rl_string_list_enc(v.1);
    let e5 = varint_enc(v.2.len());
    let e6 = rl_string_list_enc(v.2);
    let whole = mod_list_reply_enc(v) + rest;
    let r5 = e6 + rest;
    let r4 = e5 + r5;
    let r3 = e4 + r4;
    let r2 = e3 + r3;
    let r1 = e2 + r2;
    assert(whole =~= e1 + r1);
    let n1 = e1.len() as int;
    let n2 = e2.len() as int;
    let n3 = e3.len() as int;
    let n4 = e4.len() as int;
    let n5 = e5.len() as int;
    crate::varint::lemma_varint_u32_roundtrip(v.0.len() as u32, r1);
    crate::codec::lemma_skip_concat(e1, r1);
    crate::lists::lemma_string_list_parse_enc(v.0, r2);
    crate::codec::lemma_skip_add(whole, n1, n2);
    crate::codec::lemma_skip_concat(e2, r2);
    crate::varint::lemma_varint_u32_roundtrip(v.1.len() as u32, r3);
    crate::codec::lemma_skip_add(whole, n1 + n2, n3);
    crate::codec::lemma_skip_concat(e3, r3);
    crate::lists::lemma_rl_string_list_parse_enc(v.1, r4);
    crate::codec::lemma_skip_add(whole, n1 + n2 + n3, n4);
    crate::codec::lemma_skip_concat(e4, r4);
    crate::varint::lemma_varint_u32_roundtrip(v.2.len() as u32, r5);
    crate::codec::lemma_skip_add(whole, n1 + n2 + n3 + n4, n5);
    crate::codec::lemma_skip_concat(e5, r5);
    crate::lists::lemma_rl_string_list_parse_enc(v.2, rest);
    assert((v.0, v.1, v.2) == v);
}

/// Every length and string in a mod list fits its field.
pub open spec fn mod_list_wf(v: ModListView) -> bool {
    &&& v.0.len() <= u32::MAX
    &&& v.1.len() <= u32::MAX
    &&& v.2.len() <= u32::MAX
    &&& forall|j: int| 0 <= j < v.0.len() ==> string_fits(#[trigger] v.0[j])
    &&& forall|j: int| 0 <= j < v.1.len() ==> crate::resource::rl_wf(#[trigger] v.1[j].0)
    &&& forall|j: int| 0 <= j < v.1.len() ==> string_fits(#[trigger] v.1[j].1)
    &&& forall|j: int| 0 <= j < v.2.len() ==> crate::resource::rl_wf(#[trigger] v.2[j])
}


/// Assemble the mod-list parse from its seven field parses.
#[verifier::spinoff_prover]
#[verifier::rlimit(100)]
proof fn lemma_mod_list_assemble(
    v: ModListView,
    whole: Seq<u8>,
    n1: int,
    n2: int,
    n3: int,
    n4: int,
    n5: int,
    n6: int,
)
    requires
        v.0.len() <= u32::MAX,
        v.1.len() <= u32::MAX,
        v.2.len() <= u32::MAX,
        parse_varint_u32(whole) == Ok::<(u32, int), DecodeError>((v.0.len() as u32, n1)),
        crate::lists::parse_string_list(whole.skip(n1), v.0.len()) == Ok::<
            (Seq<Seq<char>>, int),
            DecodeError,
        >((v.0, n2)),
        parse_varint_u32(whole.skip(n1 + n2)) == Ok::<(u32, int), DecodeError>((
            v.1.len() as u32,
            n3,
        )),
        crate::lists::parse_rl_string_list(whole.skip(n1 + n2 + n3), v.1.len()) == Ok::<
            (Seq<(RlView, Seq<char>)>, int),
            DecodeError,
        >((v.1, n4)),
        parse_varint_u32(whole.skip(n1 + n2 + n3 + n4)) == Ok::<(u32, int), DecodeError>((
            v.2.len() as u32,
            n5,
        )),
        crate::lists::parse_rl_list(whole.skip(n1 + n2 + n3 + n4 + n5), v.2.len()) == Ok::<
            (Seq<RlView>, int),
            DecodeError,
        >((v.2, n6)),
        parse_be(whole.skip(n1 + n2 + n3 + n4 + n5 + n6), 1) == Ok::<(nat, int), DecodeError>((
            v.3 as nat,
            1,
        )),
    ensures
        parse_mod_list(whole) == Ok::<(ModListView, int), DecodeError>((
            v,
            n1 + n2 + n3 + n4 + n5 + n6 + 1,
        )),
{
    assert((v.0, v.1, v.2, v.3) == v);
}

/// A mod list survives the wire.
#[verifier::spinoff_prover]
#[verifier::rlimit(100)]
pub proof fn lemma_mod_list_roundtrip(v: ModListView, rest: Seq<u8>)
    requires
        mod_list_wf(v),
    ensures
        parse_mod_list(mod_list_enc(v) + rest) == Ok::<(ModListView, int), DecodeError>((
            v,
            mod_list_enc(v).len() as int,
        )),
{
    let e1 = varint_enc(v.0.len());
    let e2 = string_list_enc(v.0);
    let e3 = varint_enc(v.1.len());
    let e4 = rl_string_list_enc(v.1);
    let e5 = varint_enc(v.2.len());
    let e6 = rl_list_enc(v.2);
    let e7 = u8_enc(v.3);
    let whole = mod_list_enc(v) + rest;
    let r6 = e7 + rest;
    let r5 = e6 + r6;
    let r4 = e5 + r5;
    let r3 = e4 + r4;
    let r2 = e3 + r3;
    let r1 = e2 + r2;
    assert(whole =~= e1 + r1);
    let n1 = e1.len() as int;
    let n2 = e2.len() as int;
    let n3 = e3.len() as int;
    let n4 = e4.len() as int;
    let n5 = e5.len() as int;
    let n6 = e6.len() as int;
    crate::codec::lemma_skip_concat(e1, r1);
    crate::codec::lemma_skip_add(whole, n1, n2);
    crate::codec::lemma_skip_concat(e2, r2);
    crate::codec::lemma_skip_add(whole, n1 + n2, n3);
    crate::codec::lemma_skip_concat(e3, r3);
    crate::codec::lemma_skip_add(whole, n1 + n2 + n3, n4);
    crate::codec::lemma_skip_concat(e4, r4);
    crate::codec::lemma_skip_add(whole, n1 + n2 + n3 + n4, n5);
    crate::codec::lemma_skip_concat(e5, r5);
    crate::codec::lemma_skip_add(whole, n1 + n2 + n3 + n4 + n5, n6);
    crate::codec::lemma_skip_concat(e6, r6);
    assert(parse_varint_u32(whole) == Ok::<(u32, int), DecodeError>((v.0.len() as u32, n1))) by {
        crate::varint::lemma_varint_u32_roundtrip(v.0.len() as u32, r1);
    }
    assert(crate::lists::parse_string_list(whole.skip(n1), v.0.len()) == Ok::<
        (Seq<Seq<char>>, int),
        DecodeError,
    >((v.0, n2))) by {
        crate::lists::lemma_string_list_parse_enc(v.0, r2);
    }
    assert(parse_varint_u32(whole.skip(n1 + n2)) == Ok::<(u32, int), DecodeError>((
        v.1.len() as u32,
        n3,
    ))) by {
        crate::varint::lemma_varint_u32_roundtrip(v.1.len() as u32, r3);
    }
    assert(crate::lists::parse_rl_string_list(whole.skip(n1 + n2 + n3), v.1.len()) == Ok::<
        (Seq<(RlView, Seq<char>)>, int),
        DecodeError,
    >((v.1, n4))) by {
        crate::lists::lemma_rl_string_list_parse_enc(v.1, r4);
    }
    assert(parse_varint_u32(whole.skip(n1 + n2 + n3 + n4)) == Ok::<(u32, int), DecodeError>((
        v.2.len() as u32,
        n5,
    ))) by {
        crate::varint::lemma_varint_u32_roundtrip(v.2.len() as u32, r5);
    }
    assert(crate::lists::parse_rl_list(whole.skip(n1 + n2 + n3 + n4 + n5), v.2.len()) == Ok::<
        (Seq<RlView>, int),
        DecodeError,
    >((v.2, n6))) by {
        crate::lists::lemma_rl_list_parse_enc(v.2, r6);
    }
    assert(parse_be(whole.skip(n1 + n2 + n3 + n4 + n5 + n6), 1) == Ok::<(nat, int), DecodeError>((
        v.3 as nat,
        1,
    ))) by {
        vstd::arithmetic::power2::lemma2_to64();
        assert(crate::codec::be_enc(v.3 as nat / 256, 0) == Seq::<u8>::empty());
        assert(u8_enc(v.3) =~= crate::codec::be_enc(v.3 as nat, 1));
        crate::codec::lemma_be_parse_enc(v.3 as nat, 1, rest);
    }
    assert(mod_list_enc(v).len() == n1 + n2 + n3 + n4 + n5 + n6 + 1);
    lemma_mod_list_assemble(v, whole, n1, n2, n3, n4, n5, n6);
}

/// Every string in a mod-data table fits its field.
pub open spec fn mod_data_wf(v: ModDataView) -> bool {
    &&& v.len() <= u32::MAX
    &&& forall|j: int| 0 <= j < v.len() ==> string_fits(#[trigger] v[j].0) && string_fits(
        v[j].1.0,
    ) && string_fits(v[j].1.1)
}

/// A mod-data table survives the wire.
pub proof fn lemma_mod_data_roundtrip(v: ModDataView, rest: Seq<u8>)
    requires
        mod_data_wf(v),
    ensures
        parse_mod_data(mod_data_enc(v) + rest) == Ok::<(ModDataView, int), DecodeError>((
            v,
            mod_data_enc(v).len() as int,
        )),
{
    let e1 = varint_enc(v.len());
    let e2 = string3_list_enc(v);
    let whole = mod_data_enc(v) + rest;
    assert(whole =~= e1 + (e2 + rest));
    crate::varint::lemma_varint_u32_roundtrip(v.len() as u32, e2 + rest);
    assert(whole.skip(e1.len() as int) =~= e2 + rest);
    crate::lists::lemma_string3_list_parse_enc(v, rest);
}

/// A configuration file packet survives the wire.
pub proof fn lemma_config_data_roundtrip(v: ConfigDataView, rest: Seq<u8>)
    requires
        string_fits(v.0),
        v.1.len() <= u32::MAX,
    ensures
        parse_config_data(config_data_enc(v) + rest) == Ok::<(ConfigDataView, int), DecodeError>((
            v,
            config_data_enc(v).len() as int,
        )),
{
    let e1 = string_enc(v.0);
    let whole = config_data_enc(v) + rest;
    assert(whole =~= e1 + (bytes_enc(v.1) + rest));
    crate::codec::lemma_string_parse_enc(v.0, bytes_enc(v.1) + rest);
    assert(whole.skip(e1.len() as int) =~= bytes_enc(v.1) + rest);
    crate::codec::lemma_bytes_parse_enc(v.1, rest);
    assert((v.0, v.1) == v);
}

/// Assemble the registry-table parse from its ten field parses.
#[verifier::spinoff_prover]
#[verifier::rlimit(100)]
proof fn lemma_registry_data_assemble(
    d: RegistryDataView,
    whole: Seq<u8>,
    n1: int,
    n2: int,
    n3: int,
    n4: int,
    n5: int,
    n6: int,
    n7: int,
    n8: int,
    n9: int,
    n10: int,
)
    requires
        d.0.len() <= u32::MAX,
        d.1.len() <= u32::MAX,
        d.2.len() <= u32::MAX,
        d.3.len() <= u32::MAX,
        d.4.len() <= u32::MAX,
        parse_varint_u32(whole) == Ok::<(u32, int), DecodeError>((d.0.len() as u32, n1)),
        crate::lists::parse_rl_u32_list(whole.skip(n1), d.0.len()) == Ok::<
            (Seq<(RlView, u32)>, int),
            DecodeError,
        >((d.0, n2)),
        parse_varint_u32(whole.skip(n1 + n2)) == Ok::<(u32, int), DecodeError>((
            d.1.len() as u32,
            n3,
        )),
        crate::lists::parse_rl_pair_list(whole.skip(n1 + n2 + n3), d.1.len()) == Ok::<
            (Seq<(RlView, RlView)>, int),
            DecodeError,
        >((d.1, n4)),
        parse_varint_u32(whole.skip(n1 + n2 + n3 + n4)) == Ok::<(u32, int), DecodeError>((
            d.2.len() as u32,
            n5,
        )),
        parse_rl_string_list(whole.skip(n1 + n2 + n3 + n4 + n5), d.2.len()) == Ok::<
            (Seq<(RlView, Seq<char>)>, int),
            DecodeError,
        >((d.2, n6)),
        parse_varint_u32(whole.skip(n1 + n2 + n3 + n4 + n5 + n6)) == Ok::<(u32, int), DecodeError>(
            (d.3.len() as u32, n7),
        ),
        crate::lists::parse_u32var_list(whole.skip(n1 + n2 + n3 + n4 + n5 + n6 + n7), d.3.len())
            == Ok::<(Seq<u32>, int), DecodeError>((d.3, n8)),
        parse_varint_u32(whole.skip(n1 + n2 + n3 + n4 + n5 + n6 + n7 + n8)) == Ok::<
            (u32, int),
            DecodeError,
        >((d.4.len() as u32, n9)),
        parse_rl_list(whole.skip(n1 + n2 + n3 + n4 + n5 + n6 + n7 + n8 + n9), d.4.len()) == Ok::<
            (Seq<RlView>, int),
            DecodeError,
        >((d.4, n10)),
    ensures
        parse_registry_data(whole) == Ok::<(RegistryDataView, int), DecodeError>((
            d,
            n1 + n2 + n3 + n4 + n5 + n6 + n7 + n8 + n9 + n10,
        )),
{
    assert((d.0, d.1, d.2, d.3, d.4) == d);
}

/// The first half of the table parses: ids and aliases and the
/// override count, at their offsets in the encoded form.
#[verifier::spinoff_prover]
#[verifier::rlimit(100)]
proof fn lemma_registry_data_front(d: RegistryDataView, rest: Seq<u8>)
    requires
        d.0.len() <= u32::MAX,
        d.1.len() <= u32::MAX,
        d.2.len() <= u32::MAX,
        forall|j: int| 0 <= j < d.0.len() ==> crate::resource::rl_wf(#[trigger] d.0[j].0),
        forall|j: int| 0 <= j < d.1.len() ==> crate::resource::rl_wf(#[trigger] d.1[j].0)
            && crate::resource::rl_wf(d.1[j].1),
    ensures
        ({
            let whole = registry_data_enc(d) + rest;
            let n1 = varint_enc(d.0.len()).len() as int;
            let n2 = crate::lists::rl_u32_list_enc(d.0).len() as int;
            let n3 = varint_enc(d.1.len()).len() as int;
            let n4 = crate::lists::rl_pair_list_enc(d.1).len() as int;
            &&& parse_varint_u32(whole) == Ok::<(u32, int), DecodeError>((d.0.len() as u32, n1))
            &&& crate::lists::parse_rl_u32_list(whole.skip(n1), d.0.len()) == Ok::<
                (Seq<(RlView, u32)>, int),
                DecodeError,
            >((d.0, n2))
            &&& parse_varint_u32(whole.skip(n1 + n2)) == Ok::<(u32, int), DecodeError>((
                d.1.len() as u32,
                n3,
            ))
            &&& crate::lists::parse_rl_pair_list(whole.skip(n1 + n2 + n3), d.1.len()) == Ok::<
                (Seq<(RlView, RlView)>, int),
                DecodeError,
            >((d.1, n4))
            &&& parse_varint_u32(whole.skip(n1 + n2 + n3 + n4)) == Ok::<(u32, int), DecodeError>((
                d.2.len() as u32,
                varint_enc(d.2.len()).len() as int,
            ))
        }),
{
    let e1 = varint_enc(d.0.len());
    let e2 = crate::lists::rl_u32_list_enc(d.0);
    let e3 = varint_enc(d.1.len());
    let e4 = crate::lists::rl_pair_list_enc(d.1);
    let e5 = varint_enc(d.2.len());
    let e6 = rl_string_list_enc(d.2);
    let e7 = varint_enc(d.3.len());
    let e8 = crate::lists::u32var_list_enc(d.3);
    let e9 = varint_enc(d.4.len());
    let e10 = rl_list_enc(d.4);
    let whole = registry_data_enc(d) + rest;
    let r9 = e10 + rest;
    let r8 = e9 + r9;
    let r7 = e8 + r8;
    let r6 = e7 + r7;
    let r5 = e6 + r6;
    let r4 = e5 + r5;
    let r3 = e4 + r4;
    let r2 = e3 + r3;
    let r1 = e2 + r2;
    let q2 = e1 + e2;
    let q3 = q2 + e3;
    let q4 = q3 + e4;
    let q5 = q4 + e5;
    let q6 = q5 + e6;
    let q7 = q6 + e7;
    let q8 = q7 + e8;
    let q9 = q8 + e9;
    crate::codec::lemma_concat_assoc(q9, e10, rest);
    crate::codec::lemma_concat_assoc(q8, e9, r9);
    crate::codec::lemma_concat_assoc(q7, e8, r8);
    crate::codec::lemma_concat_assoc(q6, e7, r7);
    crate::codec::lemma_concat_assoc(q5, e6, r6);
    crate::codec::lemma_concat_assoc(q4, e5, r5);
    crate::codec::lemma_concat_assoc(q3, e4, r4);
    crate::codec::lemma_concat_assoc(q2, e3, r3);
    crate::codec::lemma_concat_assoc(e1, e2, r2);
    assert(whole == e1 + r1);
    let n1 = e1.len() as int;
    let n2 = e2.len() as int;
    let n3 = e3.len() as int;
    let n4 = e4.len() as int;
    crate::codec::lemma_skip_concat(e1, r1);
    crate::codec::lemma_skip_add(whole, n1, n2);
    crate::codec::lemma_skip_concat(e2, r2);
    crate::codec::lemma_skip_add(whole, n1 + n2, n3);
    crate::codec::lemma_skip_concat(e3, r3);
    crate::codec::lemma_skip_add(whole, n1 + n2 + n3, n4);
    crate::codec::lemma_skip_concat(e4, r4);
    assert(parse_varint_u32(whole) == Ok::<(u32, int), DecodeError>((d.0.len() as u32, n1))) by {
        crate::varint::lemma_varint_u32_roundtrip(d.0.len() as u32, r1);
    }
    assert(crate::lists::parse_rl_u32_list(whole.skip(n1), d.0.len()) == Ok::<
        (Seq<(RlView, u32)>, int),
        DecodeError,
    >((d.0, n2))) by {
        crate::lists::lemma_rl_u32_list_parse_enc(d.0, r2);
    }
    assert(parse_varint_u32(whole.skip(n1 + n2)) == Ok::<(u32, int), DecodeError>((
        d.1.len() as u32,
        n3,
    ))) by {
        crate::varint::lemma_varint_u32_roundtrip(d.1.len() as u32, r3);
    }
    assert(crate::lists::parse_rl_pair_list(whole.skip(n1 + n2 + n3), d.1.len()) == Ok::<
        (Seq<(RlView, RlView)>, int),
        DecodeError,
    >((d.1, n4))) by {
        crate::lists::lemma_rl_pair_list_parse_enc(d.1, r4);
    }
    assert(parse_varint_u32(whole.skip(n1 + n2 + n3 + n4)) == Ok::<(u32, int), DecodeError>((
        d.2.len() as u32,
        e5.len() as int,
    ))) by {
        crate::varint::lemma_varint_u32_roundtrip(d.2.len() as u32, r5);
    }
}

/// The second half of the table parses: overrides, blocked ids and
/// dummied entries, at their offsets in the encoded form.
#[verifier::spinoff_prover]
#[verifier::rlimit(100)]
proof fn lemma_registry_data_back(d: RegistryDataView, rest: Seq<u8>)
    requires
        d.3.len() <= u32::MAX,
        d.4.len() <= u32::MAX,
        forall|j: int| 0 <= j < d.2.len() ==> crate::resource::rl_wf(#[trigger] d.2[j].0),
        forall|j: int| 0 <= j < d.2.len() ==> string_fits(#[trigger] d.2[j].1),
        forall|j: int| 0 <= j < d.4.len() ==> crate::resource::rl_wf(#[trigger] d.4[j]),
    ensures
        ({
            let whole = registry_data_enc(d) + rest;
            let m5 = (varint_enc(d.0.len()).len() + crate::lists::rl_u32_list_enc(d.0).len()
                + varint_enc(d.1.len()).len() + crate::lists::rl_pair_list_enc(d.1).len()
                + varint_enc(d.2.len()).len()) as int;
            let n6 = rl_string_list_enc(d.2).len() as int;
            let n7 = varint_enc(d.3.len()).len() as int;
            let n8 = crate::lists::u32var_list_enc(d.3).len() as int;
            let n9 = varint_enc(d.4.len()).len() as int;
            &&& parse_rl_string_list(whole.skip(m5), d.2.len()) == Ok::<
                (Seq<(RlView, Seq<char>)>, int),
                DecodeError,
            >((d.2, n6))
            &&& parse_varint_u32(whole.skip(m5 + n6)) == Ok::<(u32, int), DecodeError>((
                d.3.len() as u32,
                n7,
            ))
            &&& crate::lists::parse_u32var_list(whole.skip(m5 + n6 + n7), d.3.len()) == Ok::<
                (Seq<u32>, int),
                DecodeError,
            >((d.3, n8))
            &&& parse_varint_u32(whole.skip(m5 + n6 + n7 + n8)) == Ok::<(u32, int), DecodeError>((
                d.4.len() as u32,
                n9,
            ))
            &&& parse_rl_list(whole.skip(m5 + n6 + n7 + n8 + n9), d.4.len()) == Ok::<
                (Seq<RlView>, int),
                DecodeError,
            >((d.4, rl_list_enc(d.4).len() as int))
        }),
{
    let e1 = varint_enc(d.0.len());
    let e2 = crate::lists::rl_u32_list_enc(d.0);
    let e3 = varint_enc(d.1.len());
    let e4 = crate::lists::rl_pair_list_enc(d.1);
    let e5 = varint_enc(d.2.len());
    let e6 = rl_string_list_enc(d.2);
    let e7 = varint_enc(d.3.len());
    let e8 = crate::lists::u32var_list_enc(d.3);
    let e9 = varint_enc(d.4.len());
    let e10 = rl_list_enc(d.4);
    let whole = registry_data_enc(d) + rest;
    let r9 = e10 + rest;
    let r8 = e9 + r9;
    let r7 = e8 + r8;
    let r6 = e7 + r7;
    let r5 = e6 + r6;
    let r4 = e5 + r5;
    let r3 = e4 + r4;
    let r2 = e3 + r3;
    let r1 = e2 + r2;
    let q2 = e1 + e2;
    let q3 = q2 + e3;
    let q4 = q3 + e4;
    let q5 = q4 + e5;
    let q6 = q5 + e6;
    let q7 = q6 + e7;
    let q8 = q7 + e8;
    let q9 = q8 + e9;
    crate::codec::lemma_concat_assoc(q9, e10, rest);
    crate::codec::lemma_concat_assoc(q8, e9, r9);
    crate::codec::lemma_concat_assoc(q7, e8, r8);
    crate::codec::lemma_concat_assoc(q6, e7, r7);
    crate::codec::lemma_concat_assoc(q5, e6, r6);
    crate::codec::lemma_concat_assoc(q4, e5, r5);
    crate::codec::lemma_concat_assoc(q3, e4, r4);
    crate::codec::lemma_concat_assoc(q2, e3, r3);
    crate::codec::lemma_concat_assoc(e1, e2, r2);
    assert(whole == e1 + r1);
    let n1 = e1.len() as int;
    let n2 = e2.len() as int;
    let n3 = e3.len() as int;
    let n4 = e4.len() as int;
    let n5 = e5.len() as int;
    let n6 = e6.len() as int;
    let n7 = e7.len() as int;
    let n8 = e8.len() as int;
    let n9 = e9.len() as int;
    let m5 = n1 + n2 + n3 + n4 + n5;
    crate::codec::lemma_skip_concat(e1, r1);
    crate::codec::lemma_skip_add(whole, n1, n2);
    crate::codec::lemma_skip_concat(e2, r2);
    crate::codec::lemma_skip_add(whole, n1 + n2, n3);
    crate::codec::lemma_skip_concat(e3, r3);
    crate::codec::lemma_skip_add(whole, n1 + n2 + n3, n4);
    crate::codec::lemma_skip_concat(e4, r4);
    crate::codec::lemma_skip_add(whole, n1 + n2 + n3 + n4, n5);
    crate::codec::lemma_skip_concat(e5, r5);
    crate::codec::lemma_skip_add(whole, m5, n6);
    crate::codec::lemma_skip_concat(e6, r6);
    crate::codec::lemma_skip_add(whole, m5 + n6, n7);
    crate::codec::lemma_skip_concat(e7, r7);
    crate::codec::lemma_skip_add(whole, m5 + n6 + n7, n8);
    crate::codec::lemma_skip_concat(e8, r8);
    crate::codec::lemma_skip_add(whole, m5 + n6 + n7 + n8, n9);
    crate::codec::lemma_skip_concat(e9, r9);
    assert(parse_rl_string_list(whole.skip(m5), d.2.len()) == Ok::<
        (Seq<(RlView, Seq<char>)>, int),
        DecodeError,
    >((d.2, n6))) by {
        crate::lists::lemma_rl_string_list_parse_enc(d.2, r6);
    }
    assert(parse_varint_u32(whole.skip(m5 + n6)) == Ok::<(u32, int), DecodeError>((
        d.3.len() as u32,
        n7,
    ))) by {
        crate::varint::lemma_varint_u32_roundtrip(d.3.len() as u32, r7);
    }
    assert(crate::lists::parse_u32var_list(whole.skip(m5 + n6 + n7), d.3.len()) == Ok::<
        (Seq<u32>, int),
        DecodeError,
    >((d.3, n8))) by {
        crate::lists::lemma_u32var_list_parse_enc(d.3, r8);
    }
    assert(parse_varint_u32(whole.skip(m5 + n6 + n7 + n8)) == Ok::<(u32, int), DecodeError>((
        d.4.len() as u32,
        n9,
    ))) by {
        crate::varint::lemma_varint_u32_roundtrip(d.4.len() as u32, r9);
    }
    assert(parse_rl_list(whole.skip(m5 + n6 + n7 + n8 + n9), d.4.len()) == Ok::<
        (Seq<RlView>, int),
        DecodeError,
    >((d.4, e10.len() as int))) by {
        crate::lists::lemma_rl_list_parse_enc(d.4, rest);
    }
}

/// The registry tables survive the wire.
#[verifier::spinoff_prover]
#[verifier::rlimit(100)]
pub proof fn lemma_registry_data_roundtrip(d: RegistryDataView, rest: Seq<u8>)
    requires
        registry_data_wf(d),
    ensures
        parse_registry_data(registry_data_enc(d) + rest) == Ok::<
            (RegistryDataView, int),
            DecodeError,
        >((d, registry_data_enc(d).len() as int)),
{
    let whole = registry_data_enc(d) + rest;
    let n1 = varint_enc(d.0.len()).len() as int;
    let n2 = crate::lists::rl_u32_list_enc(d.0).len() as int;
    let n3 = varint_enc(d.1.len()).len() as int;
    let n4 = crate::lists::rl_pair_list_enc(d.1).len() as int;
    let n5 = varint_enc(d.2.len()).len() as int;
    let n6 = rl_string_list_enc(d.2).len() as int;
    let n7 = varint_enc(d.3.len()).len() as int;
    let n8 = crate::lists::u32var_list_enc(d.3).len() as int;
    let n9 = varint_enc(d.4.len()).len() as int;
    let n10 = rl_list_enc(d.4).len() as int;
    lemma_registry_data_front(d, rest);
    lemma_registry_data_back(d, rest);
    assert(registry_data_enc(d).len() == n1 + n2 + n3 + n4 + n5 + n6 + n7 + n8 + n9 + n10);
    lemma_registry_data_assemble(d, whole, n1, n2, n3, n4, n5, n6, n7, n8, n9, n10);
}

/// A registry snapshot survives the wire, with or without tables.
#[verifier::spinoff_prover]
#[verifier::rlimit(100)]
pub proof fn lemma_registry_roundtrip(v: RegistryView, rest: Seq<u8>)
    requires
        registry_wf(v),
    ensures
        parse_registry(registry_enc(v) + rest) == Ok::<(RegistryView, int), DecodeError>((
            v,
            registry_enc(v).len() as int,
        )),
{
    let e1 = crate::resource::rl_enc(v.0);
    let e2 = crate::codec::bool_enc(v.1 is Some);
    let whole = registry_enc(v) + rest;
    match v.1 {
        Some(d) => {
            let e3 = registry_data_enc(d);
            assert(whole =~= e1 + (e2 + (e3 + rest)));
            crate::resource::lemma_rl_parse_enc(v.0, e2 + (e3 + rest));
            let n1 = e1.len() as int;
            assert(whole.skip(n1) =~= e2 + (e3 + rest));
            assert((e2 + (e3 + rest))[0] == e2[0]);
            assert(whole.skip(n1 + 1) =~= e3 + rest);
            lemma_registry_data_roundtrip(d, rest);
            assert((v.0, Some(d)) == v);
        },
        None => {
            assert(whole =~= e1 + (e2 + rest));
            crate::resource::lemma_rl_parse_enc(v.0, e2 + rest);
            let n1 = e1.len() as int;
            assert(whole.skip(n1) =~= e2 + rest);
            assert((e2 + rest)[0] == e2[0]);
            assert((v.0, Option::<RegistryDataView>::None) == v);
        },
    }
}

/// Whether a serverbound Forge packet can be put on the wire.
pub open spec fn sb_forge_wf(v: ServerboundForgeView) -> bool {
    match v {
        ServerboundForgeView::ModListReply(p) => mod_list_reply_wf(p),
        ServerboundForgeView::Acknowledge => true,
    }
}

/// Every serverbound Forge packet round-trips through the id dispatch:
/// decoding the encoding of a packet gives the packet back.
pub proof fn lemma_sb_forge_roundtrip(v: ServerboundForgeView)
    requires
        sb_forge_wf(v),
    ensures
        parse_sb_forge_body(sb_forge_body_enc(v)) == Ok::<
            (ServerboundForgeView, int),
            ProtocolError,
        >((v, sb_forge_body_enc(v).len() as int)),
{
    match v {
        ServerboundForgeView::ModListReply(p) => {
            let e = mod_list_reply_enc(p);
            crate::varint::lemma_varint_u32_roundtrip(0x02, e);
            let n = crate::varint::varint_len(0x02);
            assert(sb_forge_body_enc(v).skip(n) =~= e + Seq::<u8>::empty());
            lemma_mod_list_reply_roundtrip(p, Seq::<u8>::empty());
        },
        ServerboundForgeView::Acknowledge => {
            crate::varint::lemma_varint_u32_roundtrip(0x63, Seq::<u8>::empty());
            assert(sb_forge_body_enc(v) =~= varint_enc(0x63) + Seq::<u8>::empty());
        },
    }
}

/// Whether a clientbound Forge packet can be put on the wire.
/// A registry's tables that encode into a form that decodes back to
/// itself: every identifier is well formed and every count and string
/// fits its field.
pub open spec fn registry_data_wf(d: RegistryDataView) -> bool {
    &&& d.0.len() <= u32::MAX
    &&& d.1.len() <= u32::MAX
    &&& d.2.len() <= u32::MAX
    &&& d.3.len() <= u32::MAX
    &&& d.4.len() <= u32::MAX
    &&& forall|j: int| 0 <= j < d.0.len() ==> crate::resource::rl_wf(#[trigger] d.0[j].0)
    &&& forall|j: int| 0 <= j < d.1.len() ==> crate::resource::rl_wf(#[trigger] d.1[j].0)
        && crate::resource::rl_wf(d.1[j].1)
    &&& forall|j: int| 0 <= j < d.2.len() ==> crate::resource::rl_wf(#[trigger] d.2[j].0)
    &&& forall|j: int| 0 <= j < d.2.len() ==> string_fits(#[trigger] d.2[j].1)
    &&& forall|j: int| 0 <= j < d.4.len() ==> crate::resource::rl_wf(#[trigger] d.4[j])
}

/// A registry snapshot that survives the wire.
pub open spec fn registry_wf(v: RegistryView) -> bool {
    &&& crate::resource::rl_wf(v.0)
    &&& (match v.1 {
        Some(d) => registry_data_wf(d),
        None => true,
    })
}

pub open spec fn cb_forge_wf(v: ClientboundForgeView) -> bool {
    match v {
        ClientboundForgeView::ModList(p) => mod_list_wf(p),
        ClientboundForgeView::Registry(p) => registry_wf(p),
        ClientboundForgeView::ConfigData(p) => string_fits(p.0) && p.1.len() <= u32::MAX,
        ClientboundForgeView::ModData(p) => mod_data_wf(p),
        ClientboundForgeView::ChannelMismatch(_) => true,
    }
}

/// Every clientbound Forge packet round-trips through the id dispatch.
pub proof fn lemma_cb_forge_roundtrip(v: ClientboundForgeView)
    requires
        cb_forge_wf(v),
    ensures
        parse_cb_forge_body(cb_forge_body_enc(v)) == Ok::<
            (ClientboundForgeView, int),
            ProtocolError,
        >((v, cb_forge_body_enc(v).len() as int)),
{
    match v {
        ClientboundForgeView::ModList(p) => {
            let e = mod_list_enc(p);
            crate::varint::lemma_varint_u32_roundtrip(0x01, e);
            let n = crate::varint::varint_len(0x01);
            assert(cb_forge_body_enc(v).skip(n) =~= e + Seq::<u8>::empty());
            lemma_mod_list_roundtrip(p, Seq::<u8>::empty());
        },
        ClientboundForgeView::Registry(p) => {
            let e = registry_enc(p);
            crate::varint::lemma_varint_u32_roundtrip(0x03, e);
            let n = crate::varint::varint_len(0x03);
            assert(cb_forge_body_enc(v).skip(n) =~= e + Seq::<u8>::empty());
            lemma_registry_roundtrip(p, Seq::<u8>::empty());
        },
        ClientboundForgeView::ConfigData(p) => {
            let e = config_data_enc(p);
            crate::varint::lemma_varint_u32_roundtrip(0x04, e);
            let n = crate::varint::varint_len(0x04);
            assert(cb_forge_body_enc(v).skip(n) =~= e + Seq::<u8>::empty());
            lemma_config_data_roundtrip(p, Seq::<u8>::empty());
        },
        ClientboundForgeView::ModData(p) => {
            let e = mod_data_enc(p);
            crate::varint::lemma_varint_u32_roundtrip(0x05, e);
            let n = crate::varint::varint_len(0x05);
            assert(cb_forge_body_enc(v).skip(n) =~= e + Seq::<u8>::empty());
            lemma_mod_data_roundtrip(p, Seq::<u8>::empty());
        },
        ClientboundForgeView::ChannelMismatch(d) => {
            crate::varint::lemma_varint_u32_roundtrip(0x06, d);
            let n = crate::varint::varint_len(0x06);
            assert(cb_forge_body_enc(v).skip(n) =~= d);
        },
    }
}

/// A serverbound Forge frame round-trips: the frame written for a
/// well-formed packet parses back to the same packet, consuming the
/// whole frame (the channel runs without compression).
pub proof fn lemma_sb_forge_frame_roundtrip(v: ServerboundForgeView)
    requires
        sb_forge_wf(v),
        sb_forge_body_enc(v).len() <= u32::MAX,
    ensures
        ({
            let body = sb_forge_body_enc(v);
            let frame = crate::frame::frame_enc(body, None);
            &&& crate::frame::parse_frame(frame, None) == Ok::<
                Option<(Seq<u8>, int)>,
                ProtocolError,
            >(Some((body, frame.len() as int)))
            &&& parse_sb_forge_body(body) == Ok::<(ServerboundForgeView, int), ProtocolError>(
                (v, body.len() as int),
            )
        }),
{
    let body = sb_forge_body_enc(v);
    crate::frame::lemma_frame_roundtrip(body, None, Seq::<u8>::empty());
    assert(crate::frame::frame_enc(body, None) + Seq::<u8>::empty() =~= crate::frame::frame_enc(
        body,
        None,
    ));
    lemma_sb_forge_roundtrip(v);
}

/// A clientbound Forge frame round-trips in the same way.
pub proof fn lemma_cb_forge_frame_roundtrip(v: ClientboundForgeView)
    requires
        cb_forge_wf(v),
        cb_forge_body_enc(v).len() <= u32::MAX,
    ensures
        ({
            let body = cb_forge_body_enc(v);
            let frame = crate::frame::frame_enc(body, None);
            &&& crate::frame::parse_frame(frame, None) == Ok::<
                Option<(Seq<u8>, int)>,
                ProtocolError,
            >(Some((body, frame.len() as int)))
            &&& parse_cb_forge_body(body) == Ok::<(ClientboundForgeView, int), ProtocolError>(
                (v, body.len() as int),
            )
        }),
{
    let body = cb_forge_body_enc(v);
    crate::frame::lemma_frame_roundtrip(body, None, Seq::<u8>::empty());
    assert(crate::frame::frame_enc(body, None) + Seq::<u8>::empty() =~= crate::frame::frame_enc(
        body,
        None,
    ));
    lemma_cb_forge_roundtrip(v);
}

} // verus!
