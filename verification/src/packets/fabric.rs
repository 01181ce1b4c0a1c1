//! The Fabric handshake channel: its single registry-sync packet.

use vstd::prelude::*;
use crate::error::{DecodeError, EncodeError};
use crate::varint::{varint_enc, parse_varint_u32, read_varint_u32, write_varint_u32};
use crate::codec::push_bytes;
use crate::resource::ResourceLocation;
use crate::resource::rl_fits;
use crate::lists::{
    RlView, rl_list_enc, parse_rl_list, read_rl_list, write_rl_list,
};

verus! {

/// The registry names a Fabric peer announces.
#[derive(Clone, Debug)]
pub struct ClientboundFabricRegistryPacket {
    pub registry: Vec<ResourceLocation>,
}

impl View for ClientboundFabricRegistryPacket {
    type V = Seq<RlView>;

    open spec fn view(&self) -> Seq<RlView> {
        self.registry@.map_values(|x: ResourceLocation| x@)
    }
}

pub open spec fn fabric_registry_enc(v: Seq<RlView>) -> Seq<u8> {
    varint_enc(v.len()) + rl_list_enc(v)
}

/// The count fits its varint prefix and every identifier its wire
/// bound: exactly when the packet encodes.
pub open spec fn fabric_registry_encodable(p: ClientboundFabricRegistryPacket) -> bool {
    &&& p.registry@.len() <= u32::MAX
    &&& forall|j: int| 0 <= j < p.registry@.len() ==> rl_fits((#[trigger] p.registry@[j])@)
}

pub open spec fn parse_fabric_registry(s: Seq<u8>) -> Result<(Seq<RlView>, int), DecodeError> {
    match parse_varint_u32(s) {
        Ok((c, n1)) => match parse_rl_list(s.skip(n1), c as nat) {
            Ok((vs, n2)) => Ok((vs, n1 + n2)),
            Err(e) => Err(e),
        },
        Err(e) => Err(e),
    }
}

impl ClientboundFabricRegistryPacket {
    /// Succeeds exactly when every length fits its field.
    pub fn write_into(&self, out: &mut Vec<u8>) -> (r: Result<(), EncodeError>)
        ensures
            match r {
                Ok(()) => fabric_registry_encodable(*self) && final(out)@ == old(out)@
                    + fabric_registry_enc(self@),
                Err(e) => !fabric_registry_encodable(*self) && e
                    == EncodeError::LengthExceedsLimit && final(out)@ == old(out)@,
            },
    {
        let mut tmp: Vec<u8> = Vec::new();
        if self.registry.len() > u32::MAX as usize {
            return Err(EncodeError::LengthExceedsLimit);
        }
        write_varint_u32(&mut tmp, self.registry.len() as u32);
        match write_rl_list(&mut tmp, &self.registry) {
            Ok(()) => {},
            Err(_) => {
                return Err(EncodeError::LengthExceedsLimit);
            },
        }
        push_bytes(out, &tmp);
        assert(out@ =~= old(out)@ + fabric_registry_enc(self@));
        Ok(())
    }

    pub fn read_from(data: &Vec<u8>, pos: &mut usize) -> (r: Result<
        ClientboundFabricRegistryPacket,
        DecodeError,
    >)
        requires
            *old(pos) <= data@.len(),
        ensures
            match parse_fabric_registry(data@.skip(*old(pos) as int)) {
                Ok((v, n)) => r matches Ok(rv) && rv@ == v && *final(pos) == *old(pos) + n,
                Err(e) => r matches Err(re) && re == e,
            },
            *old(pos) <= *final(pos) <= data@.len(),
    {
        let ghost p0 = *pos;
        let ghost s_cur = data@.skip(p0 as int);
        let mut p = *pos;
        let c = match read_varint_u32(data, &mut p) {
            Ok(v) => v,
            Err(e) => {
                return Err(e);
            },
        };
        proof {
            assert(data@.skip(p as int) =~= s_cur.skip(p - p0));
        }
        let registry = match read_rl_list(data, &mut p, c) {
            Ok(v) => v,
            Err(e) => {
                return Err(e);
            },
        };
        *pos = p;
        Ok(ClientboundFabricRegistryPacket { registry })
    }
}

} // verus!
