//! The game state: the animate packet and its action tag.

use vstd::prelude::*;
use crate::error::{DecodeError, EncodeError};
use crate::varint::{varint_enc, parse_varint_u32, read_varint_u32, write_varint_u32};

verus! {

/// The animation an entity performs; on the wire a varint tag in
/// declaration order, and an unknown tag is rejected.
#[derive(Clone, Copy, Debug, PartialEq, Eq, Structural)]
pub enum AnimationAction {
    SwingMainHand,
    Hurt,
    WakeUp,
    SwingOffHand,
    CriticalHit,
    MagicCriticalHit,
}

pub open spec fn animation_tag(a: AnimationAction) -> nat {
    match a {
        AnimationAction::SwingMainHand => 0,
        AnimationAction::Hurt => 1,
        AnimationAction::WakeUp => 2,
        AnimationAction::SwingOffHand => 3,
        AnimationAction::CriticalHit => 4,
        AnimationAction::MagicCriticalHit => 5,
    }
}

pub open spec fn animation_of_tag(t: nat) -> AnimationAction {
    if t == 0 {
        AnimationAction::SwingMainHand
    } else if t == 1 {
        AnimationAction::Hurt
    } else if t == 2 {
        AnimationAction::WakeUp
    } else if t == 3 {
        AnimationAction::SwingOffHand
    } else if t == 4 {
        AnimationAction::CriticalHit
    } else {
        AnimationAction::MagicCriticalHit
    }
}

/// An entity id and the animation it performs.
#[derive(Clone, Copy, Debug, PartialEq, Eq, Structural)]
pub struct ClientboundAnimatePacket {
    pub id: u32,
    pub action: AnimationAction,
}

pub open spec fn animate_enc(v: ClientboundAnimatePacket) -> Seq<u8> {
    varint_enc(v.id as nat) + varint_enc(animation_tag(v.action))
}

pub open spec fn parse_animate(s: Seq<u8>) -> Result<(ClientboundAnimatePacket, int), DecodeError> {
    match parse_varint_u32(s) {
        Ok((id, n1)) => match parse_varint_u32(s.skip(n1)) {
            Ok((tag, n2)) => if tag < 6 {
                Ok((ClientboundAnimatePacket { id, action: animation_of_tag(tag as nat) }, n1 + n2))
            } else {
                Err(DecodeError::InvalidEnumTag)
            },
            Err(e) => Err(e),
        },
        Err(e) => Err(e),
    }
}

impl ClientboundAnimatePacket {
    pub fn write_into(&self, out: &mut Vec<u8>)
        ensures
            final(out)@ == old(out)@ + animate_enc(*self),
    {
        let ghost before = out@;
        write_varint_u32(out, self.id);
        let tag: u32 = match self.action {
            AnimationAction::SwingMainHand => 0,
            AnimationAction::Hurt => 1,
            AnimationAction::WakeUp => 2,
            AnimationAction::SwingOffHand => 3,
            AnimationAction::CriticalHit => 4,
            AnimationAction::MagicCriticalHit => 5,
        };
        write_varint_u32(out, tag);
        assert(out@ =~= before + animate_enc(*self));
    }

    pub fn read_from(data: &Vec<u8>, pos: &mut usize) -> (r: Result<
        ClientboundAnimatePacket,
        DecodeError,
    >)
        requires
            *old(pos) <= data@.len(),
        ensures
            match parse_animate(data@.skip(*old(pos) as int)) {
                Ok((v, n)) => r matches Ok(rv) && rv == v && *final(pos) == *old(pos) + n,
                Err(e) => r matches Err(re) && re == e,
            },
            *old(pos) <= *final(pos) <= data@.len(),
    {
        let ghost p0 = *pos;
        let ghost s_cur = data@.skip(p0 as int);
        let mut p = *pos;
        let id = match read_varint_u32(data, &mut p) {
            Ok(v) => v,
            Err(e) => {
                return Err(e);
            },
        };
        proof {
            assert(data@.skip(p as int) =~= s_cur.skip(p - p0));
        }
        let tag = match read_varint_u32(data, &mut p) {
            Ok(v) => v,
            Err(e) => {
                return Err(e);
            },
        };
        let action = if tag == 0 {
            AnimationAction::SwingMainHand
        } else if tag == 1 {
            AnimationAction::Hurt
        } else if tag == 2 {
            AnimationAction::WakeUp
        } else if tag == 3 {
            AnimationAction::SwingOffHand
        } else if tag == 4 {
            AnimationAction::CriticalHit
        } else if tag == 5 {
            AnimationAction::MagicCriticalHit
        } else {
            return Err(DecodeError::InvalidEnumTag);
        };
        *pos = p;
        Ok(ClientboundAnimatePacket { id, action })
    }
}

/// An animate packet survives the wire.
pub proof fn lemma_animate_roundtrip(v: ClientboundAnimatePacket, rest: Seq<u8>)
    ensures
        parse_animate(animate_enc(v) + rest) == Ok::<(ClientboundAnimatePacket, int), DecodeError>(
            (v, animate_enc(v).len() as int),
        ),
{
    let e1 = varint_enc(v.id as nat);
    let whole = animate_enc(v) + rest;
    assert(whole =~= e1 + (varint_enc(animation_tag(v.action)) + rest));
    crate::varint::lemma_varint_u32_roundtrip(v.id, varint_enc(animation_tag(v.action)) + rest);
    assert(whole.skip(e1.len() as int) =~= varint_enc(animation_tag(v.action)) + rest);
    crate::varint::lemma_varint_u32_roundtrip(animation_tag(v.action) as u32, rest);
}

} // verus!
