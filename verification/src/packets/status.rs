//! The status state. The status response travels as one length-prefixed
//! JSON string; these are the plain value types of that JSON document.
//! Turning them into and out of JSON text is the caller's concern; the
//! Forge payload inside it is handled by `forge_data`.

use vstd::prelude::*;

verus! {

/// The server version block of a status response.
#[derive(Clone, Debug)]
pub struct Version {
    pub name: String,
    pub protocol: i32,
}

/// One entry of the player sample list.
#[derive(Clone, Debug)]
pub struct SamplePlayer {
    pub id: String,
    pub name: String,
}

/// The player counts and sample of a status response.
#[derive(Clone, Debug)]
pub struct Players {
    pub max: i32,
    pub online: i32,
    pub sample: Vec<SamplePlayer>,
}

} // verus!
