//! The protocol states a connection moves through, and the two directions
//! packets travel in. Packet id tables are keyed by a (state, direction)
//! pair, and exactly one state is active on a connection at a time.

use vstd::prelude::*;

verus! {

/// The five protocol states. A connection starts in `Handshake`, moves to
/// `Status` or `Login` according to the client's intention, completes login
/// into `Configuration`, and from then on cycles between `Configuration`
/// and `Game`; it never regresses otherwise.
#[derive(Clone, Copy, Debug, PartialEq, Eq, Structural)]
pub enum ConnectionState {
    Handshake,
    Status,
    Login,
    Configuration,
    Game,
}

/// The direction a packet travels in. Packet id tables are
/// direction-specific.
#[derive(Clone, Copy, Debug, PartialEq, Eq, Structural)]
pub enum Direction {
    Serverbound,
    Clientbound,
}

} // verus!
