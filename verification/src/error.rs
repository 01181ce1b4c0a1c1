//! Error taxonomy. Every decode error is terminal for the current decode
//! operation and fatal to the connection: once bytes are misread the frame
//! offset can no longer be trusted, so nothing here is retried internally.

use vstd::prelude::*;
use crate::state::{ConnectionState, Direction};

verus! {

/// A malformed value on the wire. All variants are terminal for the
/// current decode operation.
#[derive(Clone, Copy, Debug, PartialEq, Eq, Structural)]
pub enum DecodeError {
    /// The input ended before the value was complete.
    UnexpectedEof,
    /// A varint ran past its maximum width or encoded a value out of range.
    InvalidVarint,
    /// A length-prefixed string did not hold valid UTF-8.
    InvalidUtf8,
    /// A value named no valid alternative: an enum tag outside the
    /// declared variants, or an identifier with an empty path.
    InvalidEnumTag,
    /// A declared length exceeded the permitted maximum.
    LengthExceedsLimit,
}

/// A value that cannot be put on the wire: some length does not fit the
/// field that carries it.
#[derive(Clone, Copy, Debug, PartialEq, Eq, Structural)]
pub enum EncodeError {
    /// A string or sequence is longer than its length prefix can express.
    LengthExceedsLimit,
}

/// A connection-level failure. Everything but `WrongState` and
/// `AlreadySet` is raised on the read path; all are fatal.
#[derive(Clone, Copy, Debug, PartialEq, Eq, Structural)]
pub enum ProtocolError {
    /// A value inside a frame was malformed.
    Decode(DecodeError),
    /// A value could not be encoded into a frame.
    Encode(EncodeError),
    /// The packet id is absent from the table active for this
    /// (state, direction): the stream can no longer be trusted.
    UnknownPacketId(ConnectionState, Direction, u32),
    /// A compressed frame's declared decompressed length disagreed with
    /// the actual decompressed byte count, or the stream was not valid
    /// deflate data.
    FrameIntegrity,
    /// A packet was encoded for, or a transition requested from, a state
    /// that is not the active one.
    WrongState,
    /// The compression threshold or the encryption context was already
    /// set; both are set at most once per connection.
    AlreadySet,
}

} // verus!
