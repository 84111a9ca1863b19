//! What a connection reads: the kind of a frame, or the end of the stream.

use vstd::prelude::*;

verus! {

/// The kind of one frame on the wire. The payload stays with the caller:
/// the relay routes by kind alone.
#[derive(Clone, Copy, Debug, PartialEq, Eq, Structural)]
pub enum FrameKind {
    /// A UTF-8 payload.
    Text,
    /// An opaque byte payload.
    Binary,
    /// A keep-alive probe.
    Ping,
    /// The answer to a probe.
    Pong,
    /// The peer asks to close.
    Close,
    /// Any other frame.
    Other,
}

/// One result of awaiting the inbound half of a connection.
#[derive(Clone, Copy, Debug, PartialEq, Eq, Structural)]
pub enum Inbound {
    /// A frame arrived.
    Frame(FrameKind),
    /// The read failed.
    Failed,
    /// The stream ended.
    Ended,
}

impl FrameKind {
    /// Text and binary frames carry a payload that is relayed.
    pub open spec fn carries_payload(self) -> bool {
        self == FrameKind::Text || self == FrameKind::Binary
    }

    /// Whether a frame of this kind is relayed to the registered peers.
    pub fn is_payload(&self) -> (yes: bool)
        ensures
            yes == self.carries_payload(),
    {
        match self {
            FrameKind::Text => true,
            FrameKind::Binary => true,
            _ => false,
        }
    }
}

impl Inbound {
    /// The stream is over: a close frame, a read error or the end of input.
    pub open spec fn ends_connection(self) -> bool {
        self == Inbound::Failed || self == Inbound::Ended || self == Inbound::Frame(
            FrameKind::Close,
        )
    }

    /// Whether this result ends the connection.
    pub fn is_end(&self) -> (yes: bool)
        ensures
            yes == self.ends_connection(),
    {
        match self {
            Inbound::Failed => true,
            Inbound::Ended => true,
            Inbound::Frame(FrameKind::Close) => true,
            _ => false,
        }
    }
}

} // verus!
