//! What can go wrong in a session.

use crate::bytes::WireError;
use vstd::prelude::*;

verus! {

/// A breach of the wire protocol by the peer.
#[derive(Clone, Copy, Debug, PartialEq, Eq, Structural)]
pub enum ProtocolError {
    /// The session did not open with the magic token.
    BadMagic,
    /// A message arrived that the current phase does not expect.
    UnexpectedMessage,
    /// The stream ended where a record or the end mark had to begin.
    UnexpectedEof,
    /// The stream ended in the middle of a frame.
    Truncated,
    /// A frame holds bytes that are no encoding of what it must hold.
    Malformed,
    /// A header is too long for the length field of a frame, a content is
    /// too long to be held in memory, or a decoder was fed more bytes than
    /// it asked for.
    Oversized,
    /// Too many messages were discarded while waiting for the one expected.
    Exhausted,
}

/// Why a session, or a step of it, failed.
#[derive(Clone, Copy, Debug, PartialEq, Eq, Structural)]
pub enum SyncError {
    /// The peer broke the protocol.
    Protocol(ProtocolError),
    /// A record's content or header does not match its checksum.
    Checksum,
    /// The file system or the transport failed.
    Io,
    /// A root or destination path is not usable.
    Config,
}

impl SyncError {
    /// The error that a failed decoding inside a frame surfaces as.
    pub open spec fn of_wire(e: WireError) -> SyncError {
        match e {
            WireError::Truncated => SyncError::Protocol(ProtocolError::Truncated),
            WireError::Malformed => SyncError::Protocol(ProtocolError::Malformed),
        }
    }

    /// Turns a failed decoding into the session error it surfaces as.
    pub fn from_wire(e: WireError) -> (error: SyncError)
        ensures
            error == SyncError::of_wire(e),
    {
        match e {
            WireError::Truncated => SyncError::Protocol(ProtocolError::Truncated),
            WireError::Malformed => SyncError::Protocol(ProtocolError::Malformed),
        }
    }

    /// Whether the error is a checksum failure, after which the artifact of
    /// the failed record is removed.
    pub fn is_checksum(&self) -> (yes: bool)
        ensures
            yes == (*self == SyncError::Checksum),
    {
        match self {
            SyncError::Checksum => true,
            _ => false,
        }
    }
}

} // verus!
