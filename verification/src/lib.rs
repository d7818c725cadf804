//! One-directional directory synchronisation over a duplex byte channel.
//!
//! The crate holds the parts of the tool that have real invariants: the wire
//! encoding of its values, the checksummed transfer stream, the rule that
//! selects what to transfer, the handshake state machines of the two roles,
//! and the ordered choice among probed addresses. Everything here works on
//! plain values; reading and writing files and sockets is left to the caller.

pub mod bytes;
pub mod crc;
pub mod diff;
pub mod entry;
pub mod error;
pub mod index;
pub mod prober;
pub mod reader;
pub mod receive;
pub mod send_stream;
pub mod stream;
pub mod unix_path;

pub use crate::diff::generate_send_list;
pub use crate::entry::Entry;
pub use crate::index::index_dir;
pub use crate::reader::TryReadExact;

use vstd::prelude::*;

verus! {

/// TCP port on which the source role listens for a session.
pub const ADB_SYNC_PORT: u16 = 5001;

/// TCP port of the echo service used to probe candidate addresses.
pub const IP_CHECKER_PORT: u16 = 5002;

} // verus!
