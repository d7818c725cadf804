//! The session between the two roles: the messages they exchange and the
//! state machine that each of them runs.

pub mod android;
pub mod host;
pub mod protocol;
