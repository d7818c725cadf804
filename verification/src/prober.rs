//! The choice among probed addresses. Every candidate is probed by an echo
//! exchange; the first candidate of the list whose probe succeeded is taken,
//! however fast the others answered.

use crate::bytes::same_bytes;
use vstd::prelude::*;

verus! {

/// Seconds allowed for connecting to a candidate, and again for sending the
/// payload and for reading the echo.
pub const PROBE_TIMEOUT_SECS: u64 = 1;

/// Number of bytes of the probe payload.
pub const ECHO_LEN: usize = 12;

/// The probe payload: the bytes of `Please echo` and a line feed.
pub const ECHO_MESSAGE: [u8; 12] = [80, 108, 101, 97, 115, 101, 32, 101, 99, 104, 111, 10];

/// The probe payload as a sequence of bytes.
pub open spec fn echo_bytes() -> Seq<u8> {
    seq![80u8, 108u8, 101u8, 97u8, 115u8, 101u8, 32u8, 101u8, 99u8, 104u8, 111u8, 10u8]
}

/// The probe payload, to be sent to each candidate.
pub fn echo_message() -> (payload: Vec<u8>)
    ensures
        payload@ == echo_bytes(),
{
    let mut payload: Vec<u8> = Vec::new();
    let mut i: usize = 0;
    while i < ECHO_LEN
        invariant
            i <= ECHO_LEN,
            payload@ == ECHO_MESSAGE@.take(i as int),
        decreases ECHO_LEN - i,
    {
        payload.push(ECHO_MESSAGE[i]);
        assert(payload@ =~= ECHO_MESSAGE@.take(i + 1));
        i += 1;
    }
    assert(payload@ =~= echo_bytes());
    payload
}

/// How the probe of one candidate ended.
#[derive(Debug)]
pub enum ProbeOutcome {
    /// No connection within the time allowed.
    ConnectFailed,
    /// The connection stood, and sending or reading failed or fell short.
    IoFailed,
    /// The peer answered with these bytes.
    Echoed(Vec<u8>),
}

impl ProbeOutcome {
    /// The candidate is reachable: the peer echoed the payload exactly.
    pub open spec fn reachable(self) -> bool {
        self matches ProbeOutcome::Echoed(bytes) && bytes@ == echo_bytes()
    }

    /// Whether the candidate is reachable. A probe that failed, and one
    /// whose echo differs, count alike as unreachable.
    pub fn is_reachable(&self) -> (yes: bool)
        ensures
            yes == self.reachable(),
    {
        match self {
            ProbeOutcome::ConnectFailed => false,
            ProbeOutcome::IoFailed => false,
            ProbeOutcome::Echoed(bytes) => {
                let payload = echo_message();
                same_bytes(bytes.as_slice(), payload.as_slice())
            },
        }
    }
}

/// Picks the address to use: the position, in the order of the candidates,
/// of the first whose probe succeeded; none where no probe did.
pub fn check_connectivity(outcomes: &Vec<ProbeOutcome>) -> (chosen: Option<usize>)
    ensures
        match chosen {
            Some(i) => i < outcomes@.len() && outcomes@[i as int].reachable() && forall|j: int|
                0 <= j < i ==> !(#[trigger] outcomes@[j]).reachable(),
            None => forall|j: int|
                0 <= j < outcomes@.len() ==> !(#[trigger] outcomes@[j]).reachable(),
        },
{
    let mut i: usize = 0;
    while i < outcomes.len()
        invariant
            i <= outcomes.len(),
            forall|j: int| 0 <= j < i ==> !(#[trigger] outcomes@[j]).reachable(),
        decreases outcomes.len() - i,
    {
        if outcomes[i].is_reachable() {
            return Some(i);
        }
        i += 1;
    }
    None
}

} // verus!
