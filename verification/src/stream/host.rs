//! The initiator: the role that wants the files and drives the handshake.
//!
//! The caller performs the reading, the probing of the destination and the
//! receiving; after each of them it hands the result to `start`, which says
//! what to write, what to do next, and which phase the session is in then.

use crate::diff::all_decided;
use crate::diff::Candidate;
use crate::diff::candidate_views;
use crate::diff::generate_send_list;
use crate::diff::selection;
use crate::entry::encode_entry_list;
use crate::entry::Entry;
use crate::entry::entry_list_bytes;
use crate::error::ProtocolError;
use crate::error::SyncError;
use crate::stream::protocol::magic;
use crate::stream::protocol::magic_bytes;
use crate::stream::protocol::Message;
use crate::stream::protocol::MessageView;
use crate::stream::protocol::SendConfig;
use vstd::prelude::*;

verus! {

/// The phases of the initiator, in their order.
#[derive(Clone, Copy, Debug, PartialEq, Eq, Structural)]
pub enum InitiatorState {
    /// Nothing was written yet.
    Start,
    /// The request to index is out; its barrier is awaited.
    AwaitIndexingAck,
    /// The list of entries is awaited.
    AwaitEntryList,
    /// The barrier behind the list of entries is awaited.
    AwaitIndexedAck,
    /// The destination is being looked at.
    Selecting,
    /// The list of selected entries is out; its barrier is awaited.
    AwaitSendListAck,
    /// The transfer stream is being received.
    Receiving,
    /// The last barrier is awaited.
    AwaitFinalAck,
    Done,
}

/// What the caller reports to the initiator.
#[derive(Debug)]
pub enum InitiatorEvent {
    /// The session is to begin, with this request to the source.
    Begin(SendConfig),
    /// A message was read.
    Received(Message),
    /// The list of entries was read.
    EntryList(Vec<Entry>),
    /// The destination of every entry was looked at.
    Probed(Vec<Candidate>),
    /// The transfer stream was received up to its end mark and written out.
    StreamReceived,
}

/// What the caller is to do after writing the bytes of a step.
#[derive(Clone, Copy, Debug, PartialEq, Eq, Structural)]
pub enum InitiatorTask {
    /// Read one message and report it.
    ReadMessage,
    /// Read the list of entries and report it.
    ReadEntryList,
    /// Look at the destination of every entry and report what stands there.
    ProbeDestinations,
    /// Receive the transfer stream, write its records out, and report that.
    ReceiveStream,
    /// The session is over.
    Close,
}

/// One step of the initiator: its new phase, what to send now, and what to
/// do after sending it.
#[derive(Debug)]
pub struct InitiatorStep {
    pub state: InitiatorState,
    /// A list to send first, through the compressor of bulk data; empty
    /// where the step sends no list.
    pub bulk: Vec<u8>,
    /// Bytes to send after the list, as they are.
    pub write: Vec<u8>,
    pub task: InitiatorTask,
}

impl InitiatorState {
    /// Position of the phase in the session.
    pub open spec fn rank(self) -> nat {
        match self {
            InitiatorState::Start => 0,
            InitiatorState::AwaitIndexingAck => 1,
            InitiatorState::AwaitEntryList => 2,
            InitiatorState::AwaitIndexedAck => 3,
            InitiatorState::Selecting => 4,
            InitiatorState::AwaitSendListAck => 5,
            InitiatorState::Receiving => 6,
            InitiatorState::AwaitFinalAck => 7,
            InitiatorState::Done => 8,
        }
    }

    /// The phase waits for the barrier `Okay`.
    pub open spec fn awaits_barrier(self) -> bool {
        self is AwaitIndexingAck || self is AwaitIndexedAck || self is AwaitSendListAck
            || self is AwaitFinalAck
    }

    /// The phase that follows this one.
    pub open spec fn successor(self) -> InitiatorState {
        match self {
            InitiatorState::Start => InitiatorState::AwaitIndexingAck,
            InitiatorState::AwaitIndexingAck => InitiatorState::AwaitEntryList,
            InitiatorState::AwaitEntryList => InitiatorState::AwaitIndexedAck,
            InitiatorState::AwaitIndexedAck => InitiatorState::Selecting,
            InitiatorState::Selecting => InitiatorState::AwaitSendListAck,
            InitiatorState::AwaitSendListAck => InitiatorState::Receiving,
            InitiatorState::Receiving => InitiatorState::AwaitFinalAck,
            InitiatorState::AwaitFinalAck => InitiatorState::Done,
            InitiatorState::Done => InitiatorState::Done,
        }
    }

    /// What the caller is to do on entering the phase.
    pub open spec fn task(self) -> InitiatorTask {
        match self {
            InitiatorState::Start => InitiatorTask::Close,
            InitiatorState::AwaitIndexingAck => InitiatorTask::ReadMessage,
            InitiatorState::AwaitEntryList => InitiatorTask::ReadEntryList,
            InitiatorState::AwaitIndexedAck => InitiatorTask::ReadMessage,
            InitiatorState::Selecting => InitiatorTask::ProbeDestinations,
            InitiatorState::AwaitSendListAck => InitiatorTask::ReadMessage,
            InitiatorState::Receiving => InitiatorTask::ReceiveStream,
            InitiatorState::AwaitFinalAck => InitiatorTask::ReadMessage,
            InitiatorState::Done => InitiatorTask::Close,
        }
    }
}

/// The phase that follows a phase on an event, or the error that ends the
/// session. A session cannot begin with an empty root. A phase that waits
/// for the barrier takes `Okay` and nothing else; an event that the phase
/// does not wait for is a protocol error.
pub open spec fn initiator_next(state: InitiatorState, event: InitiatorEvent, ignore_mtime: bool)
    -> Result<InitiatorState, SyncError> {
    match (state, event) {
        (InitiatorState::Start, InitiatorEvent::Begin(config)) => if config@.path.len() == 0 {
            Err(SyncError::Config)
        } else {
            Ok(state.successor())
        },
        (InitiatorState::AwaitEntryList, InitiatorEvent::EntryList(_)) => Ok(state.successor()),
        (InitiatorState::Selecting, InitiatorEvent::Probed(candidates)) => if all_decided(
            candidate_views(candidates@),
            ignore_mtime,
        ) {
            Ok(state.successor())
        } else {
            Err(SyncError::Io)
        },
        (InitiatorState::Receiving, InitiatorEvent::StreamReceived) => Ok(state.successor()),
        (_, InitiatorEvent::Received(message)) => if state.awaits_barrier() && message@
            == MessageView::Okay {
            Ok(state.successor())
        } else {
            Err(SyncError::Protocol(ProtocolError::UnexpectedMessage))
        },
        _ => Err(SyncError::Protocol(ProtocolError::UnexpectedMessage)),
    }
}

/// The list that the initiator sends on an event that its phase waits for:
/// the list of selected entries once the destination was looked at, and
/// none else.
pub open spec fn initiator_bulk(state: InitiatorState, event: InitiatorEvent, ignore_mtime: bool)
    -> Seq<u8> {
    match (state, event) {
        (InitiatorState::Selecting, InitiatorEvent::Probed(candidates)) => entry_list_bytes(
            selection(candidate_views(candidates@), ignore_mtime),
        ),
        _ => Seq::empty(),
    }
}

/// The bytes that the initiator writes on an event that its phase waits for:
/// the magic token and the request at the start, and nothing later.
pub open spec fn initiator_written(state: InitiatorState, event: InitiatorEvent) -> Seq<u8> {
    match (state, event) {
        (InitiatorState::Start, InitiatorEvent::Begin(config)) => magic_bytes()
            + MessageView::StartIndexing(config@).bytes(),
        _ => Seq::empty(),
    }
}

/// The step that enters the phase after `state`, sending `bulk` and `write`.
fn advance(state: InitiatorState, bulk: Vec<u8>, write: Vec<u8>) -> (step: InitiatorStep)
    requires
        !(state is Done),
    ensures
        step.state == state.successor(),
        step.task == step.state.task(),
        step.bulk == bulk,
        step.write == write,
{
    match state {
        InitiatorState::Start => InitiatorStep {
            state: InitiatorState::AwaitIndexingAck,
            bulk,
            write,
            task: InitiatorTask::ReadMessage,
        },
        InitiatorState::AwaitIndexingAck => InitiatorStep {
            state: InitiatorState::AwaitEntryList,
            bulk,
            write,
            task: InitiatorTask::ReadEntryList,
        },
        InitiatorState::AwaitEntryList => InitiatorStep {
            state: InitiatorState::AwaitIndexedAck,
            bulk,
            write,
            task: InitiatorTask::ReadMessage,
        },
        InitiatorState::AwaitIndexedAck => InitiatorStep {
            state: InitiatorState::Selecting,
            bulk,
            write,
            task: InitiatorTask::ProbeDestinations,
        },
        InitiatorState::Selecting => InitiatorStep {
            state: InitiatorState::AwaitSendListAck,
            bulk,
            write,
            task: InitiatorTask::ReadMessage,
        },
        InitiatorState::AwaitSendListAck => InitiatorStep {
            state: InitiatorState::Receiving,
            bulk,
            write,
            task: InitiatorTask::ReceiveStream,
        },
        InitiatorState::Receiving => InitiatorStep {
            state: InitiatorState::AwaitFinalAck,
            bulk,
            write,
            task: InitiatorTask::ReadMessage,
        },
        _ => InitiatorStep {
            state: InitiatorState::Done,
            bulk,
            write,
            task: InitiatorTask::Close,
        },
    }
}

/// Runs one step of the initiator's session.
///
/// The session opens in `Start` with the event `Begin`: the magic token and
/// the request to index go out. Then the initiator awaits the barrier,
/// reads the list of entries, awaits the barrier, selects what to transfer
/// from what stands at the destination, sends that list, awaits the
/// barrier, receives the stream, and awaits the last barrier.
pub fn start(state: InitiatorState, event: InitiatorEvent, ignore_mtime: bool) -> (r: Result<
    InitiatorStep,
    SyncError,
>)
    ensures
        match r {
            Ok(step) => {
                &&& initiator_next(state, event, ignore_mtime) == Ok::<
                    InitiatorState,
                    SyncError,
                >(step.state)
                &&& step.bulk@ == initiator_bulk(state, event, ignore_mtime)
                &&& step.write@ == initiator_written(state, event)
                &&& step.task == step.state.task()
            },
            Err(e) => initiator_next(state, event, ignore_mtime) == Err::<
                InitiatorState,
                SyncError,
            >(e),
        },
{
    match (state, event) {
        (InitiatorState::Start, InitiatorEvent::Begin(config)) => {
            if config.path.as_str().is_empty() {
                return Err(SyncError::Config);
            }
            let mut write = magic();
            let mut request = Message::StartIndexing(config).encode();
            write.append(&mut request);
            Ok(advance(state, Vec::new(), write))
        },
        (InitiatorState::AwaitEntryList, InitiatorEvent::EntryList(_)) => Ok(
            advance(state, Vec::new(), Vec::new()),
        ),
        (InitiatorState::Selecting, InitiatorEvent::Probed(candidates)) => {
            match generate_send_list(&candidates, ignore_mtime) {
                Ok(send_list) => Ok(advance(state, encode_entry_list(&send_list), Vec::new())),
                Err(e) => Err(e),
            }
        },
        (InitiatorState::Receiving, InitiatorEvent::StreamReceived) => Ok(
            advance(state, Vec::new(), Vec::new()),
        ),
        (
            InitiatorState::AwaitIndexingAck,
            InitiatorEvent::Received(message),
        ) | (InitiatorState::AwaitIndexedAck, InitiatorEvent::Received(message)) | (
            InitiatorState::AwaitSendListAck,
            InitiatorEvent::Received(message),
        ) | (InitiatorState::AwaitFinalAck, InitiatorEvent::Received(message)) => {
            if message.is_ok() {
                Ok(advance(state, Vec::new(), Vec::new()))
            } else {
                Err(SyncError::Protocol(ProtocolError::UnexpectedMessage))
            }
        },
        _ => Err(SyncError::Protocol(ProtocolError::UnexpectedMessage)),
    }
}

/// Phases never pipeline: a step that succeeds enters the next phase and no
/// other.
pub proof fn lemma_initiator_advances(
    state: InitiatorState,
    event: InitiatorEvent,
    ignore_mtime: bool,
)
    ensures
        initiator_next(state, event, ignore_mtime) matches Ok(next) ==> next.rank() == state.rank()
            + 1,
{
}

/// Every barrier is awaited: a phase that waits for `Okay` is left on that
/// message alone.
pub proof fn lemma_initiator_barrier(
    state: InitiatorState,
    event: InitiatorEvent,
    ignore_mtime: bool,
)
    requires
        state.awaits_barrier(),
    ensures
        initiator_next(state, event, ignore_mtime) is Ok <==> (event matches InitiatorEvent::Received(
            message,
        ) && message@ == MessageView::Okay),
{
}

/// A finished session takes no further event.
pub proof fn lemma_initiator_done_is_final(event: InitiatorEvent, ignore_mtime: bool)
    ensures
        initiator_next(InitiatorState::Done, event, ignore_mtime) is Err,
{
}

} // verus!
