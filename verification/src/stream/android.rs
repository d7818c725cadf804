//! The responder: the role that owns the files.
//!
//! The caller performs the reading, the indexing and the streaming; after
//! each of them it hands the result to `handle_connection`, which says what
//! to write, what to do next, and which phase the session is in then.

use crate::entry::encode_entry_list;
use crate::entry::Entry;
use crate::entry::entry_list_bytes;
use crate::entry::entry_views;
use crate::error::ProtocolError;
use crate::error::SyncError;
use crate::send_stream::end_mark_bytes;
use crate::send_stream::SendStream;
use crate::stream::protocol::is_magic;
use crate::stream::protocol::magic_bytes;
use crate::stream::protocol::Message;
use crate::stream::protocol::MessageView;
use crate::stream::protocol::SendConfig;
use crate::unix_path::UnixPath;
use vstd::prelude::*;

verus! {

/// The number of the message other than `StartIndexing` at which the
/// responder gives the session up: it reads and drops those before it.
pub const MAX_DISCARDED: u32 = 16;

/// The phases of the responder, in their order.
#[derive(Clone, Copy, Debug, PartialEq, Eq, Structural)]
pub enum ResponderState {
    AwaitMagic,
    AwaitStartIndexing { discarded: u32 },
    Indexing,
    AwaitSendList,
    Streaming,
    Done,
}

/// What the caller reports to the responder.
#[derive(Debug)]
pub enum ResponderEvent {
    /// The bytes read where the magic token is due.
    Magic(Vec<u8>),
    /// A message was read.
    Received(Message),
    /// The index was built.
    Indexed(Vec<Entry>),
    /// The list of selected entries was read.
    SendList(Vec<Entry>),
    /// The transfer stream was written, end mark included.
    Streamed,
    /// The sending failed with this error; the end mark was written all the
    /// same.
    StreamFailed(SyncError),
}

/// What the caller is to do after writing the bytes of a step.
#[derive(Debug)]
pub enum ResponderTask {
    /// Read one message and report it.
    ReadMessage,
    /// Index the tree as this configuration says, and report the entries.
    Index(SendConfig),
    /// Read the list of selected entries and report it.
    ReadSendList,
    /// Stream the objects at these paths, in this order, close the stream,
    /// and report that.
    Stream(Vec<UnixPath>),
    /// The session is over.
    Close,
}

/// One step of the responder: its new phase, what to send now, and what to
/// do after sending it.
#[derive(Debug)]
pub struct ResponderStep {
    pub state: ResponderState,
    /// A list to send first, through the compressor of bulk data; empty
    /// where the step sends no list.
    pub bulk: Vec<u8>,
    /// Bytes to send after the list, as they are.
    pub write: Vec<u8>,
    pub task: ResponderTask,
}

impl ResponderState {
    /// Position of the phase in the session.
    pub open spec fn rank(self) -> nat {
        match self {
            ResponderState::AwaitMagic => 0,
            ResponderState::AwaitStartIndexing { .. } => 1,
            ResponderState::Indexing => 2,
            ResponderState::AwaitSendList => 3,
            ResponderState::Streaming => 4,
            ResponderState::Done => 5,
        }
    }
}

/// The phase that follows a phase on an event, or the error that ends the
/// session. A sending that failed ends the session with its error, and no
/// barrier follows it. An event that the phase does not wait for is a
/// protocol error.
pub open spec fn responder_next(state: ResponderState, event: ResponderEvent) -> Result<
    ResponderState,
    SyncError,
> {
    match (state, event) {
        (ResponderState::AwaitMagic, ResponderEvent::Magic(bytes)) => if bytes@ == magic_bytes() {
            Ok(ResponderState::AwaitStartIndexing { discarded: 0 })
        } else {
            Err(SyncError::Protocol(ProtocolError::BadMagic))
        },
        (ResponderState::AwaitStartIndexing { discarded }, ResponderEvent::Received(message)) => {
            if message@ is StartIndexing {
                Ok(ResponderState::Indexing)
            } else if discarded + 1 >= MAX_DISCARDED {
                Err(SyncError::Protocol(ProtocolError::Exhausted))
            } else {
                Ok(ResponderState::AwaitStartIndexing { discarded: (discarded + 1) as u32 })
            }
        },
        (ResponderState::Indexing, ResponderEvent::Indexed(_)) => Ok(ResponderState::AwaitSendList),
        (ResponderState::AwaitSendList, ResponderEvent::SendList(_)) => Ok(
            ResponderState::Streaming,
        ),
        (ResponderState::Streaming, ResponderEvent::Streamed) => Ok(ResponderState::Done),
        (ResponderState::Streaming, ResponderEvent::StreamFailed(error)) => Err(error),
        _ => Err(SyncError::Protocol(ProtocolError::UnexpectedMessage)),
    }
}

/// The list that the responder sends on an event that its phase waits for:
/// the list of entries once the index is built, and none else.
pub open spec fn responder_bulk(state: ResponderState, event: ResponderEvent) -> Seq<u8> {
    match (state, event) {
        (ResponderState::Indexing, ResponderEvent::Indexed(entries)) => entry_list_bytes(
            entry_views(entries@),
        ),
        _ => Seq::empty(),
    }
}

/// The bytes that the responder writes on an event that its phase waits for:
/// the barrier `Okay` at the end of each phase.
pub open spec fn responder_written(state: ResponderState, event: ResponderEvent) -> Seq<u8> {
    match (state, event) {
        (ResponderState::AwaitStartIndexing { .. }, ResponderEvent::Received(message)) => {
            if message@ is StartIndexing {
                MessageView::Okay.bytes()
            } else {
                Seq::empty()
            }
        },
        (ResponderState::Indexing, ResponderEvent::Indexed(_)) => MessageView::Okay.bytes(),
        (ResponderState::AwaitSendList, ResponderEvent::SendList(_)) => MessageView::Okay.bytes(),
        (ResponderState::Streaming, ResponderEvent::Streamed) => MessageView::Okay.bytes(),
        _ => Seq::empty(),
    }
}

/// Whether `task` is what the responder is to do on an event that its phase
/// waits for.
pub open spec fn responder_task(state: ResponderState, event: ResponderEvent, task: ResponderTask)
    -> bool {
    match (state, event) {
        (ResponderState::AwaitMagic, ResponderEvent::Magic(_)) => task is ReadMessage,
        (ResponderState::AwaitStartIndexing { .. }, ResponderEvent::Received(message)) => {
            match message {
                Message::StartIndexing(config) => task matches ResponderTask::Index(given)
                    && given@ == config@,
                Message::Okay => task is ReadMessage,
            }
        },
        (ResponderState::Indexing, ResponderEvent::Indexed(_)) => task is ReadSendList,
        (ResponderState::AwaitSendList, ResponderEvent::SendList(list)) => {
            &&& task matches ResponderTask::Stream(paths)
            &&& paths@.len() == list@.len()
            &&& forall|k: int| 0 <= k < list@.len() ==> (#[trigger] paths@[k])@ == list@[k].path@
        },
        (ResponderState::Streaming, ResponderEvent::Streamed) => task is Close,
        _ => false,
    }
}

/// The paths of the entries of a list, in their order.
fn paths_of(list: Vec<Entry>) -> (paths: Vec<UnixPath>)
    ensures
        paths@.len() == list@.len(),
        forall|k: int| 0 <= k < list@.len() ==> (#[trigger] paths@[k])@ == list@[k].path@,
{
    let mut paths: Vec<UnixPath> = Vec::new();
    let mut i: usize = 0;
    while i < list.len()
        invariant
            i <= list.len(),
            paths@.len() == i,
            forall|k: int| 0 <= k < i ==> (#[trigger] paths@[k])@ == list@[k].path@,
        decreases list.len() - i,
    {
        paths.push(list[i].path.clone());
        i += 1;
    }
    paths
}

/// Runs one step of the responder's session.
///
/// The session opens in `AwaitMagic`, where the caller reads eleven bytes
/// and reports them. A wrong token ends the session at once. While waiting
/// for `StartIndexing` the responder drops other messages, and gives up at
/// the `MAX_DISCARDED`-th of them. Every phase ends with the barrier `Okay`.
pub fn handle_connection(state: ResponderState, event: ResponderEvent) -> (r: Result<
    ResponderStep,
    SyncError,
>)
    ensures
        match r {
            Ok(step) => {
                &&& responder_next(state, event) == Ok::<ResponderState, SyncError>(step.state)
                &&& step.bulk@ == responder_bulk(state, event)
                &&& step.write@ == responder_written(state, event)
                &&& responder_task(state, event, step.task)
            },
            Err(e) => responder_next(state, event) == Err::<ResponderState, SyncError>(e),
        },
{
    match (state, event) {
        (ResponderState::AwaitMagic, ResponderEvent::Magic(bytes)) => {
            if is_magic(bytes.as_slice()) {
                Ok(
                    ResponderStep {
                        state: ResponderState::AwaitStartIndexing { discarded: 0 },
                        bulk: Vec::new(),
                        write: Vec::new(),
                        task: ResponderTask::ReadMessage,
                    },
                )
            } else {
                Err(SyncError::Protocol(ProtocolError::BadMagic))
            }
        },
        (ResponderState::AwaitStartIndexing { discarded }, ResponderEvent::Received(message)) => {
            match message {
                Message::StartIndexing(config) => Ok(
                    ResponderStep {
                        state: ResponderState::Indexing,
                        bulk: Vec::new(),
                        write: Message::Okay.encode(),
                        task: ResponderTask::Index(config),
                    },
                ),
                Message::Okay => {
                    if discarded >= MAX_DISCARDED - 1 {
                        Err(SyncError::Protocol(ProtocolError::Exhausted))
                    } else {
                        Ok(
                            ResponderStep {
                                state: ResponderState::AwaitStartIndexing {
                                    discarded: discarded + 1,
                                },
                                bulk: Vec::new(),
                        write: Vec::new(),
                                task: ResponderTask::ReadMessage,
                            },
                        )
                    }
                },
            }
        },
        (ResponderState::Indexing, ResponderEvent::Indexed(entries)) => {
            Ok(
                ResponderStep {
                    state: ResponderState::AwaitSendList,
                    bulk: encode_entry_list(&entries),
                    write: Message::Okay.encode(),
                    task: ResponderTask::ReadSendList,
                },
            )
        },
        (ResponderState::AwaitSendList, ResponderEvent::SendList(list)) => {
            Ok(
                ResponderStep {
                    state: ResponderState::Streaming,
                    bulk: Vec::new(),
                    write: Message::Okay.encode(),
                    task: ResponderTask::Stream(paths_of(list)),
                },
            )
        },
        (ResponderState::Streaming, ResponderEvent::Streamed) => {
            Ok(
                ResponderStep {
                    state: ResponderState::Done,
                    bulk: Vec::new(),
                    write: Message::Okay.encode(),
                    task: ResponderTask::Close,
                },
            )
        },
        (ResponderState::Streaming, ResponderEvent::StreamFailed(error)) => Err(error),
        _ => Err(SyncError::Protocol(ProtocolError::UnexpectedMessage)),
    }
}

/// How the streaming phase closes: the bytes that end the transfer stream,
/// and what to report to `handle_connection`.
#[derive(Debug)]
pub struct StreamClosing {
    pub write: Vec<u8>,
    pub event: ResponderEvent,
}

/// Closes the transfer stream once the sending is over. The end mark goes
/// out however the sending ended, behind what was written and not yet
/// taken, so that the receiver can stop; a sending that failed is reported
/// as failed, with its error.
pub fn close_stream(stream: SendStream, sent: Result<(), SyncError>) -> (closing: StreamClosing)
    ensures
        closing.write@ == stream.written() + end_mark_bytes(),
        closing.event == match sent {
            Ok(()) => ResponderEvent::Streamed,
            Err(error) => ResponderEvent::StreamFailed(error),
        },
{
    let write = stream.finish();
    let event = match sent {
        Ok(()) => ResponderEvent::Streamed,
        Err(error) => ResponderEvent::StreamFailed(error),
    };
    StreamClosing { write, event }
}

/// Phases never pipeline: a step that succeeds enters the next phase, or, on
/// a message dropped while waiting for `StartIndexing`, stays in its phase.
pub proof fn lemma_responder_advances(state: ResponderState, event: ResponderEvent)
    ensures
        responder_next(state, event) matches Ok(next) ==> next.rank() == state.rank() + 1 || (
        state is AwaitStartIndexing && next is AwaitStartIndexing && next->discarded
            == state->discarded + 1),
{
}

/// A finished session takes no further event.
pub proof fn lemma_responder_done_is_final(event: ResponderEvent)
    ensures
        responder_next(ResponderState::Done, event) is Err,
{
}

/// The responder leaves no phase after the handshake without the barrier:
/// what it writes on entering a later phase is `Okay`.
pub proof fn lemma_responder_barrier(state: ResponderState, event: ResponderEvent)
    ensures
        responder_next(state, event) matches Ok(next) ==> next.rank() >= 2 ==> responder_written(
            state,
            event,
        ) == MessageView::Okay.bytes(),
{
}

} // verus!
