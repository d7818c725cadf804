use adb_sync::diff::Candidate;
use adb_sync::diff::DestState;
use adb_sync::entry::decode_entry_list;
use adb_sync::entry::Timestamp;
use adb_sync::index::WalkItem;
use adb_sync::index_dir;
use adb_sync::reader::ByteSource;
use adb_sync::receive::receive;
use adb_sync::send_stream::write_send_list_to_stream;
use adb_sync::send_stream::FileType;
use adb_sync::send_stream::Record;
use adb_sync::send_stream::SendItem;
use adb_sync::send_stream::SendStream;
use adb_sync::send_stream::SourceObject;
use adb_sync::stream::android::handle_connection;
use adb_sync::stream::android::ResponderEvent;
use adb_sync::stream::android::ResponderState;
use adb_sync::stream::android::ResponderTask;
use adb_sync::stream::host::start;
use adb_sync::stream::host::InitiatorEvent;
use adb_sync::stream::host::InitiatorState;
use adb_sync::stream::host::InitiatorTask;
use adb_sync::stream::protocol::Message;
use adb_sync::stream::protocol::SendConfig;
use adb_sync::unix_path::UnixPath;
use adb_sync::Entry;

/// A file of the source tree: path, content, modification time.
struct SourceFile {
    path: &'static [u8],
    content: &'static [u8],
    mtime: Timestamp,
}

/// What the destination holds: path, size, modification time.
struct Written {
    path: Vec<u8>,
    size: u64,
    mtime: Timestamp,
}

fn source_tree() -> Vec<SourceFile> {
    vec![
        SourceFile { path: b"a.txt", content: b"0123456789", mtime: Timestamp { secs: 1_700_000_000, nanos: 5 } },
        SourceFile { path: b"sub/b.bin", content: &[0, 255, 7], mtime: Timestamp { secs: 1_600_000_000, nanos: 0 } },
        SourceFile { path: b"empty", content: b"", mtime: Timestamp { secs: 1, nanos: 999_999_999 } },
    ]
}

fn read_message(bytes: &[u8]) -> Message {
    let (message, used) = Message::decode(bytes).unwrap();
    assert_eq!(used, bytes.len());
    message
}

fn read_list(bytes: &[u8]) -> Vec<Entry> {
    let (list, used) = decode_entry_list(bytes).unwrap();
    assert_eq!(used, bytes.len());
    list
}

/// Runs one whole session between the two roles, all in memory, and returns
/// the records that the initiator received.
fn run_session(tree: &[SourceFile], destination: &[Written], ignore_mtime: bool) -> Vec<Record> {
    let config = SendConfig { path: "/sdcard/data".to_string(), skip_failed: false };

    // the initiator opens the session
    let opening = start(InitiatorState::Start, InitiatorEvent::Begin(config), ignore_mtime).unwrap();
    assert_eq!(opening.task, InitiatorTask::ReadMessage);

    // the responder reads the token and the request
    let step = handle_connection(ResponderState::AwaitMagic, ResponderEvent::Magic(opening.write[..11].to_vec())).unwrap();
    assert!(matches!(step.task, ResponderTask::ReadMessage));
    let request = read_message(&opening.write[11..]);
    let step = handle_connection(step.state, ResponderEvent::Received(request)).unwrap();
    let skip_failed = match &step.task {
        ResponderTask::Index(given) => {
            assert_eq!(given.path, "/sdcard/data");
            given.skip_failed
        }
        _ => panic!("the responder does not index"),
    };

    // the initiator takes the barrier and waits for the index
    let ack = start(opening.state, InitiatorEvent::Received(read_message(&step.write)), ignore_mtime).unwrap();
    assert_eq!(ack.task, InitiatorTask::ReadEntryList);

    // the responder indexes
    let mut walked = vec![WalkItem::Directory];
    for file in tree {
        walked.push(WalkItem::File {
            path: UnixPath::from_bytes(file.path),
            size: file.content.len() as u64,
            modified: file.mtime,
        });
    }
    let entries = index_dir(&walked, skip_failed).unwrap();
    let indexed = handle_connection(step.state, ResponderEvent::Indexed(entries)).unwrap();
    assert!(matches!(indexed.task, ResponderTask::ReadSendList));

    // the initiator reads the index and the barrier, then looks at the destination
    let listed = start(ack.state, InitiatorEvent::EntryList(read_list(&indexed.bulk)), ignore_mtime).unwrap();
    let barrier = start(listed.state, InitiatorEvent::Received(read_message(&indexed.write)), ignore_mtime).unwrap();
    assert_eq!(barrier.task, InitiatorTask::ProbeDestinations);
    let candidates = read_list(&indexed.bulk)
        .into_iter()
        .map(|entry| {
            let dest = match destination.iter().find(|w| w.path == entry.path.0) {
                Some(w) => DestState::Present { size: w.size, modified: Some(w.mtime) },
                None => DestState::Missing,
            };
            Candidate { entry, dest }
        })
        .collect();
    let selected = start(barrier.state, InitiatorEvent::Probed(candidates), ignore_mtime).unwrap();
    assert_eq!(selected.task, InitiatorTask::ReadMessage);

    // the responder reads the selection and streams the files
    let streaming = handle_connection(indexed.state, ResponderEvent::SendList(read_list(&selected.bulk))).unwrap();
    let paths = match streaming.task {
        ResponderTask::Stream(paths) => paths,
        _ => panic!("the responder does not stream"),
    };
    let mut stream = SendStream::new(Vec::new());
    let items = paths
        .into_iter()
        .map(|path| {
            let file = tree.iter().find(|f| f.path == path.0.as_slice()).unwrap();
            let source = SourceObject::RegularFile {
                size: file.content.len() as u64,
                mtime: file.mtime,
                content: file.content.to_vec(),
            };
            SendItem { path, source }
        })
        .collect();
    write_send_list_to_stream(&mut stream, &items, |_, _, _| {}).unwrap();
    let transfer = stream.finish();
    let done = handle_connection(streaming.state, ResponderEvent::Streamed).unwrap();
    assert_eq!(done.state, ResponderState::Done);

    // the initiator takes the barrier, receives the stream and the last barrier
    let receiving = start(selected.state, InitiatorEvent::Received(read_message(&streaming.write)), ignore_mtime).unwrap();
    assert_eq!(receiving.task, InitiatorTask::ReceiveStream);
    let mut reader = ByteSource::new(&transfer);
    let records = receive(&mut reader).unwrap();
    assert_eq!(reader.available(), 0);
    let received = start(receiving.state, InitiatorEvent::StreamReceived, ignore_mtime).unwrap();
    let closed = start(received.state, InitiatorEvent::Received(read_message(&done.write)), ignore_mtime).unwrap();
    assert_eq!(closed.state, InitiatorState::Done);
    assert_eq!(closed.task, InitiatorTask::Close);
    records
}

fn write_out(destination: &mut Vec<Written>, records: &[Record]) {
    for record in records {
        assert_eq!(record.header.file_type, FileType::RegularFile);
        destination.retain(|w| w.path != record.header.path.0);
        destination.push(Written {
            path: record.header.path.0.clone(),
            size: record.content.len() as u64,
            mtime: record.header.mtime,
        });
    }
}

#[test]
fn first_run_transfers_everything() {
    let tree = source_tree();
    let records = run_session(&tree, &[], false);
    assert_eq!(records.len(), 3);
    for (record, file) in records.iter().zip(tree.iter()) {
        assert_eq!(record.header.path.0, file.path.to_vec());
        assert_eq!(record.content, file.content.to_vec());
        assert_eq!(record.header.mtime, file.mtime);
        assert_eq!(record.header.file_size, file.content.len() as u64);
    }
}

#[test]
fn second_run_transfers_nothing() {
    let tree = source_tree();
    let mut destination = Vec::new();
    let first = run_session(&tree, &destination, false);
    write_out(&mut destination, &first);
    assert!(run_session(&tree, &destination, false).is_empty());
    assert!(run_session(&tree, &destination, true).is_empty());
}

#[test]
fn only_what_changed_is_transferred_again() {
    let mut tree = source_tree();
    let mut destination = Vec::new();
    let first = run_session(&tree, &destination, false);
    write_out(&mut destination, &first);

    // one file grows, another is touched
    tree[0].content = b"0123456789abc";
    tree[1].mtime = Timestamp { secs: 1_600_000_001, nanos: 0 };
    let second = run_session(&tree, &destination, false);
    let paths: Vec<Vec<u8>> = second.iter().map(|r| r.header.path.0.clone()).collect();
    assert_eq!(paths, vec![b"a.txt".to_vec(), b"sub/b.bin".to_vec()]);

    // with modification times ignored the touched file stays
    let lax = run_session(&tree, &destination, true);
    let paths: Vec<Vec<u8>> = lax.iter().map(|r| r.header.path.0.clone()).collect();
    assert_eq!(paths, vec![b"a.txt".to_vec()]);
}
