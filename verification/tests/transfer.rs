use adb_sync::crc::create_crc;
use adb_sync::entry::Timestamp;
use adb_sync::error::ProtocolError;
use adb_sync::error::SyncError;
use adb_sync::reader::ByteSource;
use adb_sync::reader::ReadSome;
use adb_sync::reader::TryReadExact;
use adb_sync::receive::frame_start;
use adb_sync::receive::read_frame;
use adb_sync::receive::receive;
use adb_sync::receive::rollback_action;
use adb_sync::receive::verify_record;
use adb_sync::receive::write_steps;
use adb_sync::receive::WriteStep;
use adb_sync::receive::Fed;
use adb_sync::receive::Frame;
use adb_sync::receive::FrameDecoder;
use adb_sync::receive::FrameStart;
use adb_sync::receive::Rollback;
use adb_sync::send_stream::write_send_list_to_stream;
use adb_sync::send_stream::FileType;
use adb_sync::send_stream::Header;
use adb_sync::send_stream::SendItem;
use adb_sync::send_stream::SendStream;
use adb_sync::send_stream::SourceObject;
use adb_sync::send_stream::END_MARK;
use adb_sync::unix_path::UnixPath;
use std::cell::RefCell;

const T1: Timestamp = Timestamp { secs: 1_700_000_000, nanos: 250 };
const T2: Timestamp = Timestamp { secs: 1_600_000_000, nanos: 0 };

fn reference_checksum(parts: &[&[u8]]) -> u32 {
    let algorithm = crc::Crc::<u32>::new(&crc::CRC_32_CKSUM);
    let mut digest = algorithm.digest();
    for part in parts {
        digest.update(part);
    }
    digest.finalize()
}

fn file(path: &[u8], content: &[u8], mtime: Timestamp) -> SendItem {
    SendItem {
        path: UnixPath::from_bytes(path),
        source: SourceObject::RegularFile { size: content.len() as u64, mtime, content: content.to_vec() },
    }
}

fn directory(path: &[u8], mtime: Timestamp) -> SendItem {
    SendItem { path: UnixPath::from_bytes(path), source: SourceObject::Directory { mtime } }
}

fn stream_of(items: &Vec<SendItem>) -> Vec<u8> {
    let mut stream = SendStream::new(Vec::new());
    write_send_list_to_stream(&mut stream, items, |_, _, _| {}).unwrap();
    stream.finish()
}

fn file_and_directory() -> Vec<SendItem> {
    vec![file(b"a.txt", b"0123456789", T1), directory(b"sub", T2)]
}

#[test]
fn checksum_is_crc32_cksum() {
    let crc = create_crc();
    assert_eq!(crc.checksum(b"123456789", b""), 0x765E_7680);
    assert_eq!(crc.checksum(b"1234", b"56789"), 0x765E_7680);
    assert_eq!(crc.checksum(b"", b"123456789"), 0x765E_7680);
    assert_eq!(crc.checksum(b"", b""), 0xFFFF_FFFF);
    assert_ne!(crc.checksum(b"123456789", b"0"), 0x765E_7680);
}

#[test]
fn verify_record_compares_with_the_stored_checksum() {
    let crc = create_crc();
    assert_eq!(verify_record(&crc, b"1234", b"56789", 0x765E_7680), Ok(()));
    assert_eq!(verify_record(&crc, b"1234", b"56780", 0x765E_7680), Err(SyncError::Checksum));
    assert_eq!(verify_record(&crc, b"1234", b"56789", 0x765E_7681), Err(SyncError::Checksum));
}

#[test]
fn file_and_directory_stream_layout() {
    let bytes = stream_of(&file_and_directory());

    let header_a = Header {
        path: UnixPath::from_bytes(b"a.txt"),
        file_type: FileType::RegularFile,
        mtime: T1,
        file_size: 10,
    }
    .encode();
    let header_sub = Header {
        path: UnixPath::from_bytes(b"sub"),
        file_type: FileType::Directory,
        mtime: T2,
        file_size: 0,
    }
    .encode();

    let mut expected = Vec::new();
    expected.extend_from_slice(&(header_a.len() as u32).to_le_bytes());
    expected.extend_from_slice(&header_a);
    expected.extend_from_slice(b"0123456789");
    expected.extend_from_slice(&reference_checksum(&[&header_a, b"0123456789"]).to_le_bytes());
    expected.extend_from_slice(&(header_sub.len() as u32).to_le_bytes());
    expected.extend_from_slice(&header_sub);
    expected.extend_from_slice(&reference_checksum(&[&header_sub]).to_le_bytes());
    expected.extend_from_slice(&[0xFF, 0xFF, 0xFF, 0xFF]);
    assert_eq!(bytes, expected);
}

#[test]
fn file_and_directory_decode_to_both_objects() {
    let bytes = stream_of(&file_and_directory());
    let mut reader = ByteSource::new(&bytes);
    let records = receive(&mut reader).unwrap();
    assert_eq!(reader.available(), 0);
    assert_eq!(records.len(), 2);
    assert_eq!(records[0].header.path.0, b"a.txt".to_vec());
    assert_eq!(records[0].header.file_type, FileType::RegularFile);
    assert_eq!(records[0].header.file_size, 10);
    assert_eq!(records[0].header.mtime, T1);
    assert_eq!(records[0].content, b"0123456789".to_vec());
    assert_eq!(records[1].header.path.0, b"sub".to_vec());
    assert_eq!(records[1].header.file_type, FileType::Directory);
    assert_eq!(records[1].header.mtime, T2);
    assert!(records[1].content.is_empty());
}

#[test]
fn empty_stream_decodes_to_no_record() {
    let bytes = SendStream::new(Vec::new()).finish();
    assert_eq!(bytes, vec![0xFF, 0xFF, 0xFF, 0xFF]);
    let mut reader = ByteSource::new(&bytes);
    let records = receive(&mut reader).unwrap();
    assert!(records.is_empty());
}

#[test]
fn receive_stops_behind_the_end_mark() {
    let mut bytes = stream_of(&file_and_directory());
    bytes.extend_from_slice(&[1, 2, 3]);
    let mut reader = ByteSource::new(&bytes);
    let records = receive(&mut reader).unwrap();
    assert_eq!(records.len(), 2);
    assert_eq!(reader.available(), 3);
    assert_eq!(reader.try_read_exact(8), Ok(vec![1u8, 2, 3]));
}

#[test]
fn every_altered_byte_of_a_record_is_caught() {
    let items = vec![file(b"a.txt", b"0123456789", T1)];
    let bytes = stream_of(&items);
    let record_len = bytes.len() - 4;
    for at in 0..record_len {
        for flip in [0x01u8, 0x80] {
            let mut broken = bytes.clone();
            broken[at] ^= flip;
            let mut reader = ByteSource::new(&broken);
            let failure = receive(&mut reader).unwrap_err();
            assert!(failure.records.is_empty(), "altered byte {} gave a record", at);
        }
    }
}

#[test]
fn altered_content_is_a_checksum_error() {
    let items = vec![file(b"a.txt", b"0123456789", T1), directory(b"sub", T2)];
    let bytes = stream_of(&items);
    let header_len = u32::from_le_bytes([bytes[0], bytes[1], bytes[2], bytes[3]]) as usize;
    for at in (4 + header_len)..(4 + header_len + 10) {
        let mut broken = bytes.clone();
        broken[at] ^= 0x20;
        let mut reader = ByteSource::new(&broken);
        let failure = receive(&mut reader).unwrap_err();
        assert_eq!(failure.error, SyncError::Checksum);
        assert!(failure.records.is_empty());
        let pending = failure.pending.unwrap();
        assert_eq!(pending.path.0, b"a.txt".to_vec());
        assert_eq!(pending.file_type, FileType::RegularFile);
    }
}

#[test]
fn altered_stored_checksum_is_a_checksum_error() {
    let bytes = stream_of(&vec![directory(b"sub", T2)]);
    let mut broken = bytes.clone();
    let at = bytes.len() - 5;
    broken[at] ^= 1;
    let failure = receive(&mut ByteSource::new(&broken)).unwrap_err();
    assert_eq!(failure.error, SyncError::Checksum);
    assert_eq!(failure.pending.unwrap().file_type, FileType::Directory);
}

#[test]
fn altered_header_is_never_accepted() {
    let bytes = stream_of(&vec![file(b"a.txt", b"0123456789", T1)]);
    // the path's first letter: the header still decodes, the checksum does not hold
    let mut renamed = bytes.clone();
    renamed[5] = b'b';
    let failure = receive(&mut ByteSource::new(&renamed)).unwrap_err();
    assert_eq!(failure.error, SyncError::Checksum);
    assert_eq!(failure.pending.unwrap().path.0, b"b.txt".to_vec());
    // the kind of object: no header any more
    let mut unknown = bytes.clone();
    unknown[4 + 6] = 7;
    let failure = receive(&mut ByteSource::new(&unknown)).unwrap_err();
    assert_eq!(failure.error, SyncError::Protocol(ProtocolError::Malformed));
    assert!(failure.pending.is_none());
}

#[test]
fn a_broken_second_record_keeps_the_first() {
    let bytes = stream_of(&file_and_directory());
    let mut broken = bytes.clone();
    let at = bytes.len() - 5;
    broken[at] ^= 0xFF;
    let failure = receive(&mut ByteSource::new(&broken)).unwrap_err();
    assert_eq!(failure.error, SyncError::Checksum);
    assert_eq!(failure.records.len(), 1);
    assert_eq!(failure.records[0].header.path.0, b"a.txt".to_vec());
    assert_eq!(failure.pending.unwrap().path.0, b"sub".to_vec());
}

#[test]
fn end_of_stream_before_the_end_mark() {
    let bytes = stream_of(&file_and_directory());
    let without_mark = &bytes[..bytes.len() - 4];
    let failure = receive(&mut ByteSource::new(without_mark)).unwrap_err();
    assert_eq!(failure.error, SyncError::Protocol(ProtocolError::UnexpectedEof));
    assert_eq!(failure.records.len(), 2);
    assert!(failure.pending.is_none());

    let failure = receive(&mut ByteSource::new(&[])).unwrap_err();
    assert_eq!(failure.error, SyncError::Protocol(ProtocolError::UnexpectedEof));
}

#[test]
fn stream_cut_inside_a_frame() {
    let bytes = stream_of(&vec![file(b"a.txt", b"0123456789", T1)]);
    let header_len = u32::from_le_bytes([bytes[0], bytes[1], bytes[2], bytes[3]]) as usize;
    for cut in 1..(bytes.len() - 4) {
        let failure = receive(&mut ByteSource::new(&bytes[..cut])).unwrap_err();
        assert_eq!(failure.error, SyncError::Protocol(ProtocolError::Truncated), "cut at {}", cut);
        assert_eq!(failure.pending.is_some(), cut >= 4 + header_len, "cut at {}", cut);
    }
    // cut inside the end mark
    for cut in (bytes.len() - 3)..bytes.len() {
        let failure = receive(&mut ByteSource::new(&bytes[..cut])).unwrap_err();
        assert_eq!(failure.error, SyncError::Protocol(ProtocolError::Truncated));
        assert_eq!(failure.records.len(), 1);
    }
}

#[test]
fn header_length_must_match_the_header() {
    let header = Header {
        path: UnixPath::from_bytes(b"d"),
        file_type: FileType::Directory,
        mtime: T2,
        file_size: 0,
    }
    .encode();
    // one byte more than the header takes is announced and sent
    let mut padded = header.clone();
    padded.push(0);
    let mut bytes = Vec::new();
    bytes.extend_from_slice(&(padded.len() as u32).to_le_bytes());
    bytes.extend_from_slice(&padded);
    bytes.extend_from_slice(&reference_checksum(&[&padded]).to_le_bytes());
    bytes.extend_from_slice(&[0xFF; 4]);
    let failure = receive(&mut ByteSource::new(&bytes)).unwrap_err();
    assert_eq!(failure.error, SyncError::Protocol(ProtocolError::Malformed));
}

#[test]
fn frame_start_reads_the_length() {
    assert_eq!(frame_start(&[]), Err(SyncError::Protocol(ProtocolError::UnexpectedEof)));
    assert_eq!(frame_start(&[1]), Err(SyncError::Protocol(ProtocolError::Truncated)));
    assert_eq!(frame_start(&[1, 2, 3]), Err(SyncError::Protocol(ProtocolError::Truncated)));
    assert_eq!(frame_start(&[0xFF, 0xFF, 0xFF, 0xFF]), Ok(FrameStart::End));
    assert_eq!(frame_start(&[0x10, 0, 0, 0]), Ok(FrameStart::Header { len: 16 }));
    assert_eq!(frame_start(&[0xFE, 0xFF, 0xFF, 0xFF]), Ok(FrameStart::Header { len: 0xFFFF_FFFE }));
    assert_eq!(END_MARK, 0xFFFF_FFFF);
}

#[test]
fn frames_are_read_one_by_one() {
    let bytes = stream_of(&file_and_directory());
    let mut reader = ByteSource::new(&bytes);
    match read_frame(&mut reader).unwrap() {
        Frame::Record(record) => assert_eq!(record.header.path.0, b"a.txt".to_vec()),
        Frame::End => panic!("end too early"),
    }
    match read_frame(&mut reader).unwrap() {
        Frame::Record(record) => assert_eq!(record.header.path.0, b"sub".to_vec()),
        Frame::End => panic!("end too early"),
    }
    assert!(matches!(read_frame(&mut reader).unwrap(), Frame::End));
    let failure = read_frame(&mut reader).unwrap_err();
    assert_eq!(failure.error, SyncError::Protocol(ProtocolError::UnexpectedEof));
}

#[test]
fn other_objects_and_empty_paths_are_passed_over() {
    let items = vec![
        SendItem { path: UnixPath::from_bytes(b"fifo"), source: SourceObject::Other },
        file(b"", b"never sent", T1),
        directory(b"", T1),
        file(b"kept", b"x", T1),
    ];
    let bytes = stream_of(&items);
    let records = receive(&mut ByteSource::new(&bytes)).unwrap();
    assert_eq!(records.len(), 1);
    assert_eq!(records[0].header.path.0, b"kept".to_vec());
    assert_eq!(records[0].content, b"x".to_vec());
}

#[test]
fn append_file_adds_one_frame() {
    let mut stream = SendStream::new(vec![9u8]);
    let item = file(b"f", b"abc", T2);
    assert_eq!(stream.append_file(&item.path, &item.source), Ok(()));
    let first = stream.take_written();
    assert_eq!(first[0], 9);
    let header_len = u32::from_le_bytes([first[1], first[2], first[3], first[4]]) as usize;
    assert_eq!(first.len(), 1 + 4 + header_len + 3 + 4);
    assert_eq!(stream.append_file(&item.path, &SourceObject::Other), Ok(()));
    assert!(stream.take_written().is_empty());
    assert_eq!(stream.finish(), vec![0xFF; 4]);
}

#[test]
fn a_directory_carries_no_content_and_size_zero() {
    let bytes = stream_of(&vec![directory(b"d", T1)]);
    let records = receive(&mut ByteSource::new(&bytes)).unwrap();
    assert_eq!(records[0].header.file_size, 0);
    assert!(records[0].content.is_empty());
}

#[test]
fn an_empty_file_is_a_record_without_content() {
    let bytes = stream_of(&vec![file(b"empty", b"", T1)]);
    let records = receive(&mut ByteSource::new(&bytes)).unwrap();
    assert_eq!(records.len(), 1);
    assert_eq!(records[0].header.file_type, FileType::RegularFile);
    assert_eq!(records[0].header.file_size, 0);
    assert!(records[0].content.is_empty());
}

#[test]
fn rollback_rules() {
    assert_eq!(rollback_action(FileType::RegularFile, true, false), Rollback::RemoveFile);
    assert_eq!(rollback_action(FileType::RegularFile, true, true), Rollback::RemoveFile);
    assert_eq!(rollback_action(FileType::RegularFile, false, false), Rollback::Keep);
    assert_eq!(rollback_action(FileType::Directory, true, true), Rollback::RemoveDir);
    assert_eq!(rollback_action(FileType::Directory, true, false), Rollback::Keep);
    assert_eq!(rollback_action(FileType::Directory, false, true), Rollback::Keep);
}

#[test]
fn byte_source_reads_exactly_or_to_the_end() {
    let data = [1u8, 2, 3, 4, 5];
    let mut reader = ByteSource::new(&data);
    assert_eq!(reader.available(), 5);
    assert_eq!(reader.try_read_exact(2), Ok(vec![1u8, 2]));
    assert_eq!(reader.try_read_exact(0), Ok(vec![]));
    assert_eq!(reader.try_read_exact(4), Ok(vec![3u8, 4, 5]));
    assert_eq!(reader.try_read_exact(4), Ok(vec![]));
    assert_eq!(reader.available(), 0);
}

#[test]
fn decoder_asks_for_each_part_of_a_frame() {
    let bytes = stream_of(&vec![file(b"a.txt", b"0123456789", T1)]);
    let header_len = u32::from_le_bytes([bytes[0], bytes[1], bytes[2], bytes[3]]) as usize;
    let mut decoder = FrameDecoder::new();
    assert_eq!(decoder.wanted(), 4);
    assert!(decoder.pending().is_none());
    assert!(matches!(decoder.feed(bytes[..4].to_vec()), Ok(Fed::More)));
    assert_eq!(decoder.wanted(), header_len);
    assert!(decoder.pending().is_none());
    assert!(matches!(decoder.feed(bytes[4..4 + header_len].to_vec()), Ok(Fed::More)));
    assert_eq!(decoder.wanted(), 10);
    assert_eq!(decoder.pending().unwrap().path.0, b"a.txt".to_vec());
    assert!(matches!(decoder.feed(bytes[4 + header_len..14 + header_len].to_vec()), Ok(Fed::More)));
    assert_eq!(decoder.wanted(), 4);
    match decoder.feed(bytes[14 + header_len..18 + header_len].to_vec()) {
        Ok(Fed::Complete(Frame::Record(record))) => {
            assert_eq!(record.header.path.0, b"a.txt".to_vec());
            assert_eq!(record.content, b"0123456789".to_vec());
        }
        _ => panic!("no record"),
    }
    assert_eq!(decoder.wanted(), 4);
    assert!(matches!(decoder.feed(bytes[18 + header_len..].to_vec()), Ok(Fed::Complete(Frame::End))));
    assert_eq!(decoder.wanted(), 4);
}

#[test]
fn decoder_fed_short_reports_where_the_stream_ended() {
    let bytes = stream_of(&vec![file(b"a.txt", b"0123456789", T1)]);
    let header_len = u32::from_le_bytes([bytes[0], bytes[1], bytes[2], bytes[3]]) as usize;

    let mut decoder = FrameDecoder::new();
    let failure = decoder.feed(Vec::new()).unwrap_err();
    assert_eq!(failure.error, SyncError::Protocol(ProtocolError::UnexpectedEof));

    let failure = decoder.feed(vec![1, 0]).unwrap_err();
    assert_eq!(failure.error, SyncError::Protocol(ProtocolError::Truncated));

    assert!(matches!(decoder.feed(bytes[..4].to_vec()), Ok(Fed::More)));
    let failure = decoder.feed(bytes[4..6].to_vec()).unwrap_err();
    assert_eq!(failure.error, SyncError::Protocol(ProtocolError::Truncated));
    assert!(failure.pending.is_none());
    // the decoder stands at the beginning of a frame again
    assert_eq!(decoder.wanted(), 4);

    assert!(matches!(decoder.feed(bytes[..4].to_vec()), Ok(Fed::More)));
    assert!(matches!(decoder.feed(bytes[4..4 + header_len].to_vec()), Ok(Fed::More)));
    let failure = decoder.feed(b"0123".to_vec()).unwrap_err();
    assert_eq!(failure.error, SyncError::Protocol(ProtocolError::Truncated));
    assert_eq!(failure.pending.unwrap().path.0, b"a.txt".to_vec());

    assert!(matches!(decoder.feed(bytes[..4].to_vec()), Ok(Fed::More)));
    assert!(matches!(decoder.feed(bytes[4..4 + header_len].to_vec()), Ok(Fed::More)));
    assert!(matches!(decoder.feed(b"0123456789".to_vec()), Ok(Fed::More)));
    let failure = decoder.feed(vec![0, 0, 0, 0]).unwrap_err();
    assert_eq!(failure.error, SyncError::Checksum);
    assert_eq!(failure.pending.unwrap().path.0, b"a.txt".to_vec());
}

#[test]
fn records_are_written_out_in_steps() {
    assert_eq!(
        write_steps(FileType::RegularFile),
        vec![WriteStep::MakeParents, WriteStep::WriteContent, WriteStep::SetMtime]
    );
    assert_eq!(write_steps(FileType::Directory), vec![WriteStep::MakeDirectory, WriteStep::SetMtime]);
}

#[test]
fn decoder_refuses_more_bytes_than_it_asked_for() {
    let mut decoder = FrameDecoder::new();
    let failure = decoder.feed(vec![1, 0, 0, 0, 0]).unwrap_err();
    assert_eq!(failure.error, SyncError::Protocol(ProtocolError::Oversized));
    assert!(failure.pending.is_none());
    assert_eq!(decoder.wanted(), 4);
}

#[test]
fn errors_tell_checksum_failures_apart() {
    assert!(SyncError::Checksum.is_checksum());
    assert!(!SyncError::Io.is_checksum());
    assert!(!SyncError::Protocol(ProtocolError::Malformed).is_checksum());
    assert_eq!(
        SyncError::from_wire(adb_sync::bytes::WireError::Truncated),
        SyncError::Protocol(ProtocolError::Truncated)
    );
    assert_eq!(
        SyncError::from_wire(adb_sync::bytes::WireError::Malformed),
        SyncError::Protocol(ProtocolError::Malformed)
    );
}

#[test]
fn every_item_that_is_sent_is_announced_first() {
    let items = vec![
        file(b"a", b"x", T1),
        file(b"", b"passed over", T1),
        SendItem { path: UnixPath::from_bytes(b"fifo"), source: SourceObject::Other },
        directory(b"d", T2),
    ];
    let announced: RefCell<Vec<(Vec<u8>, usize, usize)>> = RefCell::new(Vec::new());
    let mut stream = SendStream::new(Vec::new());
    write_send_list_to_stream(&mut stream, &items, |path, index, total| {
        announced.borrow_mut().push((path.0.clone(), index, total));
    })
    .unwrap();
    assert_eq!(
        announced.into_inner(),
        vec![(b"a".to_vec(), 0, 4), (b"fifo".to_vec(), 2, 4), (b"d".to_vec(), 3, 4)]
    );
    let records = receive(&mut ByteSource::new(&stream.finish())).unwrap();
    assert_eq!(records.len(), 2);
}

#[test]
fn a_stream_read_in_pieces_gives_the_same_records() {
    let bytes = stream_of(&file_and_directory());
    for piece in [0usize, 1, 2, 3, 5, 7, 64] {
        let mut reader = ByteSource::in_pieces(&bytes, piece);
        let records = receive(&mut reader).unwrap();
        assert_eq!(reader.available(), 0);
        assert_eq!(records.len(), 2);
        assert_eq!(records[0].content, b"0123456789".to_vec());
        assert_eq!(records[1].header.path.0, b"sub".to_vec());
    }
}

#[test]
fn a_reading_gives_one_piece_and_an_exact_reading_gives_all() {
    let data = [1u8, 2, 3, 4, 5, 6, 7];
    let mut reader = ByteSource::in_pieces(&data, 3);
    assert_eq!(reader.read_some(5), Ok(vec![1u8, 2, 3]));
    assert_eq!(reader.read_some(2), Ok(vec![4u8, 5]));
    assert_eq!(reader.read_some(0), Ok(vec![]));
    assert_eq!(reader.read_some(9), Ok(vec![6u8, 7]));
    assert_eq!(reader.read_some(9), Ok(vec![]));

    let mut reader = ByteSource::in_pieces(&data, 2);
    assert_eq!(reader.try_read_exact(5), Ok(vec![1u8, 2, 3, 4, 5]));
    assert_eq!(reader.try_read_exact(5), Ok(vec![6u8, 7]));
    assert_eq!(reader.try_read_exact(5), Ok(vec![]));

    let mut reader = ByteSource::in_pieces(&data, 0);
    assert_eq!(reader.read_some(4), Ok(vec![1u8]));
    assert_eq!(reader.try_read_exact(4), Ok(vec![2u8, 3, 4, 5]));
}

#[test]
fn a_content_no_longer_than_memory_is_never_oversized() {
    // the largest size a header can announce is refused only as cut short
    let header = Header {
        path: UnixPath::from_bytes(b"big"),
        file_type: FileType::RegularFile,
        mtime: T1,
        file_size: usize::MAX as u64,
    }
    .encode();
    let mut bytes = Vec::new();
    bytes.extend_from_slice(&(header.len() as u32).to_le_bytes());
    bytes.extend_from_slice(&header);
    bytes.extend_from_slice(b"short");
    let failure = receive(&mut ByteSource::new(&bytes)).unwrap_err();
    assert_eq!(failure.error, SyncError::Protocol(ProtocolError::Truncated));
    assert_eq!(failure.pending.unwrap().path.0, b"big".to_vec());
}
