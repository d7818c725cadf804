//! The transfer stream: framed records, each sealed by a checksum, closed by
//! an end mark.
//!
//! A record is `[u32 length][header][content][u32 checksum]`, both integers
//! little-endian. The content is there for regular files only. The checksum
//! covers the header bytes and then the content. A length of `0xFFFF_FFFF`
//! with nothing after it is the end mark.

use crate::bytes::byte_string;
use crate::bytes::decode_u32;
use crate::bytes::decode_u64;
use crate::bytes::encode_u32;
use crate::bytes::encode_u64;
use crate::bytes::le_bytes;
use crate::bytes::lemma_byte_range_values;
use crate::bytes::lemma_byte_string_round_trip;
use crate::bytes::lemma_parse_byte_string_bounds;
use crate::bytes::lemma_parse_varint_bounds;
use crate::bytes::lemma_varint_round_trip;
use crate::bytes::Parse;
use crate::bytes::parse_byte_string;
use crate::bytes::parse_varint;
use crate::bytes::varint;
use crate::bytes::WireError;
use crate::bytes::write_u32_le;
use crate::crc::Cksum;
use crate::crc::cksum;
use crate::crc::create_crc;
use crate::entry::lemma_parse_timestamp_bounds;
use crate::entry::lemma_timestamp_round_trip;
use crate::entry::Timestamp;
use crate::error::ProtocolError;
use crate::error::SyncError;
use crate::unix_path::UnixPath;
use vstd::prelude::*;
use vstd::slice::slice_subrange;
use vstd::slice::slice_to_vec;

verus! {

/// The length value that marks the end of a transfer stream.
pub const END_MARK: u32 = 0xFFFF_FFFF;

/// What kind of object a record recreates.
#[derive(Clone, Copy, Debug, PartialEq, Eq, Structural)]
pub enum FileType {
    RegularFile,
    Directory,
}

impl FileType {
    /// The number that stands for the kind on the wire.
    pub open spec fn tag(self) -> nat {
        match self {
            FileType::RegularFile => 0,
            FileType::Directory => 1,
        }
    }
}

/// What a record says of the object it carries.
#[derive(Debug)]
pub struct Header {
    /// Path of the object below the destination root.
    pub path: UnixPath,
    pub file_type: FileType,
    /// Modification time to give the object once it is written.
    pub mtime: Timestamp,
    /// Number of content bytes that follow the header of a regular file.
    pub file_size: u64,
}

/// A header as a mathematical value.
pub struct HeaderView {
    pub path: Seq<u8>,
    pub file_type: FileType,
    pub mtime: Timestamp,
    pub file_size: u64,
}

impl View for Header {
    type V = HeaderView;

    open spec fn view(&self) -> HeaderView {
        HeaderView {
            path: self.path@,
            file_type: self.file_type,
            mtime: self.mtime,
            file_size: self.file_size,
        }
    }
}

impl Clone for Header {
    fn clone(&self) -> (copy: Self)
        ensures
            copy@ == self@,
    {
        Header {
            path: self.path.clone(),
            file_type: self.file_type,
            mtime: self.mtime,
            file_size: self.file_size,
        }
    }
}

impl HeaderView {
    /// The header can be written and read back.
    pub open spec fn encodable(self) -> bool {
        self.path.len() <= u64::MAX && self.mtime.well_formed()
    }

    /// The wire form: path, kind, modification time, size.
    pub open spec fn bytes(self) -> Seq<u8> {
        byte_string(self.path) + varint(self.file_type.tag()) + self.mtime.bytes() + varint(
            self.file_size as nat,
        )
    }

    /// Number of content bytes that a record with this header carries.
    pub open spec fn content_len(self) -> nat {
        match self.file_type {
            FileType::RegularFile => self.file_size as nat,
            FileType::Directory => 0,
        }
    }

    /// Decoding of a header from the front of `s`.
    #[verifier::opaque]
    pub open spec fn parse(s: Seq<u8>) -> Parse<HeaderView> {
        match parse_byte_string(s) {
            Parse::Done { value: path, used } => match parse_varint(s.skip(used as int), 4) {
                Parse::Done { value: tag, used: more } => if tag > 1 {
                    Parse::Malformed
                } else {
                    match Timestamp::parse(s.skip((used + more) as int)) {
                        Parse::Done { value: mtime, used: third } => match parse_varint(
                            s.skip((used + more + third) as int),
                            8,
                        ) {
                            Parse::Done { value: size, used: last } => Parse::Done {
                                value: HeaderView {
                                    path,
                                    file_type: if tag == 0 {
                                        FileType::RegularFile
                                    } else {
                                        FileType::Directory
                                    },
                                    mtime,
                                    file_size: size as u64,
                                },
                                used: used + more + third + last,
                            },
                            Parse::Truncated => Parse::Truncated,
                            Parse::Malformed => Parse::Malformed,
                        },
                        Parse::Truncated => Parse::Truncated,
                        Parse::Malformed => Parse::Malformed,
                    }
                },
                Parse::Truncated => Parse::Truncated,
                Parse::Malformed => Parse::Malformed,
            },
            Parse::Truncated => Parse::Truncated,
            Parse::Malformed => Parse::Malformed,
        }
    }

    /// Decoding of a header that must fill `s` exactly, as the header of a
    /// frame must.
    pub open spec fn parse_exact(s: Seq<u8>) -> Option<HeaderView> {
        match HeaderView::parse(s) {
            Parse::Done { value, used } => if used == s.len() {
                Some(value)
            } else {
                None
            },
            Parse::Truncated => None,
            Parse::Malformed => None,
        }
    }
}

/// A parsed header lies within the bytes it was parsed from and can be
/// written again.
pub proof fn lemma_parse_header_bounds(s: Seq<u8>)
    ensures
        HeaderView::parse(s) matches Parse::Done { value, used } ==> 5 <= used <= s.len()
            && value.encodable(),
{
    reveal(HeaderView::parse);
    lemma_parse_byte_string_bounds(s);
    let path = parse_byte_string(s);
    if path is Done {
        let after_path = s.skip(path->used as int);
        lemma_parse_varint_bounds(after_path, 4);
        let tag = parse_varint(after_path, 4);
        if tag is Done {
            let after_tag = s.skip((path->used + tag->used) as int);
            lemma_parse_timestamp_bounds(after_tag);
            let mtime = Timestamp::parse(after_tag);
            if mtime is Done {
                lemma_parse_varint_bounds(
                    s.skip((path->used + tag->used + mtime->used) as int),
                    8,
                );
            }
        }
    }
}

/// An encoded header followed by anything decodes to itself and leaves what
/// follows.
pub proof fn lemma_header_round_trip(h: HeaderView, rest: Seq<u8>)
    requires
        h.encodable(),
    ensures
        HeaderView::parse(h.bytes() + rest) == (Parse::Done { value: h, used: h.bytes().len() }),
        h.bytes().len() >= 5,
{
    lemma_byte_range_values();
    let p = byte_string(h.path);
    let k = varint(h.file_type.tag());
    let m = h.mtime.bytes();
    let z = varint(h.file_size as nat);
    let s = h.bytes() + rest;
    let s1 = s.skip(p.len() as int);
    let s2 = s.skip((p.len() + k.len()) as int);
    let s3 = s.skip((p.len() + k.len() + m.len()) as int);
    assert(parse_byte_string(s) == (Parse::Done { value: h.path, used: p.len() })) by {
        assert(s =~= p + (k + m + z + rest));
        lemma_byte_string_round_trip(h.path, k + m + z + rest);
    }
    assert(parse_varint(s1, 4) == (Parse::Done { value: h.file_type.tag(), used: k.len() })) by {
        assert(s1 =~= k + (m + z + rest));
        lemma_varint_round_trip(h.file_type.tag(), 4, m + z + rest);
    }
    assert(Timestamp::parse(s2) == (Parse::Done { value: h.mtime, used: m.len() })
        && m.len() >= 2) by {
        assert(s2 =~= m + (z + rest));
        lemma_timestamp_round_trip(h.mtime, z + rest);
    }
    assert(parse_varint(s3, 8) == (Parse::Done { value: h.file_size as nat, used: z.len() })
        && z.len() >= 1) by {
        assert(s3 =~= z + rest);
        lemma_varint_round_trip(h.file_size as nat, 8, rest);
    }
    assert(p.len() >= 1 && k.len() >= 1) by {
        lemma_varint_round_trip(h.path.len(), 8, Seq::empty());
        lemma_varint_round_trip(h.file_type.tag(), 4, Seq::empty());
    }
    reveal(HeaderView::parse);
}

/// An encoded header, taken alone, decodes to itself and leaves nothing.
pub proof fn lemma_exact_header_round_trip(h: HeaderView)
    requires
        h.encodable(),
    ensures
        HeaderView::parse_exact(h.bytes()) == Some(h),
{
    lemma_header_round_trip(h, Seq::empty());
    assert(h.bytes() + Seq::<u8>::empty() =~= h.bytes());
}

impl Header {
    /// Writes the header in its wire form.
    pub fn encode(&self) -> (out: Vec<u8>)
        ensures
            out@ == self@.bytes(),
    {
        let mut out = self.path.encode();
        let mut kind = encode_u32(
            match self.file_type {
                FileType::RegularFile => 0u32,
                FileType::Directory => 1u32,
            },
        );
        let mut mtime = self.mtime.encode();
        let mut size = encode_u64(self.file_size);
        out.append(&mut kind);
        out.append(&mut mtime);
        out.append(&mut size);
        out
    }

    /// Reads a header from the front of `src`, with the number of bytes
    /// taken.
    pub fn decode(src: &[u8]) -> (r: Result<(Header, usize), WireError>)
        ensures
            match r {
                Ok((header, used)) => HeaderView::parse(src@) == (Parse::Done {
                    value: header@,
                    used: used as nat,
                }),
                Err(e) => HeaderView::parse(src@) == e.as_parse::<HeaderView>(),
            },
    {
        proof {
            reveal(HeaderView::parse);
        }
        let (path, used) = match UnixPath::decode(src) {
            Ok(found) => found,
            Err(e) => { return Err(e); },
        };
        proof {
            lemma_parse_byte_string_bounds(src@);
        }
        let after_path = slice_subrange(src, used, src.len());
        let (tag, more) = match decode_u32(after_path) {
            Ok(found) => found,
            Err(e) => { return Err(e); },
        };
        proof {
            lemma_parse_varint_bounds(after_path@, 4);
        }
        let file_type = if tag == 0 {
            FileType::RegularFile
        } else if tag == 1 {
            FileType::Directory
        } else {
            return Err(WireError::Malformed);
        };
        let after_tag = slice_subrange(src, used + more, src.len());
        let (mtime, third) = match Timestamp::decode(after_tag) {
            Ok(found) => found,
            Err(e) => { return Err(e); },
        };
        proof {
            lemma_parse_timestamp_bounds(after_tag@);
        }
        let after_mtime = slice_subrange(src, used + more + third, src.len());
        let (file_size, last) = match decode_u64(after_mtime) {
            Ok(found) => found,
            Err(e) => { return Err(e); },
        };
        proof {
            lemma_parse_varint_bounds(after_mtime@, 8);
        }
        Ok((Header { path, file_type, mtime, file_size }, used + more + third + last))
    }

    /// Reads the header of a frame: `src` must hold one header and nothing
    /// else. Bytes that are no header, or that go on after it, are reported
    /// as malformed.
    pub fn decode_exact(src: &[u8]) -> (r: Result<Header, SyncError>)
        ensures
            match r {
                Ok(header) => HeaderView::parse_exact(src@) == Some(header@),
                Err(e) => HeaderView::parse_exact(src@) is None && e == SyncError::Protocol(
                    ProtocolError::Malformed,
                ),
            },
    {
        match Header::decode(src) {
            Ok((header, used)) => if used == src.len() {
                Ok(header)
            } else {
                Err(SyncError::Protocol(ProtocolError::Malformed))
            },
            Err(_) => Err(SyncError::Protocol(ProtocolError::Malformed)),
        }
    }
}


/// The bytes of a frame with the given header bytes and content: length of
/// the header, header, content, checksum of header and content.
pub open spec fn frame_bytes(head: Seq<u8>, content: Seq<u8>) -> Seq<u8> {
    le_bytes(head.len(), 4) + head + content + le_bytes(cksum(head + content) as nat, 4)
}

/// The four bytes that end a transfer stream.
pub open spec fn end_mark_bytes() -> Seq<u8> {
    le_bytes(0xFFFF_FFFF, 4)
}

/// One decoded record: a header and, for a regular file, its content.
#[derive(Debug)]
pub struct Record {
    pub header: Header,
    pub content: Vec<u8>,
}

/// A record as a mathematical value.
pub struct RecordView {
    pub header: HeaderView,
    pub content: Seq<u8>,
}

impl View for Record {
    type V = RecordView;

    open spec fn view(&self) -> RecordView {
        RecordView { header: self.header@, content: self.content@ }
    }
}

impl RecordView {
    /// The record can be framed and read back: its header can be, the header
    /// fits the length field, and the content is as long as the header says
    /// and no longer than memory can address.
    pub open spec fn well_formed(self) -> bool {
        &&& self.header.encodable()
        &&& self.header.bytes().len() < 0xFFFF_FFFF
        &&& self.content.len() == self.header.content_len()
        &&& self.content.len() <= usize::MAX
    }

    /// The frame that carries the record.
    pub open spec fn bytes(self) -> Seq<u8> {
        frame_bytes(self.header.bytes(), self.content)
    }
}

/// What the sender found at a path it was asked to send.
#[derive(Debug)]
pub enum SourceObject {
    /// A regular file: the size its metadata reports, and the bytes read.
    RegularFile { size: u64, mtime: Timestamp, content: Vec<u8> },
    /// A directory.
    Directory { mtime: Timestamp },
    /// Anything else: a socket, a FIFO, a device, a dangling link.
    Other,
}

/// A source object as a mathematical value.
pub enum SourceView {
    RegularFile { size: u64, mtime: Timestamp, content: Seq<u8> },
    Directory { mtime: Timestamp },
    Other,
}

impl View for SourceObject {
    type V = SourceView;

    open spec fn view(&self) -> SourceView {
        match self {
            SourceObject::RegularFile { size, mtime, content } => SourceView::RegularFile {
                size: *size,
                mtime: *mtime,
                content: content@,
            },
            SourceObject::Directory { mtime } => SourceView::Directory { mtime: *mtime },
            SourceObject::Other => SourceView::Other,
        }
    }
}

impl SourceView {
    /// The record that carries this object under the path `path`; none for
    /// an object that is neither a regular file nor a directory.
    pub open spec fn record(self, path: Seq<u8>) -> Option<RecordView> {
        match self {
            SourceView::RegularFile { size, mtime, content } => Some(
                RecordView {
                    header: HeaderView {
                        path,
                        file_type: FileType::RegularFile,
                        mtime,
                        file_size: size,
                    },
                    content,
                },
            ),
            SourceView::Directory { mtime } => Some(
                RecordView {
                    header: HeaderView {
                        path,
                        file_type: FileType::Directory,
                        mtime,
                        file_size: 0,
                    },
                    content: Seq::empty(),
                },
            ),
            SourceView::Other => None,
        }
    }

    /// The bytes that sending this object under `path` adds to the stream:
    /// nothing for an object that is skipped, else the frame of its record.
    /// There are none where the header does not fit the length field.
    #[verifier::opaque]
    pub open spec fn sent(self, path: Seq<u8>) -> Option<Seq<u8>> {
        match self.record(path) {
            None => Some(Seq::empty()),
            Some(record) => if record.header.bytes().len() >= 0xFFFF_FFFF {
                None
            } else {
                Some(record.bytes())
            },
        }
    }
}

/// The sending end of a transfer stream. It appends frames to the bytes it
/// holds; `finish` closes the stream with the end mark.
pub struct SendStream {
    writer: Vec<u8>,
    crc: Cksum,
}

impl SendStream {
    /// The bytes written so far and not yet taken.
    pub closed spec fn written(&self) -> Seq<u8> {
        self.writer@
    }

    /// A stream that appends to `writer`.
    pub fn new(writer: Vec<u8>) -> (stream: Self)
        ensures
            stream.written() == writer@,
    {
        SendStream { writer, crc: create_crc() }
    }

    /// Sends the object found at a path: a frame for a regular file or a
    /// directory, nothing for any other object. Fails, writing nothing,
    /// where the header is too long to be framed.
    pub fn append_file(&mut self, header_path: &UnixPath, source: &SourceObject) -> (r: Result<
        (),
        SyncError,
    >)
        ensures
            match r {
                Ok(()) => source@.sent(header_path@) matches Some(frame) && final(self).written()
                    == old(self).written() + frame,
                Err(e) => source@.sent(header_path@) is None && e == SyncError::Protocol(
                    ProtocolError::Oversized,
                ) && final(self).written() == old(self).written(),
            },
    {
        proof {
            reveal(SourceView::sent);
        }
        let ghost before = self.writer@;
        let empty: Vec<u8> = Vec::new();
        let (header, content): (Header, &[u8]) = match source {
            SourceObject::RegularFile { size, mtime, content } => (
                Header {
                    path: header_path.clone(),
                    file_type: FileType::RegularFile,
                    mtime: *mtime,
                    file_size: *size,
                },
                content.as_slice(),
            ),
            SourceObject::Directory { mtime } => (
                Header {
                    path: header_path.clone(),
                    file_type: FileType::Directory,
                    mtime: *mtime,
                    file_size: 0,
                },
                empty.as_slice(),
            ),
            SourceObject::Other => {
                assert(self.writer@ =~= before + Seq::<u8>::empty());
                return Ok(());
            },
        };
        assert(source@.record(header_path@) == Some(
            RecordView { header: header@, content: content@ },
        ));
        let header_data = header.encode();
        if header_data.len() >= 0xFFFF_FFFF {
            return Err(SyncError::Protocol(ProtocolError::Oversized));
        }
        write_u32_le(&mut self.writer, header_data.len() as u32);
        let checksum = self.crc.checksum(header_data.as_slice(), content);
        let mut head = header_data;
        let mut body = slice_to_vec(content);
        self.writer.append(&mut head);
        self.writer.append(&mut body);
        write_u32_le(&mut self.writer, checksum);
        proof {
            let frame = frame_bytes(header@.bytes(), content@);
            assert(self.writer@ =~= before + frame);
        }
        Ok(())
    }

    /// Writes the end mark.
    fn write_eof(&mut self)
        ensures
            final(self).written() == old(self).written() + end_mark_bytes(),
    {
        write_u32_le(&mut self.writer, END_MARK);
    }

    /// Hands out the bytes written so far, leaving the stream empty and
    /// open, so that a caller can pass them on record by record.
    pub fn take_written(&mut self) -> (bytes: Vec<u8>)
        ensures
            bytes@ == old(self).written(),
            final(self).written() == Seq::<u8>::empty(),
    {
        let mut bytes: Vec<u8> = Vec::new();
        bytes.append(&mut self.writer);
        bytes
    }

    /// Closes the stream: writes the end mark and hands out what was
    /// written. Every stream is to be finished, also one whose sending
    /// failed, so that the receiver can stop.
    pub fn finish(self) -> (bytes: Vec<u8>)
        ensures
            bytes@ == self.written() + end_mark_bytes(),
    {
        let mut stream = self;
        stream.write_eof();
        stream.writer
    }
}


/// One item of a send list: a path, and what the sender found there.
#[derive(Debug)]
pub struct SendItem {
    pub path: UnixPath,
    pub source: SourceObject,
}

/// A send item as a mathematical value.
pub struct SendItemView {
    pub path: Seq<u8>,
    pub source: SourceView,
}

impl View for SendItem {
    type V = SendItemView;

    open spec fn view(&self) -> SendItemView {
        SendItemView { path: self.path@, source: self.source@ }
    }
}

impl SendItemView {
    /// The bytes that the item adds to the stream: nothing for an empty
    /// path, else what sending its object adds.
    pub open spec fn sent(self) -> Option<Seq<u8>> {
        if self.path.len() == 0 {
            Some(Seq::empty())
        } else {
            self.source.sent(self.path)
        }
    }
}

/// The items of a send list as mathematical values.
pub open spec fn item_views(list: Seq<SendItem>) -> Seq<SendItemView> {
    list.map_values(|item: SendItem| item@)
}

/// The bytes that the first `n` items of a list add to the stream, in their
/// order, where each of them can be sent.
pub open spec fn sent_bytes(items: Seq<SendItemView>, n: nat) -> Seq<u8>
    decreases n,
{
    if n == 0 {
        Seq::empty()
    } else {
        let last = items[n - 1].sent();
        sent_bytes(items, (n - 1) as nat) + if last is Some {
            last->0
        } else {
            Seq::empty()
        }
    }
}

/// Sends the items of a list in their order. An item with an empty path is
/// passed over. Every other item is announced to `callback` before it is
/// sent, with its path, its position in the list and the length of the
/// list. Stops at the first item whose header cannot be framed: what came
/// before it stays written.
///
/// The callback must be one that can be called on every item: a closure
/// without a precondition of its own is.
pub fn write_send_list_to_stream<F: Fn(&UnixPath, usize, usize)>(
    stream: &mut SendStream,
    send_list: &Vec<SendItem>,
    callback: F,
) -> (r: Result<(), SyncError>)
    requires
        forall|path: &UnixPath, index: usize, total: usize|
            call_requires(callback, (path, index, total)),
    ensures
        match r {
            Ok(()) => {
                &&& forall|k: int|
                    0 <= k < send_list@.len() ==> (#[trigger] item_views(send_list@)[k]).sent()
                        is Some
                &&& final(stream).written() == old(stream).written() + sent_bytes(
                    item_views(send_list@),
                    send_list@.len(),
                )
            },
            Err(e) => {
                &&& e == SyncError::Protocol(ProtocolError::Oversized)
                &&& exists|k: int|
                    {
                        &&& 0 <= k < send_list@.len()
                        &&& (#[trigger] item_views(send_list@)[k]).sent() is None
                        &&& forall|j: int|
                            0 <= j < k ==> (#[trigger] item_views(send_list@)[j]).sent() is Some
                        &&& final(stream).written() == old(stream).written() + sent_bytes(
                            item_views(send_list@),
                            k as nat,
                        )
                    }
            },
        },
{
    let ghost items = item_views(send_list@);
    let ghost before = stream.written();
    let mut i: usize = 0;
    assert(stream.written() =~= before + sent_bytes(items, 0));
    while i < send_list.len()
        invariant
            i <= send_list.len(),
            items == item_views(send_list@),
            before == old(stream).written(),
            forall|j: int| 0 <= j < i ==> (#[trigger] items[j]).sent() is Some,
            stream.written() == before + sent_bytes(items, i as nat),
            forall|path: &UnixPath, index: usize, total: usize|
                call_requires(callback, (path, index, total)),
        decreases send_list.len() - i,
    {
        let item = &send_list[i];
        assert(items[i as int] == item@);
        let ghost so_far = stream.written();
        if !item.path.is_empty() {
            callback(&item.path, i, send_list.len());
            match stream.append_file(&item.path, &item.source) {
                Ok(()) => {},
                Err(e) => {
                    assert(items[i as int].sent() is None);
                    return Err(e);
                },
            }
        }
        assert(stream.written() =~= before + sent_bytes(items, (i + 1) as nat)) by {
            let frame = items[i as int].sent()->0;
            assert(stream.written() =~= so_far + frame);
            assert(sent_bytes(items, (i + 1) as nat) == sent_bytes(items, i as nat) + frame);
        }
        i += 1;
    }
    Ok(())
}

} // verus!
