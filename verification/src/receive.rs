//! The receiving end of the transfer stream: frames are read one by one,
//! each held to its checksum, until the end mark.

use crate::bytes::le_bytes;
use crate::bytes::le_value;
use crate::bytes::lemma_byte_range_values;
use crate::bytes::lemma_le_bytes_len;
use crate::bytes::lemma_le_bytes_of_le_value;
use crate::bytes::lemma_le_value_of_le_bytes;
use crate::bytes::read_u32_le;
use crate::crc::Cksum;
use crate::crc::cksum;
use crate::crc::create_crc;
use crate::diff::CandidateView;
use crate::diff::DestState;
use crate::entry::EntryView;
use crate::error::ProtocolError;
use crate::error::SyncError;
use crate::reader::TryReadExact;
use crate::send_stream::END_MARK;
use crate::send_stream::end_mark_bytes;
use crate::send_stream::FileType;
use crate::send_stream::Header;
use crate::send_stream::HeaderView;
use crate::send_stream::lemma_exact_header_round_trip;
use crate::send_stream::lemma_parse_header_bounds;
use crate::send_stream::Record;
use crate::send_stream::RecordView;
use crate::send_stream::SendItemView;
use crate::send_stream::sent_bytes;
use crate::send_stream::SourceView;
use vstd::prelude::*;

verus! {

/// How a frame begins: with the end mark, or with the length of a header.
#[derive(Clone, Copy, Debug, PartialEq, Eq, Structural)]
pub enum FrameStart {
    End,
    Header { len: u32 },
}

/// What the first bytes of a frame announce. A stream that ends where a
/// frame had to begin is told apart from one that ends inside the length.
pub open spec fn parse_frame_start(s: Seq<u8>) -> Result<FrameStart, SyncError> {
    if s.len() == 0 {
        Err(SyncError::Protocol(ProtocolError::UnexpectedEof))
    } else if s.len() < 4 {
        Err(SyncError::Protocol(ProtocolError::Truncated))
    } else if le_value(s.subrange(0, 4)) == 0xFFFF_FFFF {
        Ok(FrameStart::End)
    } else {
        Ok(FrameStart::Header { len: le_value(s.subrange(0, 4)) as u32 })
    }
}

/// What decoding one frame from the front of a stream gives.
pub enum FrameParse {
    /// The end mark stands at the front.
    End,
    /// A record whose checksum holds stands at the front, in `used` bytes.
    Record { record: RecordView, used: nat },
    /// The frame is broken. `pending` is the header that had been read when
    /// the fault showed: the object whose writing was under way.
    Failed { error: SyncError, pending: Option<HeaderView> },
}

/// The header that the frame at the front of `s` holds, where `s` holds the
/// whole of it.
pub open spec fn frame_header(s: Seq<u8>) -> Option<HeaderView> {
    match parse_frame_start(s) {
        Ok(FrameStart::Header { len }) => if s.len() < 4 + len {
            None
        } else {
            HeaderView::parse_exact(s.subrange(4, 4 + len))
        },
        _ => None,
    }
}

/// Decoding of one frame from the front of `s`: the length, the header that
/// must fill it exactly, the content that the header announces, and the
/// checksum, which must be that of header and content. A content longer
/// than memory can address is refused once its header is read.
#[verifier::opaque]
pub open spec fn parse_frame(s: Seq<u8>) -> FrameParse {
    match parse_frame_start(s) {
        Err(error) => FrameParse::Failed { error, pending: None },
        Ok(FrameStart::End) => FrameParse::End,
        Ok(FrameStart::Header { len }) => {
            if s.len() < 4 + len {
                FrameParse::Failed {
                    error: SyncError::Protocol(ProtocolError::Truncated),
                    pending: None,
                }
            } else {
                let head = s.subrange(4, 4 + len);
                match HeaderView::parse_exact(head) {
                    None => FrameParse::Failed {
                        error: SyncError::Protocol(ProtocolError::Malformed),
                        pending: None,
                    },
                    Some(header) => {
                        let end = 4 + len + header.content_len();
                        if header.content_len() > usize::MAX {
                            FrameParse::Failed {
                                error: SyncError::Protocol(ProtocolError::Oversized),
                                pending: Some(header),
                            }
                        } else if s.len() < end + 4 {
                            FrameParse::Failed {
                                error: SyncError::Protocol(ProtocolError::Truncated),
                                pending: Some(header),
                            }
                        } else {
                            let content = s.subrange(4 + len, end);
                            if le_value(s.subrange(end, end + 4)) != cksum(head + content) {
                                FrameParse::Failed {
                                    error: SyncError::Checksum,
                                    pending: Some(header),
                                }
                            } else {
                                FrameParse::Record {
                                    record: RecordView { header, content },
                                    used: (end + 4) as nat,
                                }
                            }
                        }
                    },
                }
            }
        },
    }
}

/// One decoded frame.
#[derive(Debug)]
pub enum Frame {
    End,
    Record(Record),
}

/// A frame that could not be decoded, with the header of the object whose
/// writing was under way, if the fault showed only after the header.
#[derive(Debug)]
pub struct FrameFailure {
    pub error: SyncError,
    pub pending: Option<Header>,
}

/// The view of a header that may be absent.
pub open spec fn pending_view(pending: Option<Header>) -> Option<HeaderView> {
    match pending {
        Some(header) => Some(header@),
        None => None,
    }
}

/// Reads what a frame begins with from the bytes that a read of four bytes
/// gave: all four, or fewer where the stream ended.
pub fn frame_start(prefix: &[u8]) -> (r: Result<FrameStart, SyncError>)
    ensures
        r == parse_frame_start(prefix@),
{
    if prefix.len() == 0 {
        return Err(SyncError::Protocol(ProtocolError::UnexpectedEof));
    }
    match read_u32_le(prefix) {
        None => Err(SyncError::Protocol(ProtocolError::Truncated)),
        Some(len) => if len == END_MARK {
            Ok(FrameStart::End)
        } else {
            Ok(FrameStart::Header { len })
        },
    }
}

/// Holds a record to the checksum stored with it: the checksum of the
/// header bytes followed by the content must equal `stored`.
pub fn verify_record(crc: &Cksum, head: &[u8], content: &[u8], stored: u32) -> (r: Result<
    (),
    SyncError,
>)
    ensures
        r is Ok <==> stored == cksum(head@ + content@),
        r is Err ==> r == Err::<(), SyncError>(SyncError::Checksum),
{
    if crc.checksum(head, content) == stored {
        Ok(())
    } else {
        Err(SyncError::Checksum)
    }
}

/// The bytes `s` decide the header of the frame at the front of a stream:
/// whatever follows them, the frame holds the header `header`.
pub open spec fn header_decided(s: Seq<u8>, header: Option<HeaderView>) -> bool {
    header is Some ==> forall|rest: Seq<u8>| #[trigger] frame_header(s + rest) == header
}

/// What a failure says of the bytes it came from.
pub open spec fn failed(failure: FrameFailure) -> FrameParse {
    FrameParse::Failed { error: failure.error, pending: pending_view(failure.pending) }
}

/// What a decoded frame of `used` bytes says of the bytes it came from.
pub open spec fn decoded(frame: Frame, used: nat) -> FrameParse {
    match frame {
        Frame::End => FrameParse::End,
        Frame::Record(record) => FrameParse::Record { record: record@, used },
    }
}

/// The bytes `s` decide the frame at the front of a stream: whatever
/// follows them, the frame decodes to `outcome`.
pub open spec fn frame_decided(s: Seq<u8>, outcome: FrameParse) -> bool {
    forall|rest: Seq<u8>| #[trigger] parse_frame(s + rest) == outcome
}

/// Which part of a frame the decoder is to be fed next.
#[derive(Clone, Copy, Debug, PartialEq, Eq, Structural)]
pub enum Stage {
    Length,
    Head,
    Content,
    Checksum,
}

/// The header that stands in the bytes fed for a frame, once they hold it.
pub open spec fn fed_header(stage: Stage, seen: Seq<u8>) -> Option<HeaderView> {
    match stage {
        Stage::Length => None,
        Stage::Head => None,
        Stage::Content => HeaderView::parse_exact(seen.skip(4)),
        Stage::Checksum => HeaderView::parse_exact(
            seen.subrange(4, 4 + le_value(seen.subrange(0, 4)) as int),
        ),
    }
}

/// Number of bytes that the part of a frame that is due takes, given the
/// bytes fed for the frame so far: four for the length and for the
/// checksum, the length read for the header, and for the content what the
/// header says.
pub open spec fn fed_wants(stage: Stage, seen: Seq<u8>) -> nat {
    match stage {
        Stage::Length => 4,
        Stage::Head => le_value(seen.subrange(0, 4)),
        Stage::Content => match fed_header(stage, seen) {
            Some(header) => header.content_len(),
            None => 0,
        },
        Stage::Checksum => 4,
    }
}

/// What feeding the decoder led to.
#[derive(Debug)]
pub enum Fed {
    /// The frame goes on: feed what `wanted` asks for now.
    More,
    /// The frame is complete.
    Complete(Frame),
}

/// How far the decoder is into a frame, with what it holds of the frame.
enum Progress {
    Length,
    Head { len: usize },
    Content { head: Vec<u8>, header: Header },
    Checksum { head: Vec<u8>, header: Header, content: Vec<u8> },
}

/// A decoder of frames that is fed by its caller. It says how many bytes it
/// wants; the caller reads them from the stream and feeds them; on a stream
/// that ended the caller feeds the fewer bytes that were left. After four
/// feedings at most the frame is decoded or refused.
pub struct FrameDecoder {
    progress: Progress,
    seen: Ghost<Seq<u8>>,
}

impl FrameDecoder {
    /// The bytes fed for the frame under way.
    pub closed spec fn seen(&self) -> Seq<u8> {
        self.seen@
    }

    /// The part of the frame that is due.
    pub closed spec fn stage(&self) -> Stage {
        match self.progress {
            Progress::Length => Stage::Length,
            Progress::Head { .. } => Stage::Head,
            Progress::Content { .. } => Stage::Content,
            Progress::Checksum { .. } => Stage::Checksum,
        }
    }

    /// Number of bytes that are due.
    pub open spec fn wanted_bytes(&self) -> nat {
        fed_wants(self.stage(), self.seen())
    }

    /// The header of the record under way, once it was read.
    pub open spec fn pending_header(&self) -> Option<HeaderView> {
        fed_header(self.stage(), self.seen())
    }

    /// What the decoder holds is what the bytes fed say.
    #[verifier::type_invariant]
    spec fn consistent(&self) -> bool {
        match self.progress {
            Progress::Length => self.seen@.len() == 0,
            Progress::Head { len } => {
                &&& self.seen@.len() == 4
                &&& len <= u32::MAX
                &&& parse_frame_start(self.seen@) == Ok::<FrameStart, SyncError>(
                    FrameStart::Header { len: len as u32 },
                )
            },
            Progress::Content { head, header } => {
                &&& head@.len() <= u32::MAX
                &&& self.seen@.len() == 4 + head@.len()
                &&& self.seen@.subrange(4, 4 + head@.len() as int) == head@
                &&& parse_frame_start(self.seen@) == Ok::<FrameStart, SyncError>(
                    FrameStart::Header { len: head@.len() as u32 },
                )
                &&& HeaderView::parse_exact(head@) == Some(header@)
                &&& header@.content_len() <= usize::MAX
            },
            Progress::Checksum { head, header, content } => {
                &&& head@.len() <= u32::MAX
                &&& self.seen@.len() == 4 + head@.len() + content@.len()
                &&& self.seen@.subrange(4, 4 + head@.len() as int) == head@
                &&& self.seen@.subrange(4 + head@.len() as int, self.seen@.len() as int) == content@
                &&& parse_frame_start(self.seen@) == Ok::<FrameStart, SyncError>(
                    FrameStart::Header { len: head@.len() as u32 },
                )
                &&& HeaderView::parse_exact(head@) == Some(header@)
                &&& header@.content_len() == content@.len()
                &&& content@.len() <= usize::MAX
            },
        }
    }

    /// What the decoder holds gives the bytes that are due and the header
    /// under way.
    proof fn lemma_held(&self)
        requires
            self.consistent(),
        ensures
            self.wanted_bytes() == match self.progress {
                Progress::Length => 4,
                Progress::Head { len } => len as nat,
                Progress::Content { head, header } => header@.content_len(),
                Progress::Checksum { .. } => 4,
            },
            self.pending_header() == match self.progress {
                Progress::Length => None,
                Progress::Head { .. } => None,
                Progress::Content { head, header } => Some(header@),
                Progress::Checksum { head, header, content } => Some(header@),
            },
    {
        lemma_byte_range_values();
        match self.progress {
            Progress::Length => {},
            Progress::Head { .. } => {
                lemma_le_bytes_of_le_value(self.seen@.subrange(0, 4));
            },
            Progress::Content { head, header } => {
                lemma_le_bytes_of_le_value(self.seen@.subrange(0, 4));
                assert(self.seen@.skip(4) =~= self.seen@.subrange(4, 4 + head@.len() as int));
            },
            Progress::Checksum { .. } => {
                lemma_le_bytes_of_le_value(self.seen@.subrange(0, 4));
            },
        }
    }

    /// A decoder at the beginning of a frame.
    pub fn new() -> (decoder: Self)
        ensures
            decoder.seen() == Seq::<u8>::empty(),
            decoder.stage() == Stage::Length,
    {
        FrameDecoder { progress: Progress::Length, seen: Ghost(Seq::empty()) }
    }

    /// Number of bytes to read and feed next.
    pub fn wanted(&self) -> (count: usize)
        ensures
            count == self.wanted_bytes(),
    {
        proof {
            use_type_invariant(self);
            self.lemma_held();
        }
        match &self.progress {
            Progress::Length => 4,
            Progress::Head { len } => *len,
            Progress::Content { head: _, header } => match header.file_type {
                FileType::RegularFile => header.file_size as usize,
                FileType::Directory => 0,
            },
            Progress::Checksum { .. } => 4,
        }
    }

    /// The header of the object whose record is under way, once it was read:
    /// what to roll back where the stream fails now.
    pub fn pending(&self) -> (header: Option<Header>)
        ensures
            pending_view(header) == self.pending_header(),
            header is Some <==> (self.stage() == Stage::Content || self.stage()
                == Stage::Checksum),
            header_decided(self.seen(), pending_view(header)),
    {
        proof {
            use_type_invariant(self);
            self.lemma_held();
            let seen = self.seen@;
            assert forall|rest: Seq<u8>|
                self.pending_header() is Some implies #[trigger] frame_header(seen + rest)
                == self.pending_header() by {
                let all = seen + rest;
                assert(all.subrange(0, 4) =~= seen.subrange(0, 4));
                match self.progress {
                    Progress::Content { head, header } => {
                        assert(all.subrange(4, 4 + head@.len() as int) =~= head@);
                    },
                    Progress::Checksum { head, header, content } => {
                        assert(all.subrange(4, 4 + head@.len() as int) =~= head@);
                    },
                    _ => {},
                }
            }
        }
        match &self.progress {
            Progress::Length => None,
            Progress::Head { .. } => None,
            Progress::Content { head: _, header } => Some(header.clone()),
            Progress::Checksum { head: _, header, content: _ } => Some(header.clone()),
        }
    }

    /// Feeds the bytes read for the part that is due: all that were asked
    /// for, or fewer where the stream ended. The decoder then asks for the
    /// next part, or hands out the frame, or refuses it. A frame handed out
    /// or refused is what `parse_frame` says of the bytes fed for it; behind
    /// it the decoder stands at the beginning of the next frame. More bytes
    /// than were asked for are refused as oversized.
    pub fn feed(&mut self, bytes: Vec<u8>) -> (r: Result<Fed, FrameFailure>)
        ensures
            bytes@.len() > old(self).wanted_bytes() ==> r is Err,
            match r {
                Ok(Fed::More) => {
                    &&& bytes@.len() == old(self).wanted_bytes()
                    &&& final(self).seen() == old(self).seen() + bytes@
                    &&& final(self).stage() == match old(self).stage() {
                        Stage::Length => Stage::Head,
                        Stage::Head => Stage::Content,
                        _ => Stage::Checksum,
                    }
                    &&& old(self).stage() != Stage::Checksum
                },
                Ok(Fed::Complete(frame)) => {
                    &&& bytes@.len() == old(self).wanted_bytes()
                    &&& frame is End ==> (old(self).seen() + bytes@).len() == 4
                    &&& final(self).seen() == Seq::<u8>::empty()
                    &&& final(self).stage() == Stage::Length
                    &&& frame_decided(
                        old(self).seen() + bytes@,
                        decoded(frame, (old(self).seen() + bytes@).len()),
                    )
                },
                Err(failure) => {
                    &&& final(self).seen() == Seq::<u8>::empty()
                    &&& final(self).stage() == Stage::Length
                    &&& if bytes@.len() > old(self).wanted_bytes() {
                        failure.error == SyncError::Protocol(ProtocolError::Oversized)
                            && failure.pending is None
                    } else if bytes@.len() < old(self).wanted_bytes() {
                        parse_frame(old(self).seen() + bytes@) == failed(failure)
                    } else {
                        frame_decided(old(self).seen() + bytes@, failed(failure))
                    }
                },
            },
    {
        proof {
            use_type_invariant(&*self);
            self.lemma_held();
        }
        let wanted = self.wanted();
        let ghost before = self.seen@;
        let ghost s = before + bytes@;
        let mut held = FrameDecoder::new();
        std::mem::swap(self, &mut held);
        if bytes.len() > wanted {
            return Err(
                FrameFailure {
                    error: SyncError::Protocol(ProtocolError::Oversized),
                    pending: None,
                },
            );
        }
        match held.progress {
            Progress::Length => {
                assert(s =~= bytes@);
                match frame_start(bytes.as_slice()) {
                    Err(error) => {
                        proof {
                            reveal(parse_frame);
                        }
                        Err(FrameFailure { error, pending: None })
                    },
                    Ok(FrameStart::End) => {
                        assert(frame_decided(s, FrameParse::End)) by {
                            assert forall|rest: Seq<u8>| #[trigger]
                                parse_frame(s + rest) == FrameParse::End by {
                                reveal(parse_frame);
                                assert((s + rest).subrange(0, 4) =~= s.subrange(0, 4));
                            }
                        }
                        Ok(Fed::Complete(Frame::End))
                    },
                    Ok(FrameStart::Header { len }) => {
                        *self = FrameDecoder {
                            progress: Progress::Head { len: len as usize },
                            seen: Ghost(s),
                        };
                        Ok(Fed::More)
                    },
                }
            },
            Progress::Head { len } => {
                assert(s.subrange(0, 4) =~= before.subrange(0, 4));
                if bytes.len() < len {
                    proof {
                        reveal(parse_frame);
                    }
                    return Err(
                        FrameFailure {
                            error: SyncError::Protocol(ProtocolError::Truncated),
                            pending: None,
                        },
                    );
                }
                assert(s.subrange(4, 4 + len) =~= bytes@);
                match Header::decode_exact(bytes.as_slice()) {
                    Err(error) => {
                        let failure = FrameFailure { error, pending: None };
                        assert(frame_decided(s, failed(failure))) by {
                            assert forall|rest: Seq<u8>| #[trigger]
                                parse_frame(s + rest) == failed(failure) by {
                                reveal(parse_frame);
                                assert((s + rest).subrange(0, 4) =~= s.subrange(0, 4));
                                assert((s + rest).subrange(4, 4 + len) =~= bytes@);
                            }
                        }
                        Err(failure)
                    },
                    Ok(header) => {
                        let size: u64 = match header.file_type {
                            FileType::RegularFile => header.file_size,
                            FileType::Directory => 0,
                        };
                        if size > usize::MAX as u64 {
                            let failure = FrameFailure {
                                error: SyncError::Protocol(ProtocolError::Oversized),
                                pending: Some(header),
                            };
                            assert(frame_decided(s, failed(failure))) by {
                                assert forall|rest: Seq<u8>| #[trigger]
                                    parse_frame(s + rest) == failed(failure) by {
                                    reveal(parse_frame);
                                    assert((s + rest).subrange(0, 4) =~= s.subrange(0, 4));
                                    assert((s + rest).subrange(4, 4 + len) =~= bytes@);
                                }
                            }
                            return Err(failure);
                        }
                        *self = FrameDecoder {
                            progress: Progress::Content { head: bytes, header },
                            seen: Ghost(s),
                        };
                        Ok(Fed::More)
                    },
                }
            },
            Progress::Content { head, header } => {
                let ghost len: int = head@.len() as int;
                assert(s.subrange(0, 4) =~= before.subrange(0, 4));
                assert(s.subrange(4, 4 + len) =~= head@);
                if bytes.len() < wanted {
                    proof {
                        reveal(parse_frame);
                    }
                    return Err(
                        FrameFailure {
                            error: SyncError::Protocol(ProtocolError::Truncated),
                            pending: Some(header),
                        },
                    );
                }
                assert(s.subrange(4 + len, s.len() as int) =~= bytes@);
                *self = FrameDecoder {
                    progress: Progress::Checksum { head, header, content: bytes },
                    seen: Ghost(s),
                };
                Ok(Fed::More)
            },
            Progress::Checksum { head, header, content } => {
                let ghost len: int = head@.len() as int;
                let ghost end: int = 4 + len + content@.len() as int;
                let stored = match read_u32_le(bytes.as_slice()) {
                    Some(stored) => stored,
                    None => {
                        proof {
                            reveal(parse_frame);
                            assert(s.subrange(0, 4) =~= before.subrange(0, 4));
                            assert(s.subrange(4, 4 + len) =~= head@);
                        }
                        return Err(
                            FrameFailure {
                                error: SyncError::Protocol(ProtocolError::Truncated),
                                pending: Some(header),
                            },
                        );
                    },
                };
                assert(bytes@.subrange(0, 4) =~= bytes@);
                let crc = create_crc();
                match verify_record(&crc, head.as_slice(), content.as_slice(), stored) {
                    Ok(()) => {
                        let record = Record { header, content };
                        let ghost outcome = FrameParse::Record { record: record@, used: s.len() };
                        assert(frame_decided(s, outcome)) by {
                            assert forall|rest: Seq<u8>| #[trigger]
                                parse_frame(s + rest) == outcome by {
                                reveal(parse_frame);
                                let all = s + rest;
                                assert(all.subrange(0, 4) =~= before.subrange(0, 4));
                                assert(all.subrange(4, 4 + len) =~= head@);
                                assert(all.subrange(4 + len, end) =~= content@);
                                assert(all.subrange(end, end + 4) =~= bytes@);
                            }
                        }
                        Ok(Fed::Complete(Frame::Record(record)))
                    },
                    Err(error) => {
                        let failure = FrameFailure { error, pending: Some(header) };
                        assert(frame_decided(s, failed(failure))) by {
                            assert forall|rest: Seq<u8>| #[trigger]
                                parse_frame(s + rest) == failed(failure) by {
                                reveal(parse_frame);
                                let all = s + rest;
                                assert(all.subrange(0, 4) =~= before.subrange(0, 4));
                                assert(all.subrange(4, 4 + len) =~= head@);
                                assert(all.subrange(4 + len, end) =~= content@);
                                assert(all.subrange(end, end + 4) =~= bytes@);
                            }
                        }
                        Err(failure)
                    },
                }
            },
        }
    }
}

/// Reads one frame from a stream, feeding a decoder what it asks for. The
/// result is what `parse_frame` says of the bytes that the stream had left,
/// and the stream then stands behind the frame. Where the transport itself
/// fails, that is reported as an I/O error, with the header if it had been
/// read.
pub fn read_frame<R: TryReadExact>(reader: &mut R) -> (r: Result<Frame, FrameFailure>)
    ensures
        final(reader).reliable() == old(reader).reliable(),
        match r {
            Ok(Frame::End) => parse_frame(old(reader).remaining()) == FrameParse::End && final(reader).remaining() == old(reader).remaining().skip(4),
            Ok(Frame::Record(record)) => parse_frame(old(reader).remaining()) matches FrameParse::Record {
                record: found,
                used,
            } && found == record@ && final(reader).remaining() == old(reader).remaining().skip(
                used as int,
            ),
            Err(failure) => parse_frame(old(reader).remaining()) == failed(failure) || {
                &&& !old(reader).reliable()
                &&& failure.error == SyncError::Io
                &&& failure.pending is Some ==> frame_header(old(reader).remaining())
                    == pending_view(failure.pending)
            },
        },
{
    let ghost all = reader.remaining();
    let mut decoder = FrameDecoder::new();
    let ghost mut rank: nat = 0;
    assert(decoder.seen() + reader.remaining() =~= all);
    loop
        invariant
            reader.reliable() == old(reader).reliable(),
            all == old(reader).remaining(),
            decoder.seen() + reader.remaining() == all,
            rank <= 3,
            rank == match decoder.stage() {
                Stage::Length => 0nat,
                Stage::Head => 1nat,
                Stage::Content => 2nat,
                Stage::Checksum => 3nat,
            },
        decreases 4 - rank,
    {
        let ghost before = decoder.seen();
        let ghost left = reader.remaining();
        let bytes = match reader.try_read_exact(decoder.wanted()) {
            Ok(bytes) => bytes,
            Err(error) => {
                let pending = decoder.pending();
                assert(pending is Some ==> frame_header(before + left) == pending_view(pending));
                return Err(FrameFailure { error, pending });
            },
        };
        let ghost s = before + bytes@;
        let ghost rest = reader.remaining();
        assert(s + rest =~= all);
        let ghost whole = bytes@.len() == decoder.wanted_bytes();
        assert(!whole ==> rest.len() == 0 && s =~= all);
        match decoder.feed(bytes) {
            Ok(Fed::More) => {
                proof {
                    rank = rank + 1;
                }
            },
            Ok(Fed::Complete(frame)) => {
                assert(parse_frame(s + rest) == decoded(frame, s.len()));
                assert(rest =~= all.skip(s.len() as int));
                return Ok(frame);
            },
            Err(failure) => {
                assert(whole ==> parse_frame(s + rest) == failed(failure));
                return Err(failure);
            },
        }
    }
}

/// What decoding a whole stream gives.
pub enum StreamParse {
    /// The records up to the end mark, all sound, in `used` bytes.
    Done { records: Seq<RecordView>, used: nat },
    /// The records that were sound, then a broken frame.
    Failed { records: Seq<RecordView>, error: SyncError, pending: Option<HeaderView> },
}

/// The parse `later`, made after `before` had been decoded from `used`
/// bytes.
pub open spec fn prepend_records(before: Seq<RecordView>, used: nat, later: StreamParse)
    -> StreamParse {
    match later {
        StreamParse::Done { records, used: more } => StreamParse::Done {
            records: before + records,
            used: used + more,
        },
        StreamParse::Failed { records, error, pending } => StreamParse::Failed {
            records: before + records,
            error,
            pending,
        },
    }
}

/// Decoding of a stream: frame after frame until the end mark, stopping at
/// the first broken frame. A record always takes some of the bytes and never
/// more than there are, as `lemma_parse_frame_record` shows; the test of
/// that is here for the sake of termination, and its other branch is never
/// taken.
pub open spec fn parse_stream(s: Seq<u8>) -> StreamParse
    decreases s.len(),
{
    match parse_frame(s) {
        FrameParse::End => StreamParse::Done { records: Seq::empty(), used: 4 },
        FrameParse::Failed { error, pending } => StreamParse::Failed {
            records: Seq::empty(),
            error,
            pending,
        },
        FrameParse::Record { record, used } => if 0 < used <= s.len() {
            prepend_records(seq![record], used, parse_stream(s.skip(used as int)))
        } else {
            StreamParse::Failed {
                records: Seq::empty(),
                error: SyncError::Protocol(ProtocolError::Malformed),
                pending: None,
            }
        },
    }
}

/// The frames of the records, one after the other.
pub open spec fn records_bytes(records: Seq<RecordView>) -> Seq<u8>
    decreases records.len(),
{
    if records.len() == 0 {
        Seq::empty()
    } else {
        records[0].bytes() + records_bytes(records.drop_first())
    }
}

/// A whole transfer stream: the frames of the records, then the end mark.
pub open spec fn stream_bytes(records: Seq<RecordView>) -> Seq<u8> {
    records_bytes(records) + end_mark_bytes()
}

/// Every record of the list can be framed and read back.
pub open spec fn all_well_formed(records: Seq<RecordView>) -> bool {
    forall|i: int| 0 <= i < records.len() ==> (#[trigger] records[i]).well_formed()
}

/// A decoded record lies within the bytes it came from, is well formed, and
/// the checksum stored behind it is that of the header bytes and the
/// content that stand in the frame.
pub proof fn lemma_parse_frame_record(s: Seq<u8>)
    ensures
        parse_frame(s) matches FrameParse::Record { record, used } ==> {
            &&& 13 <= used <= s.len()
            &&& record.header.encodable()
            &&& record.content.len() == record.header.content_len()
            &&& record.content.len() <= usize::MAX
            &&& record.content == s.subrange(used - 4 - record.content.len(), used - 4)
            &&& le_value(s.subrange(used - 4, used as int)) == cksum(s.subrange(4, used - 4))
        },
{
    reveal(parse_frame);
    if parse_frame(s) is Record {
        let len = le_value(s.subrange(0, 4)) as u32;
        let head = s.subrange(4, 4 + len);
        lemma_parse_header_bounds(head);
        let header = HeaderView::parse_exact(head)->0;
        let end = 4 + len + header.content_len();
        assert(head + s.subrange(4 + len, end as int) =~= s.subrange(4, end as int));
    }
}

/// A frame is accepted if and only if the checksum stored behind it is that
/// of its header bytes followed by its content: a frame made of the bytes of
/// a header, a content of the length that the header announces, and a
/// stored checksum decodes to the record where the checksum is the right
/// one, and is refused as a checksum error, with that header pending, where
/// it is not.
pub proof fn lemma_frame_verdict(record: RecordView, stored: u32, rest: Seq<u8>)
    requires
        record.well_formed(),
    ensures
        parse_frame(
            le_bytes(record.header.bytes().len(), 4) + record.header.bytes() + record.content
                + le_bytes(stored as nat, 4) + rest,
        ) == if stored == cksum(record.header.bytes() + record.content) {
            FrameParse::Record {
                record,
                used: 4 + record.header.bytes().len() + record.content.len() + 4,
            }
        } else {
            FrameParse::Failed { error: SyncError::Checksum, pending: Some(record.header) }
        },
{
    reveal(parse_frame);
    lemma_byte_range_values();
    let head = record.header.bytes();
    let s = le_bytes(head.len(), 4) + head + record.content + le_bytes(stored as nat, 4) + rest;
    lemma_le_bytes_len(head.len(), 4);
    lemma_le_bytes_len(stored as nat, 4);
    lemma_le_value_of_le_bytes(head.len(), 4);
    lemma_le_value_of_le_bytes(stored as nat, 4);
    lemma_exact_header_round_trip(record.header);
    let end: int = (4 + head.len() + record.content.len()) as int;
    assert(s.subrange(0, 4) =~= le_bytes(head.len(), 4));
    assert(s.subrange(4, 4 + head.len() as int) =~= head);
    assert(s.subrange(4 + head.len() as int, end) =~= record.content);
    assert(s.subrange(end, end + 4) =~= le_bytes(stored as nat, 4));
}

/// The frame of a well-formed record, followed by anything, decodes to the
/// record and leaves what follows.
pub proof fn lemma_record_round_trip(record: RecordView, rest: Seq<u8>)
    requires
        record.well_formed(),
    ensures
        parse_frame(record.bytes() + rest) == (FrameParse::Record {
            record,
            used: record.bytes().len(),
        }),
        record.bytes().len() == 4 + record.header.bytes().len() + record.content.len() + 4,
{
    let head = record.header.bytes();
    let sum = cksum(head + record.content);
    lemma_le_bytes_len(head.len(), 4);
    lemma_le_bytes_len(sum as nat, 4);
    lemma_frame_verdict(record, sum, rest);
}

/// The end mark, followed by anything, decodes as the end of the stream.
pub proof fn lemma_end_mark_ends_stream(rest: Seq<u8>)
    ensures
        parse_frame(end_mark_bytes() + rest) == FrameParse::End,
        end_mark_bytes().len() == 4,
{
    reveal(parse_frame);
    lemma_byte_range_values();
    lemma_le_bytes_len(0xFFFF_FFFF, 4);
    lemma_le_value_of_le_bytes(0xFFFF_FFFF, 4);
    assert((end_mark_bytes() + rest).subrange(0, 4) =~= end_mark_bytes());
}

/// Decoding undoes encoding: a stream made of well-formed records decodes
/// to exactly those records, whatever follows the end mark.
pub proof fn lemma_stream_round_trip(records: Seq<RecordView>, rest: Seq<u8>)
    requires
        all_well_formed(records),
    ensures
        parse_stream(stream_bytes(records) + rest) == (StreamParse::Done {
            records,
            used: stream_bytes(records).len(),
        }),
    decreases records.len(),
{
    let s = stream_bytes(records) + rest;
    if records.len() == 0 {
        assert(s =~= end_mark_bytes() + rest);
        lemma_end_mark_ends_stream(rest);
        assert(records =~= Seq::<RecordView>::empty());
    } else {
        let first = records[0];
        let others = records.drop_first();
        let tail = stream_bytes(others) + rest;
        assert(s =~= first.bytes() + tail);
        lemma_record_round_trip(first, tail);
        assert(s.skip(first.bytes().len() as int) =~= tail);
        lemma_stream_round_trip(others, rest);
        assert(seq![first] + others =~= records);
    }
}

/// There is no going on behind a broken frame: sound records followed by a
/// frame that is refused decode to those records and that refusal, whatever
/// the stream holds behind it.
pub proof fn lemma_stream_stops_at_first_failure(records: Seq<RecordView>, tail: Seq<u8>)
    requires
        all_well_formed(records),
        parse_frame(tail) is Failed,
    ensures
        parse_stream(records_bytes(records) + tail) == (StreamParse::Failed {
            records,
            error: parse_frame(tail)->error,
            pending: parse_frame(tail)->pending,
        }),
    decreases records.len(),
{
    let s = records_bytes(records) + tail;
    if records.len() == 0 {
        assert(s =~= tail);
        assert(records =~= Seq::<RecordView>::empty());
    } else {
        let first = records[0];
        let others = records.drop_first();
        let later = records_bytes(others) + tail;
        assert(s =~= first.bytes() + later);
        lemma_record_round_trip(first, later);
        assert(s.skip(first.bytes().len() as int) =~= later);
        lemma_stream_stops_at_first_failure(others, tail);
        assert(seq![first] + others =~= records);
    }
}

/// A stream that holds the end mark only decodes to no record, without
/// error.
pub proof fn lemma_empty_stream_has_no_record()
    ensures
        parse_stream(end_mark_bytes()) == (StreamParse::Done {
            records: Seq::<RecordView>::empty(),
            used: 4,
        }),
{
    lemma_end_mark_ends_stream(Seq::empty());
    assert(end_mark_bytes() + Seq::<u8>::empty() =~= end_mark_bytes());
}

/// A frame is accepted only where its stored checksum is that of its header
/// bytes and content: no frame whose bytes between length and checksum were
/// altered to another checksum decodes to a record.
pub proof fn lemma_mismatch_never_accepted(s: Seq<u8>, used: nat)
    requires
        8 <= used <= s.len(),
        le_value(s.subrange(used - 4, used as int)) != cksum(s.subrange(4, used - 4)),
    ensures
        !(parse_frame(s) matches FrameParse::Record { record, used: taken } && taken == used),
{
    lemma_parse_frame_record(s);
}

/// Content altered after encoding surfaces as a checksum error for the
/// record it belongs to, provided the checksum tells the two contents apart.
pub proof fn lemma_altered_content_detected(record: RecordView, altered: Seq<u8>, rest: Seq<u8>)
    requires
        record.well_formed(),
        altered.len() == record.content.len(),
        cksum(record.header.bytes() + altered) != cksum(record.header.bytes() + record.content),
    ensures
        parse_frame(
            le_bytes(record.header.bytes().len(), 4) + record.header.bytes() + altered + le_bytes(
                cksum(record.header.bytes() + record.content) as nat,
                4,
            ) + rest,
        ) == (FrameParse::Failed { error: SyncError::Checksum, pending: Some(record.header) }),
{
    lemma_frame_verdict(
        RecordView { header: record.header, content: altered },
        cksum(record.header.bytes() + record.content),
        rest,
    );
}

/// The records of a list as mathematical values.
pub open spec fn record_views(list: Seq<Record>) -> Seq<RecordView> {
    list.map_values(|r: Record| r@)
}

/// A stream that broke before its end mark.
#[derive(Debug)]
pub struct ReceiveFailure {
    pub error: SyncError,
    /// The records that were sound before the fault.
    pub records: Vec<Record>,
    /// Header of the object whose writing was under way, to be rolled back.
    pub pending: Option<Header>,
}

/// A decoding that the transport cut short: `records` were decoded from the
/// front of the stream `s`, one after the other, and `pending`, where there
/// is one, is the header of the frame that stands behind them.
pub open spec fn interrupted(
    s: Seq<u8>,
    records: Seq<RecordView>,
    pending: Option<HeaderView>,
) -> bool {
    exists|pos: nat|
        {
            &&& pos <= s.len()
            &&& parse_stream(s) == prepend_records(
                records,
                pos,
                parse_stream(#[trigger] s.skip(pos as int)),
            )
            &&& pending is Some ==> frame_header(s.skip(pos as int)) == pending
        }
}

/// Decodes a transfer stream: record after record until the end mark. The
/// first broken frame ends the decoding; there is no going on behind it.
/// The result is what `parse_stream` says of the bytes that the stream had
/// left, and on success the stream stands behind the end mark. Where the
/// transport itself fails, the failure holds the records decoded before
/// the fault and the header of the frame under way, if it had been read.
pub fn receive<R: TryReadExact>(reader: &mut R) -> (r: Result<Vec<Record>, ReceiveFailure>)
    ensures
        final(reader).reliable() == old(reader).reliable(),
        match r {
            Ok(records) => parse_stream(old(reader).remaining()) matches StreamParse::Done {
                records: found,
                used,
            } && found == record_views(records@) && final(reader).remaining() == old(reader).remaining().skip(used as int),
            Err(failure) => parse_stream(old(reader).remaining()) == (StreamParse::Failed {
                records: record_views(failure.records@),
                error: failure.error,
                pending: pending_view(failure.pending),
            }) || {
                &&& !old(reader).reliable()
                &&& failure.error == SyncError::Io
                &&& interrupted(
                    old(reader).remaining(),
                    record_views(failure.records@),
                    pending_view(failure.pending),
                )
            },
        },
{
    let mut records: Vec<Record> = Vec::new();
    let ghost all = reader.remaining();
    let ghost mut pos: nat = 0;
    assert(all.skip(0) =~= all);
    loop
        invariant
            reader.reliable() == old(reader).reliable(),
            all == old(reader).remaining(),
            pos <= all.len(),
            reader.remaining() == all.skip(pos as int),
            parse_stream(all) == prepend_records(
                record_views(records@),
                pos,
                parse_stream(all.skip(pos as int)),
            ),
        decreases all.len() - pos,
    {
        let ghost rest = reader.remaining();
        let ghost before = record_views(records@);
        proof {
            lemma_parse_frame_record(rest);
        }
        match read_frame(reader) {
            Ok(Frame::End) => {
                proof {
                    assert(rest.len() >= 4) by {
                        reveal(parse_frame);
                    }
                    assert(before + Seq::<RecordView>::empty() =~= before);
                    assert(rest.skip(4) =~= all.skip((pos + 4) as int));
                }
                return Ok(records);
            },
            Ok(Frame::Record(record)) => {
                proof {
                    let used = parse_frame(rest)->Record_used;
                    assert(rest.skip(used as int) =~= all.skip((pos + used) as int));
                    let later = parse_stream(all.skip((pos + used) as int));
                    match later {
                        StreamParse::Done { records: more, used: _ } => {
                            assert((before + seq![record@]) + more =~= before + (seq![record@]
                                + more));
                        },
                        StreamParse::Failed { records: more, error: _, pending: _ } => {
                            assert((before + seq![record@]) + more =~= before + (seq![record@]
                                + more));
                        },
                    }
                    pos = pos + used;
                }
                records.push(record);
                assert(record_views(records@) =~= before + seq![record@]);
            },
            Err(failure) => {
                assert(before + Seq::<RecordView>::empty() =~= before);
                assert(rest == all.skip(pos as int));
                return Err(
                    ReceiveFailure { error: failure.error, records, pending: failure.pending },
                );
            },
        }
    }
}

/// What to do with the artifact of a record whose writing failed.
#[derive(Clone, Copy, Debug, PartialEq, Eq, Structural)]
pub enum Rollback {
    /// Nothing stands at the destination path, or what stands there stays.
    Keep,
    /// Delete the file.
    RemoveFile,
    /// Delete the directory, which is empty.
    RemoveDir,
}

/// One step of writing a record out below the destination.
#[derive(Clone, Copy, Debug, PartialEq, Eq, Structural)]
pub enum WriteStep {
    /// Create the directories above the destination path that are missing.
    MakeParents,
    /// Create or truncate the file and write the content into it.
    WriteContent,
    /// Create the directory, and those above it that are missing.
    MakeDirectory,
    /// Set the modification time of what was written from the header.
    SetMtime,
}

/// The steps that write a record out, in their order. The modification
/// time comes last: it is set once the object stands as it should.
pub open spec fn write_plan(file_type: FileType) -> Seq<WriteStep> {
    match file_type {
        FileType::RegularFile => seq![
            WriteStep::MakeParents,
            WriteStep::WriteContent,
            WriteStep::SetMtime,
        ],
        FileType::Directory => seq![WriteStep::MakeDirectory, WriteStep::SetMtime],
    }
}

/// Says how a record whose checksum held is written out.
pub fn write_steps(file_type: FileType) -> (steps: Vec<WriteStep>)
    ensures
        steps@ == write_plan(file_type),
{
    let mut steps: Vec<WriteStep> = Vec::new();
    match file_type {
        FileType::RegularFile => {
            steps.push(WriteStep::MakeParents);
            steps.push(WriteStep::WriteContent);
        },
        FileType::Directory => {
            steps.push(WriteStep::MakeDirectory);
        },
    }
    steps.push(WriteStep::SetMtime);
    assert(steps@ =~= write_plan(file_type));
    steps
}

impl Rollback {
    /// Whether something stands at the destination path once the action is
    /// done, given whether something stood there before.
    pub open spec fn leaves(self, exists: bool) -> bool {
        match self {
            Rollback::Keep => exists,
            Rollback::RemoveFile => false,
            Rollback::RemoveDir => false,
        }
    }
}

/// The rollback after a failed record: a regular file that exists is
/// deleted; a directory is deleted only if it exists and is empty.
pub open spec fn rollback_rule(file_type: FileType, exists: bool, empty_dir: bool) -> Rollback {
    match file_type {
        FileType::RegularFile => if exists {
            Rollback::RemoveFile
        } else {
            Rollback::Keep
        },
        FileType::Directory => if exists && empty_dir {
            Rollback::RemoveDir
        } else {
            Rollback::Keep
        },
    }
}

/// Decides the rollback after a failed record.
pub fn rollback_action(file_type: FileType, exists: bool, empty_dir: bool) -> (action: Rollback)
    ensures
        action == rollback_rule(file_type, exists, empty_dir),
{
    match file_type {
        FileType::RegularFile => if exists {
            Rollback::RemoveFile
        } else {
            Rollback::Keep
        },
        FileType::Directory => if exists && empty_dir {
            Rollback::RemoveDir
        } else {
            Rollback::Keep
        },
    }
}

/// A regular file whose record failed is never left partially written:
/// after the rollback nothing stands at its path.
pub proof fn lemma_rollback_leaves_no_file(exists: bool, empty_dir: bool)
    ensures
        !rollback_rule(FileType::RegularFile, exists, empty_dir).leaves(exists),
{
}

/// The rollback never deletes a directory that holds something.
pub proof fn lemma_rollback_spares_filled_directories(file_type: FileType, exists: bool)
    ensures
        rollback_rule(file_type, exists, false) != Rollback::RemoveDir,
{
}

impl SendItemView {
    /// The records that the item puts on the stream: one, or none where the
    /// item is passed over.
    pub open spec fn records(self) -> Seq<RecordView> {
        if self.path.len() == 0 {
            Seq::empty()
        } else {
            match self.source.record(self.path) {
                Some(record) => seq![record],
                None => Seq::empty(),
            }
        }
    }

    /// The item can be sent and read back: it is passed over, or its record
    /// is well formed.
    pub open spec fn sendable(self) -> bool {
        forall|k: int| 0 <= k < self.records().len() ==> (#[trigger] self.records()[k]).well_formed()
    }
}

/// The records that the first `n` items of a list put on the stream.
pub open spec fn sent_records(items: Seq<SendItemView>, n: nat) -> Seq<RecordView>
    decreases n,
{
    if n == 0 {
        Seq::empty()
    } else {
        sent_records(items, (n - 1) as nat) + items[n - 1].records()
    }
}

/// The frames of two lists of records joined are the frames of the one
/// followed by the frames of the other.
pub proof fn lemma_records_bytes_concat(first: Seq<RecordView>, second: Seq<RecordView>)
    ensures
        records_bytes(first + second) == records_bytes(first) + records_bytes(second),
    decreases first.len(),
{
    if first.len() == 0 {
        assert(first + second =~= second);
        assert(records_bytes(first) + records_bytes(second) =~= records_bytes(second));
    } else {
        let all = first + second;
        assert(all.drop_first() =~= first.drop_first() + second);
        lemma_records_bytes_concat(first.drop_first(), second);
        assert(all[0] == first[0]);
        assert(records_bytes(all) =~= records_bytes(first) + records_bytes(second));
    }
}

/// What a sender writes for sendable items is the frames of their records.
pub proof fn lemma_sent_bytes_are_frames(items: Seq<SendItemView>, n: nat)
    requires
        n <= items.len(),
        forall|k: int| 0 <= k < n ==> (#[trigger] items[k]).sendable(),
    ensures
        forall|k: int| 0 <= k < n ==> (#[trigger] items[k]).sent() is Some,
        sent_bytes(items, n) == records_bytes(sent_records(items, n)),
        all_well_formed(sent_records(items, n)),
    decreases n,
{
    reveal(SourceView::sent);
    if n > 0 {
        lemma_sent_bytes_are_frames(items, (n - 1) as nat);
        let last = items[n - 1];
        assert(last.sendable());
        let before = sent_records(items, (n - 1) as nat);
        lemma_records_bytes_concat(before, last.records());
        if last.records().len() == 1 {
            let record = last.records()[0];
            assert(record.well_formed());
            assert(last.records().drop_first() =~= Seq::<RecordView>::empty());
            assert(records_bytes(last.records()) =~= record.bytes()) by {
                reveal_with_fuel(records_bytes, 2);
            }
        }
        assert forall|k: int| 0 <= k < n implies (#[trigger] items[k]).sent() is Some by {
            if k == n - 1 {
                assert(last.sendable());
            }
        }
    }
}

/// Sending and receiving agree: the stream that a sender writes for a list
/// of sendable items and then closes decodes to the records of those items,
/// in their order.
pub proof fn lemma_sent_stream_decodes(items: Seq<SendItemView>, rest: Seq<u8>)
    requires
        forall|k: int| 0 <= k < items.len() ==> (#[trigger] items[k]).sendable(),
    ensures
        parse_stream(sent_bytes(items, items.len()) + end_mark_bytes() + rest) == (
        StreamParse::Done {
            records: sent_records(items, items.len()),
            used: sent_bytes(items, items.len()).len() + 4,
        }),
{
    lemma_sent_bytes_are_frames(items, items.len());
    lemma_stream_round_trip(sent_records(items, items.len()), rest);
    lemma_end_mark_ends_stream(rest);
}


impl RecordView {
    /// What stands at the destination once the record is written out: its
    /// content, under the modification time of its header.
    pub open spec fn written(self) -> DestState {
        DestState::Present { size: self.content.len() as u64, modified: Some(self.header.mtime) }
    }
}

/// A file that was transferred is not selected again: where an entry and the
/// file behind it agree, the record sent for the file decodes on the other
/// side, and what is written out for it leaves the entry's destination in
/// sync, so that the next selection passes the entry over, whether
/// modification times are ignored or not.
pub proof fn lemma_transferred_file_is_in_sync(
    entry: EntryView,
    content: Seq<u8>,
    rest: Seq<u8>,
    ignore_mtime: bool,
)
    requires
        entry.encodable(),
        entry.path.len() > 0,
        content.len() == entry.size,
        content.len() <= usize::MAX,
        (SourceView::RegularFile { size: entry.size, mtime: entry.modified, content }).sent(
            entry.path,
        ) is Some,
    ensures
        ({
            let source = SourceView::RegularFile {
                size: entry.size,
                mtime: entry.modified,
                content,
            };
            let record = source.record(entry.path)->0;
            &&& parse_frame(source.sent(entry.path)->0 + rest) == (FrameParse::Record {
                record,
                used: record.bytes().len(),
            })
            &&& (CandidateView { entry, dest: record.written() }).in_sync()
            &&& (CandidateView { entry, dest: record.written() }).verdict(ignore_mtime) == Ok::<
                bool,
                SyncError,
            >(false)
        }),
{
    reveal(SourceView::sent);
    let source = SourceView::RegularFile { size: entry.size, mtime: entry.modified, content };
    let record = source.record(entry.path)->0;
    assert(record.well_formed());
    lemma_record_round_trip(record, rest);
}

} // verus!
