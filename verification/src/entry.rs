//! Index entries: what the source knows of one file, and how entries and
//! lists of entries are laid out on the wire.

use crate::bytes::byte_range;
use crate::bytes::byte_string;
use crate::bytes::decode_u32;
use crate::bytes::decode_u64;
use crate::bytes::encode_u32;
use crate::bytes::encode_u64;
use crate::bytes::lemma_byte_string_round_trip;
use crate::bytes::lemma_parse_byte_string_bounds;
use crate::bytes::lemma_parse_varint_bounds;
use crate::bytes::lemma_varint_round_trip;
use crate::bytes::Parse;
use crate::bytes::parse_byte_string;
use crate::bytes::parse_varint;
use crate::bytes::varint;
use crate::bytes::WireError;
use crate::unix_path::is_relative_path;
use crate::unix_path::UnixPath;
use vstd::prelude::*;
use vstd::slice::slice_subrange;

verus! {

/// Nanoseconds in one second.
pub const NANOS_PER_SEC: u32 = 1_000_000_000;

/// A modification time: whole seconds since the Unix epoch and the
/// nanoseconds of the second begun.
#[derive(Clone, Copy, Debug, PartialEq, Eq, Structural)]
pub struct Timestamp {
    pub secs: u64,
    pub nanos: u32,
}

impl Timestamp {
    /// The nanoseconds stay below one second.
    pub open spec fn well_formed(self) -> bool {
        self.nanos < 1_000_000_000
    }

    /// The wire form: seconds, then nanoseconds, each of variable length.
    pub open spec fn bytes(self) -> Seq<u8> {
        varint(self.secs as nat) + varint(self.nanos as nat)
    }

    /// The time `secs` seconds and `nanos` nanoseconds after the epoch, with
    /// whole seconds among the nanoseconds carried over; none where the
    /// seconds would pass `u64::MAX`.
    pub open spec fn carried(secs: nat, nanos: nat) -> Option<Timestamp> {
        if secs + nanos / 1_000_000_000 > u64::MAX {
            None
        } else {
            Some(
                Timestamp {
                    secs: (secs + nanos / 1_000_000_000) as u64,
                    nanos: (nanos % 1_000_000_000) as u32,
                },
            )
        }
    }

    /// Decoding of a time: seconds in up to eight bytes, nanoseconds in up
    /// to four, and the carry applied.
    #[verifier::opaque]
    pub open spec fn parse(s: Seq<u8>) -> Parse<Timestamp> {
        match parse_varint(s, 8) {
            Parse::Done { value: secs, used } => match parse_varint(s.skip(used as int), 4) {
                Parse::Done { value: nanos, used: more } => match Timestamp::carried(secs, nanos) {
                    Some(t) => Parse::Done { value: t, used: used + more },
                    None => Parse::Malformed,
                },
                Parse::Truncated => Parse::Truncated,
                Parse::Malformed => Parse::Malformed,
            },
            Parse::Truncated => Parse::Truncated,
            Parse::Malformed => Parse::Malformed,
        }
    }

    /// Builds a time, carrying whole seconds out of `nanos`.
    pub fn new(secs: u64, nanos: u32) -> (t: Option<Timestamp>)
        ensures
            t == Timestamp::carried(secs as nat, nanos as nat),
            t matches Some(made) ==> made.well_formed(),
    {
        let carry: u64 = (nanos / NANOS_PER_SEC) as u64;
        if secs > u64::MAX - carry {
            None
        } else {
            Some(Timestamp { secs: secs + carry, nanos: nanos % NANOS_PER_SEC })
        }
    }

    /// Writes the time in its wire form.
    pub fn encode(&self) -> (out: Vec<u8>)
        ensures
            out@ == self.bytes(),
    {
        let mut out = encode_u64(self.secs);
        let mut tail = encode_u32(self.nanos);
        out.append(&mut tail);
        out
    }

    /// Reads a time from the front of `src`, with the number of bytes taken.
    pub fn decode(src: &[u8]) -> (r: Result<(Timestamp, usize), WireError>)
        ensures
            match r {
                Ok((t, used)) => Timestamp::parse(src@) == (Parse::Done {
                    value: t,
                    used: used as nat,
                }) && t.well_formed(),
                Err(e) => Timestamp::parse(src@) == e.as_parse::<Timestamp>(),
            },
    {
        proof {
            reveal(Timestamp::parse);
        }
        let (secs, used) = match decode_u64(src) {
            Ok(found) => found,
            Err(e) => { return Err(e); },
        };
        proof {
            lemma_parse_varint_bounds(src@, 8);
        }
        let rest = slice_subrange(src, used, src.len());
        let (nanos, more) = match decode_u32(rest) {
            Ok(found) => found,
            Err(e) => { return Err(e); },
        };
        proof {
            lemma_parse_varint_bounds(rest@, 4);
        }
        match Timestamp::new(secs, nanos) {
            Some(t) => Ok((t, used + more)),
            None => Err(WireError::Malformed),
        }
    }
}

/// An encoded time followed by anything decodes to itself.
pub proof fn lemma_timestamp_round_trip(t: Timestamp, rest: Seq<u8>)
    requires
        t.well_formed(),
    ensures
        Timestamp::parse(t.bytes() + rest) == (Parse::Done { value: t, used: t.bytes().len() }),
        2 <= t.bytes().len() <= 14,
{
    reveal(Timestamp::parse);
    reveal_with_fuel(byte_range, 9);
    let head = varint(t.secs as nat);
    let tail = varint(t.nanos as nat);
    let s = t.bytes() + rest;
    assert(s =~= head + (tail + rest));
    lemma_varint_round_trip(t.secs as nat, 8, tail + rest);
    assert(s.skip(head.len() as int) =~= tail + rest);
    lemma_varint_round_trip(t.nanos as nat, 4, rest);
}

/// What the index records of one file.
#[derive(Debug)]
pub struct Entry {
    /// Path of the file below the indexed root.
    pub path: UnixPath,
    /// Size of the file in bytes.
    pub size: u64,
    /// When the file was last modified.
    pub modified: Timestamp,
}

/// An entry as a mathematical value.
pub struct EntryView {
    pub path: Seq<u8>,
    pub size: u64,
    pub modified: Timestamp,
}

impl View for Entry {
    type V = EntryView;

    open spec fn view(&self) -> EntryView {
        EntryView { path: self.path@, size: self.size, modified: self.modified }
    }
}

impl Clone for Entry {
    fn clone(&self) -> (copy: Self)
        ensures
            copy@ == self@,
    {
        Entry { path: self.path.clone(), size: self.size, modified: self.modified }
    }
}

impl EntryView {
    /// The entry can be written and read back: its path is no longer than a
    /// length field can say and its time is well formed.
    pub open spec fn encodable(self) -> bool {
        self.path.len() <= u64::MAX && self.modified.well_formed()
    }

    /// The entry names a file below the root.
    pub open spec fn well_formed(self) -> bool {
        is_relative_path(self.path) && self.encodable()
    }

    /// The wire form: path, size, modification time.
    pub open spec fn bytes(self) -> Seq<u8> {
        byte_string(self.path) + varint(self.size as nat) + self.modified.bytes()
    }

    /// Decoding of one entry.
    #[verifier::opaque]
    pub open spec fn parse(s: Seq<u8>) -> Parse<EntryView> {
        match parse_byte_string(s) {
            Parse::Done { value: path, used } => match parse_varint(s.skip(used as int), 8) {
                Parse::Done { value: size, used: more } => match Timestamp::parse(
                    s.skip((used + more) as int),
                ) {
                    Parse::Done { value: modified, used: last } => Parse::Done {
                        value: EntryView { path, size: size as u64, modified },
                        used: used + more + last,
                    },
                    Parse::Truncated => Parse::Truncated,
                    Parse::Malformed => Parse::Malformed,
                },
                Parse::Truncated => Parse::Truncated,
                Parse::Malformed => Parse::Malformed,
            },
            Parse::Truncated => Parse::Truncated,
            Parse::Malformed => Parse::Malformed,
        }
    }
}

/// A parsed time lies within the bytes it was parsed from and is well formed.
pub proof fn lemma_parse_timestamp_bounds(s: Seq<u8>)
    ensures
        Timestamp::parse(s) matches Parse::Done { value, used } ==> 2 <= used <= s.len()
            && value.well_formed(),
{
    reveal(Timestamp::parse);
    lemma_parse_varint_bounds(s, 8);
    let first = parse_varint(s, 8);
    if first is Done {
        lemma_parse_varint_bounds(s.skip(first->used as int), 4);
    }
}

/// A parsed entry lies within the bytes it was parsed from and can be
/// written again.
pub proof fn lemma_parse_entry_bounds(s: Seq<u8>)
    ensures
        EntryView::parse(s) matches Parse::Done { value, used } ==> 4 <= used <= s.len()
            && value.encodable(),
{
    reveal(EntryView::parse);
    lemma_parse_byte_string_bounds(s);
    let path = parse_byte_string(s);
    if path is Done {
        let after_path = s.skip(path->used as int);
        lemma_parse_varint_bounds(after_path, 8);
        let size = parse_varint(after_path, 8);
        if size is Done {
            lemma_parse_timestamp_bounds(s.skip((path->used + size->used) as int));
        }
    }
}

/// An encoded entry followed by anything decodes to itself and leaves what
/// follows.
pub proof fn lemma_entry_round_trip(e: EntryView, rest: Seq<u8>)
    requires
        e.encodable(),
    ensures
        EntryView::parse(e.bytes() + rest) == (Parse::Done { value: e, used: e.bytes().len() }),
        e.bytes().len() >= 4,
{
    reveal(EntryView::parse);
    reveal_with_fuel(byte_range, 9);
    let p = byte_string(e.path);
    let z = varint(e.size as nat);
    let m = e.modified.bytes();
    let s = e.bytes() + rest;
    assert(s =~= p + (z + m + rest));
    lemma_byte_string_round_trip(e.path, z + m + rest);
    assert(s.skip(p.len() as int) =~= z + (m + rest));
    lemma_varint_round_trip(e.size as nat, 8, m + rest);
    assert(s.skip((p.len() + z.len()) as int) =~= m + rest);
    lemma_timestamp_round_trip(e.modified, rest);
}

impl Entry {
    /// Writes the entry in its wire form.
    pub fn encode(&self) -> (out: Vec<u8>)
        ensures
            out@ == self@.bytes(),
    {
        let mut out = self.path.encode();
        let mut size = encode_u64(self.size);
        let mut modified = self.modified.encode();
        out.append(&mut size);
        out.append(&mut modified);
        out
    }

    /// Reads an entry from the front of `src`, with the number of bytes
    /// taken.
    pub fn decode(src: &[u8]) -> (r: Result<(Entry, usize), WireError>)
        ensures
            match r {
                Ok((entry, used)) => EntryView::parse(src@) == (Parse::Done {
                    value: entry@,
                    used: used as nat,
                }),
                Err(e) => EntryView::parse(src@) == e.as_parse::<EntryView>(),
            },
    {
        proof {
            reveal(EntryView::parse);
        }
        let (path, used) = match UnixPath::decode(src) {
            Ok(found) => found,
            Err(e) => { return Err(e); },
        };
        proof {
            lemma_parse_byte_string_bounds(src@);
        }
        let after_path = slice_subrange(src, used, src.len());
        let (size, more) = match decode_u64(after_path) {
            Ok(found) => found,
            Err(e) => { return Err(e); },
        };
        proof {
            lemma_parse_varint_bounds(after_path@, 8);
        }
        let after_size = slice_subrange(src, used + more, src.len());
        let (modified, last) = match Timestamp::decode(after_size) {
            Ok(found) => found,
            Err(e) => { return Err(e); },
        };
        proof {
            lemma_parse_timestamp_bounds(after_size@);
        }
        Ok((Entry { path, size, modified }, used + more + last))
    }
}


/// The entries of a list as mathematical values.
pub open spec fn entry_views(list: Seq<Entry>) -> Seq<EntryView> {
    list.map_values(|e: Entry| e@)
}

/// The wire forms of the entries, one after the other.
pub open spec fn entries_bytes(entries: Seq<EntryView>) -> Seq<u8>
    decreases entries.len(),
{
    if entries.len() == 0 {
        Seq::empty()
    } else {
        entries[0].bytes() + entries_bytes(entries.drop_first())
    }
}

/// The wire form of a list of entries: their number, then the entries.
pub open spec fn entry_list_bytes(entries: Seq<EntryView>) -> Seq<u8> {
    varint(entries.len()) + entries_bytes(entries)
}

/// Decoding of `count` entries that stand one after the other.
pub open spec fn parse_entries(s: Seq<u8>, count: nat) -> Parse<Seq<EntryView>>
    decreases count,
{
    if count == 0 {
        Parse::Done { value: Seq::empty(), used: 0 }
    } else {
        match EntryView::parse(s) {
            Parse::Done { value: first, used } => prepend_entries(
                seq![first],
                used,
                parse_entries(s.skip(used as int), (count - 1) as nat),
            ),
            Parse::Truncated => Parse::Truncated,
            Parse::Malformed => Parse::Malformed,
        }
    }
}

/// The parse `later`, made after `before` had been read from `used` bytes.
pub open spec fn prepend_entries(
    before: Seq<EntryView>,
    used: nat,
    later: Parse<Seq<EntryView>>,
) -> Parse<Seq<EntryView>> {
    match later {
        Parse::Done { value, used: more } => Parse::Done {
            value: before + value,
            used: used + more,
        },
        Parse::Truncated => Parse::Truncated,
        Parse::Malformed => Parse::Malformed,
    }
}

/// Decoding of a list of entries: a count, then that many entries.
pub open spec fn parse_entry_list(s: Seq<u8>) -> Parse<Seq<EntryView>> {
    match parse_varint(s, 8) {
        Parse::Done { value: count, used } => prepend_entries(
            Seq::empty(),
            used,
            parse_entries(s.skip(used as int), count),
        ),
        Parse::Truncated => Parse::Truncated,
        Parse::Malformed => Parse::Malformed,
    }
}

/// Every entry of the list is well formed: it names a file below the root
/// and can be written and read back.
pub open spec fn all_entries_well_formed(entries: Seq<EntryView>) -> bool {
    forall|i: int| 0 <= i < entries.len() ==> (#[trigger] entries[i]).well_formed()
}

/// Every entry of the list can be written and read back.
pub open spec fn all_encodable(entries: Seq<EntryView>) -> bool {
    forall|i: int| 0 <= i < entries.len() ==> (#[trigger] entries[i]).encodable()
}

/// Entries written one after the other, followed by anything, decode to
/// themselves and leave what follows.
pub proof fn lemma_entries_round_trip(entries: Seq<EntryView>, rest: Seq<u8>)
    requires
        all_encodable(entries),
    ensures
        parse_entries(entries_bytes(entries) + rest, entries.len()) == (Parse::Done {
            value: entries,
            used: entries_bytes(entries).len(),
        }),
    decreases entries.len(),
{
    if entries.len() > 0 {
        let first = entries[0];
        let others = entries.drop_first();
        let s = entries_bytes(entries) + rest;
        assert(s =~= first.bytes() + (entries_bytes(others) + rest));
        lemma_entry_round_trip(first, entries_bytes(others) + rest);
        assert(s.skip(first.bytes().len() as int) =~= entries_bytes(others) + rest);
        lemma_entries_round_trip(others, rest);
        assert(seq![first] + others =~= entries);
    } else {
        assert(entries =~= Seq::<EntryView>::empty());
    }
}

/// An encoded list followed by anything decodes to the same list.
pub proof fn lemma_entry_list_round_trip(entries: Seq<EntryView>, rest: Seq<u8>)
    requires
        all_encodable(entries),
        entries.len() <= u64::MAX,
    ensures
        parse_entry_list(entry_list_bytes(entries) + rest) == (Parse::Done {
            value: entries,
            used: entry_list_bytes(entries).len(),
        }),
{
    reveal_with_fuel(byte_range, 9);
    let head = varint(entries.len());
    let s = entry_list_bytes(entries) + rest;
    assert(s =~= head + (entries_bytes(entries) + rest));
    lemma_varint_round_trip(entries.len(), 8, entries_bytes(entries) + rest);
    assert(s.skip(head.len() as int) =~= entries_bytes(entries) + rest);
    lemma_entries_round_trip(entries, rest);
    assert(Seq::<EntryView>::empty() + entries =~= entries);
}

/// Writes a list of entries in its wire form.
pub fn encode_entry_list(list: &Vec<Entry>) -> (out: Vec<u8>)
    ensures
        out@ == entry_list_bytes(entry_views(list@)),
{
    let mut out = encode_u64(list.len() as u64);
    let ghost head = out@;
    let ghost views = entry_views(list@);
    let mut i: usize = 0;
    assert(views.skip(0) =~= views);
    while i < list.len()
        invariant
            i <= list.len(),
            views == entry_views(list@),
            out@ + entries_bytes(views.skip(i as int)) == head + entries_bytes(views),
        decreases list.len() - i,
    {
        let mut item = list[i].encode();
        proof {
            let left = views.skip(i as int);
            assert(left.drop_first() =~= views.skip(i + 1));
            assert(left[0] == list@[i as int]@);
            assert((out@ + item@) + entries_bytes(views.skip(i + 1)) =~= out@ + entries_bytes(
                left,
            ));
        }
        out.append(&mut item);
        i += 1;
    }
    assert(out@ =~= head + entries_bytes(views));
    out
}

/// Reads a list of entries from the front of `src`, with the number of bytes
/// taken.
pub fn decode_entry_list(src: &[u8]) -> (r: Result<(Vec<Entry>, usize), WireError>)
    ensures
        match r {
            Ok((list, used)) => parse_entry_list(src@) == (Parse::Done {
                value: entry_views(list@),
                used: used as nat,
            }),
            Err(e) => parse_entry_list(src@) == e.as_parse::<Seq<EntryView>>(),
        },
{
    let (count, used) = match decode_u64(src) {
        Ok(found) => found,
        Err(e) => { return Err(e); },
    };
    proof {
        lemma_parse_varint_bounds(src@, 8);
    }
    let ghost body = src@.skip(used as int);
    let mut list: Vec<Entry> = Vec::new();
    let mut pos: usize = used;
    let mut i: u64 = 0;
    assert(Seq::<EntryView>::empty() + entry_views(list@) =~= entry_views(list@));
    while i < count
        invariant
            i <= count,
            used <= pos <= src@.len(),
            body == src@.skip(used as int),
            parse_varint(src@, 8) == (Parse::Done { value: count as nat, used: used as nat }),
            parse_entries(body, count as nat) == prepend_entries(
                entry_views(list@),
                (pos - used) as nat,
                parse_entries(src@.skip(pos as int), (count - i) as nat),
            ),
        decreases count - i,
    {
        let rest = slice_subrange(src, pos, src.len());
        let ghost before = entry_views(list@);
        match Entry::decode(rest) {
            Ok((entry, taken)) => {
                proof {
                    lemma_parse_entry_bounds(rest@);
                    assert(rest@.skip(taken as int) =~= src@.skip(pos + taken));
                    let later = parse_entries(src@.skip(pos + taken), (count - i - 1) as nat);
                    if later is Done {
                        assert((before + seq![entry@]) + later->value =~= before + (seq![entry@]
                            + later->value));
                    }
                }
                list.push(entry);
                assert(entry_views(list@) =~= before + seq![entry@]);
                pos += taken;
                i += 1;
            },
            Err(e) => {
                proof {
                    assert(rest@ =~= src@.skip(pos as int));
                    assert(parse_entries(src@.skip(pos as int), (count - i) as nat)
                        == e.as_parse::<Seq<EntryView>>());
                    assert(parse_entries(body, count as nat) == e.as_parse::<Seq<EntryView>>());
                }
                return Err(e);
            },
        }
    }
    assert(entry_views(list@) + Seq::<EntryView>::empty() =~= entry_views(list@));
    assert(Seq::<EntryView>::empty() + entry_views(list@) =~= entry_views(list@));
    Ok((list, pos))
}

} // verus!
