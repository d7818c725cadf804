//! Little-endian integers and the variable-length integer encoding that the
//! wire formats are built from.

use vstd::prelude::*;
use vstd::slice::slice_subrange;
use vstd::slice::slice_to_vec;
use vstd::utf8::decode_utf8;
use vstd::utf8::encode_utf8;
use vstd::utf8::valid_utf8;

verus! {

/// The `width` low-order bytes of `value`, least significant first.
pub open spec fn le_bytes(value: nat, width: nat) -> Seq<u8>
    decreases width,
{
    if width == 0 {
        Seq::empty()
    } else {
        seq![(value % 256) as u8] + le_bytes(value / 256, (width - 1) as nat)
    }
}

/// The number whose little-endian bytes are `bytes`.
pub open spec fn le_value(bytes: Seq<u8>) -> nat
    decreases bytes.len(),
{
    if bytes.len() == 0 {
        0
    } else {
        bytes[0] as nat + 256 * le_value(bytes.drop_first())
    }
}

/// `256` to the power `width`.
pub open spec fn byte_range(width: nat) -> nat
    decreases width,
{
    if width == 0 {
        1
    } else {
        256 * byte_range((width - 1) as nat)
    }
}

/// The ranges of four and of eight bytes.
pub proof fn lemma_byte_range_values()
    ensures
        byte_range(2) == 0x1_0000,
        byte_range(4) == 0x1_0000_0000,
        byte_range(8) == 0x1_0000_0000_0000_0000,
{
    reveal_with_fuel(byte_range, 9);
}

/// The little-endian form of `width` bytes has `width` bytes.
pub proof fn lemma_le_bytes_len(value: nat, width: nat)
    ensures
        le_bytes(value, width).len() == width,
    decreases width,
{
    if width > 0 {
        lemma_le_bytes_len(value / 256, (width - 1) as nat);
    }
}

/// Reading back the little-endian bytes of a value that fits gives the value.
pub proof fn lemma_le_value_of_le_bytes(value: nat, width: nat)
    requires
        value < byte_range(width),
    ensures
        le_value(le_bytes(value, width)) == value,
    decreases width,
{
    if width > 0 {
        let rest = le_bytes(value / 256, (width - 1) as nat);
        let all = le_bytes(value, width);
        assert(all.drop_first() =~= rest);
        assert(value / 256 < byte_range((width - 1) as nat)) by (nonlinear_arith)
            requires
                value < 256 * byte_range((width - 1) as nat),
        ;
        lemma_le_value_of_le_bytes(value / 256, (width - 1) as nat);
    }
}

/// Writing out the value of a byte string gives the byte string back.
pub proof fn lemma_le_bytes_of_le_value(bytes: Seq<u8>)
    ensures
        le_bytes(le_value(bytes), bytes.len()) == bytes,
        le_value(bytes) < byte_range(bytes.len()),
    decreases bytes.len(),
{
    if bytes.len() > 0 {
        let tail = bytes.drop_first();
        lemma_le_bytes_of_le_value(tail);
        let v = le_value(bytes);
        let t = le_value(tail);
        assert(v % 256 == bytes[0] as nat && v / 256 == t) by (nonlinear_arith)
            requires
                v == bytes[0] as nat + 256 * t,
                (bytes[0] as nat) < 256,
        ;
        assert(le_bytes(v, bytes.len()) =~= bytes);
        assert(v < 256 * byte_range(tail.len())) by (nonlinear_arith)
            requires
                v == bytes[0] as nat + 256 * t,
                (bytes[0] as nat) < 256,
                t < byte_range(tail.len()),
        ;
    }
}

/// What decoding a value from the front of a byte string gives: the value and
/// the number of bytes it took, or the reason why there is none.
pub enum Parse<V> {
    /// A value stands at the front and takes `used` bytes.
    Done { value: V, used: nat },
    /// The bytes end before the value does; more bytes could complete it.
    Truncated,
    /// No continuation of the bytes is the encoding of a value.
    Malformed,
}

/// Why an encoded value could not be decoded.
#[derive(Clone, Copy, Debug, PartialEq, Eq, Structural)]
pub enum WireError {
    /// The input ends before the value does.
    Truncated,
    /// The input is not the encoding of a value.
    Malformed,
}

impl WireError {
    /// The failed parse that this error reports.
    pub open spec fn as_parse<V>(self) -> Parse<V> {
        match self {
            WireError::Truncated => Parse::Truncated,
            WireError::Malformed => Parse::Malformed,
        }
    }
}

/// The variable-length encoding of an unsigned integer below `2^64`: values up
/// to 250 are one byte; larger ones are a marker byte followed by the value in
/// the narrowest of two, four or eight little-endian bytes.
pub open spec fn varint(value: nat) -> Seq<u8> {
    if value <= 250 {
        seq![value as u8]
    } else if value <= 0xFFFF {
        seq![251u8] + le_bytes(value, 2)
    } else if value <= 0xFFFF_FFFF {
        seq![252u8] + le_bytes(value, 4)
    } else {
        seq![253u8] + le_bytes(value, 8)
    }
}

/// Number of payload bytes that follow a marker byte; zero for a byte that is
/// no marker.
pub open spec fn marker_width(marker: u8) -> nat {
    if marker == 251 {
        2
    } else if marker == 252 {
        4
    } else if marker == 253 {
        8
    } else {
        0
    }
}

/// Decoding of a variable-length integer into a type of `max_width` bytes. A
/// first byte up to 250 is the value. A marker is followed by that many
/// little-endian bytes, whatever value they hold; a marker wider than the
/// type, and the bytes 254 and 255, are refused.
#[verifier::opaque]
pub open spec fn parse_varint(s: Seq<u8>, max_width: nat) -> Parse<nat> {
    if s.len() == 0 {
        Parse::Truncated
    } else if s[0] <= 250 {
        Parse::Done { value: s[0] as nat, used: 1 }
    } else if marker_width(s[0]) == 0 || marker_width(s[0]) > max_width {
        Parse::Malformed
    } else if s.len() < 1 + marker_width(s[0]) {
        Parse::Truncated
    } else {
        Parse::Done {
            value: le_value(s.subrange(1, 1 + marker_width(s[0]) as int)),
            used: 1 + marker_width(s[0]),
        }
    }
}

/// A variable-length integer followed by anything decodes to itself and
/// leaves what follows, provided the type is wide enough for it.
pub proof fn lemma_varint_round_trip(value: nat, max_width: nat, rest: Seq<u8>)
    requires
        value < byte_range(max_width),
        max_width == 4 || max_width == 8,
    ensures
        parse_varint(varint(value) + rest, max_width) == (Parse::Done {
            value,
            used: varint(value).len(),
        }),
        1 <= varint(value).len() <= 1 + max_width,
{
    reveal(parse_varint);
    reveal_with_fuel(byte_range, 9);
    let s = varint(value) + rest;
    if value <= 250 {
        assert(s[0] == value as u8);
    } else {
        let w: nat = if value <= 0xFFFF {
            2
        } else if value <= 0xFFFF_FFFF {
            4
        } else {
            8
        };
        lemma_le_bytes_len(value, w);
        assert(marker_width(s[0]) == w);
        assert(s.subrange(1, 1 + w as int) =~= le_bytes(value, w));
        lemma_le_value_of_le_bytes(value, w);
    }
}

/// Calls `bincode::encode_to_vec` on a `u64`, with variable-length integers
/// in little-endian order. Trusted: the bytes are `varint` of the value, as
/// the crate's `varint_encode_u64` writes them.
#[verifier::external_body]
fn bincode_encode_u64(value: u64) -> (out: Vec<u8>)
    ensures
        out@ == varint(value as nat),
{
    bincode::encode_to_vec(value, bincode::config::standard().with_variable_int_encoding()).unwrap()
}

/// Calls `bincode::encode_to_vec` on a `u32`, with variable-length integers
/// in little-endian order. Trusted: the bytes are `varint` of the value, as
/// the crate's `varint_encode_u32` writes them.
#[verifier::external_body]
fn bincode_encode_u32(value: u32) -> (out: Vec<u8>)
    ensures
        out@ == varint(value as nat),
{
    bincode::encode_to_vec(value, bincode::config::standard().with_variable_int_encoding()).unwrap()
}

/// Calls `bincode::decode_from_slice` for a `u64`, under the same
/// configuration. Trusted: it succeeds exactly where `parse_varint` for
/// eight bytes does, with that value and that count of bytes read, as the
/// crate's `varint_decode_u64` reads them.
#[verifier::external_body]
fn bincode_decode_u64(src: &[u8]) -> (found: Option<(u64, usize)>)
    ensures
        match found {
            Some((value, used)) => parse_varint(src@, 8) == (Parse::Done {
                value: value as nat,
                used: used as nat,
            }),
            None => !(parse_varint(src@, 8) is Done),
        },
{
    bincode::decode_from_slice(src, bincode::config::standard().with_variable_int_encoding()).ok()
}

/// Calls `bincode::decode_from_slice` for a `u32`, under the same
/// configuration. Trusted: it succeeds exactly where `parse_varint` for four
/// bytes does, with that value and that count of bytes read, as the crate's
/// `varint_decode_u32` reads them.
#[verifier::external_body]
fn bincode_decode_u32(src: &[u8]) -> (found: Option<(u32, usize)>)
    ensures
        match found {
            Some((value, used)) => parse_varint(src@, 4) == (Parse::Done {
                value: value as nat,
                used: used as nat,
            }),
            None => !(parse_varint(src@, 4) is Done),
        },
{
    bincode::decode_from_slice(src, bincode::config::standard().with_variable_int_encoding()).ok()
}

/// Calls `byteorder::WriteBytesExt::write_u32` in little-endian order on a
/// vector. Trusted: the four little-endian bytes of the value are appended.
#[verifier::external_body]
fn byteorder_write_u32(out: &mut Vec<u8>, value: u32)
    ensures
        final(out)@ == old(out)@ + le_bytes(value as nat, 4),
{
    byteorder::WriteBytesExt::write_u32::<byteorder::LE>(out, value).unwrap()
}

/// Calls `byteorder::ByteOrder::read_u32` in little-endian order. Trusted:
/// the result is the value of the first four bytes. The call panics on a
/// shorter slice, which `requires` leaves out.
#[verifier::external_body]
fn byteorder_read_u32(src: &[u8]) -> (value: u32)
    requires
        src@.len() >= 4,
    ensures
        value as nat == le_value(src@.subrange(0, 4)),
{
    <byteorder::LE as byteorder::ByteOrder>::read_u32(src)
}

/// Why `src` holds no variable-length integer of at most `max_width` bytes.
fn varint_failure(src: &[u8], max_width: u8) -> (e: WireError)
    requires
        !(parse_varint(src@, max_width as nat) is Done),
        max_width == 4 || max_width == 8,
    ensures
        parse_varint(src@, max_width as nat) == e.as_parse::<nat>(),
{
    proof {
        reveal(parse_varint);
    }
    if src.len() == 0 {
        WireError::Truncated
    } else {
        let first: u8 = src[0];
        if first > 253 || (first == 253 && max_width < 8) {
            WireError::Malformed
        } else {
            WireError::Truncated
        }
    }
}

/// Encodes a `u64` as a variable-length integer.
pub fn encode_u64(value: u64) -> (out: Vec<u8>)
    ensures
        out@ == varint(value as nat),
{
    bincode_encode_u64(value)
}

/// Encodes a `u32` as a variable-length integer.
pub fn encode_u32(value: u32) -> (out: Vec<u8>)
    ensures
        out@ == varint(value as nat),
{
    bincode_encode_u32(value)
}

/// Decodes a variable-length `u64` from the front of `src`, returning the
/// value and the number of bytes it took.
pub fn decode_u64(src: &[u8]) -> (r: Result<(u64, usize), WireError>)
    ensures
        match r {
            Ok((value, used)) => parse_varint(src@, 8) == (Parse::Done {
                value: value as nat,
                used: used as nat,
            }),
            Err(e) => parse_varint(src@, 8) == e.as_parse::<nat>(),
        },
{
    match bincode_decode_u64(src) {
        Some(found) => Ok(found),
        None => Err(varint_failure(src, 8)),
    }
}

/// Decodes a variable-length `u32` from the front of `src`, returning the
/// value and the number of bytes it took.
pub fn decode_u32(src: &[u8]) -> (r: Result<(u32, usize), WireError>)
    ensures
        match r {
            Ok((value, used)) => parse_varint(src@, 4) == (Parse::Done {
                value: value as nat,
                used: used as nat,
            }),
            Err(e) => parse_varint(src@, 4) == e.as_parse::<nat>(),
        },
{
    match bincode_decode_u32(src) {
        Some(found) => Ok(found),
        None => Err(varint_failure(src, 4)),
    }
}

/// Appends the four little-endian bytes of `value` to `out`.
pub fn write_u32_le(out: &mut Vec<u8>, value: u32)
    ensures
        final(out)@ == old(out)@ + le_bytes(value as nat, 4),
{
    byteorder_write_u32(out, value)
}

/// Reads a little-endian `u32` from the front of `src`, or `None` where
/// `src` holds fewer than four bytes.
pub fn read_u32_le(src: &[u8]) -> (value: Option<u32>)
    ensures
        src@.len() < 4 ==> value is None,
        src@.len() >= 4 ==> value == Some(le_value(src@.subrange(0, 4)) as u32),
        src@.len() >= 4 ==> le_value(src@.subrange(0, 4)) <= u32::MAX,
{
    if src.len() < 4 {
        None
    } else {
        proof {
            lemma_le_bytes_of_le_value(src@.subrange(0, 4));
            reveal_with_fuel(byte_range, 5);
        }
        Some(byteorder_read_u32(src))
    }
}

/// The encoding of a truth value: one byte, 1 for true and 0 for false.
pub open spec fn bool_bytes(b: bool) -> Seq<u8> {
    seq![if b { 1u8 } else { 0u8 }]
}

/// Decoding of a truth value: the bytes 0 and 1 only.
pub open spec fn parse_bool(s: Seq<u8>) -> Parse<bool> {
    if s.len() == 0 {
        Parse::Truncated
    } else if s[0] == 0 {
        Parse::Done { value: false, used: 1 }
    } else if s[0] == 1 {
        Parse::Done { value: true, used: 1 }
    } else {
        Parse::Malformed
    }
}

/// The encoding of a byte string: its length as a variable-length integer,
/// then the bytes.
pub open spec fn byte_string(data: Seq<u8>) -> Seq<u8> {
    varint(data.len()) + data
}

/// Decoding of a byte string: a length that fits in eight bytes, then that
/// many bytes.
#[verifier::opaque]
pub open spec fn parse_byte_string(s: Seq<u8>) -> Parse<Seq<u8>> {
    match parse_varint(s, 8) {
        Parse::Done { value: len, used } => {
            if s.len() - used < len {
                Parse::Truncated
            } else {
                Parse::Done { value: s.subrange(used as int, (used + len) as int), used: used + len }
            }
        },
        Parse::Truncated => Parse::Truncated,
        Parse::Malformed => Parse::Malformed,
    }
}

/// Decoding of a text: a byte string that is valid UTF-8.
#[verifier::opaque]
pub open spec fn parse_text(s: Seq<u8>) -> Parse<Seq<char>> {
    match parse_byte_string(s) {
        Parse::Done { value, used } => {
            if valid_utf8(value) {
                Parse::Done { value: decode_utf8(value), used }
            } else {
                Parse::Malformed
            }
        },
        Parse::Truncated => Parse::Truncated,
        Parse::Malformed => Parse::Malformed,
    }
}

/// A successful parse never takes more bytes than there are.
pub proof fn lemma_parse_varint_bounds(s: Seq<u8>, max_width: nat)
    requires
        max_width == 4 || max_width == 8,
    ensures
        parse_varint(s, max_width) matches Parse::Done { value, used } ==> 1 <= used <= s.len()
            && used <= 1 + max_width && value < byte_range(max_width),
{
    reveal(parse_varint);
    reveal_with_fuel(byte_range, 9);
    if parse_varint(s, max_width) is Done && s[0] > 250 {
        lemma_le_bytes_of_le_value(s.subrange(1, 1 + marker_width(s[0]) as int));
    }
}

/// A parsed byte string lies within the bytes it was parsed from, and its
/// length fits a length field.
pub proof fn lemma_parse_byte_string_bounds(s: Seq<u8>)
    ensures
        parse_byte_string(s) matches Parse::Done { value, used } ==> 1 <= used <= s.len()
            && value.len() < used && value.len() <= u64::MAX,
{
    reveal(parse_byte_string);
    reveal_with_fuel(byte_range, 9);
    lemma_parse_varint_bounds(s, 8);
}

/// An encoded truth value followed by anything decodes to itself.
pub proof fn lemma_bool_round_trip(b: bool, rest: Seq<u8>)
    ensures
        parse_bool(bool_bytes(b) + rest) == (Parse::Done { value: b, used: 1 }),
{
}

/// An encoded byte string followed by anything decodes to itself and leaves
/// what follows.
pub proof fn lemma_byte_string_round_trip(data: Seq<u8>, rest: Seq<u8>)
    requires
        data.len() <= u64::MAX,
    ensures
        parse_byte_string(byte_string(data) + rest) == (Parse::Done {
            value: data,
            used: byte_string(data).len(),
        }),
{
    reveal(parse_byte_string);
    reveal_with_fuel(byte_range, 9);
    let head = varint(data.len());
    let s = byte_string(data) + rest;
    assert(s =~= head + (data + rest));
    lemma_varint_round_trip(data.len(), 8, data + rest);
    assert(s.subrange(head.len() as int, (head.len() + data.len()) as int) =~= data);
}

/// An encoded text followed by anything decodes to itself.
pub proof fn lemma_text_round_trip(text: Seq<char>, rest: Seq<u8>)
    requires
        encode_utf8(text).len() <= u64::MAX,
    ensures
        parse_text(byte_string(encode_utf8(text)) + rest) == (Parse::Done {
            value: text,
            used: byte_string(encode_utf8(text)).len(),
        }),
{
    reveal(parse_text);
    lemma_byte_string_round_trip(encode_utf8(text), rest);
    vstd::utf8::encode_utf8_valid_utf8(text);
    vstd::utf8::encode_utf8_decode_utf8(text);
}

/// Calls `String::from_utf8`. Trusted: it succeeds exactly on valid UTF-8,
/// and the text then holds the characters that the bytes encode.
#[verifier::external_body]
fn string_from_utf8(bytes: Vec<u8>) -> (text: Option<String>)
    ensures
        match text {
            Some(t) => valid_utf8(bytes@) && t@ == decode_utf8(bytes@),
            None => !valid_utf8(bytes@),
        },
{
    String::from_utf8(bytes).ok()
}

/// Encodes a truth value.
pub fn encode_bool(b: bool) -> (out: Vec<u8>)
    ensures
        out@ == bool_bytes(b),
{
    let mut out: Vec<u8> = Vec::new();
    out.push(if b { 1u8 } else { 0u8 });
    assert(out@ =~= bool_bytes(b));
    out
}

/// Decodes a truth value from the front of `src`.
pub fn decode_bool(src: &[u8]) -> (r: Result<(bool, usize), WireError>)
    ensures
        match r {
            Ok((value, used)) => parse_bool(src@) == (Parse::Done { value, used: used as nat }),
            Err(e) => parse_bool(src@) == e.as_parse::<bool>(),
        },
{
    if src.len() == 0 {
        Err(WireError::Truncated)
    } else if src[0] == 0 {
        Ok((false, 1))
    } else if src[0] == 1 {
        Ok((true, 1))
    } else {
        Err(WireError::Malformed)
    }
}

/// Encodes a byte string.
pub fn encode_byte_string(data: &[u8]) -> (out: Vec<u8>)
    ensures
        out@ == byte_string(data@),
{
    let mut out = encode_u64(data.len() as u64);
    let mut body = slice_to_vec(data);
    out.append(&mut body);
    out
}

/// Decodes a byte string from the front of `src`.
pub fn decode_byte_string(src: &[u8]) -> (r: Result<(Vec<u8>, usize), WireError>)
    ensures
        match r {
            Ok((value, used)) => parse_byte_string(src@) == (Parse::Done {
                value: value@,
                used: used as nat,
            }),
            Err(e) => parse_byte_string(src@) == e.as_parse::<Seq<u8>>(),
        },
{
    proof {
        reveal(parse_byte_string);
    }
    let (len, used) = match decode_u64(src) {
        Ok(found) => found,
        Err(e) => { return Err(e); },
    };
    proof {
        lemma_parse_varint_bounds(src@, 8);
    }
    let remaining: usize = src.len() - used;
    if len > remaining as u64 {
        return Err(WireError::Truncated);
    }
    let end: usize = used + len as usize;
    let value = slice_to_vec(slice_subrange(src, used, end));
    Ok((value, end))
}

/// Encodes a text as the byte string of its UTF-8 form.
pub fn encode_text(text: &str) -> (out: Vec<u8>)
    ensures
        out@ == byte_string(encode_utf8(text@)),
{
    encode_byte_string(text.as_bytes())
}

/// Decodes a text from the front of `src`.
pub fn decode_text(src: &[u8]) -> (r: Result<(String, usize), WireError>)
    ensures
        match r {
            Ok((value, used)) => parse_text(src@) == (Parse::Done {
                value: value@,
                used: used as nat,
            }),
            Err(e) => parse_text(src@) == e.as_parse::<Seq<char>>(),
        },
{
    proof {
        reveal(parse_text);
    }
    let (bytes, used) = match decode_byte_string(src) {
        Ok(found) => found,
        Err(e) => { return Err(e); },
    };
    match string_from_utf8(bytes) {
        Some(text) => Ok((text, used)),
        None => Err(WireError::Malformed),
    }
}

/// Whether two byte strings are equal.
pub fn same_bytes(left: &[u8], right: &[u8]) -> (same: bool)
    ensures
        same == (left@ == right@),
{
    if left.len() != right.len() {
        return false;
    }
    let mut i: usize = 0;
    while i < left.len()
        invariant
            i <= left.len(),
            left@.len() == right@.len(),
            forall|k: int| 0 <= k < i ==> left@[k] == right@[k],
        decreases left.len() - i,
    {
        if left[i] != right[i] {
            return false;
        }
        i += 1;
    }
    assert(left@ =~= right@);
    true
}

} // verus!
