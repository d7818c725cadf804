//! The handshake messages and their wire form.

use crate::bytes::bool_bytes;
use crate::bytes::byte_string;
use crate::bytes::decode_bool;
use crate::bytes::decode_text;
use crate::bytes::decode_u32;
use crate::bytes::encode_bool;
use crate::bytes::encode_text;
use crate::bytes::encode_u32;
use crate::bytes::lemma_bool_round_trip;
use crate::bytes::lemma_byte_range_values;
use crate::bytes::lemma_parse_byte_string_bounds;
use crate::bytes::lemma_parse_varint_bounds;
use crate::bytes::lemma_text_round_trip;
use crate::bytes::lemma_varint_round_trip;
use crate::bytes::Parse;
use crate::bytes::parse_bool;
use crate::bytes::parse_byte_string;
use crate::bytes::parse_text;
use crate::bytes::parse_varint;
use crate::bytes::same_bytes;
use crate::bytes::varint;
use crate::bytes::WireError;
use vstd::prelude::*;
use vstd::slice::slice_subrange;
use vstd::utf8::encode_utf8;

verus! {

/// Number of bytes of the magic token.
pub const MAGIC_LEN: usize = 11;

/// The magic token that opens a session: the bytes of `sync-stream`.
pub const MAGIC: [u8; 11] = [115, 121, 110, 99, 45, 115, 116, 114, 101, 97, 109];

/// The magic token as a sequence of bytes.
pub open spec fn magic_bytes() -> Seq<u8> {
    seq![115u8, 121u8, 110u8, 99u8, 45u8, 115u8, 116u8, 114u8, 101u8, 97u8, 109u8]
}

/// The magic token, to be written once by the side that opens the session.
pub fn magic() -> (token: Vec<u8>)
    ensures
        token@ == magic_bytes(),
{
    let mut token: Vec<u8> = Vec::new();
    let mut i: usize = 0;
    while i < MAGIC_LEN
        invariant
            i <= MAGIC_LEN,
            token@ == MAGIC@.take(i as int),
        decreases MAGIC_LEN - i,
    {
        token.push(MAGIC[i]);
        assert(token@ =~= MAGIC@.take(i + 1));
        i += 1;
    }
    assert(token@ =~= magic_bytes());
    token
}

/// Whether `bytes` are exactly the magic token.
pub fn is_magic(bytes: &[u8]) -> (yes: bool)
    ensures
        yes == (bytes@ == magic_bytes()),
{
    let token = magic();
    same_bytes(bytes, token.as_slice())
}

/// How the source is to index: the root to walk, and whether an object that
/// cannot be read is passed over or ends the indexing.
#[derive(Debug)]
pub struct SendConfig {
    pub path: String,
    /// Skip failures while indexing.
    pub skip_failed: bool,
}

/// A send configuration as a mathematical value.
pub struct SendConfigView {
    pub path: Seq<char>,
    pub skip_failed: bool,
}

impl View for SendConfig {
    type V = SendConfigView;

    open spec fn view(&self) -> SendConfigView {
        SendConfigView { path: self.path@, skip_failed: self.skip_failed }
    }
}

impl Clone for SendConfig {
    fn clone(&self) -> (copy: Self)
        ensures
            copy@ == self@,
    {
        SendConfig { path: self.path.clone(), skip_failed: self.skip_failed }
    }
}

impl SendConfigView {
    /// The wire form: the root as a text, then the flag.
    pub open spec fn bytes(self) -> Seq<u8> {
        byte_string(encode_utf8(self.path)) + bool_bytes(self.skip_failed)
    }

    /// Decoding of a send configuration.
    pub open spec fn parse(s: Seq<u8>) -> Parse<SendConfigView> {
        match parse_text(s) {
            Parse::Done { value: path, used } => match parse_bool(s.skip(used as int)) {
                Parse::Done { value: skip_failed, used: more } => Parse::Done {
                    value: SendConfigView { path, skip_failed },
                    used: used + more,
                },
                Parse::Truncated => Parse::Truncated,
                Parse::Malformed => Parse::Malformed,
            },
            Parse::Truncated => Parse::Truncated,
            Parse::Malformed => Parse::Malformed,
        }
    }
}

/// The two signals of the handshake.
#[derive(Debug)]
pub enum Message {
    /// The barrier that closes a phase.
    Okay,
    /// The request to index, with how to do it.
    StartIndexing(SendConfig),
}

/// A message as a mathematical value.
pub enum MessageView {
    Okay,
    StartIndexing(SendConfigView),
}

impl View for Message {
    type V = MessageView;

    open spec fn view(&self) -> MessageView {
        match self {
            Message::Okay => MessageView::Okay,
            Message::StartIndexing(config) => MessageView::StartIndexing(config@),
        }
    }
}

impl MessageView {
    /// The wire form: the tag of the message, 0 for `Okay` and 1 for
    /// `StartIndexing`, then what the message holds.
    pub open spec fn bytes(self) -> Seq<u8> {
        match self {
            MessageView::Okay => varint(0),
            MessageView::StartIndexing(config) => varint(1) + config.bytes(),
        }
    }

    /// Decoding of a message.
    #[verifier::opaque]
    pub open spec fn parse(s: Seq<u8>) -> Parse<MessageView> {
        match parse_varint(s, 4) {
            Parse::Done { value: tag, used } => if tag == 0 {
                Parse::Done { value: MessageView::Okay, used }
            } else if tag == 1 {
                match SendConfigView::parse(s.skip(used as int)) {
                    Parse::Done { value: config, used: more } => Parse::Done {
                        value: MessageView::StartIndexing(config),
                        used: used + more,
                    },
                    Parse::Truncated => Parse::Truncated,
                    Parse::Malformed => Parse::Malformed,
                }
            } else {
                Parse::Malformed
            },
            Parse::Truncated => Parse::Truncated,
            Parse::Malformed => Parse::Malformed,
        }
    }

    /// The message can be written and read back.
    pub open spec fn encodable(self) -> bool {
        match self {
            MessageView::Okay => true,
            MessageView::StartIndexing(config) => encode_utf8(config.path).len() <= u64::MAX,
        }
    }
}

/// An encoded send configuration followed by anything decodes to itself.
pub proof fn lemma_config_round_trip(config: SendConfigView, rest: Seq<u8>)
    requires
        encode_utf8(config.path).len() <= u64::MAX,
    ensures
        SendConfigView::parse(config.bytes() + rest) == (Parse::Done {
            value: config,
            used: config.bytes().len(),
        }),
{
    let p = byte_string(encode_utf8(config.path));
    let f = bool_bytes(config.skip_failed);
    let s = config.bytes() + rest;
    assert(s =~= p + (f + rest));
    lemma_text_round_trip(config.path, f + rest);
    assert(s.skip(p.len() as int) =~= f + rest);
    lemma_bool_round_trip(config.skip_failed, rest);
}

/// An encoded message followed by anything decodes to itself and leaves
/// what follows.
pub proof fn lemma_message_round_trip(message: MessageView, rest: Seq<u8>)
    requires
        message.encodable(),
    ensures
        MessageView::parse(message.bytes() + rest) == (Parse::Done {
            value: message,
            used: message.bytes().len(),
        }),
{
    reveal(MessageView::parse);
    lemma_byte_range_values();
    match message {
        MessageView::Okay => {
            lemma_varint_round_trip(0, 4, rest);
        },
        MessageView::StartIndexing(config) => {
            let s = message.bytes() + rest;
            assert(s =~= varint(1) + (config.bytes() + rest));
            lemma_varint_round_trip(1, 4, config.bytes() + rest);
            assert(s.skip(varint(1).len() as int) =~= config.bytes() + rest);
            lemma_config_round_trip(config, rest);
        },
    }
}

impl SendConfig {
    /// Writes the configuration in its wire form.
    pub fn encode(&self) -> (out: Vec<u8>)
        ensures
            out@ == self@.bytes(),
    {
        let mut out = encode_text(self.path.as_str());
        let mut flag = encode_bool(self.skip_failed);
        out.append(&mut flag);
        out
    }

    /// Reads a configuration from the front of `src`, with the number of
    /// bytes taken.
    pub fn decode(src: &[u8]) -> (r: Result<(SendConfig, usize), WireError>)
        ensures
            match r {
                Ok((config, used)) => SendConfigView::parse(src@) == (Parse::Done {
                    value: config@,
                    used: used as nat,
                }),
                Err(e) => SendConfigView::parse(src@) == e.as_parse::<SendConfigView>(),
            },
    {
        let (path, used) = match decode_text(src) {
            Ok(found) => found,
            Err(e) => { return Err(e); },
        };
        proof {
            reveal(parse_text);
            lemma_parse_byte_string_bounds(src@);
        }
        let rest = slice_subrange(src, used, src.len());
        let (skip_failed, more) = match decode_bool(rest) {
            Ok(found) => found,
            Err(e) => { return Err(e); },
        };
        Ok((SendConfig { path, skip_failed }, used + more))
    }
}

impl Message {
    /// Whether the message is the barrier `Okay`.
    pub fn is_ok(&self) -> (yes: bool)
        ensures
            yes == (self@ == MessageView::Okay),
    {
        match self {
            Message::Okay => true,
            Message::StartIndexing(_) => false,
        }
    }

    /// Writes the message in its wire form.
    pub fn encode(&self) -> (out: Vec<u8>)
        ensures
            out@ == self@.bytes(),
    {
        match self {
            Message::Okay => encode_u32(0),
            Message::StartIndexing(config) => {
                let mut out = encode_u32(1);
                let mut body = config.encode();
                out.append(&mut body);
                out
            },
        }
    }

    /// Reads a message from the front of `src`, with the number of bytes
    /// taken. `Truncated` says that `src` may be the beginning of a message:
    /// a reader may fetch more bytes and try again.
    pub fn decode(src: &[u8]) -> (r: Result<(Message, usize), WireError>)
        ensures
            match r {
                Ok((message, used)) => MessageView::parse(src@) == (Parse::Done {
                    value: message@,
                    used: used as nat,
                }),
                Err(e) => MessageView::parse(src@) == e.as_parse::<MessageView>(),
            },
    {
        proof {
            reveal(MessageView::parse);
        }
        let (tag, used) = match decode_u32(src) {
            Ok(found) => found,
            Err(e) => { return Err(e); },
        };
        proof {
            lemma_parse_varint_bounds(src@, 4);
        }
        if tag == 0 {
            Ok((Message::Okay, used))
        } else if tag == 1 {
            let rest = slice_subrange(src, used, src.len());
            match SendConfig::decode(rest) {
                Ok((config, more)) => {
                    proof {
                        reveal(parse_text);
                        reveal(parse_byte_string);
                        lemma_parse_byte_string_bounds(rest@);
                    }
                    Ok((Message::StartIndexing(config), used + more))
                },
                Err(e) => Err(e),
            }
        } else {
            Err(WireError::Malformed)
        }
    }
}

} // verus!
