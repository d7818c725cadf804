//! Paths as they travel on the wire: exact bytes, with `/` as the only
//! separator and no demand that they be valid UTF-8.

use crate::bytes::byte_string;
use crate::bytes::decode_byte_string;
use crate::bytes::encode_byte_string;
use crate::bytes::Parse;
use crate::bytes::parse_byte_string;
use crate::bytes::WireError;
use vstd::prelude::*;
use vstd::slice::slice_to_vec;

verus! {

/// A path held as its bytes.
#[derive(Debug)]
pub struct UnixPath(pub Vec<u8>);

impl View for UnixPath {
    type V = Seq<u8>;

    open spec fn view(&self) -> Seq<u8> {
        self.0@
    }
}

/// A path names something below a root: it is not empty and does not start
/// at the file system's root.
pub open spec fn is_relative_path(path: Seq<u8>) -> bool {
    path.len() > 0 && path[0] != 0x2F
}

impl Clone for UnixPath {
    fn clone(&self) -> (copy: Self)
        ensures
            copy@ == self@,
    {
        UnixPath(slice_to_vec(self.0.as_slice()))
    }
}

impl UnixPath {
    /// The path made of exactly these bytes.
    pub fn from_bytes(bytes: &[u8]) -> (path: Self)
        ensures
            path@ == bytes@,
    {
        UnixPath(slice_to_vec(bytes))
    }

    /// The bytes of the path.
    pub fn to_bytes(&self) -> (bytes: &[u8])
        ensures
            bytes@ == self@,
    {
        self.0.as_slice()
    }

    /// Whether the path has no component at all.
    pub fn is_empty(&self) -> (empty: bool)
        ensures
            empty == (self@.len() == 0),
    {
        self.0.len() == 0
    }

    /// The wire form of the path: its bytes as a byte string.
    pub fn encode(&self) -> (out: Vec<u8>)
        ensures
            out@ == byte_string(self@),
    {
        encode_byte_string(self.0.as_slice())
    }

    /// Reads a path from the front of `src`, with the number of bytes taken.
    pub fn decode(src: &[u8]) -> (r: Result<(UnixPath, usize), WireError>)
        ensures
            match r {
                Ok((path, used)) => parse_byte_string(src@) == (Parse::Done {
                    value: path@,
                    used: used as nat,
                }),
                Err(e) => parse_byte_string(src@) == e.as_parse::<Seq<u8>>(),
            },
    {
        match decode_byte_string(src) {
            Ok((bytes, used)) => Ok((UnixPath(bytes), used)),
            Err(e) => Err(e),
        }
    }
}

} // verus!
