//! Reading an exact number of bytes from a stream that gives its bytes in
//! pieces and may end early.

use crate::error::SyncError;
use vstd::prelude::*;
use vstd::slice::slice_subrange;
use vstd::slice::slice_to_vec;

verus! {

/// The shorter of two lengths.
pub open spec fn shorter(a: int, b: int) -> int {
    if a <= b {
        a
    } else {
        b
    }
}

/// A stream of bytes that gives, at each reading, some of the bytes asked
/// for.
pub trait ReadSome {
    /// The bytes that the stream has yet to give.
    spec fn remaining(&self) -> Seq<u8>;

    /// Whether reading from the stream never fails: it gives bytes until it
    /// ends.
    spec fn reliable(&self) -> bool;

    /// Reads at most `max` bytes from the front of the stream. It gives no
    /// byte only where none was asked for or the stream has ended. A failure
    /// of the transport is reported as an I/O error.
    fn read_some(&mut self, max: usize) -> (r: Result<Vec<u8>, SyncError>)
        ensures
            final(self).reliable() == old(self).reliable(),
            match r {
                Ok(bytes) => {
                    &&& bytes@.len() <= max
                    &&& bytes@ == old(self).remaining().take(bytes@.len() as int)
                    &&& final(self).remaining() == old(self).remaining().skip(bytes@.len() as int)
                    &&& bytes@.len() <= old(self).remaining().len()
                    &&& bytes@.len() == 0 <==> (max == 0 || old(self).remaining().len() == 0)
                },
                Err(e) => e == SyncError::Io && !old(self).reliable(),
            },
    ;
}

/// A stream from which an exact number of bytes can be asked.
pub trait TryReadExact: ReadSome {
    /// Reads `len` bytes, reading again for as long as bytes are missing and
    /// the stream gives some. The result is shorter than `len` only where
    /// the stream ended: then it holds what was left, which may be nothing.
    /// A failure of the transport is reported as an I/O error.
    fn try_read_exact(&mut self, len: usize) -> (r: Result<Vec<u8>, SyncError>)
        ensures
            final(self).reliable() == old(self).reliable(),
            match r {
                Ok(bytes) => {
                    &&& bytes@ == old(self).remaining().take(
                        shorter(len as int, old(self).remaining().len() as int),
                    )
                    &&& final(self).remaining() == old(self).remaining().skip(bytes@.len() as int)
                },
                Err(e) => e == SyncError::Io && !old(self).reliable(),
            },
    ;
}

impl<R: ReadSome> TryReadExact for R {
    fn try_read_exact(&mut self, len: usize) -> (r: Result<Vec<u8>, SyncError>) {
        let ghost all = self.remaining();
        let mut read: Vec<u8> = Vec::new();
        assert(all.skip(0) =~= all);
        assert(read@ =~= all.take(0));
        while read.len() < len
            invariant
                self.reliable() == old(self).reliable(),
                all == old(self).remaining(),
                read@.len() <= len,
                read@.len() <= all.len(),
                read@ == all.take(read@.len() as int),
                self.remaining() == all.skip(read@.len() as int),
            decreases len - read@.len(),
        {
            let ghost before = read@;
            let mut piece = match self.read_some(len - read.len()) {
                Ok(piece) => piece,
                Err(e) => {
                    return Err(e);
                },
            };
            if piece.len() == 0 {
                assert(read@.len() == all.len());
                return Ok(read);
            }
            proof {
                let next = before.len() + piece@.len();
                assert(before + piece@ =~= all.take(next as int));
                assert(all.skip(before.len() as int).skip(piece@.len() as int) =~= all.skip(
                    next as int,
                ));
            }
            read.append(&mut piece);
        }
        Ok(read)
    }
}

/// A stream over bytes held in memory, which gives them in pieces of a
/// length set when it is made.
pub struct ByteSource<'a> {
    data: &'a [u8],
    pos: usize,
    piece: usize,
}

impl<'a> ByteSource<'a> {
    /// The position is within the bytes, and a piece holds a byte at least.
    #[verifier::type_invariant]
    spec fn within(&self) -> bool {
        self.pos <= self.data@.len() && self.piece >= 1
    }

    /// A stream that gives `data` from its first byte on, as many bytes at
    /// a reading as are asked for.
    pub fn new(data: &'a [u8]) -> (source: Self)
        ensures
            source.remaining() == data@,
            source.reliable(),
    {
        assert(data@.skip(0) =~= data@);
        ByteSource { data, pos: 0, piece: usize::MAX }
    }

    /// A stream that gives `data` from its first byte on, at most `piece`
    /// bytes at a reading, and one byte where `piece` is zero.
    pub fn in_pieces(data: &'a [u8], piece: usize) -> (source: Self)
        ensures
            source.remaining() == data@,
            source.reliable(),
    {
        assert(data@.skip(0) =~= data@);
        ByteSource {
            data,
            pos: 0,
            piece: if piece == 0 {
                1
            } else {
                piece
            },
        }
    }

    /// Number of bytes not yet read.
    pub fn available(&self) -> (count: usize)
        ensures
            count == self.remaining().len(),
    {
        proof {
            use_type_invariant(self);
        }
        self.data.len() - self.pos
    }
}

impl<'a> ReadSome for ByteSource<'a> {
    closed spec fn remaining(&self) -> Seq<u8> {
        self.data@.skip(self.pos as int)
    }

    open spec fn reliable(&self) -> bool {
        true
    }

    fn read_some(&mut self, max: usize) -> (r: Result<Vec<u8>, SyncError>) {
        proof {
            use_type_invariant(&*self);
        }
        let available: usize = self.data.len() - self.pos;
        let mut taken: usize = if max <= available {
            max
        } else {
            available
        };
        if taken > self.piece {
            taken = self.piece;
        }
        let bytes = slice_to_vec(slice_subrange(self.data, self.pos, self.pos + taken));
        proof {
            let before = self.data@.skip(self.pos as int);
            assert(bytes@ =~= before.take(taken as int));
            assert(self.data@.skip(self.pos + taken) =~= before.skip(taken as int));
        }
        self.pos = self.pos + taken;
        Ok(bytes)
    }
}

} // verus!
