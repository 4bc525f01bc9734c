//! A seekable stream of bytes held in memory, read through a cursor.

use vstd::prelude::*;

verus! {

/// A position that lies beyond the end of the stream.
#[derive(Clone, Copy, Debug, PartialEq, Eq, Structural)]
pub struct SeekError {
    pub offset: u64,
}

/// The bytes of a stream and the cursor from which the next read starts.
#[derive(Debug)]
pub struct ByteStream {
    data: Vec<u8>,
    pos: usize,
}

impl ByteStream {
    #[verifier::type_invariant]
    spec fn cursor_in_bounds(self) -> bool {
        self.pos <= self.data@.len()
    }

    /// All bytes of the stream, whatever the cursor.
    pub closed spec fn bytes(&self) -> Seq<u8> {
        self.data@
    }

    /// The cursor: the number of bytes that lie before the next read.
    pub closed spec fn cursor(&self) -> nat {
        self.pos as nat
    }

    /// The bytes from the cursor to the end.
    pub open spec fn rest(&self) -> Seq<u8> {
        self.bytes().skip(self.cursor() as int)
    }

    /// A stream over `data` with the cursor at its start.
    pub fn new(data: Vec<u8>) -> (r: Self)
        ensures
            r.bytes() == data@,
            r.cursor() == 0,
    {
        ByteStream { data, pos: 0 }
    }

    /// The length of the stream in bytes.
    pub fn len(&self) -> (r: usize)
        ensures
            r == self.bytes().len(),
    {
        self.data.len()
    }

    /// The cursor.
    pub fn position(&self) -> (r: usize)
        ensures
            r == self.cursor(),
            r <= self.bytes().len(),
    {
        proof {
            use_type_invariant(self);
        }
        self.pos
    }

    /// Moves the cursor to `offset` bytes from the start. A position beyond
    /// the end is refused, and the cursor then stays where it was.
    pub fn seek(&mut self, offset: u64) -> (r: Result<(), SeekError>)
        ensures
            final(self).bytes() == old(self).bytes(),
            offset <= old(self).bytes().len() ==> r is Ok && final(self).cursor() == offset,
            offset > old(self).bytes().len() ==> r == Err::<(), _>(SeekError { offset })
                && final(self).cursor() == old(self).cursor(),
    {
        if offset > self.data.len() as u64 {
            Err(SeekError { offset })
        } else {
            self.pos = offset as usize;
            Ok(())
        }
    }

    /// Moves the cursor back to the start.
    pub fn rewind(&mut self)
        ensures
            final(self).bytes() == old(self).bytes(),
            final(self).cursor() == 0,
    {
        self.pos = 0;
    }

    /// The bytes from the cursor to the end, without moving the cursor.
    pub fn fill_buf(&self) -> (r: &[u8])
        ensures
            r@ == self.rest(),
            self.cursor() + r@.len() == self.bytes().len(),
    {
        proof {
            use_type_invariant(self);
        }
        vstd::slice::slice_subrange(self.data.as_slice(), self.pos, self.data.len())
    }

    /// Moves the cursor forward over `amount` bytes, or to the end of the
    /// stream where fewer are left.
    pub fn consume(&mut self, amount: usize)
        ensures
            final(self).bytes() == old(self).bytes(),
            final(self).cursor() == if amount <= old(self).rest().len() {
                old(self).cursor() + amount
            } else {
                old(self).bytes().len() as int
            },
    {
        let len = self.data.len();
        proof {
            use_type_invariant(&*self);
            assert(self.rest().len() == len - self.pos);
        }
        if amount <= len - self.pos {
            self.pos = self.pos + amount;
        } else {
            self.pos = len;
        }
    }

    /// Gives the bytes back.
    pub fn into_inner(self) -> (r: Vec<u8>)
        ensures
            r@ == self.bytes(),
    {
        self.data
    }
}

} // verus!
