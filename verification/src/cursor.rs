//! The sequential byte source the decoder reads from.

use vstd::prelude::*;

use crate::LoadError;

verus! {

/// A forward-only cursor over an in-memory byte buffer.  The decoder
/// consumes bytes one at a time and never seeks backwards; after a decode
/// the cursor sits right after the consumed bytes, so several images can
/// be read back-to-back from one buffer.
pub struct ByteCursor {
    data: Vec<u8>,
    pos: usize,
}

impl ByteCursor {
    /// The whole underlying buffer.  It never changes.
    pub closed spec fn bytes(&self) -> Seq<u8> {
        self.data@
    }

    /// How many bytes have been consumed so far.
    pub closed spec fn position(&self) -> int {
        self.pos as int
    }

    /// The position never runs past the end of the buffer.
    pub open spec fn wf(&self) -> bool {
        0 <= self.position() <= self.bytes().len()
    }

    /// Wrap a buffer in a cursor positioned at its first byte.
    pub fn new(data: Vec<u8>) -> (c: Self)
        ensures
            c.bytes() == data@,
            c.position() == 0,
            c.wf(),
    {
        ByteCursor { data, pos: 0 }
    }

    /// How many bytes have been consumed so far.
    pub fn byte_position(&self) -> (n: usize)
        ensures
            n == self.position(),
    {
        self.pos
    }

    /// How many bytes are left to read.
    pub fn remaining_len(&self) -> (n: usize)
        requires
            self.wf(),
        ensures
            n == self.bytes().len() - self.position(),
    {
        self.data.len() - self.pos
    }

    /// Consume and return the next byte, or report that the input ended.
    pub fn read_byte(&mut self) -> (r: Result<u8, LoadError>)
        requires
            old(self).wf(),
        ensures
            final(self).wf(),
            final(self).bytes() == old(self).bytes(),
            if old(self).position() < old(self).bytes().len() {
                r == Ok::<u8, LoadError>(old(self).bytes()[old(self).position()])
                    && final(self).position() == old(self).position() + 1
            } else {
                r == Err::<u8, LoadError>(LoadError::Eof)
                    && final(self).position() == old(self).position()
            },
    {
        if self.pos < self.data.len() {
            let b = self.data[self.pos];
            self.pos = self.pos + 1;
            Ok(b)
        } else {
            Err(LoadError::Eof)
        }
    }
}

} // verus!
