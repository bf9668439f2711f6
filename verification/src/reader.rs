use vstd::prelude::*;
use vstd::slice::slice_subrange;
use crate::error::ProtocolError;

verus! {

/// A read position in a borrowed run of bytes.
///
/// Reading never changes the bytes, only the position, and a read that fails
/// leaves the position where it was.
pub struct Reader<'a> {
    buf: &'a [u8],
    pos: usize,
}

impl<'a> Reader<'a> {
    #[verifier::type_invariant]
    spec fn in_bounds(self) -> bool {
        self.pos <= self.buf@.len()
    }

    /// All the bytes, read or not.
    pub closed spec fn bytes(&self) -> Seq<u8> {
        self.buf@
    }

    /// How many bytes have been read. It is never more than there are, which
    /// is written out here so that it holds of every value of the type.
    pub closed spec fn position(&self) -> int {
        if self.pos <= self.buf@.len() {
            self.pos as int
        } else {
            self.buf@.len() as int
        }
    }

    /// The bytes not yet read.
    pub open spec fn remaining(&self) -> Seq<u8> {
        self.bytes().skip(self.position())
    }

    /// What is left after reading on is what was left before, less the bytes
    /// read in between.
    pub proof fn lemma_remaining_after(self, later: Reader<'a>)
        requires
            later.bytes() == self.bytes(),
            later.position() >= self.position(),
        ensures
            later.remaining() == self.remaining().skip(later.position() - self.position()),
    {
        assert(later.remaining() =~= self.remaining().skip(later.position() - self.position()));
    }

    /// A reader at the start of `buf`.
    pub fn new(buf: &'a [u8]) -> (r: Self)
        ensures
            r.bytes() == buf@,
            r.position() == 0,
    {
        Reader { buf, pos: 0 }
    }

    /// The number of bytes read so far.
    pub fn consumed(&self) -> (n: usize)
        ensures
            n == self.position(),
            n <= self.bytes().len(),
    {
        proof {
            use_type_invariant(self);
        }
        self.pos
    }

    /// The number of bytes left to read.
    pub fn remaining_len(&self) -> (n: usize)
        ensures
            n == self.remaining().len(),
            n == self.bytes().len() - self.position(),
    {
        proof {
            use_type_invariant(self);
        }
        self.buf.len() - self.pos
    }

    /// The byte `offset` places after the position, if there is one.
    pub fn peek(&self, offset: usize) -> (b: Option<u8>)
        ensures
            b == if offset < self.remaining().len() {
                Some(self.remaining()[offset as int])
            } else {
                None
            },
    {
        proof {
            use_type_invariant(self);
        }
        if offset < self.buf.len() - self.pos {
            Some(self.buf[self.pos + offset])
        } else {
            None
        }
    }

    /// Moves the position `n` bytes on.
    pub fn advance(&mut self, n: usize)
        requires
            n <= old(self).remaining().len(),
        ensures
            final(self).bytes() == old(self).bytes(),
            final(self).position() == old(self).position() + n,
    {
        proof {
            use_type_invariant(&*self);
            assert(self.buf@.skip(self.pos as int).len() == self.buf@.len() - self.pos);
        }
        let len = self.buf.len();
        assert(self.pos + n <= len);
        self.pos = self.pos + n;
    }

    /// Moves the position `n` bytes back.
    pub fn advance_back(&mut self, n: usize)
        requires
            n <= old(self).position(),
        ensures
            final(self).bytes() == old(self).bytes(),
            final(self).position() == old(self).position() - n,
    {
        proof {
            use_type_invariant(&*self);
        }
        self.pos = self.pos - n;
    }

    /// Reads the next `n` bytes, or fails with `TruncatedRead` where fewer are left.
    pub fn take(&mut self, n: usize) -> (res: Result<&'a [u8], ProtocolError>)
        ensures
            final(self).bytes() == old(self).bytes(),
            n <= old(self).remaining().len() ==> {
                &&& res is Ok
                &&& res->Ok_0@ == old(self).remaining().take(n as int)
                &&& final(self).position() == old(self).position() + n
            },
            n > old(self).remaining().len() ==> {
                &&& res == Err::<&[u8], ProtocolError>(ProtocolError::TruncatedRead)
                &&& final(self).position() == old(self).position()
            },
    {
        proof {
            use_type_invariant(&*self);
        }
        if n > self.buf.len() - self.pos {
            return Err(ProtocolError::TruncatedRead);
        }
        let out = slice_subrange(self.buf, self.pos, self.pos + n);
        assert(out@ == self.buf@.skip(self.pos as int).take(n as int));
        self.pos = self.pos + n;
        Ok(out)
    }
}

} // verus!
