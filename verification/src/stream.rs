//! A forward-only reader over the bytes of a capture.

use vstd::prelude::*;
use vstd::slice::slice_subrange;

verus! {

/// A position in a borrowed byte sequence. Reads move the position forward
/// and never past the end.
pub struct ByteStream<'a> {
    input: &'a [u8],
    pos: usize,
}

/// What an exact read of `n` bytes found.
pub enum ReadOutcome<'a> {
    /// All `n` bytes were there; they have been consumed.
    Full(&'a [u8]),
    /// Some bytes were left, but fewer than `n`.
    Partial,
    /// The stream was already exhausted and `n` was not zero.
    NoData,
}

impl<'a> ByteStream<'a> {
    #[verifier::type_invariant]
    spec fn in_bounds(self) -> bool {
        self.pos <= self.input@.len()
    }

    /// All the bytes that the stream reads from, consumed or not.
    pub closed spec fn source(&self) -> Seq<u8> {
        self.input@
    }

    /// How many bytes have been consumed.
    pub closed spec fn offset(&self) -> nat {
        self.pos as nat
    }

    /// A stream at the start of `input`.
    pub fn new(input: &'a [u8]) -> (stream: Self)
        ensures
            stream.source() == input@,
            stream.offset() == 0,
    {
        ByteStream { input, pos: 0 }
    }

    /// The number of bytes consumed so far.
    pub fn position(&self) -> (pos: usize)
        ensures
            pos == self.offset(),
            pos <= self.source().len(),
    {
        proof {
            use_type_invariant(self);
        }
        self.pos
    }

    /// The number of bytes not yet consumed.
    pub fn remaining(&self) -> (left: usize)
        ensures
            left == self.source().len() - self.offset(),
    {
        proof {
            use_type_invariant(self);
        }
        self.input.len() - self.pos
    }

    /// Reads exactly `n` bytes. With at least `n` bytes left they are handed
    /// out and consumed. Otherwise nothing is handed out and the stream is
    /// left exhausted; the outcome tells a stream that had nothing left from
    /// one that had too little.
    pub fn read_exact(&mut self, n: usize) -> (outcome: ReadOutcome<'a>)
        ensures
            final(self).source() == old(self).source(),
            old(self).offset() <= old(self).source().len(),
            match outcome {
                ReadOutcome::Full(chunk) => {
                    &&& old(self).offset() + n <= old(self).source().len()
                    &&& final(self).offset() == old(self).offset() + n
                    &&& chunk@ == old(self).source().subrange(
                        old(self).offset() as int,
                        old(self).offset() + n,
                    )
                },
                ReadOutcome::Partial => {
                    &&& old(self).offset() < old(self).source().len() < old(self).offset() + n
                    &&& final(self).offset() == old(self).source().len()
                },
                ReadOutcome::NoData => {
                    &&& 0 < n
                    &&& old(self).offset() == old(self).source().len()
                    &&& final(self).offset() == old(self).source().len()
                },
            },
    {
        proof {
            use_type_invariant(&*self);
        }
        let left: usize = self.input.len() - self.pos;
        if n <= left {
            let chunk = slice_subrange(self.input, self.pos, self.pos + n);
            self.pos = self.pos + n;
            ReadOutcome::Full(chunk)
        } else if left == 0 {
            ReadOutcome::NoData
        } else {
            self.pos = self.input.len();
            ReadOutcome::Partial
        }
    }
}

} // verus!
