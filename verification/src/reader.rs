//! The stream cursor that decoding consumes.
//!
//! A [`Reader`] owns a byte buffer and a single shared position.  Fields of a
//! record are read strictly in declaration order, so the position only ever
//! moves forward during a successful decode.  A decode that fails leaves the
//! position where its contract says; no look-ahead is ever performed.

use vstd::prelude::*;

verus! {

/// A runtime decode failure.
///
/// The only failure this layer can raise is running out of input: the source
/// holds fewer bytes than the value being decoded requires.  Schema problems
/// are reported separately, at descriptor-validation time, and never surface
/// here.
#[derive(Clone, Copy, PartialEq, Eq, Structural, Debug)]
pub enum DecodeError {
    /// The source ended before the value's full encoding was read.
    ShortRead,
}

/// An in-memory byte source with a single forward cursor.
pub struct Reader {
    bytes: Vec<u8>,
    pos: usize,
}

impl Reader {
    /// The whole underlying byte sequence.
    pub closed spec fn sdata(&self) -> Seq<u8> {
        self.bytes@
    }

    /// The cursor: how many bytes have been consumed so far.
    pub closed spec fn spos(&self) -> nat {
        self.pos as nat
    }

    /// The cursor never points past the end of the data.
    pub open spec fn wf(&self) -> bool {
        self.spos() <= self.sdata().len()
    }

    /// How many bytes are still unread.
    pub open spec fn remaining(&self) -> nat
        recommends
            self.wf(),
    {
        (self.sdata().len() - self.spos()) as nat
    }

    /// Wraps a byte buffer as a fresh source, with the cursor at the start.
    pub fn new(bytes: Vec<u8>) -> (r: Reader)
        ensures
            r.wf(),
            r.sdata() == bytes@,
            r.spos() == 0,
    {
        Reader { bytes, pos: 0 }
    }

    /// The current cursor position.
    pub fn position(&self) -> (p: usize)
        ensures
            p as nat == self.spos(),
    {
        self.pos
    }

    /// How many bytes are still unread.
    pub fn remaining_len(&self) -> (n: usize)
        requires
            self.wf(),
        ensures
            n as nat == self.remaining(),
    {
        self.bytes.len() - self.pos
    }

    /// The unread byte `i` places ahead of the cursor, without consuming it.
    pub fn peek(&self, i: usize) -> (b: u8)
        requires
            self.wf(),
            i < self.remaining(),
        ensures
            b == self.sdata()[self.spos() + i],
    {
        let _len = self.bytes.len();
        self.bytes[self.pos + i]
    }

    /// Consumes the next `n` bytes.
    pub fn advance(&mut self, n: usize)
        requires
            old(self).wf(),
            n <= old(self).remaining(),
        ensures
            final(self).wf(),
            final(self).sdata() == old(self).sdata(),
            final(self).spos() == old(self).spos() + n,
    {
        let _len = self.bytes.len();
        self.pos = self.pos + n;
    }

    /// Moves the cursor to an absolute position, e.g. back to where a failed
    /// decode started.
    pub fn seek(&mut self, p: usize)
        requires
            old(self).wf(),
            p as nat <= old(self).sdata().len(),
        ensures
            final(self).wf(),
            final(self).sdata() == old(self).sdata(),
            final(self).spos() == p as nat,
    {
        self.pos = p;
    }
}

} // verus!
