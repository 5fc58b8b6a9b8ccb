//! Forward-only byte cursors over an in-memory source.
//!
//! A cursor exposes one byte of lookahead (`peek`), consumption (`next`,
//! `discard`) and the current offset. It is the only primitive that touches
//! the raw source; every other component is built on it.

use vstd::prelude::*;
use vstd::string::StringSliceAdditionalSpecFns;

verus! {

/// A forward-only cursor over a byte source.
///
/// The source itself never changes; the only mutable state is a single
/// monotonically increasing offset, which never moves backward.
pub trait Read {
    /// The whole byte source the cursor walks over.
    spec fn src(&self) -> Seq<u8>;

    /// The current byte offset into the source.
    spec fn pos(&self) -> int;

    /// The offset never runs past the end of the source.
    spec fn wf(&self) -> bool;

    /// A well-formed cursor's offset lies within the source.
    proof fn wf_bounds(&self)
        requires
            self.wf(),
        ensures
            0 <= self.pos() <= self.src().len(),
    ;

    /// Return the byte at the current offset and advance past it,
    /// or `None` at end of input.
    fn next(&mut self) -> (r: Option<u8>)
        requires
            old(self).wf(),
        ensures
            final(self).wf(),
            final(self).src() == old(self).src(),
            old(self).pos() < old(self).src().len() ==> {
                &&& r == Some(old(self).src()[old(self).pos()])
                &&& final(self).pos() == old(self).pos() + 1
            },
            old(self).pos() >= old(self).src().len() ==> {
                &&& r is None
                &&& final(self).pos() == old(self).pos()
            },
    ;

    /// Return the byte at the current offset without advancing,
    /// or `None` at end of input.
    fn peek(&mut self) -> (r: Option<u8>)
        requires
            old(self).wf(),
        ensures
            final(self).wf(),
            final(self).src() == old(self).src(),
            final(self).pos() == old(self).pos(),
            old(self).pos() < old(self).src().len() ==> r == Some(
                old(self).src()[old(self).pos()],
            ),
            old(self).pos() >= old(self).src().len() ==> r is None,
    ;

    /// Advance past a byte already seen through `peek`, without returning it.
    fn discard(&mut self)
        requires
            old(self).wf(),
            old(self).pos() < old(self).src().len(),
        ensures
            final(self).wf(),
            final(self).src() == old(self).src(),
            final(self).pos() == old(self).pos() + 1,
    ;

    /// The current offset, as a machine integer.
    fn byte_offset(&self) -> (r: usize)
        requires
            self.wf(),
        ensures
            r == self.pos(),
    ;
}

/// A cursor over a borrowed byte slice.
pub struct SliceRead<'a> {
    slice: &'a [u8],
    index: usize,
}

impl<'a> SliceRead<'a> {
    /// Start a cursor at the beginning of `slice`.
    pub fn new(slice: &'a [u8]) -> (r: Self)
        ensures
            r.wf(),
            r.src() == slice@,
            r.pos() == 0,
    {
        SliceRead { slice, index: 0 }
    }
}

impl<'a> Read for SliceRead<'a> {
    closed spec fn src(&self) -> Seq<u8> {
        self.slice@
    }

    closed spec fn pos(&self) -> int {
        self.index as int
    }

    closed spec fn wf(&self) -> bool {
        self.index <= self.slice@.len()
    }

    proof fn wf_bounds(&self) {
    }

    fn next(&mut self) -> (r: Option<u8>) {
        if self.index < self.slice.len() {
            let ch = self.slice[self.index];
            self.index = self.index + 1;
            Some(ch)
        } else {
            None
        }
    }

    fn peek(&mut self) -> (r: Option<u8>) {
        if self.index < self.slice.len() {
            Some(self.slice[self.index])
        } else {
            None
        }
    }

    fn discard(&mut self) {
        proof {
            assert(self.slice@.len() == vstd::slice::spec_slice_len(self.slice));
        }
        self.index = self.index + 1;
    }

    fn byte_offset(&self) -> (r: usize) {
        self.index
    }
}

/// A cursor over the UTF-8 bytes of a borrowed string.
pub struct StrRead<'a> {
    delegate: SliceRead<'a>,
}

impl<'a> StrRead<'a> {
    /// Start a cursor at the beginning of the UTF-8 encoding of `s`.
    pub fn new(s: &'a str) -> (r: Self)
        ensures
            r.wf(),
            r.src() == s.spec_bytes(),
            r.pos() == 0,
    {
        StrRead { delegate: SliceRead::new(s.as_bytes()) }
    }
}

impl<'a> Read for StrRead<'a> {
    closed spec fn src(&self) -> Seq<u8> {
        self.delegate.src()
    }

    closed spec fn pos(&self) -> int {
        self.delegate.pos()
    }

    closed spec fn wf(&self) -> bool {
        self.delegate.wf()
    }

    proof fn wf_bounds(&self) {
        self.delegate.wf_bounds()
    }

    fn next(&mut self) -> (r: Option<u8>) {
        self.delegate.next()
    }

    fn peek(&mut self) -> (r: Option<u8>) {
        self.delegate.peek()
    }

    fn discard(&mut self) {
        self.delegate.discard()
    }

    fn byte_offset(&self) -> (r: usize) {
        self.delegate.byte_offset()
    }
}

} // verus!
