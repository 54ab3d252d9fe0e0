//! Byte ranges over the source text.

use vstd::prelude::*;

verus! {

/// A half-open byte range `[lo, hi)` over the source text as given.
#[derive(Clone, Copy, Debug, PartialEq, Eq, Structural)]
pub struct Span {
    pub lo: usize,
    pub hi: usize,
}

impl Span {
    /// Builds the span `[lo, hi)`.
    pub fn new(lo: usize, hi: usize) -> (r: Span)
        ensures
            r.lo == lo,
            r.hi == hi,
    {
        Span { lo, hi }
    }

    /// The empty span at `pos`.
    pub fn at(pos: usize) -> (r: Span)
        ensures
            r.lo == pos,
            r.hi == pos,
    {
        Span { lo: pos, hi: pos }
    }

    /// Whether the span is ordered and lies inside a text of `len` bytes.
    pub open spec fn fits(self, len: int) -> bool {
        self.lo <= self.hi && self.hi <= len
    }

    /// Executable form of [`Span::fits`].
    pub fn fits_in(&self, len: usize) -> (r: bool)
        ensures
            r == self.fits(len as int),
    {
        self.lo <= self.hi && self.hi <= len
    }
}

/// `x` starts inside `c` and ends no later than `c`: an operation on `x` is
/// then governed by an operation on `c` that comes before it.
pub open spec fn nested_in(x: Span, c: Span) -> bool {
    c.lo <= x.lo && x.lo < c.hi && x.hi <= c.hi
}

/// The bytes of `src` that `s` covers.
pub open spec fn slice_of(src: Seq<u8>, s: Span) -> Seq<u8> {
    src.subrange(s.lo as int, s.hi as int)
}

} // verus!
