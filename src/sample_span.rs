use vstd::prelude::*;

use std::ops::Range;

verus! {

/// A half-open region `[position, position + length)` of some sample buffer.
///
/// A span knows nothing of the buffer it will index: callers check bounds.
#[derive(Clone, Copy, Debug, PartialEq, Eq, Structural)]
pub struct SampleSpan {
    pub position: usize,
    pub length: usize,
}

impl SampleSpan {
    /// One past the last index covered, as a mathematical integer.
    pub open spec fn end_spec(self) -> int {
        self.position + self.length
    }

    /// The span lies inside a buffer of `len` samples.
    pub open spec fn fits(self, len: int) -> bool {
        self.end_spec() <= len
    }

    pub fn new(position: usize, length: usize) -> (r: SampleSpan)
        ensures
            r.position == position,
            r.length == length,
    {
        SampleSpan { position, length }
    }

    /// The indexable interval of the span.
    pub fn range(&self) -> (r: Range<usize>)
        requires
            self.end_spec() <= usize::MAX,
        ensures
            r.start == self.position,
            r.end == self.end_spec(),
    {
        Range { start: self.start(), end: self.end() }
    }

    pub fn start(&self) -> (r: usize)
        ensures
            r == self.position,
    {
        self.position
    }

    pub fn end(&self) -> (r: usize)
        requires
            self.end_spec() <= usize::MAX,
        ensures
            r == self.end_spec(),
    {
        self.position + self.length
    }

    pub fn length(&self) -> (r: usize)
        ensures
            r == self.length,
    {
        self.length
    }

    /// The span moved `back` samples earlier, with the same length.
    pub fn pull_back(&self, back: usize) -> (r: SampleSpan)
        requires
            self.position >= back,
        ensures
            r.position == self.position - back,
            r.length == self.length,
    {
        SampleSpan { position: self.position - back, length: self.length }
    }

    /// The span with the same start and the given length.
    pub fn truncate(&self, length: usize) -> (r: SampleSpan)
        ensures
            r.position == self.position,
            r.length == length,
    {
        SampleSpan { length, ..*self }
    }
}

} // verus!
