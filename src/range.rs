//! Half-open offset intervals over a file's text.
use vstd::prelude::*;

verus! {

/// A half-open interval `[start, end)` of byte offsets.
#[derive(Clone, Copy, Debug, PartialEq, Eq, Structural)]
pub struct TextRange {
    pub start: usize,
    pub end: usize,
}

impl TextRange {
    pub open spec fn wf(self) -> bool {
        self.start <= self.end
    }

    pub open spec fn len_spec(self) -> int {
        self.end - self.start
    }

    /// Two ranges intersect when the later start is not past the earlier end;
    /// ranges that only touch intersect too, in an empty range.
    pub open spec fn intersects(self, other: TextRange) -> bool {
        max_usize(self.start, other.start) <= min_usize(self.end, other.end)
    }

    /// Two ranges overlap when their intersection is not empty.
    pub open spec fn overlaps(self, other: TextRange) -> bool {
        max_usize(self.start, other.start) < min_usize(self.end, other.end)
    }

    /// `self` lies within `other`.
    pub open spec fn within(self, other: TextRange) -> bool {
        other.start <= self.start && self.end <= other.end
    }

    /// The smallest range holding both `self` and `other`.
    pub open spec fn cover_spec(self, other: TextRange) -> TextRange {
        TextRange { start: min_usize(self.start, other.start), end: max_usize(self.end, other.end) }
    }

    pub fn new(start: usize, end: usize) -> (r: TextRange)
        requires
            start <= end,
        ensures
            r.start == start,
            r.end == end,
            r.wf(),
    {
        TextRange { start, end }
    }

    pub fn empty(offset: usize) -> (r: TextRange)
        ensures
            r.start == offset,
            r.end == offset,
    {
        TextRange { start: offset, end: offset }
    }

    pub fn len(&self) -> (r: usize)
        requires
            self.wf(),
        ensures
            r == self.len_spec(),
    {
        self.end - self.start
    }

    pub fn is_empty(&self) -> (r: bool)
        ensures
            r == (self.start >= self.end),
    {
        self.start >= self.end
    }

    /// Whether `other` lies within `self`.
    pub fn contains_range(&self, other: TextRange) -> (r: bool)
        ensures
            r == other.within(*self),
    {
        self.start <= other.start && other.end <= self.end
    }

    /// The common part of the two ranges, or `None` when they are apart.
    pub fn intersect(&self, other: TextRange) -> (r: Option<TextRange>)
        ensures
            r.is_some() == self.intersects(other),
            r.is_some() ==> r.unwrap() == (TextRange {
                start: max_usize(self.start, other.start),
                end: min_usize(self.end, other.end),
            }),
    {
        let start = if self.start >= other.start { self.start } else { other.start };
        let end = if self.end <= other.end { self.end } else { other.end };
        if end < start {
            None
        } else {
            Some(TextRange { start, end })
        }
    }

    /// Whether the two ranges share at least one offset.
    pub fn overlap(&self, other: TextRange) -> (r: bool)
        ensures
            r == self.overlaps(other),
    {
        let start = if self.start >= other.start { self.start } else { other.start };
        let end = if self.end <= other.end { self.end } else { other.end };
        start < end
    }

    /// The smallest range holding both ranges.
    pub fn cover(&self, other: TextRange) -> (r: TextRange)
        ensures
            r == self.cover_spec(other),
            self.wf() && other.wf() ==> r.wf() && self.within(r) && other.within(r),
    {
        let start = if self.start <= other.start { self.start } else { other.start };
        let end = if self.end >= other.end { self.end } else { other.end };
        TextRange { start, end }
    }
}

pub open spec fn max_usize(a: usize, b: usize) -> usize {
    if a >= b { a } else { b }
}

pub open spec fn min_usize(a: usize, b: usize) -> usize {
    if a <= b { a } else { b }
}

} // verus!
