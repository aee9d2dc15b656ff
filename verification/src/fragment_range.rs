//! Strongly-typed indices into the unit sequence, and half-open ranges of
//! them. A dedicated index type with checked arithmetic keeps unit indices
//! from being confused with offsets into unrelated sequences.

use vstd::prelude::*;

verus! {

/// The index of a layout unit in the flattened unit sequence.
#[derive(Clone, Copy, PartialEq, Eq, Structural, Debug)]
pub struct FragmentIndex {
    pub value: usize,
}

impl FragmentIndex {
    pub fn new(value: usize) -> (r: FragmentIndex)
        ensures
            r.value == value,
    {
        FragmentIndex { value }
    }

    /// Checked successor.
    pub fn next(self) -> (r: FragmentIndex)
        requires
            self.value < usize::MAX,
        ensures
            r.value == self.value + 1,
    {
        FragmentIndex { value: self.value + 1 }
    }
}

/// A half-open interval `[begin, begin + length)` of unit indices.
#[derive(Clone, Copy, PartialEq, Eq, Structural, Debug)]
pub struct FragmentRange {
    pub begin: usize,
    pub length: usize,
}

impl FragmentRange {
    /// The half-open end of the range, as a mathematical integer.
    pub open spec fn spec_end(self) -> int {
        self.begin + self.length
    }

    /// The range is well formed when its end fits in a machine word.
    pub open spec fn wf(self) -> bool {
        self.begin + self.length <= usize::MAX
    }

    /// The empty range anchored at zero.
    pub fn empty() -> (r: FragmentRange)
        ensures
            r.begin == 0 && r.length == 0,
    {
        FragmentRange { begin: 0, length: 0 }
    }

    pub fn new(begin: usize, length: usize) -> (r: FragmentRange)
        requires
            begin + length <= usize::MAX,
        ensures
            r.begin == begin && r.length == length,
    {
        FragmentRange { begin, length }
    }

    /// The first index of the range.
    pub fn first(&self) -> (r: FragmentIndex)
        ensures
            r.value == self.begin,
    {
        FragmentIndex { value: self.begin }
    }

    /// The half-open end of the range.
    pub fn end(&self) -> (r: usize)
        requires
            self.wf(),
        ensures
            r == self.spec_end(),
    {
        self.begin + self.length
    }

    pub fn is_empty(&self) -> (r: bool)
        ensures
            r == (self.length == 0),
    {
        self.length == 0
    }

    /// Re-anchors the range at `begin` with length `length`.
    pub fn reset(&mut self, begin: usize, length: usize)
        requires
            begin + length <= usize::MAX,
        ensures
            final(self).begin == begin && final(self).length == length,
    {
        self.begin = begin;
        self.length = length;
    }

    /// Grows the range by `amount` units at its end.
    pub fn extend_by(&mut self, amount: usize)
        requires
            old(self).begin + old(self).length + amount <= usize::MAX,
        ensures
            final(self).begin == old(self).begin,
            final(self).length == old(self).length + amount,
    {
        self.length = self.length + amount;
    }

    /// Shrinks or grows the range so that its end is exactly `end`.
    pub fn extend_to(&mut self, end: usize)
        requires
            end >= old(self).begin,
        ensures
            final(self).begin == old(self).begin,
            final(self).spec_end() == end,
    {
        self.length = end - self.begin;
    }

    /// True when `idx` lies inside the range.
    pub fn contains(&self, idx: usize) -> (r: bool)
        requires
            self.wf(),
        ensures
            r == (self.begin <= idx < self.spec_end()),
    {
        self.begin <= idx && idx < self.begin + self.length
    }
}

} // verus!
