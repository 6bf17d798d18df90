//! Byte indices and byte ranges into shaped text.

use vstd::prelude::*;

verus! {

/// A byte offset into a text run.
#[derive(Clone, Copy, Debug, Default, PartialEq, Eq, PartialOrd, Ord, Hash)]
pub struct ByteIndex(pub usize);

impl ByteIndex {
    /// The offset as a plain number.
    pub fn get(&self) -> (r: usize)
        ensures
            r == self.0,
    {
        self.0
    }
}

} // verus!

verus! {

/// The common part of `a_start..a_end` and `b_start..b_end`: from the later
/// start to the earlier end, or `0..0` when the earlier end comes before the
/// later start.
pub open spec fn intersection(a_start: usize, a_end: usize, b_start: usize, b_end: usize) -> (usize, usize) {
    let begin = if a_start >= b_start { a_start } else { b_start };
    let end = if a_end <= b_end { a_end } else { b_end };
    if end < begin {
        (0, 0)
    } else {
        (begin, end)
    }
}

/// Whether `i` lies in `start..end`.
pub open spec fn in_range(i: usize, start: usize, end: usize) -> bool {
    start <= i < end
}

/// Intersection does not depend on the order of the ranges, and a nonempty
/// intersection lies inside both ranges.
pub proof fn lemma_intersection(a_start: usize, a_end: usize, b_start: usize, b_end: usize)
    ensures
        intersection(a_start, a_end, b_start, b_end) == intersection(b_start, b_end, a_start, a_end),
        ({
            let (s, e) = intersection(a_start, a_end, b_start, b_end);
            s < e ==> a_start <= s && e <= a_end && b_start <= s && e <= b_end
        }),
        ({
            let (s, e) = intersection(a_start, a_end, b_start, b_end);
            forall|i: usize| #[trigger] in_range(i, s, e) <==> (in_range(i, a_start, a_end) && in_range(i, b_start, b_end))
        }),
{
}

/// A half-open range `start..end` of byte indices.
#[derive(Clone, Debug, Default, PartialEq)]
pub struct TextByteRange {
    start: ByteIndex,
    end: ByteIndex,
}

impl TextByteRange {
    /// The first index of the range.
    pub closed spec fn spec_start(&self) -> usize {
        self.start.0
    }

    /// The index one past the last index of the range.
    pub closed spec fn spec_end(&self) -> usize {
        self.end.0
    }

    /// The range `start..end`.
    pub fn new(start: ByteIndex, end: ByteIndex) -> (r: Self)
        ensures
            r.spec_start() == start.0,
            r.spec_end() == end.0,
    {
        TextByteRange { start, end }
    }

    /// The first index of the range.
    pub fn start(&self) -> (r: ByteIndex)
        ensures
            r.0 == self.spec_start(),
    {
        self.start
    }

    /// The index one past the last index of the range.
    pub fn end(&self) -> (r: ByteIndex)
        ensures
            r.0 == self.spec_end(),
    {
        self.end
    }

    /// The number of indices in the range; a range must not end before it
    /// starts to have a length.
    pub fn len(&self) -> (r: ByteIndex)
        requires
            self.spec_start() <= self.spec_end(),
        ensures
            r.0 == self.spec_end() - self.spec_start(),
    {
        ByteIndex(self.end.0 - self.start.0)
    }

    /// The common part of two ranges, or the empty range `0..0` when the
    /// ranges do not meet.
    pub fn intersect(&self, other: &Self) -> (r: Self)
        ensures
            (r.spec_start(), r.spec_end()) == intersection(self.spec_start(), self.spec_end(), other.spec_start(), other.spec_end()),
    {
        let begin = if self.start.0 >= other.start.0 { self.start } else { other.start };
        let end = if self.end.0 <= other.end.0 { self.end } else { other.end };
        if end.0 < begin.0 {
            Self::new(ByteIndex(0), ByteIndex(0))
        } else {
            Self::new(begin, end)
        }
    }

    /// Whether `index` lies in `start..=end`.
    pub fn contains_inclusive(&self, index: ByteIndex) -> (r: bool)
        ensures
            r == (self.spec_start() <= index.0 && index.0 <= self.spec_end()),
    {
        index.0 >= self.start.0 && index.0 <= self.end.0
    }

    /// The bounds of the range as a `Range`.
    pub fn iter(&self) -> (r: std::ops::Range<ByteIndex>)
        ensures
            r.start.0 == self.spec_start(),
            r.end.0 == self.spec_end(),
    {
        std::ops::Range { start: self.start, end: self.end }
    }

    /// Takes the first index off the front of the range, or `None` when
    /// `start == end`; a range that ends before it starts still yields its
    /// start and advances it.
    pub fn next(&mut self) -> (r: Option<ByteIndex>)
        requires
            old(self).spec_start() == old(self).spec_end() || old(self).spec_start() < usize::MAX,
        ensures
            old(self).spec_start() == old(self).spec_end() ==> r is None && *final(self) == *old(self),
            old(self).spec_start() != old(self).spec_end() ==> {
                &&& r == Some(ByteIndex(old(self).spec_start()))
                &&& final(self).spec_start() == old(self).spec_start() + 1
                &&& final(self).spec_end() == old(self).spec_end()
            },
    {
        if self.start.0 == self.end.0 {
            None
        } else {
            let next = self.start;
            self.start = ByteIndex(self.start.0 + 1);
            Some(next)
        }
    }

    /// Takes the last index off the back of the range, or `None` when
    /// `start == end`; a range that ends before it starts still steps its
    /// end back and yields it.
    pub fn next_back(&mut self) -> (r: Option<ByteIndex>)
        requires
            old(self).spec_start() == old(self).spec_end() || old(self).spec_end() > 0,
        ensures
            old(self).spec_start() == old(self).spec_end() ==> r is None && *final(self) == *old(self),
            old(self).spec_start() != old(self).spec_end() ==> {
                &&& r == Some(ByteIndex((old(self).spec_end() - 1) as usize))
                &&& final(self).spec_start() == old(self).spec_start()
                &&& final(self).spec_end() == old(self).spec_end() - 1
            },
    {
        if self.start.0 == self.end.0 {
            None
        } else {
            self.end = ByteIndex(self.end.0 - 1);
            Some(self.end)
        }
    }
}

} // verus!
