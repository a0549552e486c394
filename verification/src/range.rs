//! Half-open intervals of source offsets.

use vstd::prelude::*;

verus! {

/// A half-open interval `[start, end)` of offsets into one source text.
#[derive(Clone, Copy, Debug, PartialEq, Eq, Structural)]
pub struct Range {
    pub start: usize,
    pub end: usize,
}

impl Range {
    /// The interval does not end before it starts.
    pub open spec fn wf(self) -> bool {
        self.start <= self.end
    }

    /// `offset` lies inside the interval.
    pub open spec fn contains(self, offset: int) -> bool {
        self.start <= offset < self.end
    }

    /// Neither interval contains the start of the other.
    pub open spec fn disjoint(self, other: Range) -> bool {
        !self.contains(other.start as int) && !other.contains(self.start as int)
    }

    /// One of the two intervals ends where, or before, the other starts.
    pub open spec fn apart(self, other: Range) -> bool {
        self.end <= other.start || other.end <= self.start
    }

    /// The interval from `start` to `end`, unless it would end before it starts.
    pub fn new(start: usize, end: usize) -> (r: Option<Range>)
        ensures
            r == if start <= end {
                Some(Range { start, end })
            } else {
                None::<Range>
            },
    {
        if start <= end {
            Some(Range { start, end })
        } else {
            None
        }
    }

    /// Whether `offset` lies inside the interval.
    pub fn contains_offset(&self, offset: usize) -> (b: bool)
        ensures
            b == self.contains(offset as int),
    {
        self.start <= offset && offset < self.end
    }

    /// Whether neither interval contains the start of the other.
    pub fn is_disjoint(&self, other: &Range) -> (b: bool)
        ensures
            b == self.disjoint(*other),
    {
        !self.contains_offset(other.start) && !other.contains_offset(self.start)
    }
}

/// Two intervals that are not empty are disjoint exactly when one ends
/// where, or before, the other starts.
pub proof fn disjoint_iff_apart(a: Range, b: Range)
    requires
        a.start < a.end,
        b.start < b.end,
    ensures
        a.disjoint(b) <==> a.apart(b),
{
}

/// Intervals that lie apart are disjoint unless one of them is empty and
/// sits at the start of the other.
pub proof fn apart_implies_disjoint(a: Range, b: Range)
    requires
        a.wf(),
        b.wf(),
        a.apart(b),
        a.start != b.start,
    ensures
        a.disjoint(b),
{
}

} // verus!
