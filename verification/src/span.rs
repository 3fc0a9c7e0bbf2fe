//! Source extents.

use vstd::prelude::*;

verus! {

/// A half-open range `[start, end)` of byte offsets into the source text.
#[derive(Clone, Copy, Debug, PartialEq, Eq, Structural)]
pub struct Span {
    pub start: usize,
    pub end: usize,
}

impl Span {
    /// A span is well formed when it does not end before it starts.
    pub open spec fn valid(self) -> bool {
        self.start <= self.end
    }

    /// Every offset of `inner` is an offset of `self`.
    pub open spec fn contains(self, inner: Span) -> bool {
        self.start <= inner.start && inner.end <= self.end
    }

    /// `self` ends where `next` starts, or earlier.
    pub open spec fn precedes(self, next: Span) -> bool {
        self.end <= next.start
    }

    /// The smallest span that contains both `self` and `other`.
    pub open spec fn hull(self, other: Span) -> Span {
        Span {
            start: if self.start <= other.start { self.start } else { other.start },
            end: if self.end >= other.end { self.end } else { other.end },
        }
    }

    pub fn new(start: usize, end: usize) -> (span: Span)
        ensures
            span == (Span { start, end }),
    {
        Span { start, end }
    }

    /// Merges two spans into the smallest span that covers both.
    pub fn merge(&self, other: &Span) -> (merged: Span)
        ensures
            merged == self.hull(*other),
            merged.contains(*self),
            merged.contains(*other),
            self.valid() || other.valid() ==> merged.valid(),
    {
        let start = if self.start <= other.start { self.start } else { other.start };
        let end = if self.end >= other.end { self.end } else { other.end };
        Span { start, end }
    }
}

/// The hull is the least upper bound of its arguments under containment:
/// it contains both, and every span that contains both contains it.
pub proof fn lemma_hull_is_least(a: Span, b: Span, outer: Span)
    ensures
        a.hull(b).contains(a),
        a.hull(b).contains(b),
        outer.contains(a) && outer.contains(b) ==> outer.contains(a.hull(b)),
        a.hull(b) == b.hull(a),
{
}

} // verus!
