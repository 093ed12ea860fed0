use vstd::prelude::*;

use crate::pos::Pos;

verus! {

/// A half-open byte range `[start, end)` of the global position space, or the
/// dummy span `(0, 0)`, which points at no source text.
#[derive(Clone, Copy, Debug, PartialEq, Eq, Structural, PartialOrd, Ord, Hash)]
pub struct Span {
    start: Pos,
    end: Pos,
}

/// A span is ordered, and it is the dummy span as soon as one end is dummy.
pub open spec fn span_bounds_ok(start: int, end: int) -> bool {
    &&& 0 <= start <= end <= u32::MAX
    &&& start == 0 ==> end == 0
}

/// The bounds of the smallest span that covers the spans of bounds `x` and
/// `y`: the dummy span where either is dummy, since dummy spans are never
/// merged with real ones.
pub open spec fn merge_bounds(x: (int, int), y: (int, int)) -> (int, int) {
    if x == (0int, 0int) || y == (0int, 0int) {
        (0, 0)
    } else {
        (
            if x.0 <= y.0 {
                x.0
            } else {
                y.0
            },
            if x.1 >= y.1 {
                x.1
            } else {
                y.1
            },
        )
    }
}

/// Merging spans is commutative and associative, and a dummy span absorbs
/// any other.
pub proof fn lemma_across_laws(x: (int, int), y: (int, int), z: (int, int))
    requires
        span_bounds_ok(x.0, x.1),
        span_bounds_ok(y.0, y.1),
        span_bounds_ok(z.0, z.1),
    ensures
        merge_bounds(x, y) == merge_bounds(y, x),
        merge_bounds(merge_bounds(x, y), z) == merge_bounds(x, merge_bounds(y, z)),
        merge_bounds(x, (0, 0)) == (0int, 0int),
        span_bounds_ok(merge_bounds(x, y).0, merge_bounds(x, y).1),
{
}

impl Span {
    #[verifier::type_invariant]
    pub open spec fn well_formed(self) -> bool {
        span_bounds_ok(self.lo(), self.hi())
    }

    pub closed spec fn lo(self) -> int {
        self.start.pos()
    }

    pub closed spec fn hi(self) -> int {
        self.end.pos()
    }

    pub open spec fn spec_is_dummy(self) -> bool {
        self.lo() == 0 && self.hi() == 0
    }

    /// The bounds of the smallest span that covers both.
    pub open spec fn across_bounds(self, other: Span) -> (int, int) {
        merge_bounds((self.lo(), self.hi()), (other.lo(), other.hi()))
    }

    pub fn new(start: Pos, end: Pos) -> (r: Span)
        requires
            span_bounds_ok(start.pos(), end.pos()),
        ensures
            r.lo() == start.pos(),
            r.hi() == end.pos(),
    {
        Span { start, end }
    }

    pub fn dummy() -> (r: Span)
        ensures
            r.spec_is_dummy(),
    {
        Span { start: Pos::from_u32(0), end: Pos::from_u32(0) }
    }

    pub fn is_dummy(&self) -> (r: bool)
        ensures
            r == self.spec_is_dummy(),
    {
        self.start.to_u32() == 0 && self.end.to_u32() == 0
    }

    pub fn start(&self) -> (r: Pos)
        ensures
            r.pos() == self.lo(),
    {
        self.start
    }

    pub fn end(&self) -> (r: Pos)
        ensures
            r.pos() == self.hi(),
    {
        self.end
    }

    /// Merges two spans into the smallest one that covers both and the gap
    /// between them. A dummy span merges to the dummy span.
    pub fn across(&self, other: Span) -> (r: Span)
        ensures
            (r.lo(), r.hi()) == self.across_bounds(other),
    {
        proof {
            use_type_invariant(self);
            use_type_invariant(&other);
        }
        if self.is_dummy() || other.is_dummy() {
            return Span::dummy();
        }
        let start = if self.start.to_u32() <= other.start.to_u32() {
            self.start
        } else {
            other.start
        };
        let end = if self.end.to_u32() >= other.end.to_u32() {
            self.end
        } else {
            other.end
        };
        Span { start, end }
    }

    /// This span covers all of `other`.
    pub fn cross_over(&self, other: Span) -> (r: bool)
        ensures
            r == (self.lo() <= other.lo() && self.hi() >= other.hi()),
    {
        self.start.to_u32() <= other.start.to_u32() && self.end.to_u32() >= other.end.to_u32()
    }

    /// The position lies in the half-open span `[start, end)`.
    pub fn contains(&self, pos: Pos) -> (r: bool)
        ensures
            r == (self.lo() <= pos.pos() < self.hi()),
    {
        self.start.to_u32() <= pos.to_u32() && pos.to_u32() < self.end.to_u32()
    }
}

impl Default for Span {
    fn default() -> (r: Span)
        ensures
            r.spec_is_dummy(),
    {
        Span::dummy()
    }
}

} // verus!
