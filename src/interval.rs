use vstd::prelude::*;

verus! {

/// A half-open time range `[start, end)`, in seconds.
#[derive(Clone, Copy, Debug, PartialEq, Eq, Structural)]
pub struct Interval {
    pub start: i64,
    pub end: i64,
}

/// Two half-open ranges share at least one instant.
pub open spec fn spans_overlap(a_start: int, a_end: int, b_start: int, b_end: int) -> bool {
    a_start < b_end && b_start < a_end
}

impl Interval {
    pub open spec fn overlaps_spec(self, other: Interval) -> bool {
        spans_overlap(self.start as int, self.end as int, other.start as int, other.end as int)
    }

    /// Whether the two ranges share at least one instant.
    pub fn overlaps(&self, other: &Interval) -> (r: bool)
        ensures
            r == self.overlaps_spec(*other),
    {
        self.start < other.end && other.start < self.end
    }
}

/// Overlap does not depend on the order of the two ranges.
pub proof fn lemma_overlap_symmetric(a: Interval, b: Interval)
    ensures
        a.overlaps_spec(b) == b.overlaps_spec(a),
{
}

/// A range that ends at `t` does not overlap one that starts at `t`.
pub proof fn lemma_touching_ranges_do_not_overlap(a: Interval, b: Interval)
    requires
        a.end == b.start,
    ensures
        !a.overlaps_spec(b),
        !b.overlaps_spec(a),
{
}

} // verus!
