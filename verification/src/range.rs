//! The unit of allocation: a closed-open interval of integer identifiers.

use vstd::prelude::*;

verus! {

/// A closed-open interval `[begin, end)`; the unit of allocation, caching,
/// and client response.
#[derive(Clone, Copy, Debug, PartialEq, Eq, Structural)]
pub struct Range {
    pub begin: u64,
    pub end: u64,
}

impl Range {
    /// Well-formed: the interval is not inverted.
    pub open spec fn wf(self) -> bool {
        self.begin <= self.end
    }

    /// The number of identifiers the range carries.
    pub open spec fn size(self) -> int {
        self.end - self.begin
    }

    /// The set of identifiers the range carries.
    pub open spec fn units(self) -> Set<int> {
        Set::new(|i: int| self.begin <= i < self.end)
    }
}

/// The number of identifiers in `r`.
pub fn get_range_size(r: &Range) -> (s: u64)
    requires
        r.wf(),
    ensures
        s == r.size(),
{
    r.end - r.begin
}

/// The two halves of `r` cut at offset `k` from its begin: the left half
/// keeps the first `k` units, the right half starts exactly where the left
/// one ends, so no unit is dropped or duplicated.
pub open spec fn spec_split(r: Range, k: u64) -> (Range, Range) {
    (
        Range { begin: r.begin, end: (r.begin + k) as u64 },
        Range { begin: (r.begin + k) as u64, end: r.end },
    )
}

/// Splits `r` into a left part of `size` units and a right part holding the
/// rest. Returns `None` when `r` is not strictly larger than `size`.
pub fn split_range(r: Range, size: u64) -> (res: Option<(Range, Range)>)
    requires
        r.wf(),
    ensures
        res is Some <==> size < r.size(),
        res matches Some(lr) ==> lr == spec_split(r, size),
{
    if get_range_size(&r) <= size {
        return None;
    }

    let left = Range { begin: r.begin, end: r.begin + size };

    let right = Range { begin: r.begin + size, end: r.end };

    Some((left, right))
}

/// Splitting a range of size `S` at offset `k` (`0 < k < S`) yields a left
/// part of size `k` immediately followed by a right part of size `S - k`;
/// the two parts are disjoint and together carry exactly the units of the
/// original range.
pub proof fn lemma_split_correctness(r: Range, k: u64)
    requires
        r.wf(),
        0 < k < r.size(),
    ensures
        spec_split(r, k).0.size() == k,
        spec_split(r, k).1.size() == r.size() - k,
        spec_split(r, k).0.end == spec_split(r, k).1.begin,
        spec_split(r, k).0.wf(),
        spec_split(r, k).1.wf(),
        spec_split(r, k).0.units().disjoint(spec_split(r, k).1.units()),
        spec_split(r, k).0.units().union(spec_split(r, k).1.units()) == r.units(),
{
    let left = spec_split(r, k).0;
    let right = spec_split(r, k).1;
    assert(left.units().disjoint(right.units()));
    assert(left.units().union(right.units()) =~= r.units());
}

} // verus!
