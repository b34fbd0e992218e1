//! Source code locations.
use vstd::prelude::*;

verus! {

/// A region of the source code, as `[line, column]` pairs.
///
/// `min` is the location of the first byte of the region, `max` the location
/// just after its last byte.
#[derive(Debug, Clone, Copy, PartialEq, Eq)]
pub struct Span {
    pub min: [usize; 2],
    pub max: [usize; 2],
}

/// Lexicographic `<=` on `[line, column]` locations.
pub open spec fn loc_le(a: [usize; 2], b: [usize; 2]) -> bool {
    a[0] < b[0] || (a[0] == b[0] && a[1] <= b[1])
}

/// Location-wise minimum.
pub open spec fn loc_min(a: [usize; 2], b: [usize; 2]) -> [usize; 2] {
    if loc_le(a, b) { a } else { b }
}

/// Location-wise maximum.
pub open spec fn loc_max(a: [usize; 2], b: [usize; 2]) -> [usize; 2] {
    if loc_le(a, b) { b } else { a }
}

fn location_le(a: [usize; 2], b: [usize; 2]) -> (r: bool)
    ensures
        r == loc_le(a, b),
{
    a[0] < b[0] || (a[0] == b[0] && a[1] <= b[1])
}

/// Smallest span covering both `a` and `b`.
pub fn union(a: &Span, b: &Span) -> (r: Span)
    ensures
        r.min == loc_min(a.min, b.min),
        r.max == loc_max(a.max, b.max),
{
    let min = if location_le(a.min, b.min) { a.min } else { b.min };
    let max = if location_le(a.max, b.max) { b.max } else { a.max };
    Span { min, max }
}

} // verus!
