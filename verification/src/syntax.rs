//! Shared source-coordinate primitives for independent inventories.
//!
//! A range is either compact, `[line, start_column, end_column]`, or
//! expanded, `[start_line, start_column, end_line, end_column, ..]`.
use vstd::prelude::*;

verus! {

/// A position in a file: `(line, column)`.
pub type Point = (i32, i32);

/// The start and end points a range denotes, if it has a range shape.
pub open spec fn spec_canonical_bounds(range: Seq<i32>) -> Option<(Point, Point)> {
    if range.len() == 3 {
        Some(((range[0], range[1]), (range[0], range[2])))
    } else if range.len() >= 4 {
        Some(((range[0], range[1]), (range[2], range[3])))
    } else {
        None
    }
}

/// Lexicographic order of points.
pub open spec fn point_le(a: Point, b: Point) -> bool {
    a.0 < b.0 || (a.0 == b.0 && a.1 <= b.1)
}

pub fn point_le_exec(a: (i32, i32), b: (i32, i32)) -> (r: bool)
    ensures
        r == point_le(a, b),
{
    a.0 < b.0 || (a.0 == b.0 && a.1 <= b.1)
}

pub fn canonical_bounds(range: &[i32]) -> (r: Option<((i32, i32), (i32, i32))>)
    ensures
        r == spec_canonical_bounds(range@),
{
    if range.len() == 3 {
        Some(((range[0], range[1]), (range[0], range[2])))
    } else if range.len() >= 4 {
        Some(((range[0], range[1]), (range[2], range[3])))
    } else {
        None
    }
}

/// Whether two ranges denote the same bounds (compact and expanded shapes of
/// one single-line range are equal; two non-ranges are equal too).
pub fn ranges_equal(left: &[i32], right: &[i32]) -> (r: bool)
    ensures
        r == (spec_canonical_bounds(left@) == spec_canonical_bounds(right@)),
{
    canonical_bounds(left) == canonical_bounds(right)
}

/// Whether `outer` encloses `inner`; false when either is not a range.
pub fn range_contains(outer: &[i32], inner: &[i32]) -> (r: bool)
    ensures
        r == match (spec_canonical_bounds(outer@), spec_canonical_bounds(inner@)) {
            (Some(o), Some(i)) => point_le(o.0, i.0) && point_le(i.1, o.1),
            _ => false,
        },
{
    let Some((outer_start, outer_end)) = canonical_bounds(outer) else {
        return false;
    };
    let Some((inner_start, inner_end)) = canonical_bounds(inner) else {
        return false;
    };
    point_le_exec(outer_start, inner_start) && point_le_exec(inner_end, outer_end)
}

} // verus!
