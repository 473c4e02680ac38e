//! Axis-aligned rectangles.
//!
//! A rectangle is `{x, y, w, h}` with `w, h >= 0`; `x` grows rightward and
//! `y` grows downward, so its edges are `left = x`, `right = x + w`,
//! `top = y`, `bottom = y + h`.  Intersection uses the strict (open-interval)
//! convention: two rectangles intersect only where their interiors overlap,
//! so exactly-touching edges do not count and a zero-area rectangle
//! intersects nothing.

use vstd::prelude::*;

verus! {

use crate::fixed::STEP_LIMIT;

/// An axis-aligned rectangle in fixed-point world coordinates.
#[derive(Clone, Copy, Debug, PartialEq, Eq, Structural)]
pub struct Rect {
    pub x: i64,
    pub y: i64,
    pub w: i64,
    pub h: i64,
}

/// Left edge.
pub open spec fn rect_left(r: Rect) -> int {
    r.x as int
}

/// Right edge.
pub open spec fn rect_right(r: Rect) -> int {
    r.x + r.w
}

/// Top edge (smaller `y`).
pub open spec fn rect_top(r: Rect) -> int {
    r.y as int
}

/// Bottom edge (larger `y`).
pub open spec fn rect_bot(r: Rect) -> int {
    r.y + r.h
}

/// A rectangle's sides have nonnegative length and all of its fields stay
/// within magnitude `m`, so that edge arithmetic cannot overflow.
pub open spec fn rect_bounded(r: Rect, m: int) -> bool {
    &&& -m <= r.x <= m
    &&& -m <= r.y <= m
    &&& 0 <= r.w <= m
    &&& 0 <= r.h <= m
}

/// The open intervals `(l1, r1)` and `(l2, r2)` overlap: the larger left
/// end lies strictly before the smaller right end.  An empty interval
/// (`l >= r`) overlaps nothing.
pub open spec fn intervals_overlap(l1: int, r1: int, l2: int, r2: int) -> bool {
    (if l1 > l2 {
        l1
    } else {
        l2
    }) < (if r1 < r2 {
        r1
    } else {
        r2
    })
}

/// Strict-interior intersection: the projections of `a` and `b` overlap as
/// open intervals on both axes, so a zero-area rectangle intersects
/// nothing.
pub open spec fn spec_intersects(a: Rect, b: Rect) -> bool {
    &&& intervals_overlap(rect_left(a), rect_right(a), rect_left(b), rect_right(b))
    &&& intervals_overlap(rect_top(a), rect_bot(a), rect_top(b), rect_bot(b))
}

impl Rect {
    pub fn new(x: i64, y: i64, w: i64, h: i64) -> (r: Rect)
        ensures
            r == (Rect { x, y, w, h }),
    {
        Rect { x, y, w, h }
    }
}

/// True iff the interiors of `a` and `b` overlap on both axes.
pub fn rect_intersection(a: Rect, b: Rect) -> (r: bool)
    requires
        rect_bounded(a, 100 * STEP_LIMIT as int),
        rect_bounded(b, 100 * STEP_LIMIT as int),
    ensures
        r == spec_intersects(a, b),
{
    let x_lo = if a.x > b.x { a.x } else { b.x };
    let x_hi = if a.x + a.w < b.x + b.w { a.x + a.w } else { b.x + b.w };
    let y_lo = if a.y > b.y { a.y } else { b.y };
    let y_hi = if a.y + a.h < b.y + b.h { a.y + a.h } else { b.y + b.h };
    x_lo < x_hi && y_lo < y_hi
}

/// Intersection is symmetric.
pub proof fn lemma_intersects_symmetric(a: Rect, b: Rect)
    ensures
        spec_intersects(a, b) == spec_intersects(b, a),
{
}

/// A rectangle with positive area intersects itself; under the strict
/// convention a zero-area rectangle does not.
pub proof fn lemma_intersects_self(r: Rect)
    ensures
        spec_intersects(r, r) == (r.w > 0 && r.h > 0),
{
}

/// Rectangles that are separated on either axis (one lies entirely at or
/// past the other's edge) never intersect, wherever they stand.
pub proof fn lemma_separated_never_intersect(a: Rect, b: Rect)
    requires
        rect_right(a) <= rect_left(b) || rect_right(b) <= rect_left(a)
            || rect_bot(a) <= rect_top(b) || rect_bot(b) <= rect_top(a),
    ensures
        !spec_intersects(a, b),
{
}

} // verus!
