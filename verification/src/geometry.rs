//! Geometry utilities: integer square roots for distance computations and
//! the axis-aligned bounding-box overlap test used by collision detection.
//! Rectangles are centred on an entity's position with full extents given
//! by its sprite size scaled by its uniform scale factor.

use vstd::prelude::*;

use crate::registry::{abs_i, Entity};
use crate::{COORD_LIMIT, FP};

verus! {

/// Floor of the square root: `r * r <= n < (r + 1) * (r + 1)`.
pub fn isqrt(n: u64) -> (r: u64)
    ensures
        r * r <= n,
        n < (r + 1) * (r + 1),
        r < 0x1_0000_0000,
{
    let mut lo: u64 = 0;
    let mut hi: u64 = 0x1_0000_0000;
    assert(hi * hi > n) by (nonlinear_arith)
        requires
            hi == 0x1_0000_0000u64,
    ;
    while lo + 1 < hi
        invariant
            lo < hi <= 0x1_0000_0000,
            lo * lo <= n,
            hi * hi > n,
        decreases hi - lo,
    {
        let mid: u64 = lo + (hi - lo) / 2;
        assert(lo < mid < hi);
        assert(mid * mid < 0x1_0000_0000_0000_0000) by (nonlinear_arith)
            requires
                mid < 0x1_0000_0000u64,
        ;
        if mid * mid <= n {
            lo = mid;
        } else {
            hi = mid;
        }
    }
    lo
}

/// Ceiling of the square root: the least `r` with `r * r >= n`.
pub fn isqrt_up(n: u64) -> (r: u64)
    ensures
        r * r >= n,
        r > 0 ==> (r - 1) * (r - 1) < n,
        r <= 0x1_0000_0000,
{
    let f = isqrt(n);
    if f * f == n {
        assert(f > 0 ==> (f - 1) * (f - 1) < f * f) by (nonlinear_arith);
        f
    } else {
        assert(f + 1 > 0 && (f + 1 - 1) * (f + 1 - 1) == f * f);
        f + 1
    }
}

/// Two axis-aligned rectangles, centred at `(x1, y1)` and `(x2, y2)` with
/// full extents `(w1, h1)` and `(w2, h2)`, overlap in the strict sense:
/// each centre distance, doubled, is less than the sum of the extents
/// (touching edges do not collide).
pub open spec fn rects_overlap(
    x1: int,
    y1: int,
    w1: int,
    h1: int,
    x2: int,
    y2: int,
    w2: int,
    h2: int,
) -> bool {
    2 * abs_i(x1 - x2) < w1 + w2 && 2 * abs_i(y1 - y2) < h1 + h2
}

/// An entity's rendered extent: its sprite size scaled by its uniform
/// scale factor, in subunits.
pub open spec fn scaled_w(e: Entity) -> int {
    e.size_w * e.scale / (FP as int)
}

pub open spec fn scaled_h(e: Entity) -> int {
    e.size_h * e.scale / (FP as int)
}

/// Bounding boxes of the two entities overlap, at their rendered sizes.
pub open spec fn overlaps(a: Entity, b: Entity) -> bool {
    rects_overlap(
        a.x as int,
        a.y as int,
        scaled_w(a),
        scaled_h(a),
        b.x as int,
        b.y as int,
        scaled_w(b),
        scaled_h(b),
    )
}

/// Axis-aligned bounding-box collision test between two entities.
pub fn entity_collide(a: &Entity, b: &Entity) -> (r: bool)
    requires
        a.wf(),
        b.wf(),
    ensures
        r == overlaps(*a, *b),
{
    proof {
        lemma_scaled_extent_bounds(*a);
        lemma_scaled_extent_bounds(*b);
    }
    let aw: i64 = a.size_w * a.scale / FP;
    let ah: i64 = a.size_h * a.scale / FP;
    let bw: i64 = b.size_w * b.scale / FP;
    let bh: i64 = b.size_h * b.scale / FP;
    let dx: i64 = if a.x >= b.x {
        a.x - b.x
    } else {
        b.x - a.x
    };
    let dy: i64 = if a.y >= b.y {
        a.y - b.y
    } else {
        b.y - a.y
    };
    2 * dx < aw + bw && 2 * dy < ah + bh
}

/// A well-formed entity's rendered extent is nonnegative and bounded, so
/// the overlap test cannot overflow.
pub proof fn lemma_scaled_extent_bounds(e: Entity)
    requires
        e.wf(),
    ensures
        0 <= scaled_w(e) <= COORD_LIMIT,
        0 <= scaled_h(e) <= COORD_LIMIT,
        e.size_w * e.scale / (FP as int) == scaled_w(e),
        e.size_h * e.scale / (FP as int) == scaled_h(e),
{
    assert(0 <= e.size_w * e.scale <= 10_000_000_000) by (nonlinear_arith)
        requires
            0 <= e.size_w <= 1_000_000,
            0 <= e.scale <= 10_000,
    ;
    assert(0 <= e.size_h * e.scale <= 10_000_000_000) by (nonlinear_arith)
        requires
            0 <= e.size_h <= 1_000_000,
            0 <= e.scale <= 10_000,
    ;
    assert(0 <= e.size_w * e.scale / 1000 <= COORD_LIMIT);
    assert(0 <= e.size_h * e.scale / 1000 <= COORD_LIMIT);
}

} // verus!
