//! Formation generator: a fresh randomized elliptical flight-path
//! descriptor per spawn request. The radii vary independently per axis
//! between a minimum orbit size and a fraction of the window, the pivot is
//! chosen so the whole ellipse stays within the window minus a margin
//! (clamping to a minimum viable ellipse when the window is too small),
//! the speed is drawn from a tuned band, and the spawn point lies exactly
//! on the ellipse at the reference angle, so there is no initial teleport.

use vstd::prelude::*;

use crate::motion::{target_x, target_y};
use crate::registry::{abs_i, Formation, WinSize};
use crate::rng::rand_in_range;
use crate::{COORD_LIMIT, WIN_LIMIT};

verus! {

/// Smallest orbit radius, per axis, in subunits.
pub const RADIUS_MIN: i64 = 80_000;

/// Margin kept between the ellipse and the window edges, in subunits.
pub const ORBIT_MARGIN: i64 = 100_000;

/// Tuned band for the formation speed, in subunits per second.
pub const FORMATION_SPEED_MIN: i64 = 100_000;
pub const FORMATION_SPEED_MAX: i64 = 150_000;

/// What the generator promises of every formation it hands out, beyond
/// well-formedness: radii and speed within their bands, the ellipse within
/// the window minus the margin whenever the window leaves room for it, the
/// angle at the reference angle, and the spawn point exactly on the
/// ellipse there.
pub open spec fn formation_fits(f: Formation, win: WinSize) -> bool {
    &&& RADIUS_MIN <= f.radius.0 <= max_i(RADIUS_MIN as int, win.w as int / 4)
    &&& RADIUS_MIN <= f.radius.1 <= max_i(RADIUS_MIN as int, win.h as int / 4)
    &&& (win.w as int / 2 - ORBIT_MARGIN >= f.radius.0 ==> abs_i(f.pivot.0 as int) + f.radius.0
        <= win.w as int / 2 - ORBIT_MARGIN)
    &&& (win.h as int / 2 - ORBIT_MARGIN >= f.radius.1 ==> abs_i(f.pivot.1 as int) + f.radius.1
        <= win.h as int / 2 - ORBIT_MARGIN)
    &&& FORMATION_SPEED_MIN <= f.speed <= FORMATION_SPEED_MAX
    &&& f.angle == 0
    &&& f.start.0 == target_x(f, 0)
    &&& f.start.1 == target_y(f, 0)
}

/// The larger of two integers.
pub open spec fn max_i(a: int, b: int) -> int {
    if a >= b {
        a
    } else {
        b
    }
}

/// Produce a fresh randomized flight-path descriptor for this window.
pub fn make(win: &WinSize) -> (f: Formation)
    requires
        0 <= win.w <= WIN_LIMIT,
        0 <= win.h <= WIN_LIMIT,
    ensures
        f.wf(),
        formation_fits(f, *win),
{
    proof {
        vstd::arithmetic::div_mod::lemma_div_is_ordered(0, win.w as int, 4);
        vstd::arithmetic::div_mod::lemma_div_is_ordered(win.w as int, WIN_LIMIT as int, 4);
        vstd::arithmetic::div_mod::lemma_div_is_ordered(0, win.h as int, 4);
        vstd::arithmetic::div_mod::lemma_div_is_ordered(win.h as int, WIN_LIMIT as int, 4);
        vstd::arithmetic::div_mod::lemma_div_is_ordered(0, win.w as int, 2);
        vstd::arithmetic::div_mod::lemma_div_is_ordered(win.w as int, WIN_LIMIT as int, 2);
        vstd::arithmetic::div_mod::lemma_div_is_ordered(0, win.h as int, 2);
        vstd::arithmetic::div_mod::lemma_div_is_ordered(win.h as int, WIN_LIMIT as int, 2);
    }
    // radii: independently randomized per axis, bounded below by the
    // minimum orbit and above by a quarter of the window
    let rx_hi: i64 = if win.w / 4 >= RADIUS_MIN {
        win.w / 4
    } else {
        RADIUS_MIN
    };
    let ry_hi: i64 = if win.h / 4 >= RADIUS_MIN {
        win.h / 4
    } else {
        RADIUS_MIN
    };
    let rx = rand_in_range(RADIUS_MIN, rx_hi);
    let ry = rand_in_range(RADIUS_MIN, ry_hi);
    // pivot: anywhere that keeps the radius-offset ellipse within the
    // window minus the margin; a window too small for that clamps the
    // span to zero rather than failing
    let span_x: i64 = if win.w / 2 - ORBIT_MARGIN - rx > 0 {
        win.w / 2 - ORBIT_MARGIN - rx
    } else {
        0
    };
    let span_y: i64 = if win.h / 2 - ORBIT_MARGIN - ry > 0 {
        win.h / 2 - ORBIT_MARGIN - ry
    } else {
        0
    };
    let px = rand_in_range(-span_x, span_x);
    let py = rand_in_range(-span_y, span_y);
    // speed: randomized within the tuned band
    let speed = rand_in_range(FORMATION_SPEED_MIN, FORMATION_SPEED_MAX);
    // spawn point: exactly on the ellipse at the reference angle
    let mut f = Formation { start: (0, 0), radius: (rx, ry), pivot: (px, py), speed, angle: 0 };
    let c = crate::trig::cos_fp(0);
    let s = crate::trig::sin_fp(0);
    proof {
        crate::motion::lemma_target_in_rect(f, 0);
    }
    let sx = px + crate::motion::trunc_div_fp(rx * c, crate::trig::TRIG_ONE);
    let sy = py + crate::motion::trunc_div_fp(ry * s, crate::trig::TRIG_ONE);
    f.start = (sx, sy);
    proof {
        assert(f.start.0 == target_x(f, 0) && f.start.1 == target_y(f, 0));
    }
    f
}

} // verus!
