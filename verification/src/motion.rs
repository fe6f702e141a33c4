//! Motion engine. Two integration strategies coexist: enemies advance along
//! their formation ellipse by a capped step toward a rotating target point,
//! and every `Movable` entity integrates its linear velocity, with
//! auto-despawning movables removed once they leave the window bounds plus
//! a fixed margin.

use vstd::arithmetic::div_mod::{lemma_div_is_ordered, lemma_fundamental_div_mod};
use vstd::prelude::*;

use crate::geometry::isqrt_up;
use crate::registry::{
    abs_i, lemma_sweep_count_eq, lemma_sweep_count_le, lemma_sweep_registry, sweep, Entity,
    Formation, Kind, WinSize, World,
};
use crate::trig::{cos_fp, cos_milli, sin_fp, sin_milli, HALF_PI_MILLI, TRIG_ONE};
use crate::{ANGLE_CAP, COORD_LIMIT, DESPAWN_MARGIN, FP, FPS, SPEED_LIMIT, VEL_LIMIT};

verus! {

/// Division truncating toward zero, for a positive divisor: the engine's
/// fixed-point products are cut back to scale this way.
pub open spec fn trunc_div(v: int, d: int) -> int {
    if v >= 0 {
        v / d
    } else {
        -((-v) / d)
    }
}

/// Greatest distance an enemy may travel in one frame: the fixed timestep
/// times its formation speed, in subunits.
pub open spec fn max_distance(speed: int) -> int {
    speed / (FPS as int)
}

/// Angular advance of the formation in one frame, in milliradians: the
/// per-frame travel normalised by the tighter radius and the tuned
/// quarter-turn constant, so tighter ellipses do not orbit visually faster.
pub open spec fn angle_delta(f: Formation) -> int {
    let min_r = if f.radius.0 <= f.radius.1 {
        f.radius.0
    } else {
        f.radius.1
    };
    (f.speed * 1_000_000) / ((FPS as int) * min_r * (HALF_PI_MILLI as int))
}

/// Candidate next angle: the current angle advanced along the configured
/// direction, saturating at the angle cap instead of overflowing.
pub open spec fn angle_next(f: Formation) -> int {
    let a = f.angle + f.dir() * angle_delta(f);
    if -ANGLE_CAP <= a <= ANGLE_CAP {
        a
    } else {
        f.angle as int
    }
}

/// Target point on the ellipse at angle `a`, per axis.
pub open spec fn target_x(f: Formation, a: int) -> int {
    f.pivot.0 + trunc_div(f.radius.0 * cos_milli(a), TRIG_ONE as int)
}

pub open spec fn target_y(f: Formation, a: int) -> int {
    f.pivot.1 + trunc_div(f.radius.1 * sin_milli(a), TRIG_ONE as int)
}

/// Squared Euclidean distance between two points.
pub open spec fn dist_sq(x1: int, y1: int, x2: int, y2: int) -> int {
    (x1 - x2) * (x1 - x2) + (y1 - y2) * (y1 - y2)
}

/// `r` is the ceiling of the square root of `n`.
pub open spec fn is_sqrt_up(n: int, r: int) -> bool {
    0 <= r && n <= r * r && (r == 0 || (r - 1) * (r - 1) < n)
}

/// Ceiling of the square root of a nonnegative integer.
pub open spec fn sqrt_up(n: int) -> int {
    choose|r: int| is_sqrt_up(n, r)
}

/// The ceiling square root is unique, so any witness pins it down.
pub proof fn lemma_sqrt_up_is(n: int, r: int)
    requires
        0 <= n,
        is_sqrt_up(n, r),
    ensures
        sqrt_up(n) == r,
{
    assert(exists|x: int| is_sqrt_up(n, x)) by {
        assert(is_sqrt_up(n, r));
    };
    let rc = choose|x: int| is_sqrt_up(n, x);
    assert(rc == r) by (nonlinear_arith)
        requires
            is_sqrt_up(n, rc),
            is_sqrt_up(n, r),
    ;
}

/// One coordinate stepped toward the target: the displacement is scaled by
/// `ratio` thousandths and the result clamped so it never passes the
/// target.
pub open spec fn step_coord(x_org: int, x_dst: int, ratio: int) -> int {
    let dx = x_org - x_dst;
    let x = x_org - trunc_div(dx * ratio, TRIG_ONE as int);
    if dx > 0 {
        if x >= x_dst {
            x
        } else {
            x_dst
        }
    } else {
        if x <= x_dst {
            x
        } else {
            x_dst
        }
    }
}

/// One frame of the formation integrator: the next position and the next
/// stored angle. The enemy steps at most `max_distance` toward the target
/// point at the candidate angle, snapping onto it when it is that close;
/// the stored angle is committed only once the enemy has converged near
/// its current target (the hysteresis that keeps the angle from running
/// ahead of the sprite).
pub open spec fn formation_step_spec(x_org: int, y_org: int, f: Formation) -> (int, int, int) {
    let a = angle_next(f);
    let tx = target_x(f, a);
    let ty = target_y(f, a);
    let s = dist_sq(x_org, y_org, tx, ty);
    let dist = sqrt_up(s);
    let max_d = max_distance(f.speed as int);
    let threshold = (max_d * f.speed) / 20_000;
    let angle2 = if dist < threshold {
        a
    } else {
        f.angle as int
    };
    if dist <= max_d {
        (tx, ty, angle2)
    } else {
        let ratio = (max_d * (TRIG_ONE as int)) / dist;
        (step_coord(x_org, tx, ratio), step_coord(y_org, ty, ratio), angle2)
    }
}

/// The target point stays inside the ellipse's bounding rectangle.
pub proof fn lemma_target_in_rect(f: Formation, a: int)
    requires
        f.wf(),
    ensures
        f.pivot.0 - f.radius.0 <= target_x(f, a) <= f.pivot.0 + f.radius.0,
        f.pivot.1 - f.radius.1 <= target_y(f, a) <= f.pivot.1 + f.radius.1,
{
    crate::trig::lemma_cos_range(a);
    crate::trig::lemma_sin_range(a);
    lemma_trunc_scale_bound(f.radius.0 as int, cos_milli(a));
    lemma_trunc_scale_bound(f.radius.1 as int, sin_milli(a));
}

/// Scaling a bounded radius by a trig value in thousandths stays within
/// the radius.
pub proof fn lemma_trunc_scale_bound(r: int, t: int)
    requires
        0 <= r,
        -TRIG_ONE <= t <= TRIG_ONE,
    ensures
        -r <= trunc_div(r * t, TRIG_ONE as int) <= r,
{
    if r * t >= 0 {
        assert(r * t <= r * 1000) by (nonlinear_arith)
            requires
                0 <= r,
                t <= 1000,
        ;
        lemma_div_is_ordered(r * t, r * 1000, 1000);
        assert(r * 1000 / 1000 == r) by (nonlinear_arith);
        lemma_div_is_ordered(0, r * t, 1000);
    } else {
        assert(-(r * t) <= r * 1000) by (nonlinear_arith)
            requires
                0 <= r,
                -1000 <= t,
        ;
        lemma_div_is_ordered(-(r * t), r * 1000, 1000);
        assert(r * 1000 / 1000 == r) by (nonlinear_arith);
        lemma_div_is_ordered(0, -(r * t), 1000);
    }
}

/// The capped step stays between its origin and the target.
pub proof fn lemma_step_coord_between(x_org: int, x_dst: int, ratio: int)
    requires
        0 <= ratio <= TRIG_ONE,
    ensures
        if x_org <= x_dst {
            x_org <= step_coord(x_org, x_dst, ratio) <= x_dst
        } else {
            x_dst <= step_coord(x_org, x_dst, ratio) <= x_org
        },
{
    let dx = x_org - x_dst;
    let s = trunc_div(dx * ratio, TRIG_ONE as int);
    lemma_step_le_dx(dx, ratio, s);
}

/// A position inside the ellipse's bounding rectangle never leaves it in
/// one frame: the target point lies on the ellipse, so within the
/// rectangle, and the step never passes the target.
pub proof fn lemma_step_stays_in_rect(x: int, y: int, f: Formation)
    requires
        f.wf(),
        f.pivot.0 - f.radius.0 <= x <= f.pivot.0 + f.radius.0,
        f.pivot.1 - f.radius.1 <= y <= f.pivot.1 + f.radius.1,
    ensures
        ({
            let r = formation_step_spec(x, y, f);
            &&& f.pivot.0 - f.radius.0 <= r.0 <= f.pivot.0 + f.radius.0
            &&& f.pivot.1 - f.radius.1 <= r.1 <= f.pivot.1 + f.radius.1
        }),
{
    let a = angle_next(f);
    lemma_target_in_rect(f, a);
    let tx = target_x(f, a);
    let ty = target_y(f, a);
    let s = dist_sq(x, y, tx, ty);
    let dist = sqrt_up(s);
    let max_d = max_distance(f.speed as int);
    lemma_div_is_ordered(0, f.speed as int, FPS as int);
    if dist <= max_d {
        // snapping onto the target: on the ellipse, inside the rectangle
    } else {
        let ratio = (max_d * (TRIG_ONE as int)) / dist;
        lemma_ratio_below_one(max_d, dist, ratio);
        lemma_step_coord_between(x, tx, ratio);
        lemma_step_coord_between(y, ty, ratio);
    }
}

/// One frame of the formation integrator, executably. Returns the new
/// position; the formation's stored angle is updated in place. States the
/// motion laws: the squared distance travelled in one frame never exceeds
/// the squared travel cap, the stored angle only advances along the
/// configured direction, and the position moves between its origin and
/// the target point on the ellipse (never overshooting past it).
pub fn formation_step(x_org: i64, y_org: i64, f: &mut Formation) -> (pos: (i64, i64))
    requires
        old(f).wf(),
        -COORD_LIMIT <= x_org <= COORD_LIMIT,
        -COORD_LIMIT <= y_org <= COORD_LIMIT,
    ensures
        final(f).wf(),
        final(f).start == old(f).start,
        final(f).radius == old(f).radius,
        final(f).pivot == old(f).pivot,
        final(f).speed == old(f).speed,
        ({
            let r = formation_step_spec(x_org as int, y_org as int, *old(f));
            pos.0 == r.0 && pos.1 == r.1 && final(f).angle == r.2
        }),
        -COORD_LIMIT <= pos.0 <= COORD_LIMIT,
        -COORD_LIMIT <= pos.1 <= COORD_LIMIT,
        dist_sq(x_org as int, y_org as int, pos.0 as int, pos.1 as int) <= max_distance(
            old(f).speed as int,
        ) * max_distance(old(f).speed as int),
        old(f).dir() == 1 ==> old(f).angle <= final(f).angle,
        old(f).dir() == -1 ==> final(f).angle <= old(f).angle,
        ({
            let a = angle_next(*old(f));
            let tx = target_x(*old(f), a);
            let ty = target_y(*old(f), a);
            &&& (if x_org as int <= tx {
                x_org as int <= pos.0 <= tx
            } else {
                tx <= pos.0 <= x_org as int
            })
            &&& (if y_org as int <= ty {
                y_org as int <= pos.1 <= ty
            } else {
                ty <= pos.1 <= y_org as int
            })
        }),
{
    let ghost f0 = *f;
    // Candidate next angle along the configured direction.
    let min_r: i64 = if f.radius.0 <= f.radius.1 {
        f.radius.0
    } else {
        f.radius.1
    };
    assert(FPS * min_r * HALF_PI_MILLI <= 0x7fff_ffff_ffff_ffffi64 && FPS * min_r * HALF_PI_MILLI
        >= 94_260) by (nonlinear_arith)
        requires
            1 <= min_r <= COORD_LIMIT,
    ;
    let den: i64 = FPS * min_r * HALF_PI_MILLI;
    assert(f.speed * 1_000_000 <= 10_000_000_000_000i64) by (nonlinear_arith)
        requires
            1 <= f.speed <= SPEED_LIMIT,
    ;
    let delta: i64 = (f.speed * 1_000_000) / den;
    proof {
        lemma_div_is_ordered(0, f.speed * 1_000_000, den as int);
        lemma_div_is_ordered(f.speed * 1_000_000, 10_000_000_000_000, den as int);
        assert(10_000_000_000_000i64 / 94_260 < 1_000_000_000) by (nonlinear_arith);
        assert(delta < 1_000_000_000) by {
            lemma_div_is_ordered_by_den(10_000_000_000_000, 94_260, den as int);
        };
    }
    let cand: i64 = if f.start.0 < 0 {
        f.angle + delta
    } else {
        f.angle - delta
    };
    let a: i64 = if -ANGLE_CAP <= cand && cand <= ANGLE_CAP {
        cand
    } else {
        f.angle
    };
    assert(a == angle_next(f0));
    // Target point on the ellipse at the candidate angle.
    let c = cos_fp(a);
    let s = sin_fp(a);
    proof {
        lemma_trunc_scale_bound(f.radius.0 as int, c as int);
        lemma_trunc_scale_bound(f.radius.1 as int, s as int);
    }
    let tx: i64 = f.pivot.0 + trunc_div_fp(f.radius.0 * c, TRIG_ONE);
    let ty: i64 = f.pivot.1 + trunc_div_fp(f.radius.1 * s, TRIG_ONE);
    assert(tx == target_x(f0, a as int) && ty == target_y(f0, a as int));
    // Displacement to the target and its length, rounded up.
    let dx: i64 = x_org - tx;
    let dy: i64 = y_org - ty;
    assert(0 <= dx * dx <= 4_000_000_000_000_000_000i64 && 0 <= dy * dy
        <= 4_000_000_000_000_000_000i64) by (nonlinear_arith)
        requires
            -2_000_000_000 <= dx <= 2_000_000_000,
            -2_000_000_000 <= dy <= 2_000_000_000,
    ;
    let sq: i64 = dx * dx + dy * dy;
    let dist_u = isqrt_up(sq as u64);
    proof {
        assert(is_sqrt_up(sq as int, dist_u as int));
        lemma_sqrt_up_is(sq as int, dist_u as int);
    }
    let dist: i64 = dist_u as i64;
    let max_d: i64 = f.speed / FPS;
    proof {
        lemma_div_is_ordered(0, f.speed as int, FPS as int);
        lemma_div_is_ordered(f.speed as int, SPEED_LIMIT as int, FPS as int);
    }
    // Commit the stored angle only once the sprite has converged onto its
    // current target point.
    assert(0 <= max_d * f.speed <= 1_700_000_000_000i64) by (nonlinear_arith)
        requires
            0 <= max_d <= 170_000,
            1 <= f.speed <= SPEED_LIMIT,
    ;
    let threshold: i64 = (max_d * f.speed) / 20_000;
    if dist < threshold {
        f.angle = a;
    }
    // Step toward the target, capped at `max_d`.
    if dist <= max_d {
        proof {
            lemma_snap_within_cap(sq as int, dist as int, max_d as int);
        }
        (tx, ty)
    } else {
        proof {
            lemma_div_is_ordered(0, max_d * 1000, dist as int);
        }
        let ratio: i64 = (max_d * TRIG_ONE) / dist;
        proof {
            lemma_ratio_below_one(max_d as int, dist as int, ratio as int);
        }
        let x = step_coord_fp(x_org, tx, ratio);
        let y = step_coord_fp(y_org, ty, ratio);
        proof {
            lemma_capped_step_within_cap(
                x_org as int,
                y_org as int,
                tx as int,
                ty as int,
                ratio as int,
                dist as int,
                max_d as int,
                x as int,
                y as int,
            );
        }
        (x, y)
    }
}

/// Division by the denominator is monotone downward.
proof fn lemma_div_is_ordered_by_den(x: int, d1: int, d2: int)
    requires
        0 <= x,
        0 < d1 <= d2,
    ensures
        x / d2 <= x / d1,
{
    vstd::arithmetic::div_mod::lemma_div_is_ordered_by_denominator(x, d1, d2);
}

/// Truncating fixed-point division, toward zero.
pub(crate) fn trunc_div_fp(v: i64, d: i64) -> (r: i64)
    requires
        0 < d,
        v > i64::MIN,
    ensures
        r == trunc_div(v as int, d as int),
        abs_i(r as int) <= abs_i(v as int),
{
    proof {
        if v >= 0 {
            lemma_div_is_ordered(0, v as int, d as int);
            lemma_div_is_ordered(v as int, v as int, d as int);
            vstd::arithmetic::div_mod::lemma_div_nonincreasing(v as int, d as int);
        } else {
            lemma_div_is_ordered(0, -(v as int), d as int);
            vstd::arithmetic::div_mod::lemma_div_nonincreasing(-(v as int), d as int);
        }
    }
    if v >= 0 {
        v / d
    } else {
        -((-v) / d)
    }
}

/// One coordinate of the capped step, executably.
fn step_coord_fp(x_org: i64, x_dst: i64, ratio: i64) -> (r: i64)
    requires
        -COORD_LIMIT <= x_org <= COORD_LIMIT,
        -COORD_LIMIT <= x_dst <= COORD_LIMIT,
        0 <= ratio <= TRIG_ONE,
    ensures
        r == step_coord(x_org as int, x_dst as int, ratio as int),
        if x_org <= x_dst {
            x_org <= r <= x_dst
        } else {
            x_dst <= r <= x_org
        },
        -COORD_LIMIT <= r <= COORD_LIMIT,
{
    let dx: i64 = x_org - x_dst;
    assert(dx * ratio <= 4_000_000_000_000i64 && dx * ratio >= -4_000_000_000_000i64) by (
    nonlinear_arith)
        requires
            -4_000_000_000 <= dx <= 4_000_000_000,
            0 <= ratio <= 1000,
    ;
    let step: i64 = trunc_div_fp(dx * ratio, TRIG_ONE);
    proof {
        lemma_step_le_dx(dx as int, ratio as int, step as int);
    }
    let x: i64 = x_org - step;
    if dx > 0 {
        if x >= x_dst {
            x
        } else {
            x_dst
        }
    } else {
        if x <= x_dst {
            x
        } else {
            x_dst
        }
    }
}

/// The scaled step never exceeds the displacement itself, and keeps its
/// sign.
proof fn lemma_step_le_dx(dx: int, ratio: int, step: int)
    requires
        0 <= ratio <= 1000,
        step == trunc_div(dx * ratio, 1000),
    ensures
        dx >= 0 ==> 0 <= step <= dx,
        dx <= 0 ==> dx <= step <= 0,
{
    if dx >= 0 {
        assert(0 <= dx * ratio <= dx * 1000) by (nonlinear_arith)
            requires
                0 <= ratio <= 1000,
                dx >= 0,
        ;
        lemma_div_is_ordered(0, dx * ratio, 1000);
        lemma_div_is_ordered(dx * ratio, dx * 1000, 1000);
        assert(dx * 1000 / 1000 == dx) by (nonlinear_arith);
    } else {
        assert(0 <= -(dx * ratio) <= (-dx) * 1000) by (nonlinear_arith)
            requires
                0 <= ratio <= 1000,
                dx < 0,
        ;
        lemma_div_is_ordered(0, -(dx * ratio), 1000);
        lemma_div_is_ordered(-(dx * ratio), (-dx) * 1000, 1000);
        assert((-dx) * 1000 / 1000 == -dx) by (nonlinear_arith);
    }
}

/// Snapping onto a target at most `max_d` away stays within the travel
/// cap.
proof fn lemma_snap_within_cap(sq: int, dist: int, max_d: int)
    requires
        0 <= sq,
        is_sqrt_up(sq, dist),
        0 <= dist <= max_d,
    ensures
        sq <= max_d * max_d,
{
    assert(sq <= max_d * max_d) by (nonlinear_arith)
        requires
            sq <= dist * dist,
            0 <= dist <= max_d,
    ;
}

/// The capped ratio is a proper fraction when the target is farther than
/// the cap.
proof fn lemma_ratio_below_one(max_d: int, dist: int, ratio: int)
    requires
        0 <= max_d < dist,
        ratio == (max_d * 1000) / dist,
    ensures
        0 <= ratio < 1000,
{
    lemma_div_is_ordered(0, max_d * 1000, dist);
    assert(max_d * 1000 < dist * 1000) by (nonlinear_arith)
        requires
            0 <= max_d < dist,
    ;
    assert((max_d * 1000) / dist < 1000) by {
        vstd::arithmetic::div_mod::lemma_multiply_divide_lt(max_d * 1000, dist, 1000);
    };
}

/// The capped step never travels more than `max_d`: scaling both axes of
/// the displacement by a ratio at most `max_d / dist`, with `dist` an
/// upper bound on the true distance, keeps the squared travel within the
/// squared cap.
proof fn lemma_capped_step_within_cap(
    x_org: int,
    y_org: int,
    tx: int,
    ty: int,
    ratio: int,
    dist: int,
    max_d: int,
    x: int,
    y: int,
)
    requires
        0 <= max_d < dist,
        is_sqrt_up(dist_sq(x_org, y_org, tx, ty), dist),
        ratio == (max_d * 1000) / dist,
        0 <= ratio < 1000,
        x == step_coord(x_org, tx, ratio),
        y == step_coord(y_org, ty, ratio),
    ensures
        dist_sq(x_org, y_org, x, y) <= max_d * max_d,
{
    let dx = x_org - tx;
    let dy = y_org - ty;
    let sx = trunc_div(dx * ratio, 1000);
    let sy = trunc_div(dy * ratio, 1000);
    lemma_step_le_dx(dx, ratio, sx);
    lemma_step_le_dx(dy, ratio, sy);
    // The clamp never fires for a proper fraction, so the step is exactly
    // `(sx, sy)`.
    assert(x == x_org - sx && y == y_org - sy);
    // `|sx| * 1000 <= |dx| * ratio`, and likewise for `y`.
    lemma_trunc_scaled(dx, ratio, sx);
    lemma_trunc_scaled(dy, ratio, sy);
    // Square and add both axes.
    assert(sx * sx == abs_i(sx) * abs_i(sx)) by (nonlinear_arith);
    assert(sy * sy == abs_i(sy) * abs_i(sy)) by (nonlinear_arith);
    assert(dx * dx == abs_i(dx) * abs_i(dx)) by (nonlinear_arith);
    assert(dy * dy == abs_i(dy) * abs_i(dy)) by (nonlinear_arith);
    assert((sx * sx + sy * sy) * 1_000_000 <= (dx * dx + dy * dy) * (ratio * ratio)) by (
    nonlinear_arith)
        requires
            abs_i(sx) * 1000 <= abs_i(dx) * ratio,
            abs_i(sy) * 1000 <= abs_i(dy) * ratio,
            0 <= ratio,
            abs_i(sx) >= 0 && abs_i(sy) >= 0,
            sx * sx == abs_i(sx) * abs_i(sx) && sy * sy == abs_i(sy) * abs_i(sy),
            dx * dx == abs_i(dx) * abs_i(dx) && dy * dy == abs_i(dy) * abs_i(dy),
    ;
    // `ratio * dist <= max_d * 1000`.
    lemma_fundamental_div_mod(max_d * 1000, dist);
    vstd::arithmetic::div_mod::lemma_mod_bound(max_d * 1000, dist);
    assert(ratio * dist <= max_d * 1000) by (nonlinear_arith)
        requires
            max_d * 1000 == dist * ratio + (max_d * 1000) % dist,
            (max_d * 1000) % dist >= 0,
    ;
    // Chain: `(moved)^2 * 10^6 <= S * ratio^2 <= dist^2 * ratio^2
    //         <= (max_d * 1000)^2`.
    let s = dx * dx + dy * dy;
    assert(s * (ratio * ratio) <= (dist * dist) * (ratio * ratio)) by (nonlinear_arith)
        requires
            s <= dist * dist,
            0 <= ratio,
    ;
    assert((dist * dist) * (ratio * ratio) <= (max_d * max_d) * 1_000_000) by (nonlinear_arith)
        requires
            ratio * dist <= max_d * 1000,
            0 <= ratio,
            0 <= dist,
            0 <= max_d,
    ;
    assert((sx * sx + sy * sy) * 1_000_000 <= (max_d * max_d) * 1_000_000);
    assert(sx * sx + sy * sy <= max_d * max_d) by (nonlinear_arith)
        requires
            (sx * sx + sy * sy) * 1_000_000 <= (max_d * max_d) * 1_000_000,
    ;
}

/// A coordinate clamped to the engine's range: linear integration
/// saturates at the coordinate limit rather than overflowing.
pub open spec fn clamp_coord(v: int) -> int {
    if v > COORD_LIMIT {
        COORD_LIMIT as int
    } else if v < -COORD_LIMIT {
        -COORD_LIMIT as int
    } else {
        v
    }
}

/// The point lies outside the window bounds expanded by the despawn
/// margin on all four sides.
pub open spec fn outside_bounds(x: int, y: int, win: WinSize) -> bool {
    ||| y > win.h as int / 2 + DESPAWN_MARGIN
    ||| y < -(win.h as int / 2) - DESPAWN_MARGIN
    ||| x > win.w as int / 2 + DESPAWN_MARGIN
    ||| x < -(win.w as int / 2) - DESPAWN_MARGIN
}

/// Linear integration of one movable entity: its unit velocity scaled by
/// the global speed constant and the fixed timestep, saturating at the
/// coordinate limit.
pub open spec fn linear_moved(e: Entity, base: int) -> Entity {
    Entity {
        x: clamp_coord(e.x + trunc_div(e.vel_x * base, (FPS * FP) as int)) as i64,
        y: clamp_coord(e.y + trunc_div(e.vel_y * base, (FPS * FP) as int)) as i64,
        ..e
    }
}

/// The per-entity outcome of the linear motion pass: non-movables are
/// untouched; movables integrate; auto-despawning movables that end up
/// outside the margin are removed the same frame.
pub open spec fn movable_out(e: Entity, base: int, win: WinSize) -> Option<Entity> {
    if !e.movable {
        Some(e)
    } else {
        let m = linear_moved(e, base);
        if e.auto_despawn && outside_bounds(m.x as int, m.y as int, win) {
            None
        } else {
            Some(m)
        }
    }
}

/// The linear motion pass as a transform over the whole registry.
pub open spec fn movable_fn(base: int, win: WinSize) -> spec_fn(Entity) -> Option<Entity> {
    |e: Entity| movable_out(e, base, win)
}

/// Clamp a coordinate into the engine's range.
fn clamp_fp(v: i64) -> (r: i64)
    ensures
        r == clamp_coord(v as int),
{
    if v > COORD_LIMIT {
        COORD_LIMIT
    } else if v < -COORD_LIMIT {
        -COORD_LIMIT
    } else {
        v
    }
}

/// Linear integrator with bounds-based lifecycle: every movable entity
/// advances by its velocity scaled by the global speed constant and the
/// fixed timestep; auto-despawning movables that leave the window bounds
/// plus the margin are removed in the same frame. Everything else is
/// untouched, so the enemy counter and the single-player bound carry over.
pub fn movable_system(w: &mut World)
    requires
        old(w).wf(),
    ensures
        final(w).wf(),
        final(w).entities@ =~= sweep(
            old(w).entities@,
            movable_fn(old(w).base_speed as int, old(w).win),
        ),
        final(w).entities@.len() <= old(w).entities@.len(),
        final(w).enemy_count == old(w).enemy_count,
        final(w).next_id == old(w).next_id,
        final(w).win == old(w).win,
        final(w).base_speed == old(w).base_speed,
        final(w).elapsed_us == old(w).elapsed_us,
        final(w).spawn_timer_us == old(w).spawn_timer_us,
        final(w).player_died == old(w).player_died,
        final(w).player_death_us == old(w).player_death_us,
{
    let ghost fsw = movable_fn(w.base_speed as int, w.win);
    let ghost s0 = w.entities@;
    let half_w: i64 = w.win.w / 2;
    let half_h: i64 = w.win.h / 2;
    proof {
        vstd::arithmetic::div_mod::lemma_div_is_ordered(0, w.win.w as int, 2);
        vstd::arithmetic::div_mod::lemma_div_is_ordered(w.win.w as int, crate::WIN_LIMIT as int, 2);
        vstd::arithmetic::div_mod::lemma_div_is_ordered(0, w.win.h as int, 2);
        vstd::arithmetic::div_mod::lemma_div_is_ordered(w.win.h as int, crate::WIN_LIMIT as int, 2);
    }
    let n: usize = w.entities.len();
    let mut out: Vec<Entity> = Vec::new();
    let mut i: usize = 0;
    while i < n
        invariant
            i <= n,
            n == w.entities@.len(),
            w.entities@ == s0,
            w.base_speed == old(w).base_speed,
            w.win == old(w).win,
            old(w).wf(),
            half_w == w.win.w as int / 2,
            half_h == w.win.h as int / 2,
            0 <= half_w <= crate::WIN_LIMIT,
            0 <= half_h <= crate::WIN_LIMIT,
            fsw == movable_fn(w.base_speed as int, w.win),
            out@ =~= sweep(s0.take(i as int), fsw),
        decreases n - i,
    {
        let e = w.entities[i];
        assert(e.wf());
        if !e.movable {
            out.push(e);
        } else {
            assert(-100_000_000_000i64 <= e.vel_x * w.base_speed <= 100_000_000_000i64 && (
            -100_000_000_000i64 <= e.vel_y * w.base_speed <= 100_000_000_000i64)) by (
            nonlinear_arith)
                requires
                    -VEL_LIMIT <= e.vel_x <= VEL_LIMIT,
                    -VEL_LIMIT <= e.vel_y <= VEL_LIMIT,
                    1 <= w.base_speed <= SPEED_LIMIT,
            ;
            let sx = trunc_div_fp(e.vel_x * w.base_speed, FPS * FP);
            let sy = trunc_div_fp(e.vel_y * w.base_speed, FPS * FP);
            let nx = clamp_fp(e.x + sx);
            let ny = clamp_fp(e.y + sy);
            let m = Entity { x: nx, y: ny, ..e };
            assert(m == linear_moved(e, w.base_speed as int));
            if e.auto_despawn && (m.y > half_h + DESPAWN_MARGIN || m.y < -half_h - DESPAWN_MARGIN
                || m.x > half_w + DESPAWN_MARGIN || m.x < -half_w - DESPAWN_MARGIN) {
                // out of bounds: despawned this frame
                assert(movable_out(e, w.base_speed as int, w.win) is None);
            } else {
                assert(movable_out(e, w.base_speed as int, w.win) == Some(m));
                out.push(m);
            }
        }
        proof {
            assert(s0.take(i + 1).drop_last() =~= s0.take(i as int));
            assert(s0.take(i + 1).last() == s0[i as int]);
        }
        i = i + 1;
    }
    proof {
        assert(s0.take(n as int) =~= s0);
    }
    w.entities = out;
    proof {
        assert forall|k: int| 0 <= k < s0.len() implies match #[trigger] fsw(s0[k]) {
            Some(m) => m.id == s0[k].id && m.wf(),
            None => true,
        } by {
            assert(s0[k].wf());
        }
        lemma_sweep_registry(s0, fsw, w.next_id);
        assert forall|k: int| 0 <= k < s0.len() implies match #[trigger] fsw(s0[k]) {
            Some(m) => m.is_enemy() == s0[k].is_enemy(),
            None => !s0[k].is_enemy(),
        } by {
            assert(s0[k].wf());
        }
        lemma_sweep_count_eq(s0, fsw, |e: Entity| e.is_enemy());
        lemma_sweep_count_le(s0, fsw, |e: Entity| e.is_player());
    }
}

/// The per-entity outcome of the formation pass: an enemy advances one
/// frame along its ellipse; everything else is untouched.
pub open spec fn enemy_moved(e: Entity) -> Option<Entity> {
    match e.kind {
        Kind::Enemy(f) => {
            let r = formation_step_spec(e.x as int, e.y as int, f);
            let m = Entity {
                x: r.0 as i64,
                y: r.1 as i64,
                kind: Kind::Enemy(Formation { angle: r.2 as i64, ..f }),
                ..e
            };
            Some(m)
        },
        _ => Some(e),
    }
}

pub open spec fn enemy_move_fn() -> spec_fn(Entity) -> Option<Entity> {
    |e: Entity| enemy_moved(e)
}

/// Formation integrator over the whole registry: every enemy advances
/// along its ellipse by one frame; everything else is untouched. The
/// motion laws hold for each enemy: bounded travel, monotone angle, and
/// no overshoot past the target point.
pub fn enemy_movement_system(w: &mut World)
    requires
        old(w).wf(),
    ensures
        final(w).wf(),
        final(w).entities@ =~= sweep(old(w).entities@, enemy_move_fn()),
        final(w).entities@.len() == old(w).entities@.len(),
        forall|i: int|
            0 <= i < old(w).entities@.len() ==> {
                let e = old(w).entities@[i];
                match e.kind {
                    Kind::Enemy(f) => ({
                        let r = formation_step_spec(e.x as int, e.y as int, f);
                        #[trigger] final(w).entities@[i] == Entity {
                            x: r.0 as i64,
                            y: r.1 as i64,
                            kind: Kind::Enemy(Formation { angle: r.2 as i64, ..f }),
                            ..e
                        }
                    }),
                    _ => final(w).entities@[i] == e,
                }
            },
        // Bounded travel: no enemy moves farther than its per-frame cap.
        forall|i: int|
            0 <= i < old(w).entities@.len() ==> {
                let e = old(w).entities@[i];
                match e.kind {
                    Kind::Enemy(f) => dist_sq(
                        e.x as int,
                        e.y as int,
                        #[trigger] final(w).entities@[i].x as int,
                        final(w).entities@[i].y as int,
                    ) <= max_distance(f.speed as int) * max_distance(f.speed as int),
                    _ => true,
                }
            },
        // Monotone angle: the stored angle never reverses against the
        // configured direction.
        forall|i: int|
            0 <= i < old(w).entities@.len() ==> {
                let e = old(w).entities@[i];
                match e.kind {
                    Kind::Enemy(f) => match #[trigger] final(w).entities@[i].kind {
                        Kind::Enemy(f2) => (f.dir() == 1 ==> f.angle <= f2.angle) && (f.dir() == -1
                            ==> f2.angle <= f.angle),
                        _ => false,
                    },
                    _ => true,
                }
            },
        final(w).enemy_count == old(w).enemy_count,
        final(w).next_id == old(w).next_id,
        final(w).win == old(w).win,
        final(w).base_speed == old(w).base_speed,
        final(w).elapsed_us == old(w).elapsed_us,
        final(w).spawn_timer_us == old(w).spawn_timer_us,
        final(w).player_died == old(w).player_died,
        final(w).player_death_us == old(w).player_death_us,
{
    let ghost s0 = w.entities@;
    let n: usize = w.entities.len();
    let mut out: Vec<Entity> = Vec::new();
    let mut i: usize = 0;
    while i < n
        invariant
            i <= n,
            n == w.entities@.len(),
            w.entities@ == s0,
            old(w).wf(),
            out@.len() == i,
            out@ =~= sweep(s0.take(i as int), enemy_move_fn()),
            forall|j: int|
                0 <= j < i ==> {
                    let e = s0[j];
                    match e.kind {
                        Kind::Enemy(f) => ({
                            let r = formation_step_spec(e.x as int, e.y as int, f);
                            #[trigger] out@[j] == Entity {
                                x: r.0 as i64,
                                y: r.1 as i64,
                                kind: Kind::Enemy(Formation { angle: r.2 as i64, ..f }),
                                ..e
                            }
                        }),
                        _ => out@[j] == e,
                    }
                },
            forall|j: int|
                0 <= j < i ==> {
                    let e = s0[j];
                    match e.kind {
                        Kind::Enemy(f) => dist_sq(
                            e.x as int,
                            e.y as int,
                            #[trigger] out@[j].x as int,
                            out@[j].y as int,
                        ) <= max_distance(f.speed as int) * max_distance(f.speed as int),
                        _ => true,
                    }
                },
            forall|j: int|
                0 <= j < i ==> {
                    let e = s0[j];
                    match e.kind {
                        Kind::Enemy(f) => match #[trigger] out@[j].kind {
                            Kind::Enemy(f2) => (f.dir() == 1 ==> f.angle <= f2.angle) && (f.dir()
                                == -1 ==> f2.angle <= f.angle),
                            _ => false,
                        },
                        _ => true,
                    }
                },
            forall|j: int| 0 <= j < i ==> (#[trigger] out@[j]).wf() && out@[j].id == s0[j].id
                && out@[j].is_enemy() == s0[j].is_enemy() && out@[j].is_player()
                == s0[j].is_player(),
        decreases n - i,
    {
        let e = w.entities[i];
        assert(e.wf());
        match e.kind {
            Kind::Enemy(f) => {
                let mut fm = f;
                let pos = formation_step(e.x, e.y, &mut fm);
                let m = Entity { x: pos.0, y: pos.1, kind: Kind::Enemy(fm), ..e };
                assert(enemy_moved(e) == Some(m));
                out.push(m);
            },
            _ => {
                out.push(e);
            },
        }
        proof {
            assert(s0.take(i + 1).drop_last() =~= s0.take(i as int));
            assert(s0.take(i + 1).last() == s0[i as int]);
        }
        i = i + 1;
    }
    proof {
        assert(s0.take(n as int) =~= s0);
    }
    w.entities = out;
    proof {
        crate::registry::lemma_count_pointwise(
            s0,
            w.entities@,
            |e: Entity| e.is_enemy(),
        );
        crate::registry::lemma_count_pointwise(
            s0,
            w.entities@,
            |e: Entity| e.is_player(),
        );
    }
}

/// Truncating a scaled displacement keeps its magnitude within the exact
/// product.
proof fn lemma_trunc_scaled(dx: int, ratio: int, s: int)
    requires
        0 <= ratio,
        s == trunc_div(dx * ratio, 1000),
    ensures
        abs_i(s) * 1000 <= abs_i(dx) * ratio,
{
    if dx * ratio >= 0 {
        lemma_fundamental_div_mod(dx * ratio, 1000);
        vstd::arithmetic::div_mod::lemma_mod_bound(dx * ratio, 1000);
        lemma_div_is_ordered(0, dx * ratio, 1000);
        assert(s * 1000 <= dx * ratio) by (nonlinear_arith)
            requires
                dx * ratio == 1000 * s + (dx * ratio) % 1000,
                (dx * ratio) % 1000 >= 0,
        ;
        assert(abs_i(dx) * ratio == dx * ratio) by (nonlinear_arith)
            requires
                dx * ratio >= 0,
                0 <= ratio,
                abs_i(dx) == if dx < 0 {
                    -dx
                } else {
                    dx
                },
        ;
    } else {
        let m = -(dx * ratio);
        lemma_fundamental_div_mod(m, 1000);
        vstd::arithmetic::div_mod::lemma_mod_bound(m, 1000);
        lemma_div_is_ordered(0, m, 1000);
        assert((m / 1000) * 1000 <= m) by (nonlinear_arith)
            requires
                m == 1000 * (m / 1000) + m % 1000,
                m % 1000 >= 0,
        ;
        assert(abs_i(dx) * ratio == m) by (nonlinear_arith)
            requires
                dx * ratio < 0,
                m == -(dx * ratio),
                0 <= ratio,
                abs_i(dx) == if dx < 0 {
                    -dx
                } else {
                    dx
                },
        ;
    }
}

} // verus!
