//! Explosion state machine. A destruction event raises a one-frame request
//! marker; the next pass converts it into an animating explosion with a
//! fresh repeating timer; each frame the timer accumulates simulated time
//! and, on each expiry, advances one animation frame; once the frame index
//! reaches the total frame count the entity retires and is removed. The
//! frame index depends only on the number of timer expirations, never on
//! how wall-clock time was split into frames.

use vstd::prelude::*;

use crate::registry::{
    lemma_sweep_count_eq, lemma_sweep_count_le, lemma_sweep_registry, sweep, Entity, ExplosionTimer,
    Kind, World,
};
use crate::{DELTA_MAX_US, EXPLOSION_LEN, EXPLOSION_TICK_US};

verus! {

/// Did this much simulated time make the repeating timer expire?
pub open spec fn timer_expired(t: ExplosionTimer, delta: u64) -> bool {
    t.elapsed_us + delta >= EXPLOSION_TICK_US
}

/// Advance the repeating timer: on expiry the accumulated time wraps and
/// the animation frame advances by exactly one.
pub open spec fn tick_timer(t: ExplosionTimer, delta: u64) -> ExplosionTimer {
    if timer_expired(t, delta) {
        ExplosionTimer {
            elapsed_us: ((t.elapsed_us + delta) % (EXPLOSION_TICK_US as int)) as u64,
            frame: (t.frame + 1) as u32,
        }
    } else {
        ExplosionTimer { elapsed_us: (t.elapsed_us + delta) as u64, frame: t.frame }
    }
}

/// Advance the repeating timer, executably.
pub fn tick_timer_fp(t: ExplosionTimer, delta: u64) -> (r: ExplosionTimer)
    requires
        t.elapsed_us < EXPLOSION_TICK_US,
        t.frame < u32::MAX,
        delta <= DELTA_MAX_US,
    ensures
        r == tick_timer(t, delta),
        r.elapsed_us < EXPLOSION_TICK_US,
        r.frame == t.frame + if timer_expired(t, delta) {
            1int
        } else {
            0int
        },
{
    let el: u64 = t.elapsed_us + delta;
    if el >= EXPLOSION_TICK_US {
        ExplosionTimer { elapsed_us: el % EXPLOSION_TICK_US, frame: t.frame + 1 }
    } else {
        ExplosionTimer { elapsed_us: el, frame: t.frame }
    }
}

/// The timer state after a whole sequence of frames.
pub open spec fn run_timer(t: ExplosionTimer, deltas: Seq<u64>) -> ExplosionTimer
    decreases deltas.len(),
{
    if deltas.len() == 0 {
        t
    } else {
        run_timer(tick_timer(t, deltas.first()), deltas.drop_first())
    }
}

/// How many of those frames made the timer expire.
pub open spec fn expiry_count(t: ExplosionTimer, deltas: Seq<u64>) -> int
    decreases deltas.len(),
{
    if deltas.len() == 0 {
        0
    } else {
        (if timer_expired(t, deltas.first()) {
            1int
        } else {
            0int
        }) + expiry_count(tick_timer(t, deltas.first()), deltas.drop_first())
    }
}

pub proof fn lemma_expiry_count_bounds(t: ExplosionTimer, deltas: Seq<u64>)
    ensures
        0 <= expiry_count(t, deltas) <= deltas.len(),
    decreases deltas.len(),
{
    if deltas.len() > 0 {
        lemma_expiry_count_bounds(tick_timer(t, deltas.first()), deltas.drop_first());
    }
}

/// The animation frame index is exactly the number of timer expirations
/// seen so far, however simulated time was split into frames.
pub proof fn lemma_frame_counts_expirations(t: ExplosionTimer, deltas: Seq<u64>)
    requires
        t.frame + deltas.len() < u32::MAX,
    ensures
        run_timer(t, deltas).frame == t.frame + expiry_count(t, deltas),
    decreases deltas.len(),
{
    if deltas.len() > 0 {
        lemma_expiry_count_bounds(tick_timer(t, deltas.first()), deltas.drop_first());
        lemma_frame_counts_expirations(tick_timer(t, deltas.first()), deltas.drop_first());
    }
}

/// Idempotence of the explosion animation: starting from frame zero, the
/// entity reaches its terminal frame exactly when the timer has expired
/// the full frame count of times — the real frame rate (the way `deltas`
/// splits simulated time) plays no part.
pub proof fn lemma_explosion_retires_after_full_count(deltas: Seq<u64>)
    requires
        deltas.len() < u32::MAX,
    ensures
        ({
            let t0 = ExplosionTimer { elapsed_us: 0, frame: 0 };
            run_timer(t0, deltas).frame >= EXPLOSION_LEN <==> expiry_count(t0, deltas)
                >= EXPLOSION_LEN
        }),
{
    let t0 = ExplosionTimer { elapsed_us: 0, frame: 0 };
    lemma_frame_counts_expirations(t0, deltas);
}

/// The per-entity outcome of the conversion pass: a request marker becomes
/// an animating explosion at the same position, under the same identifier,
/// with a fresh timer at frame zero; everything else is untouched.
pub open spec fn convert_marker(e: Entity) -> Option<Entity> {
    match e.kind {
        Kind::ExplosionToSpawn => {
            let m = Entity {
                kind: Kind::Explosion(ExplosionTimer { elapsed_us: 0, frame: 0 }),
                ..e
            };
            Some(m)
        },
        _ => Some(e),
    }
}

pub open spec fn convert_fn() -> spec_fn(Entity) -> Option<Entity> {
    |e: Entity| convert_marker(e)
}

/// The per-entity outcome of the animation pass: an explosion's timer
/// advances by the frame delta, and the entity retires (is removed) once
/// its frame index reaches the total frame count; everything else is
/// untouched.
pub open spec fn animate_out(e: Entity, delta: u64) -> Option<Entity> {
    match e.kind {
        Kind::Explosion(t) => {
            let t2 = tick_timer(t, delta);
            if t2.frame >= EXPLOSION_LEN {
                None
            } else {
                let m = Entity { kind: Kind::Explosion(t2), ..e };
                Some(m)
            }
        },
        _ => Some(e),
    }
}

pub open spec fn animate_fn(delta: u64) -> spec_fn(Entity) -> Option<Entity> {
    |e: Entity| animate_out(e, delta)
}

/// Convert every explosion request raised last frame into an animating
/// explosion at the request's position, discarding the one-frame marker.
pub fn explosion_to_spawn_system(w: &mut World)
    requires
        old(w).wf(),
    ensures
        final(w).wf(),
        final(w).entities@ =~= sweep(old(w).entities@, convert_fn()),
        final(w).entities@.len() == old(w).entities@.len(),
        final(w).enemy_count == old(w).enemy_count,
        final(w).next_id == old(w).next_id,
        final(w).win == old(w).win,
        final(w).base_speed == old(w).base_speed,
        final(w).elapsed_us == old(w).elapsed_us,
        final(w).spawn_timer_us == old(w).spawn_timer_us,
        final(w).player_died == old(w).player_died,
        final(w).player_death_us == old(w).player_death_us,
{
    let ghost s0 = w.entities@;
    let n: usize = w.entities.len();
    let mut out: Vec<Entity> = Vec::new();
    let mut i: usize = 0;
    while i < n
        invariant
            i <= n,
            n == w.entities@.len(),
            w.entities@ == s0,
            old(w).wf(),
            out@ =~= sweep(s0.take(i as int), convert_fn()),
            out@.len() == i,
        decreases n - i,
    {
        let e = w.entities[i];
        let is_marker = match e.kind {
            Kind::ExplosionToSpawn => true,
            _ => false,
        };
        if is_marker {
            out.push(
                Entity { kind: Kind::Explosion(ExplosionTimer { elapsed_us: 0, frame: 0 }), ..e },
            );
        } else {
            out.push(e);
        }
        proof {
            assert(s0.take(i + 1).drop_last() =~= s0.take(i as int));
            assert(s0.take(i + 1).last() == s0[i as int]);
        }
        i = i + 1;
    }
    proof {
        assert(s0.take(n as int) =~= s0);
    }
    w.entities = out;
    proof {
        assert forall|k: int| 0 <= k < s0.len() implies match #[trigger] convert_fn()(s0[k]) {
            Some(m) => m.id == s0[k].id && m.wf(),
            None => true,
        } by {
            assert(s0[k].wf());
        }
        lemma_sweep_registry(s0, convert_fn(), w.next_id);
        lemma_sweep_count_eq(s0, convert_fn(), |e: Entity| e.is_enemy());
        lemma_sweep_count_eq(s0, convert_fn(), |e: Entity| e.is_player());
    }
}

/// Advance every explosion's timer by this frame's delta; on expiry the
/// animation moves one frame on, and an explosion whose frame index
/// reaches the total frame count retires and is removed.
pub fn explosion_animation_system(w: &mut World, delta_us: u64)
    requires
        old(w).wf(),
        delta_us <= DELTA_MAX_US,
    ensures
        final(w).wf(),
        final(w).entities@ =~= sweep(old(w).entities@, animate_fn(delta_us)),
        final(w).entities@.len() <= old(w).entities@.len(),
        final(w).enemy_count == old(w).enemy_count,
        final(w).next_id == old(w).next_id,
        final(w).win == old(w).win,
        final(w).base_speed == old(w).base_speed,
        final(w).elapsed_us == old(w).elapsed_us,
        final(w).spawn_timer_us == old(w).spawn_timer_us,
        final(w).player_died == old(w).player_died,
        final(w).player_death_us == old(w).player_death_us,
{
    let ghost s0 = w.entities@;
    let n: usize = w.entities.len();
    let mut out: Vec<Entity> = Vec::new();
    let mut i: usize = 0;
    while i < n
        invariant
            i <= n,
            n == w.entities@.len(),
            w.entities@ == s0,
            old(w).wf(),
            delta_us <= DELTA_MAX_US,
            out@ =~= sweep(s0.take(i as int), animate_fn(delta_us)),
        decreases n - i,
    {
        let e = w.entities[i];
        assert(e.wf());
        match e.kind {
            Kind::Explosion(t) => {
                let t2 = tick_timer_fp(t, delta_us);
                if t2.frame < EXPLOSION_LEN {
                    out.push(Entity { kind: Kind::Explosion(t2), ..e });
                } else {
                    assert(animate_out(e, delta_us) is None);
                }
            },
            _ => {
                out.push(e);
            },
        }
        proof {
            assert(s0.take(i + 1).drop_last() =~= s0.take(i as int));
            assert(s0.take(i + 1).last() == s0[i as int]);
        }
        i = i + 1;
    }
    proof {
        assert(s0.take(n as int) =~= s0);
    }
    w.entities = out;
    proof {
        assert forall|k: int| 0 <= k < s0.len() implies match #[trigger] animate_fn(delta_us)(
            s0[k],
        ) {
            Some(m) => m.id == s0[k].id && m.wf(),
            None => true,
        } by {
            assert(s0[k].wf());
        }
        lemma_sweep_registry(s0, animate_fn(delta_us), w.next_id);
        assert forall|k: int| 0 <= k < s0.len() implies match #[trigger] animate_fn(delta_us)(
            s0[k],
        ) {
            Some(m) => m.is_enemy() == s0[k].is_enemy(),
            None => !s0[k].is_enemy(),
        } by {
            assert(s0[k].wf());
        }
        lemma_sweep_count_eq(s0, animate_fn(delta_us), |e: Entity| e.is_enemy());
        lemma_sweep_count_le(s0, animate_fn(delta_us), |e: Entity| e.is_player());
    }
}

} // verus!
