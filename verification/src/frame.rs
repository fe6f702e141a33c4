//! The per-frame pipeline, in its fixed order: the spawner may create new
//! enemies and projectiles, the motion engine advances all positions and
//! prunes out-of-bounds movables, the collision resolver destroys matched
//! pairs and raises explosion requests, and the explosion state machine
//! promotes and retires animation entities. The two phase relations below
//! state the whole frame exactly, up to the random draws (the spawned
//! formations and the fire trials), and every pass preserves the global
//! invariants — in particular, the enemy counter always equals the number
//! of live enemies.

use vstd::arithmetic::div_mod::lemma_fundamental_div_mod_converse;
use vstd::prelude::*;

use crate::collision::{
    apply_from, detect_hits_spec, enemy_laser_hit_system, explosion_request, find_player_idx,
    first_player_hit, lemma_apply_from_count_le, player_laser_hit_enemy_system,
};
use crate::explosion::{animate_fn, convert_fn, explosion_animation_system,
    explosion_to_spawn_system};
use crate::formation::formation_fits;
use crate::motion::{enemy_move_fn, enemy_movement_system, movable_fn, movable_system};
use crate::registry::{remove_id, sweep, Formation, World};
use crate::spawner::{
    enemy_entity, enemy_fire_system, enemy_spawn_system, fire_from, player_entity,
    player_fire_system, player_keyboard_event_system, player_laser, player_spawn_system, steer_fn,
    PLAYER_MOUNT_OFFSET,
};
use crate::{DELTA_MAX_US, ENEMY_MAX_COUNT, RESPAWN_DELAY_US, SPAWN_PERIOD_US};

verus! {

/// What the collaborators hand the engine each frame: the simulated time
/// the frame covers, the fire-key press transition, and the held movement
/// keys.
#[derive(Clone, Copy, Debug)]
pub struct FrameInput {
    pub delta_us: u64,
    pub fire_just_pressed: bool,
    pub left_pressed: bool,
    pub right_pressed: bool,
}

/// The spawner half of the frame, as a relation between the world before
/// (`a`) and after (`b`), given the random draws: `fs` the formations the
/// spawn ticks produced, `ds` the per-slot fire trials. In order: the
/// clock advances by the frame delta; held keys steer the player; the
/// spawn timer crosses `k` cadence periods and each tick under the
/// population cap appends one enemy at its formation's start point; the
/// player respawns at the anchor if absent and past the cooldown; a fresh
/// fire press spawns the two mount projectiles; and every enemy whose
/// trial came up true fires one projectile from its muzzle.
pub open spec fn spawn_phase_rel(
    a: World,
    b: World,
    input: FrameInput,
    fs: Seq<Formation>,
    ds: Seq<bool>,
) -> bool {
    let elapsed2 = a.elapsed_us + input.delta_us;
    let t_in = a.spawn_timer_us + input.delta_us;
    let k = t_in / (SPAWN_PERIOD_US as int);
    let s1 = sweep(a.entities@, steer_fn(input.left_pressed, input.right_pressed));
    let spawned = Seq::new(fs.len(), |i: int| enemy_entity((a.next_id + i) as u64, fs[i]));
    let s2 = s1 + spawned;
    let n2 = a.next_id + fs.len();
    let c2 = a.enemy_count + fs.len();
    let alive = find_player_idx(s2) >= 0;
    let eligible = !a.player_died || elapsed2 >= a.player_death_us + RESPAWN_DELAY_US;
    let respawn = !alive && eligible;
    let s3 = if respawn {
        s2.push(player_entity(n2 as u64, a.win.h as int))
    } else {
        s2
    };
    let n3 = if respawn {
        n2 + 1
    } else {
        n2
    };
    let pi = find_player_idx(s3);
    let fire = pi >= 0 && input.fire_just_pressed;
    let s4 = if fire {
        s3.push(player_laser(n3 as u64, s3[pi].x + PLAYER_MOUNT_OFFSET, s3[pi].y as int)).push(
            player_laser((n3 + 1) as u64, s3[pi].x - PLAYER_MOUNT_OFFSET, s3[pi].y as int),
        )
    } else {
        s3
    };
    let n4 = if fire {
        n3 + 2
    } else {
        n3
    };
    let lasers = fire_from(s4, ds, 0, n4);
    &&& fs.len() <= k
    &&& (fs.len() < k ==> c2 == ENEMY_MAX_COUNT)
    &&& c2 <= ENEMY_MAX_COUNT
    &&& (forall|i: int| 0 <= i < fs.len() ==> (#[trigger] fs[i]).wf() && formation_fits(fs[i], a.win))
    &&& ds.len() == s4.len()
    &&& b.entities@ == s4 + lasers
    &&& b.next_id == n4 + lasers.len()
    &&& b.enemy_count == c2
    &&& b.elapsed_us == elapsed2
    &&& b.spawn_timer_us == t_in % (SPAWN_PERIOD_US as int)
    &&& b.player_died == a.player_died
    &&& b.player_death_us == a.player_death_us
    &&& b.win == a.win
    &&& b.base_speed == a.base_speed
}

/// The resolver half of the frame, as a relation between the world before
/// (`a`) and after (`b`). In order: every enemy advances one frame along
/// its ellipse; every movable integrates its velocity and auto-despawning
/// movables outside the margin are removed; player projectiles resolve
/// against enemies under the visited-set guard; the first enemy projectile
/// overlapping the player destroys it and records the timestamp; this
/// frame's explosion requests are promoted; and explosion timers advance,
/// retiring finished animations.
pub open spec fn resolve_phase_rel(a: World, b: World, delta_us: u64) -> bool {
    let s1 = sweep(a.entities@, enemy_move_fn());
    let s2 = sweep(s1, movable_fn(a.base_speed as int, a.win));
    let o = apply_from(s2, a.next_id as int, a.enemy_count as int, detect_hits_spec(s2));
    let pi = find_player_idx(o.0);
    let hj = if pi >= 0 {
        first_player_hit(o.0, o.0[pi], 0)
    } else {
        -1
    };
    let hit = pi >= 0 && hj >= 0;
    let s4 = if hit {
        remove_id(remove_id(o.0, o.0[pi].id), o.0[hj].id).push(
            explosion_request(o.1 as u64, o.0[pi].x, o.0[pi].y, o.0[pi].z),
        )
    } else {
        o.0
    };
    let n4 = if hit {
        o.1 + 1
    } else {
        o.1
    };
    &&& b.entities@ == sweep(sweep(s4, convert_fn()), animate_fn(delta_us))
    &&& b.next_id == n4
    &&& b.enemy_count == o.2
    &&& b.player_died == (if hit {
        true
    } else {
        a.player_died
    })
    &&& b.player_death_us == (if hit {
        a.elapsed_us
    } else {
        a.player_death_us
    })
    &&& b.elapsed_us == a.elapsed_us
    &&& b.spawn_timer_us == a.spawn_timer_us
    &&& b.win == a.win
    &&& b.base_speed == a.base_speed
}

/// The spawner half of the frame: advance the clocks, steer the player,
/// spawn enemies on cadence under the cap, respawn and fire.
fn frame_spawn_phase(w: &mut World, input: FrameInput)
    requires
        old(w).wf(),
        old(w).enemy_count <= ENEMY_MAX_COUNT,
        old(w).spawn_timer_us < SPAWN_PERIOD_US,
        input.delta_us <= DELTA_MAX_US,
        old(w).elapsed_us + input.delta_us <= u64::MAX,
        old(w).next_id as int + 3 * old(w).entities@.len() + 64 <= u64::MAX,
    ensures
        final(w).wf(),
        exists|fs: Seq<Formation>, ds: Seq<bool>|
            #[trigger] spawn_phase_rel(*old(w), *final(w), input, fs, ds),
        final(w).enemy_count <= ENEMY_MAX_COUNT,
        final(w).spawn_timer_us < SPAWN_PERIOD_US,
        final(w).elapsed_us == old(w).elapsed_us + input.delta_us,
        final(w).next_id as int <= old(w).next_id as int + old(w).entities@.len() + 16,
        final(w).entities@.len() <= 2 * old(w).entities@.len() + 16,
        final(w).win == old(w).win,
        final(w).base_speed == old(w).base_speed,
{
    let ghost n0 = old(w).next_id as int;
    let ghost l0 = old(w).entities@.len() as int;
    let ghost c1 = old(w).enemy_count as int;
    let ghost t_in = old(w).spawn_timer_us as int + input.delta_us as int;
    // the frame clock
    w.elapsed_us = w.elapsed_us + input.delta_us;
    w.spawn_timer_us = w.spawn_timer_us + input.delta_us;
    // input: held keys steer the player
    player_keyboard_event_system(w, input.left_pressed, input.right_pressed);
    let ghost s1v = w.entities@;
    // enemy spawns on cadence, under the population cap
    let ghost mut fs: Seq<Formation> = Seq::empty();
    let ghost mut ticks: int = 0;
    proof {
        assert(w.entities@ =~= s1v + Seq::new(
            fs.len(),
            |i: int| enemy_entity((n0 + i) as u64, fs[i]),
        ));
    }
    while w.spawn_timer_us >= SPAWN_PERIOD_US
        invariant
            w.wf(),
            w.enemy_count <= ENEMY_MAX_COUNT,
            ticks >= 0,
            0 <= c1 <= ENEMY_MAX_COUNT,
            fs.len() <= ticks,
            fs.len() < ticks ==> w.enemy_count == ENEMY_MAX_COUNT,
            w.enemy_count as int == c1 + fs.len(),
            w.next_id as int == n0 + fs.len(),
            w.entities@ == s1v + Seq::new(
                fs.len(),
                |i: int| enemy_entity((n0 + i) as u64, fs[i]),
            ),
            forall|i: int|
                0 <= i < fs.len() ==> (#[trigger] fs[i]).wf() && formation_fits(fs[i], old(w).win),
            w.spawn_timer_us as int == t_in - ticks * (SPAWN_PERIOD_US as int),
            s1v.len() == l0,
            n0 + 3 * l0 + 64 <= u64::MAX,
            w.win == old(w).win,
            w.base_speed == old(w).base_speed,
            w.elapsed_us == old(w).elapsed_us + input.delta_us,
            w.player_died == old(w).player_died,
            w.player_death_us == old(w).player_death_us,
        decreases w.spawn_timer_us,
    {
        w.spawn_timer_us = w.spawn_timer_us - SPAWN_PERIOD_US;
        let ghost sp = w.entities@;
        let ghost np = w.next_id;
        let ghost cp = w.enemy_count;
        enemy_spawn_system(w);
        proof {
            ticks = ticks + 1;
            if cp < ENEMY_MAX_COUNT {
                let f = choose|f: Formation|
                    {
                        &&& f.wf()
                        &&& #[trigger] formation_fits(f, old(w).win)
                        &&& w.entities@ == sp.push(enemy_entity(np, f))
                        &&& w.enemy_count == cp + 1
                        &&& w.next_id == np + 1
                    };
                let ghost fs0 = fs;
                fs = fs.push(f);
                assert(Seq::new(fs.len(), |i: int| enemy_entity((n0 + i) as u64, fs[i])) =~= Seq::new(
                    fs0.len(),
                    |i: int| enemy_entity((n0 + i) as u64, fs0[i]),
                ).push(enemy_entity((n0 + fs0.len()) as u64, f)));
                assert(w.entities@ =~= s1v + Seq::new(
                    fs.len(),
                    |i: int| enemy_entity((n0 + i) as u64, fs[i]),
                ));
            }
        }
    }
    proof {
        // the loop crossed exactly `t_in / period` cadence periods
        lemma_fundamental_div_mod_converse(
            t_in,
            SPAWN_PERIOD_US as int,
            ticks,
            w.spawn_timer_us as int,
        );
    }
    // player respawn, player fire, enemy fire
    player_spawn_system(w);
    player_fire_system(w, input.fire_just_pressed);
    let ghost s4v = w.entities@;
    let ghost n4v = w.next_id;
    proof {
        assert(w.next_id as int <= n0 + 8 && w.entities@.len() <= l0 + 8);
    }
    enemy_fire_system(w);
    proof {
        let ds = choose|ds: Seq<bool>|
            {
                &&& ds.len() == s4v.len()
                &&& w.entities@ =~= s4v + #[trigger] fire_from(s4v, ds, 0, n4v as int)
                &&& w.next_id as int == n4v as int + fire_from(s4v, ds, 0, n4v as int).len()
            };
        let wb = *w;
        assert(spawn_phase_rel(*old(w), wb, input, fs, ds));
    }
}

/// The resolver half of the frame: motion, collision, explosions.
fn frame_resolve_phase(w: &mut World, delta_us: u64)
    requires
        old(w).wf(),
        delta_us <= DELTA_MAX_US,
        old(w).next_id as int + 2 * old(w).entities@.len() + 2 <= u64::MAX,
    ensures
        final(w).wf(),
        resolve_phase_rel(*old(w), *final(w), delta_us),
        final(w).enemy_count <= old(w).enemy_count,
        final(w).spawn_timer_us == old(w).spawn_timer_us,
        final(w).elapsed_us == old(w).elapsed_us,
        final(w).win == old(w).win,
        final(w).base_speed == old(w).base_speed,
{
    // motion: formation paths, then linear movables with bounds lifecycle
    enemy_movement_system(w);
    movable_system(w);
    // collision: player projectiles against enemies, then enemy
    // projectiles against the player
    let ghost s_c = w.entities@;
    let ghost n_c = w.next_id as int;
    let ghost c_c = w.enemy_count as int;
    player_laser_hit_enemy_system(w);
    proof {
        lemma_apply_from_count_le(s_c, n_c, c_c, detect_hits_spec(s_c));
    }
    enemy_laser_hit_system(w);
    // explosions: promote this frame's requests, then animate and retire
    explosion_to_spawn_system(w);
    explosion_animation_system(w, delta_us);
    proof {
        let wb = *w;
        assert(resolve_phase_rel(*old(w), wb, delta_us));
    }
}

/// Advance the simulation by one frame, running every system in the fixed
/// pipeline order. The outcome is pinned by the two phase relations: there
/// is an intermediate state reached from the old world by the spawner
/// phase under some spawned formations and fire trials, from which the
/// resolver phase reaches the final world. In particular the global
/// invariants are preserved across the whole frame, the population stays
/// at or below its cap, and the clock advances by exactly the frame delta.
pub fn run_frame(w: &mut World, input: FrameInput)
    requires
        old(w).wf(),
        old(w).enemy_count <= ENEMY_MAX_COUNT,
        old(w).spawn_timer_us < SPAWN_PERIOD_US,
        input.delta_us <= DELTA_MAX_US,
        old(w).elapsed_us + input.delta_us <= u64::MAX,
        old(w).next_id as int + 7 * old(w).entities@.len() + 128 <= u64::MAX,
    ensures
        final(w).wf(),
        exists|mid: World, fs: Seq<Formation>, ds: Seq<bool>|
            #[trigger] spawn_phase_rel(*old(w), mid, input, fs, ds) && resolve_phase_rel(
                mid,
                *final(w),
                input.delta_us,
            ),
        final(w).enemy_count <= ENEMY_MAX_COUNT,
        final(w).spawn_timer_us < SPAWN_PERIOD_US,
        final(w).elapsed_us == old(w).elapsed_us + input.delta_us,
        final(w).win == old(w).win,
        final(w).base_speed == old(w).base_speed,
{
    frame_spawn_phase(w, input);
    let ghost mid = *w;
    let ghost fsds = choose|fs: Seq<Formation>, ds: Seq<bool>|
        #[trigger] spawn_phase_rel(*old(w), mid, input, fs, ds);
    frame_resolve_phase(w, input.delta_us);
    proof {
        let wb = *w;
        assert(spawn_phase_rel(*old(w), mid, input, fsds.0, fsds.1) && resolve_phase_rel(
            mid,
            wb,
            input.delta_us,
        ));
    }
}

} // verus!
