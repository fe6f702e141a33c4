//! Spawner and rate limiter: enemy spawns under the population cap, player
//! respawn after its cooldown, edge-triggered player fire from the two
//! wing mounts, and per-enemy Bernoulli fire. Creation owns the counters
//! it touches: an enemy spawn increments the population counter exactly
//! once.

use vstd::prelude::*;

use crate::collision::{find_player, find_player_idx};
use crate::formation::{formation_fits, make};
use crate::motion::clamp_coord;
use crate::registry::{
    lemma_count_push, lemma_count_zero, sweep, Entity, Formation, Kind, Origin, World,
};
use crate::rng::rand_ratio;
use crate::{
    ENEMY_FIRE_DEN, ENEMY_FIRE_NUM, ENEMY_LASER_SIZE_H, ENEMY_LASER_SIZE_W, ENEMY_MAX_COUNT,
    ENEMY_SIZE_H, ENEMY_SIZE_W, FP, PLAYER_LASER_SIZE_H, PLAYER_LASER_SIZE_W, PLAYER_SIZE_H,
    PLAYER_SIZE_W, RESPAWN_DELAY_US, SPRITE_SCALE,
};

verus! {

/// Vertical offset of an enemy projectile below its muzzle, in subunits.
pub const ENEMY_MUZZLE_DROP: i64 = 15_000;

/// Horizontal offset of the player's two wing mounts from its centre, in
/// subunits: half the scaled sprite width, pulled in slightly.
pub const PLAYER_MOUNT_OFFSET: i64 = 31_000;

/// Extra clearance between the bottom of the window and the player's
/// spawn anchor, in subunits.
pub const PLAYER_SPAWN_LIFT: i64 = 5_000;

/// A fresh enemy: spawned exactly at its formation's start point, with
/// the formation attached.
pub open spec fn enemy_entity(id: u64, f: Formation) -> Entity {
    Entity {
        id,
        x: f.start.0,
        y: f.start.1,
        z: 10_000,
        vel_x: 0,
        vel_y: 0,
        size_w: ENEMY_SIZE_W,
        size_h: ENEMY_SIZE_H,
        scale: SPRITE_SCALE,
        movable: false,
        auto_despawn: false,
        kind: Kind::Enemy(f),
    }
}

/// A fresh player at the fixed bottom-of-screen anchor.
pub open spec fn player_entity(id: u64, win_h: int) -> Entity {
    Entity {
        id,
        x: 0,
        y: (-(win_h / 2) + PLAYER_SIZE_H / 2 + PLAYER_SPAWN_LIFT) as i64,
        z: 10_000,
        vel_x: 0,
        vel_y: 0,
        size_w: PLAYER_SIZE_W,
        size_h: PLAYER_SIZE_H,
        scale: SPRITE_SCALE,
        movable: true,
        auto_despawn: false,
        kind: Kind::Player,
    }
}

/// A player projectile leaving one wing mount, moving straight up.
pub open spec fn player_laser(id: u64, x: int, y: int) -> Entity {
    Entity {
        id,
        x: clamp_coord(x) as i64,
        y: clamp_coord(y) as i64,
        z: 0,
        vel_x: 0,
        vel_y: FP,
        size_w: PLAYER_LASER_SIZE_W,
        size_h: PLAYER_LASER_SIZE_H,
        scale: SPRITE_SCALE,
        movable: true,
        auto_despawn: true,
        kind: Kind::Laser(Origin::FromPlayer),
    }
}

/// An enemy projectile leaving the muzzle, moving straight down.
pub open spec fn enemy_laser(id: u64, x: int, y: int) -> Entity {
    Entity {
        id,
        x: clamp_coord(x) as i64,
        y: clamp_coord(y - ENEMY_MUZZLE_DROP) as i64,
        z: 0,
        vel_x: 0,
        vel_y: (-FP) as i64,
        size_w: ENEMY_LASER_SIZE_W,
        size_h: ENEMY_LASER_SIZE_H,
        scale: SPRITE_SCALE,
        movable: true,
        auto_despawn: true,
        kind: Kind::Laser(Origin::FromEnemy),
    }
}

/// Clamp a coordinate into the engine's range.
fn clamp_fp(v: i64) -> (r: i64)
    ensures
        r == clamp_coord(v as int),
{
    if v > crate::COORD_LIMIT {
        crate::COORD_LIMIT
    } else if v < -crate::COORD_LIMIT {
        -crate::COORD_LIMIT
    } else {
        v
    }
}

/// Spawn one enemy at its formation's start point and account for it.
pub fn spawn_enemy(w: &mut World, f: Formation)
    requires
        old(w).wf(),
        f.wf(),
        old(w).enemy_count < ENEMY_MAX_COUNT,
        old(w).next_id < u64::MAX,
    ensures
        final(w).wf(),
        final(w).entities@ == old(w).entities@.push(enemy_entity(old(w).next_id, f)),
        final(w).next_id == old(w).next_id + 1,
        final(w).enemy_count == old(w).enemy_count + 1,
        final(w).win == old(w).win,
        final(w).base_speed == old(w).base_speed,
        final(w).elapsed_us == old(w).elapsed_us,
        final(w).spawn_timer_us == old(w).spawn_timer_us,
        final(w).player_died == old(w).player_died,
        final(w).player_death_us == old(w).player_death_us,
{
    let ghost s0 = w.entities@;
    let e = Entity {
        id: w.next_id,
        x: f.start.0,
        y: f.start.1,
        z: 10_000,
        vel_x: 0,
        vel_y: 0,
        size_w: ENEMY_SIZE_W,
        size_h: ENEMY_SIZE_H,
        scale: SPRITE_SCALE,
        movable: false,
        auto_despawn: false,
        kind: Kind::Enemy(f),
    };
    w.entities.push(e);
    w.next_id = w.next_id + 1;
    w.enemy_count = w.enemy_count + 1;
    proof {
        lemma_count_push(s0, |e: Entity| e.is_enemy(), e);
        lemma_count_push(s0, |e: Entity| e.is_player(), e);
    }
}

/// One enemy-spawn tick: a no-op at the population cap, otherwise a fresh
/// randomized formation is requested and an enemy spawned at its start
/// point, incrementing the population counter exactly once.
pub fn enemy_spawn_system(w: &mut World)
    requires
        old(w).wf(),
        old(w).next_id < u64::MAX,
    ensures
        final(w).wf(),
        old(w).enemy_count >= ENEMY_MAX_COUNT ==> {
            &&& final(w).entities@ == old(w).entities@
            &&& final(w).enemy_count == old(w).enemy_count
            &&& final(w).next_id == old(w).next_id
        },
        old(w).enemy_count < ENEMY_MAX_COUNT ==> exists|f: Formation|
            {
                &&& f.wf()
                &&& #[trigger] formation_fits(f, old(w).win)
                &&& final(w).entities@ == old(w).entities@.push(enemy_entity(old(w).next_id, f))
                &&& final(w).enemy_count == old(w).enemy_count + 1
                &&& final(w).next_id == old(w).next_id + 1
            },
        final(w).win == old(w).win,
        final(w).base_speed == old(w).base_speed,
        final(w).elapsed_us == old(w).elapsed_us,
        final(w).spawn_timer_us == old(w).spawn_timer_us,
        final(w).player_died == old(w).player_died,
        final(w).player_death_us == old(w).player_death_us,
{
    if w.enemy_count >= ENEMY_MAX_COUNT {
        return ;
    }
    let win = w.win;
    let f = make(&win);
    spawn_enemy(w, f);
}

/// Player respawn: if no player is live and either no destruction has
/// ever occurred or the respawn delay has elapsed since the last one,
/// spawn the player at the fixed bottom-of-screen anchor.
pub fn player_spawn_system(w: &mut World)
    requires
        old(w).wf(),
        old(w).next_id < u64::MAX,
    ensures
        final(w).wf(),
        ({
            let alive = find_player_idx(old(w).entities@) >= 0;
            let eligible = !old(w).player_died || old(w).elapsed_us >= old(w).player_death_us
                + RESPAWN_DELAY_US;
            if !alive && eligible {
                final(w).entities@ == old(w).entities@.push(
                    player_entity(old(w).next_id, old(w).win.h as int),
                ) && final(w).next_id == old(w).next_id + 1
            } else {
                final(w).entities@ == old(w).entities@ && final(w).next_id == old(w).next_id
            }
        }),
        final(w).enemy_count == old(w).enemy_count,
        final(w).win == old(w).win,
        final(w).base_speed == old(w).base_speed,
        final(w).elapsed_us == old(w).elapsed_us,
        final(w).spawn_timer_us == old(w).spawn_timer_us,
        final(w).player_died == old(w).player_died,
        final(w).player_death_us == old(w).player_death_us,
{
    let ghost s0 = w.entities@;
    if find_player(w).is_some() {
        return ;
    }
    let eligible = if !w.player_died {
        true
    } else {
        w.elapsed_us - w.player_death_us >= RESPAWN_DELAY_US
    };
    if !eligible {
        return ;
    }
    proof {
        vstd::arithmetic::div_mod::lemma_div_is_ordered(0, w.win.h as int, 2);
        vstd::arithmetic::div_mod::lemma_div_is_ordered(w.win.h as int, crate::WIN_LIMIT as int, 2);
        crate::collision::lemma_find_player_idx(s0);
        lemma_count_zero(s0, |e: Entity| e.is_player());
    }
    let half_h: i64 = w.win.h / 2;
    let e = Entity {
        id: w.next_id,
        x: 0,
        y: -half_h + PLAYER_SIZE_H / 2 + PLAYER_SPAWN_LIFT,
        z: 10_000,
        vel_x: 0,
        vel_y: 0,
        size_w: PLAYER_SIZE_W,
        size_h: PLAYER_SIZE_H,
        scale: SPRITE_SCALE,
        movable: true,
        auto_despawn: false,
        kind: Kind::Player,
    };
    w.entities.push(e);
    w.next_id = w.next_id + 1;
    proof {
        lemma_count_push(s0, |e: Entity| e.is_enemy(), e);
        lemma_count_push(s0, |e: Entity| e.is_player(), e);
    }
}

/// Edge-triggered player fire: on a fresh press, two projectiles leave
/// the player's wing mounts symmetrically. Holding the key does not
/// autofire — the caller reports only the press transition.
pub fn player_fire_system(w: &mut World, fire_just_pressed: bool)
    requires
        old(w).wf(),
        old(w).next_id as int + 2 <= u64::MAX,
    ensures
        final(w).wf(),
        ({
            let pi = find_player_idx(old(w).entities@);
            if pi >= 0 && fire_just_pressed {
                let p = old(w).entities@[pi];
                final(w).entities@ == old(w).entities@.push(
                    player_laser(old(w).next_id, p.x + PLAYER_MOUNT_OFFSET, p.y as int),
                ).push(
                    player_laser((old(w).next_id + 1) as u64, p.x - PLAYER_MOUNT_OFFSET, p.y as int),
                ) && final(w).next_id == old(w).next_id + 2
            } else {
                final(w).entities@ == old(w).entities@ && final(w).next_id == old(w).next_id
            }
        }),
        final(w).enemy_count == old(w).enemy_count,
        final(w).win == old(w).win,
        final(w).base_speed == old(w).base_speed,
        final(w).elapsed_us == old(w).elapsed_us,
        final(w).spawn_timer_us == old(w).spawn_timer_us,
        final(w).player_died == old(w).player_died,
        final(w).player_death_us == old(w).player_death_us,
{
    let ghost s0 = w.entities@;
    let pi = match find_player(w) {
        Some(pi) => pi,
        None => {
            return ;
        },
    };
    if !fire_just_pressed {
        return ;
    }
    let p = w.entities[pi];
    let right = Entity {
        id: w.next_id,
        x: clamp_fp(p.x + PLAYER_MOUNT_OFFSET),
        y: p.y,
        z: 0,
        vel_x: 0,
        vel_y: FP,
        size_w: PLAYER_LASER_SIZE_W,
        size_h: PLAYER_LASER_SIZE_H,
        scale: SPRITE_SCALE,
        movable: true,
        auto_despawn: true,
        kind: Kind::Laser(Origin::FromPlayer),
    };
    let ghost s1 = s0.push(right);
    w.entities.push(right);
    w.next_id = w.next_id + 1;
    proof {
        lemma_count_push(s0, |e: Entity| e.is_enemy(), right);
        lemma_count_push(s0, |e: Entity| e.is_player(), right);
    }
    let left = Entity {
        id: w.next_id,
        x: clamp_fp(p.x - PLAYER_MOUNT_OFFSET),
        y: p.y,
        z: 0,
        vel_x: 0,
        vel_y: FP,
        size_w: PLAYER_LASER_SIZE_W,
        size_h: PLAYER_LASER_SIZE_H,
        scale: SPRITE_SCALE,
        movable: true,
        auto_despawn: true,
        kind: Kind::Laser(Origin::FromPlayer),
    };
    w.entities.push(left);
    w.next_id = w.next_id + 1;
    proof {
        lemma_count_push(s1, |e: Entity| e.is_enemy(), left);
        lemma_count_push(s1, |e: Entity| e.is_player(), left);
        assert(p.x + PLAYER_MOUNT_OFFSET == p.x as int + PLAYER_MOUNT_OFFSET);
    }
}

/// One per-enemy Bernoulli fire trial: independent per enemy and per
/// tick, so fire is bursty and decorrelated rather than on a cooldown.
pub fn enemy_fire_criteria() -> (r: bool) {
    rand_ratio(ENEMY_FIRE_NUM, ENEMY_FIRE_DEN)
}

/// The projectiles fired this tick: one per enemy whose trial came up
/// true, at the enemy's muzzle, under consecutive fresh identifiers.
pub open spec fn fire_from(s: Seq<Entity>, ds: Seq<bool>, i: int, next: int) -> Seq<Entity>
    decreases s.len() - i,
{
    if i < 0 || i >= s.len() {
        Seq::empty()
    } else if s[i].is_enemy() && ds[i] {
        seq![enemy_laser(next as u64, s[i].x as int, s[i].y as int)] + fire_from(
            s,
            ds,
            i + 1,
            next + 1,
        )
    } else {
        fire_from(s, ds, i + 1, next)
    }
}

/// Draw one fire decision per registry slot.
pub fn enemy_fire_decisions(n: usize) -> (ds: Vec<bool>)
    ensures
        ds@.len() == n,
{
    let mut ds: Vec<bool> = Vec::new();
    let mut i: usize = 0;
    while i < n
        invariant
            i <= n,
            ds@.len() == i,
        decreases n - i,
    {
        ds.push(enemy_fire_criteria());
        i = i + 1;
    }
    ds
}

/// Fire enemy projectiles for the given per-slot decisions: each enemy
/// whose decision is true spawns one projectile at its muzzle. Verified
/// for every decision vector, so it holds whatever the trials returned.
pub fn enemy_fire_with(w: &mut World, decisions: &Vec<bool>)
    requires
        old(w).wf(),
        decisions@.len() == old(w).entities@.len(),
        old(w).next_id as int + old(w).entities@.len() <= u64::MAX,
    ensures
        final(w).wf(),
        final(w).entities@ =~= old(w).entities@ + fire_from(
            old(w).entities@,
            decisions@,
            0,
            old(w).next_id as int,
        ),
        final(w).next_id as int == old(w).next_id as int + fire_from(
            old(w).entities@,
            decisions@,
            0,
            old(w).next_id as int,
        ).len(),
        final(w).next_id as int <= old(w).next_id as int + old(w).entities@.len(),
        final(w).entities@.len() <= 2 * old(w).entities@.len(),
        final(w).enemy_count == old(w).enemy_count,
        final(w).win == old(w).win,
        final(w).base_speed == old(w).base_speed,
        final(w).elapsed_us == old(w).elapsed_us,
        final(w).spawn_timer_us == old(w).spawn_timer_us,
        final(w).player_died == old(w).player_died,
        final(w).player_death_us == old(w).player_death_us,
{
    let ghost s0 = w.entities@;
    let ghost ds = decisions@;
    let ghost n0 = w.next_id as int;
    let n: usize = w.entities.len();
    let mut i: usize = 0;
    while i < n
        invariant
            i <= n,
            n == s0.len(),
            w.wf(),
            decisions@ == ds,
            ds.len() == n,
            n0 + n <= u64::MAX,
            w.entities@.len() >= n,
            w.entities@.len() - n <= i,
            w.entities@.take(n as int) =~= s0,
            w.next_id as int == n0 + (w.entities@.len() - n),
            fire_from(s0, ds, 0, n0) =~= w.entities@.skip(n as int) + fire_from(
                s0,
                ds,
                i as int,
                w.next_id as int,
            ),
            w.win == old(w).win,
            w.base_speed == old(w).base_speed,
            w.enemy_count == old(w).enemy_count,
            w.elapsed_us == old(w).elapsed_us,
            w.spawn_timer_us == old(w).spawn_timer_us,
            w.player_died == old(w).player_died,
            w.player_death_us == old(w).player_death_us,
        decreases n - i,
    {
        let e = w.entities[i];
        proof {
            assert(w.entities@[i as int] == s0[i as int]);
        }
        let e_is_enemy = match e.kind {
            Kind::Enemy(_) => true,
            _ => false,
        };
        if e_is_enemy && decisions[i] {
            let ghost sw = w.entities@;
            let laser = Entity {
                id: w.next_id,
                x: clamp_fp(e.x),
                y: clamp_fp(e.y - ENEMY_MUZZLE_DROP),
                z: 0,
                vel_x: 0,
                vel_y: -FP,
                size_w: ENEMY_LASER_SIZE_W,
                size_h: ENEMY_LASER_SIZE_H,
                scale: SPRITE_SCALE,
                movable: true,
                auto_despawn: true,
                kind: Kind::Laser(Origin::FromEnemy),
            };
            w.entities.push(laser);
            w.next_id = w.next_id + 1;
            proof {
                lemma_count_push(sw, |e: Entity| e.is_enemy(), laser);
                lemma_count_push(sw, |e: Entity| e.is_player(), laser);
                assert(laser == enemy_laser((n0 + (sw.len() - n)) as u64, s0[i as int].x as int, s0[
                i as int].y as int));
                assert(w.entities@.skip(n as int) =~= sw.skip(n as int).push(laser));
                assert(w.entities@.take(n as int) =~= sw.take(n as int));
            }
        }
        i = i + 1;
    }
    proof {
        assert(fire_from(s0, ds, n as int, w.next_id as int) =~= Seq::<Entity>::empty());
        assert(w.entities@.skip(n as int) + Seq::<Entity>::empty() =~= w.entities@.skip(n as int));
        assert(w.entities@ =~= w.entities@.take(n as int) + w.entities@.skip(n as int));
    }
}

/// Per-enemy fire pass: run one independent Bernoulli trial per registry
/// slot and fire from every enemy whose trial came up true.
pub fn enemy_fire_system(w: &mut World)
    requires
        old(w).wf(),
        old(w).next_id as int + old(w).entities@.len() <= u64::MAX,
    ensures
        final(w).wf(),
        exists|ds: Seq<bool>|
            {
                &&& ds.len() == old(w).entities@.len()
                &&& final(w).entities@ =~= old(w).entities@ + #[trigger] fire_from(
                    old(w).entities@,
                    ds,
                    0,
                    old(w).next_id as int,
                )
                &&& final(w).next_id as int == old(w).next_id as int + fire_from(
                    old(w).entities@,
                    ds,
                    0,
                    old(w).next_id as int,
                ).len()
            },
        final(w).next_id as int <= old(w).next_id as int + old(w).entities@.len(),
        final(w).entities@.len() <= 2 * old(w).entities@.len(),
        final(w).enemy_count == old(w).enemy_count,
        final(w).win == old(w).win,
        final(w).base_speed == old(w).base_speed,
        final(w).elapsed_us == old(w).elapsed_us,
        final(w).spawn_timer_us == old(w).spawn_timer_us,
        final(w).player_died == old(w).player_died,
        final(w).player_death_us == old(w).player_death_us,
{
    let n: usize = w.entities.len();
    let ds = enemy_fire_decisions(n);
    enemy_fire_with(w, &ds);
}

/// The per-entity outcome of the steering pass: the player's horizontal
/// unit velocity follows the held keys (left wins over right, neither
/// stops the ship); everything else is untouched.
pub open spec fn steer(e: Entity, left: bool, right: bool) -> Option<Entity> {
    match e.kind {
        Kind::Player => {
            let v: int = if left {
                -FP as int
            } else if right {
                FP as int
            } else {
                0
            };
            let m = Entity { vel_x: v as i64, ..e };
            Some(m)
        },
        _ => Some(e),
    }
}

pub open spec fn steer_fn(left: bool, right: bool) -> spec_fn(Entity) -> Option<Entity> {
    |e: Entity| steer(e, left, right)
}

/// Map the held arrow keys to the player's unit velocity: left wins over
/// right, neither stops the ship.
pub fn player_keyboard_event_system(w: &mut World, left_pressed: bool, right_pressed: bool)
    requires
        old(w).wf(),
    ensures
        final(w).wf(),
        final(w).entities@ =~= sweep(
            old(w).entities@,
            steer_fn(left_pressed, right_pressed),
        ),
        final(w).entities@.len() == old(w).entities@.len(),
        forall|i: int|
            0 <= i < old(w).entities@.len() ==> {
                let v: int = if left_pressed {
                    -FP as int
                } else if right_pressed {
                    FP as int
                } else {
                    0
                };
                if old(w).entities@[i].is_player() {
                    #[trigger] final(w).entities@[i] == Entity { vel_x: v as i64, ..old(
                        w,
                    ).entities@[i] }
                } else {
                    final(w).entities@[i] == old(w).entities@[i]
                }
            },
        final(w).enemy_count == old(w).enemy_count,
        final(w).next_id == old(w).next_id,
        final(w).win == old(w).win,
        final(w).base_speed == old(w).base_speed,
        final(w).elapsed_us == old(w).elapsed_us,
        final(w).spawn_timer_us == old(w).spawn_timer_us,
        final(w).player_died == old(w).player_died,
        final(w).player_death_us == old(w).player_death_us,
{
    let ghost s0 = w.entities@;
    let v: i64 = if left_pressed {
        -FP
    } else if right_pressed {
        FP
    } else {
        0
    };
    let n: usize = w.entities.len();
    let mut out: Vec<Entity> = Vec::new();
    let mut i: usize = 0;
    while i < n
        invariant
            i <= n,
            n == w.entities@.len(),
            w.entities@ == s0,
            old(w).wf(),
            v as int == if left_pressed {
                -FP as int
            } else if right_pressed {
                FP as int
            } else {
                0
            },
            out@.len() == i,
            out@ =~= sweep(s0.take(i as int), steer_fn(left_pressed, right_pressed)),
            forall|j: int|
                0 <= j < i ==> if s0[j].is_player() {
                    #[trigger] out@[j] == Entity { vel_x: v, ..s0[j] }
                } else {
                    out@[j] == s0[j]
                },
            forall|j: int| 0 <= j < i ==> (#[trigger] out@[j]).wf() && out@[j].id == s0[j].id
                && out@[j].is_enemy() == s0[j].is_enemy() && out@[j].is_player()
                == s0[j].is_player(),
        decreases n - i,
    {
        let e = w.entities[i];
        assert(e.wf());
        let is_p = match e.kind {
            Kind::Player => true,
            _ => false,
        };
        if is_p {
            out.push(Entity { vel_x: v, ..e });
        } else {
            out.push(e);
        }
        proof {
            assert(s0.take(i + 1).drop_last() =~= s0.take(i as int));
            assert(s0.take(i + 1).last() == s0[i as int]);
        }
        i = i + 1;
    }
    proof {
        assert(s0.take(n as int) =~= s0);
    }
    w.entities = out;
    proof {
        crate::registry::lemma_count_pointwise(s0, w.entities@, |e: Entity| e.is_enemy());
        crate::registry::lemma_count_pointwise(s0, w.entities@, |e: Entity| e.is_player());
    }
}

} // verus!
