use invaders::formation::{make, FORMATION_SPEED_MAX, FORMATION_SPEED_MIN, RADIUS_MIN};
use invaders::registry::{Formation, Kind, Origin, WinSize, World};
use invaders::spawner::{
    enemy_fire_decisions, enemy_fire_with, enemy_spawn_system, player_fire_system,
    player_keyboard_event_system, player_spawn_system, spawn_enemy,
};
use invaders::ENEMY_MAX_COUNT;

fn fresh_world() -> World {
    World::new(WinSize { w: 598_000, h: 676_000 }, 300_000)
}

fn enemy_at(x: i64, y: i64) -> Formation {
    Formation { start: (x, y), radius: (1, 1), pivot: (0, 0), speed: 1, angle: 0 }
}

#[test]
fn population_cap_blocks_sixth_spawn() {
    let mut w = fresh_world();
    for _ in 0..ENEMY_MAX_COUNT {
        enemy_spawn_system(&mut w);
    }
    assert_eq!(w.enemy_count, ENEMY_MAX_COUNT);
    assert_eq!(w.entities.len() as u32, ENEMY_MAX_COUNT);
    let next_before = w.next_id;
    // the sixth tick is a no-op: no entity created, counter unchanged
    enemy_spawn_system(&mut w);
    assert_eq!(w.enemy_count, ENEMY_MAX_COUNT);
    assert_eq!(w.entities.len() as u32, ENEMY_MAX_COUNT);
    assert_eq!(w.next_id, next_before);
}

#[test]
fn spawned_enemy_sits_exactly_on_its_formation_start() {
    let mut w = fresh_world();
    enemy_spawn_system(&mut w);
    assert_eq!(w.entities.len(), 1);
    let e = &w.entities[0];
    match e.kind {
        Kind::Enemy(f) => {
            assert_eq!((e.x, e.y), (f.start.0, f.start.1));
            assert!(f.radius.0 >= RADIUS_MIN && f.radius.1 >= RADIUS_MIN);
            assert!(f.speed >= FORMATION_SPEED_MIN && f.speed <= FORMATION_SPEED_MAX);
            assert_eq!(f.angle, 0);
            // the whole ellipse fits inside the window minus the margin
            assert!(f.pivot.0.abs() + f.radius.0 <= 598_000 / 2 - 100_000);
            assert!(f.pivot.1.abs() + f.radius.1 <= 676_000 / 2 - 100_000);
        },
        _ => panic!("expected an enemy"),
    }
}

#[test]
fn generator_varies_within_its_bands() {
    let win = WinSize { w: 598_000, h: 676_000 };
    for _ in 0..50 {
        let f = make(&win);
        assert!(f.radius.0 >= RADIUS_MIN && f.radius.0 <= 598_000 / 4);
        assert!(f.radius.1 >= RADIUS_MIN && f.radius.1 <= 676_000 / 4);
        assert!(f.speed >= FORMATION_SPEED_MIN && f.speed <= FORMATION_SPEED_MAX);
        assert!(f.pivot.0.abs() + f.radius.0 <= 598_000 / 2 - 100_000);
        assert!(f.pivot.1.abs() + f.radius.1 <= 676_000 / 2 - 100_000);
        // the spawn point sits exactly on the ellipse at the reference
        // angle: cosine is one there, sine is zero
        assert_eq!(f.start.0, f.pivot.0 + f.radius.0);
        assert_eq!(f.start.1, f.pivot.1);
        assert_eq!(f.angle, 0);
    }
}

#[test]
fn generator_clamps_degenerate_windows() {
    // a window far too small for any margin still yields a viable orbit
    let tiny = WinSize { w: 10_000, h: 10_000 };
    let f = make(&tiny);
    assert_eq!((f.radius.0, f.radius.1), (RADIUS_MIN, RADIUS_MIN));
    assert_eq!((f.pivot.0, f.pivot.1), (0, 0));
}

#[test]
fn player_spawns_at_bottom_anchor_once() {
    let mut w = fresh_world();
    player_spawn_system(&mut w);
    assert_eq!(w.entities.len(), 1);
    let p = &w.entities[0];
    assert!(matches!(p.kind, Kind::Player));
    assert_eq!((p.x, p.y), (0, -295_500));
    // a second pass with a live player is a no-op
    player_spawn_system(&mut w);
    assert_eq!(w.entities.len(), 1);
}

#[test]
fn respawn_waits_for_the_cooldown() {
    let mut w = fresh_world();
    w.elapsed_us = 10_000_000;
    w.player_died = true;
    w.player_death_us = 9_000_000;
    // one second since destruction: not yet eligible
    player_spawn_system(&mut w);
    assert_eq!(w.entities.len(), 0);
    // two seconds since destruction: respawn at the anchor
    w.elapsed_us = 11_000_000;
    player_spawn_system(&mut w);
    assert_eq!(w.entities.len(), 1);
    assert!(matches!(w.entities[0].kind, Kind::Player));
}

#[test]
fn fire_spawns_two_symmetric_projectiles() {
    let mut w = fresh_world();
    player_spawn_system(&mut w);
    player_fire_system(&mut w, true);
    assert_eq!(w.entities.len(), 3);
    let lasers: Vec<_> = w
        .entities
        .iter()
        .filter(|e| matches!(e.kind, Kind::Laser(Origin::FromPlayer)))
        .collect();
    assert_eq!(lasers.len(), 2);
    assert_eq!((lasers[0].x, lasers[0].y), (31_000, -295_500));
    assert_eq!((lasers[1].x, lasers[1].y), (-31_000, -295_500));
    assert!(lasers.iter().all(|l| l.vel_y == 1000 && l.movable && l.auto_despawn));
}

#[test]
fn fire_is_edge_triggered() {
    let mut w = fresh_world();
    player_spawn_system(&mut w);
    // a held key without a fresh press does not fire
    player_fire_system(&mut w, false);
    assert_eq!(w.entities.len(), 1);
    // and no player means no fire either
    let mut empty = fresh_world();
    player_fire_system(&mut empty, true);
    assert_eq!(empty.entities.len(), 0);
}

#[test]
fn enemy_fire_spawns_at_the_muzzle() {
    let mut w = fresh_world();
    spawn_enemy(&mut w, enemy_at(10_000, 40_000));
    spawn_enemy(&mut w, enemy_at(-50_000, 90_000));
    let decisions = vec![true, false];
    enemy_fire_with(&mut w, &decisions);
    assert_eq!(w.entities.len(), 3);
    let l = &w.entities[2];
    assert!(matches!(l.kind, Kind::Laser(Origin::FromEnemy)));
    assert_eq!((l.x, l.y), (10_000, 25_000));
    assert_eq!(l.vel_y, -1000);
    assert!(l.movable && l.auto_despawn);
}

#[test]
fn fire_decisions_cover_every_slot() {
    let ds = enemy_fire_decisions(37);
    assert_eq!(ds.len(), 37);
}

#[test]
fn keyboard_sets_player_velocity() {
    let mut w = fresh_world();
    player_spawn_system(&mut w);
    player_keyboard_event_system(&mut w, true, false);
    assert_eq!(w.entities[0].vel_x, -1000);
    player_keyboard_event_system(&mut w, false, true);
    assert_eq!(w.entities[0].vel_x, 1000);
    player_keyboard_event_system(&mut w, false, false);
    assert_eq!(w.entities[0].vel_x, 0);
}
