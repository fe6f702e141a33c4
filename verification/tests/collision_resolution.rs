use invaders::collision::{apply_hits, detect_hits, enemy_laser_hit_system,
    player_laser_hit_enemy_system};
use invaders::registry::{Entity, Formation, Kind, Origin, WinSize, World};
use invaders::spawner::{player_fire_system, player_spawn_system, spawn_enemy};
use rand::seq::SliceRandom;
use rand::thread_rng;

fn arena(base_speed: i64) -> World {
    World::new(WinSize { w: 598_000, h: 676_000 }, base_speed)
}

fn enemy_at(x: i64, y: i64) -> Formation {
    Formation { start: (x, y), radius: (1, 1), pivot: (0, 0), speed: 1, angle: 0 }
}

fn count_live_enemies(w: &World) -> u32 {
    let mut n: u32 = 0;
    for e in w.entities.iter() {
        if matches!(e.kind, Kind::Enemy(_)) {
            n += 1;
        }
    }
    n
}

fn count_requests(w: &World) -> usize {
    let mut n: usize = 0;
    for e in w.entities.iter() {
        if matches!(e.kind, Kind::ExplosionToSpawn) {
            n += 1;
        }
    }
    n
}

fn push_enemy_laser(w: &mut World, x: i64, y: i64) -> u64 {
    let id = w.next_id;
    let e = Entity {
        id,
        x,
        y,
        z: 0,
        vel_x: 0,
        vel_y: -1000,
        size_w: 7_000,
        size_h: 55_000,
        scale: 500,
        movable: true,
        auto_despawn: true,
        kind: Kind::Laser(Origin::FromEnemy),
    };
    w.entities.push(e);
    w.next_id += 1;
    id
}

#[test]
fn full_overlap_destroys_both_and_decrements_once() {
    let mut w = arena(300_000);
    player_spawn_system(&mut w);
    player_fire_system(&mut w, true);
    // the first projectile leaves the right mount, fully inside the enemy
    spawn_enemy(&mut w, enemy_at(31_000, -295_500));
    assert_eq!(w.enemy_count, 1);
    assert_eq!(w.entities.len(), 4);
    player_laser_hit_enemy_system(&mut w);
    // both gone, the counter dropped exactly once, one request raised at
    // the enemy's position
    assert_eq!(w.enemy_count, 0);
    assert_eq!(count_live_enemies(&w), 0);
    assert_eq!(w.entities.len(), 3);
    assert_eq!(count_requests(&w), 1);
    let req = w.entities.iter().find(|e| matches!(e.kind, Kind::ExplosionToSpawn)).unwrap();
    assert_eq!((req.x, req.y), (31_000, -295_500));
    // the second projectile is still flying
    let lasers = w
        .entities
        .iter()
        .filter(|e| matches!(e.kind, Kind::Laser(Origin::FromPlayer)))
        .count();
    assert_eq!(lasers, 1);
}

#[test]
fn one_projectile_cannot_destroy_two_targets() {
    let mut w = arena(300_000);
    player_spawn_system(&mut w);
    player_fire_system(&mut w, true);
    // two enemies stacked on the right-mount projectile; the left-mount
    // projectile reaches neither
    spawn_enemy(&mut w, enemy_at(31_000, -295_500));
    spawn_enemy(&mut w, enemy_at(32_000, -295_500));
    assert_eq!(w.enemy_count, 2);
    player_laser_hit_enemy_system(&mut w);
    // the projectile is visited after its first hit, so only the first
    // enemy falls
    assert_eq!(w.enemy_count, 1);
    assert_eq!(count_live_enemies(&w), 1);
    assert_eq!(count_requests(&w), 1);
}

#[test]
fn miss_changes_nothing() {
    let mut w = arena(300_000);
    player_spawn_system(&mut w);
    player_fire_system(&mut w, true);
    spawn_enemy(&mut w, enemy_at(250_000, 200_000));
    let len_before = w.entities.len();
    player_laser_hit_enemy_system(&mut w);
    assert_eq!(w.entities.len(), len_before);
    assert_eq!(w.enemy_count, 1);
    assert_eq!(count_requests(&w), 0);
}

#[test]
fn resolution_is_safe_for_any_traversal_order() {
    // the visited-set guard, not the iteration order, is what guarantees
    // exactly-once destruction: shuffle the detected pairs and add stale
    // duplicates, and the counter still matches the live enemies
    for _ in 0..20 {
        let mut w = arena(300_000);
        player_spawn_system(&mut w);
        player_fire_system(&mut w, true);
        spawn_enemy(&mut w, enemy_at(31_000, -295_500));
        spawn_enemy(&mut w, enemy_at(-31_000, -295_500));
        let pairs = detect_hits(&w);
        let mut noisy = pairs.clone();
        noisy.extend(pairs.iter().cloned());
        noisy.extend(pairs.iter().map(|&(a, b)| (a, b)));
        noisy.shuffle(&mut thread_rng());
        apply_hits(&mut w, &noisy);
        assert_eq!(w.enemy_count as u32, count_live_enemies(&w));
        assert_eq!(w.enemy_count, 0);
        assert_eq!(count_requests(&w), 2);
    }
}

#[test]
fn pair_with_dead_entity_is_skipped() {
    let mut w = arena(300_000);
    player_spawn_system(&mut w);
    player_fire_system(&mut w, true);
    spawn_enemy(&mut w, enemy_at(31_000, -295_500));
    let pairs = detect_hits(&w);
    assert_eq!(pairs.len(), 1);
    // applying the same pair twice destroys once: the second application
    // finds both entities already despawned
    let mut twice = pairs.clone();
    twice.extend(pairs.iter().cloned());
    apply_hits(&mut w, &twice);
    assert_eq!(w.enemy_count, 0);
    assert_eq!(count_requests(&w), 1);
}

#[test]
fn enemy_laser_destroys_player_and_records_timestamp() {
    let mut w = arena(300_000);
    w.elapsed_us = 5_000_000;
    player_spawn_system(&mut w);
    push_enemy_laser(&mut w, 0, -295_500);
    enemy_laser_hit_system(&mut w);
    let players = w.entities.iter().filter(|e| matches!(e.kind, Kind::Player)).count();
    assert_eq!(players, 0);
    let lasers = w
        .entities
        .iter()
        .filter(|e| matches!(e.kind, Kind::Laser(Origin::FromEnemy)))
        .count();
    assert_eq!(lasers, 0);
    assert_eq!(count_requests(&w), 1);
    assert!(w.player_died);
    assert_eq!(w.player_death_us, 5_000_000);
}

#[test]
fn enemy_laser_with_no_player_is_noop() {
    let mut w = arena(300_000);
    push_enemy_laser(&mut w, 0, -295_500);
    let len_before = w.entities.len();
    enemy_laser_hit_system(&mut w);
    assert_eq!(w.entities.len(), len_before);
    assert!(!w.player_died);
}
