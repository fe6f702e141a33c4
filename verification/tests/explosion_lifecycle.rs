use invaders::collision::player_laser_hit_enemy_system;
use invaders::explosion::{explosion_animation_system, explosion_to_spawn_system, tick_timer_fp};
use invaders::registry::{ExplosionTimer, Formation, Kind, WinSize, World};
use invaders::spawner::{player_fire_system, player_spawn_system, spawn_enemy};

fn stage() -> World {
    World::new(WinSize { w: 598_000, h: 676_000 }, 300_000)
}

fn count_explosions(w: &World) -> usize {
    w.entities.iter().filter(|e| matches!(e.kind, Kind::Explosion(_))).count()
}

fn stage_with_request() -> World {
    let mut w = stage();
    player_spawn_system(&mut w);
    player_fire_system(&mut w, true);
    spawn_enemy(
        &mut w,
        Formation { start: (31_000, -295_500), radius: (1, 1), pivot: (0, 0), speed: 1, angle: 0 },
    );
    player_laser_hit_enemy_system(&mut w);
    w
}

#[test]
fn timer_wraps_and_advances_one_frame_per_expiry() {
    let t0 = ExplosionTimer { elapsed_us: 0, frame: 0 };
    let t1 = tick_timer_fp(t0, 20_000);
    assert_eq!((t1.elapsed_us, t1.frame), (20_000, 0));
    let t2 = tick_timer_fp(t1, 40_000);
    assert_eq!((t2.elapsed_us, t2.frame), (10_000, 1));
    // a delta spanning several periods still advances a single frame
    let t3 = tick_timer_fp(t0, 170_000);
    assert_eq!((t3.elapsed_us, t3.frame), (20_000, 1));
}

#[test]
fn request_marker_promotes_within_one_frame() {
    let mut w = stage_with_request();
    let requests =
        w.entities.iter().filter(|e| matches!(e.kind, Kind::ExplosionToSpawn)).count();
    assert_eq!(requests, 1);
    explosion_to_spawn_system(&mut w);
    let requests_after =
        w.entities.iter().filter(|e| matches!(e.kind, Kind::ExplosionToSpawn)).count();
    assert_eq!(requests_after, 0);
    assert_eq!(count_explosions(&w), 1);
    let ex = w.entities.iter().find(|e| matches!(e.kind, Kind::Explosion(_))).unwrap();
    assert_eq!((ex.x, ex.y), (31_000, -295_500));
    match ex.kind {
        Kind::Explosion(t) => assert_eq!((t.elapsed_us, t.frame), (0, 0)),
        _ => unreachable!(),
    }
}

#[test]
fn explosion_retires_after_exactly_sixteen_expirations() {
    let mut w = stage_with_request();
    explosion_to_spawn_system(&mut w);
    // each pass expires the timer exactly once
    for _ in 0..15 {
        explosion_animation_system(&mut w, 50_000);
        assert_eq!(count_explosions(&w), 1);
    }
    explosion_animation_system(&mut w, 50_000);
    assert_eq!(count_explosions(&w), 0);
}

#[test]
fn retirement_depends_on_expirations_not_frame_rate() {
    // halved frame deltas: twice the frames, the same sixteen expirations
    let mut w = stage_with_request();
    explosion_to_spawn_system(&mut w);
    for _ in 0..31 {
        explosion_animation_system(&mut w, 25_000);
        assert_eq!(count_explosions(&w), 1);
    }
    explosion_animation_system(&mut w, 25_000);
    assert_eq!(count_explosions(&w), 0);
    // oversized frame deltas expire once per pass, never more
    let mut v = stage_with_request();
    explosion_to_spawn_system(&mut v);
    for _ in 0..15 {
        explosion_animation_system(&mut v, 150_000);
        assert_eq!(count_explosions(&v), 1);
    }
    explosion_animation_system(&mut v, 150_000);
    assert_eq!(count_explosions(&v), 0);
}
