use invaders::frame::{run_frame, FrameInput};
use invaders::registry::{Kind, WinSize, World};
use invaders::ENEMY_MAX_COUNT;

fn live_enemies(w: &World) -> u32 {
    w.entities.iter().filter(|e| matches!(e.kind, Kind::Enemy(_))).count() as u32
}

fn live_players(w: &World) -> usize {
    w.entities.iter().filter(|e| matches!(e.kind, Kind::Player)).count()
}

fn step_input() -> FrameInput {
    FrameInput {
        delta_us: 16_666,
        fire_just_pressed: false,
        left_pressed: false,
        right_pressed: false,
    }
}

#[test]
fn counter_tracks_live_enemies_every_frame() {
    let mut w = World::new(WinSize { w: 598_000, h: 676_000 }, 300_000);
    let mut fired = false;
    for i in 0..600 {
        let input = FrameInput {
            delta_us: 16_666,
            fire_just_pressed: i % 30 == 0,
            left_pressed: i % 3 == 0,
            right_pressed: i % 7 == 0,
        };
        run_frame(&mut w, input);
        fired = fired || i % 30 == 0;
        // the counter invariant holds on every frame
        assert_eq!(w.enemy_count, live_enemies(&w));
        assert!(w.enemy_count <= ENEMY_MAX_COUNT);
        assert!(live_players(&w) <= 1);
    }
    // ten simulated seconds: the spawner has long been at work
    assert!(w.enemy_count >= 1);
    assert!(fired);
}

#[test]
fn spawn_cadence_runs_every_two_seconds() {
    let mut w = World::new(WinSize { w: 598_000, h: 676_000 }, 300_000);
    // just under two simulated seconds: no spawn tick yet
    for _ in 0..119 {
        run_frame(&mut w, step_input());
    }
    assert_eq!(w.enemy_count, 0);
    // crossing the two-second mark spawns the first enemy
    for _ in 0..3 {
        run_frame(&mut w, step_input());
    }
    assert_eq!(w.enemy_count, 1);
}

#[test]
fn player_arrives_on_the_first_frame() {
    let mut w = World::new(WinSize { w: 598_000, h: 676_000 }, 300_000);
    run_frame(&mut w, step_input());
    assert_eq!(live_players(&w), 1);
    assert_eq!(w.elapsed_us, 16_666);
}
