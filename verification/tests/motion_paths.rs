use invaders::motion::{enemy_movement_system, formation_step, movable_system};
use invaders::registry::{Entity, Formation, Kind, Origin, WinSize, World};
use invaders::trig::{cos_fp, sin_fp};

fn world_598_676(base_speed: i64) -> World {
    World::new(WinSize { w: 598_000, h: 676_000 }, base_speed)
}

fn trunc_milli(v: i64) -> i64 {
    if v >= 0 {
        v / 1000
    } else {
        -((-v) / 1000)
    }
}

fn push_projectile(w: &mut World, x: i64, y: i64, vel_x: i64, vel_y: i64, auto_despawn: bool) {
    let e = Entity {
        id: w.next_id,
        x,
        y,
        z: 0,
        vel_x,
        vel_y,
        size_w: 9_000,
        size_h: 54_000,
        scale: 500,
        movable: true,
        auto_despawn,
        kind: Kind::Laser(Origin::FromPlayer),
    };
    w.entities.push(e);
    w.next_id += 1;
}

#[test]
fn linear_step_moves_by_speed_times_timestep() {
    // unit velocity up, base speed 300 units/s, timestep 1/60: 5 units
    let mut w = world_598_676(300_000);
    push_projectile(&mut w, 1_000, 2_000, 0, 1000, false);
    movable_system(&mut w);
    assert_eq!(w.entities.len(), 1);
    assert_eq!(w.entities[0].x, 1_000);
    assert_eq!(w.entities[0].y, 7_000);
}

#[test]
fn projectile_inside_margin_survives() {
    // one unit per frame; from half-height plus 199 the projectile ends
    // exactly on the margin line and survives
    let mut w = world_598_676(60_000);
    push_projectile(&mut w, 0, 676_000 / 2 + 199_000, 0, 1000, true);
    movable_system(&mut w);
    assert_eq!(w.entities.len(), 1);
    assert_eq!(w.entities[0].y, 676_000 / 2 + 200_000);
}

#[test]
fn projectile_outside_margin_despawns_immediately() {
    let mut w = world_598_676(60_000);
    push_projectile(&mut w, 0, 676_000 / 2 + 201_000, 0, 1000, true);
    movable_system(&mut w);
    assert_eq!(w.entities.len(), 0);
}

#[test]
fn non_auto_despawn_survives_outside() {
    let mut w = world_598_676(60_000);
    push_projectile(&mut w, 0, 676_000 / 2 + 201_000, 0, 1000, false);
    movable_system(&mut w);
    assert_eq!(w.entities.len(), 1);
}

#[test]
fn orbit_scenario_stays_in_rect_and_converges() {
    // one enemy on a 200 by 130 ellipse around the origin at speed 100,
    // spawned exactly on the ellipse at the reference angle
    let mut f = Formation {
        start: (200_000, 0),
        radius: (200_000, 130_000),
        pivot: (0, 0),
        speed: 100_000,
        angle: 0,
    };
    let mut x: i64 = f.start.0;
    let mut y: i64 = f.start.1;
    // starting distance: to the first frame's target point
    let a0: i64 = -8;
    let tx0 = trunc_milli(200_000 * cos_fp(a0));
    let ty0 = trunc_milli(130_000 * sin_fp(a0));
    let d0_sq = (x - tx0) * (x - tx0) + (y - ty0) * (y - ty0);
    assert!(d0_sq > 0);
    // one simulated second at the fixed timestep
    for _ in 0..60 {
        let pos = formation_step(x, y, &mut f);
        x = pos.0;
        y = pos.1;
        // never outside the ellipse's bounding rectangle
        assert!(-200_000 <= x && x <= 200_000);
        assert!(-130_000 <= y && y <= 130_000);
    }
    // the enemy has converged onto its moving target point: strictly
    // closer than where it started
    assert_eq!(f.angle, -480);
    let txn = trunc_milli(200_000 * cos_fp(f.angle));
    let tyn = trunc_milli(130_000 * sin_fp(f.angle));
    assert_eq!((x, y), (txn, tyn));
    let dn_sq = (x - txn) * (x - txn) + (y - tyn) * (y - tyn);
    assert!(dn_sq < d0_sq);
    assert_eq!((x, y), (177_000, -60_060));
}

#[test]
fn step_never_exceeds_travel_cap() {
    // far from the target: the step is capped at timestep times speed
    let mut f = Formation {
        start: (-100_000, 0),
        radius: (100_000, 100_000),
        pivot: (0, 0),
        speed: 60_000,
        angle: 0,
    };
    let x0: i64 = -100_000;
    let y0: i64 = 0;
    let pos = formation_step(x0, y0, &mut f);
    let max_d: i64 = 60_000 / 60;
    let moved_sq = (pos.0 - x0) * (pos.0 - x0) + (pos.1 - y0) * (pos.1 - y0);
    assert!(moved_sq <= max_d * max_d);
    assert!(moved_sq > 0);
    // far from its target the stored angle is not committed
    assert_eq!(f.angle, 0);
}

#[test]
fn angle_is_monotone_in_configured_direction() {
    // left spawn orbits counter-clockwise: the angle never decreases
    let mut f = Formation {
        start: (-210_000, 0),
        radius: (90_000, 90_000),
        pivot: (-300_000, 0),
        speed: 100_000,
        angle: 0,
    };
    let mut x: i64 = -210_000;
    let mut y: i64 = 0;
    let mut prev = f.angle;
    for _ in 0..120 {
        let pos = formation_step(x, y, &mut f);
        x = pos.0;
        y = pos.1;
        assert!(f.angle >= prev);
        prev = f.angle;
    }
    assert_eq!(f.angle, 1320);
    // right spawn orbits clockwise: the angle never increases
    let mut g = Formation {
        start: (390_000, 0),
        radius: (90_000, 90_000),
        pivot: (300_000, 0),
        speed: 100_000,
        angle: 0,
    };
    let mut gx: i64 = 390_000;
    let mut gy: i64 = 0;
    let mut gprev = g.angle;
    for _ in 0..120 {
        let pos = formation_step(gx, gy, &mut g);
        gx = pos.0;
        gy = pos.1;
        assert!(g.angle <= gprev);
        gprev = g.angle;
    }
    assert_eq!(g.angle, -1320);
}

#[test]
fn movement_system_leaves_non_enemies_alone() {
    let mut w = world_598_676(300_000);
    push_projectile(&mut w, 5_000, 6_000, 0, 1000, true);
    enemy_movement_system(&mut w);
    assert_eq!(w.entities.len(), 1);
    assert_eq!((w.entities[0].x, w.entities[0].y), (5_000, 6_000));
}
