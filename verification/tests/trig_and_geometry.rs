use invaders::geometry::{entity_collide, isqrt, isqrt_up};
use invaders::registry::{Entity, Kind, Origin};
use invaders::trig::{cos_fp, sin_fp};

fn plain_entity(x: i64, y: i64, size_w: i64, size_h: i64, scale: i64) -> Entity {
    Entity {
        id: 0,
        x,
        y,
        z: 0,
        vel_x: 0,
        vel_y: 0,
        size_w,
        size_h,
        scale,
        movable: false,
        auto_despawn: false,
        kind: Kind::Laser(Origin::FromPlayer),
    }
}

#[test]
fn sin_cos_reference_points() {
    assert_eq!(sin_fp(0), 0);
    assert_eq!(cos_fp(0), 1000);
    assert_eq!(sin_fp(1571), 1000);
    assert_eq!(sin_fp(3142), 0);
    assert_eq!(sin_fp(4713), -1000);
    assert_eq!(sin_fp(6284), 0);
    assert_eq!(sin_fp(785), 705);
    assert_eq!(cos_fp(785), 706);
}

#[test]
fn sin_negative_angles_mirror() {
    assert_eq!(sin_fp(-8), -8);
    assert_eq!(cos_fp(-8), 999);
    assert_eq!(sin_fp(-1571), -1000);
}

#[test]
fn sin_is_periodic() {
    for a in [-5000i64, -8, 0, 300, 1571, 4000] {
        assert_eq!(sin_fp(a), sin_fp(a + 6284));
        assert_eq!(cos_fp(a), cos_fp(a + 6284));
    }
}

#[test]
fn sin_stays_in_unit_range() {
    let mut a: i64 = -20_000;
    while a <= 20_000 {
        assert!(sin_fp(a) >= -1000 && sin_fp(a) <= 1000);
        assert!(cos_fp(a) >= -1000 && cos_fp(a) <= 1000);
        a += 37;
    }
}

#[test]
fn isqrt_exact_values() {
    assert_eq!(isqrt(0), 0);
    assert_eq!(isqrt(1), 1);
    assert_eq!(isqrt(15), 3);
    assert_eq!(isqrt(16), 4);
    assert_eq!(isqrt(17), 4);
    assert_eq!(isqrt(u64::MAX), 0xffff_ffff);
}

#[test]
fn isqrt_up_exact_values() {
    assert_eq!(isqrt_up(0), 0);
    assert_eq!(isqrt_up(16), 4);
    assert_eq!(isqrt_up(17), 5);
    assert_eq!(isqrt_up(24), 5);
    assert_eq!(isqrt_up(25), 5);
}

#[test]
fn collide_overlapping_boxes() {
    // full extents after scale: 10 by 10 each, centres 9 apart on x
    let a = plain_entity(0, 0, 10_000, 10_000, 1000);
    let b = plain_entity(9_000, 0, 10_000, 10_000, 1000);
    assert!(entity_collide(&a, &b));
    assert!(entity_collide(&b, &a));
}

#[test]
fn collide_touching_edges_do_not_collide() {
    // centres exactly the sum of half extents apart: strict test fails
    let a = plain_entity(0, 0, 10_000, 10_000, 1000);
    let b = plain_entity(10_000, 0, 10_000, 10_000, 1000);
    assert!(!entity_collide(&a, &b));
    let c = plain_entity(9_999, 0, 10_000, 10_000, 1000);
    assert!(entity_collide(&a, &c));
}

#[test]
fn collide_applies_sprite_scale() {
    // at half scale the extents are 5 by 5, so 9 apart no longer touches
    let a = plain_entity(0, 0, 10_000, 10_000, 500);
    let b = plain_entity(9_000, 0, 10_000, 10_000, 500);
    assert!(!entity_collide(&a, &b));
    let c = plain_entity(4_000, 0, 10_000, 10_000, 500);
    assert!(entity_collide(&a, &c));
}
