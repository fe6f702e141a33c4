//! Core simulation engine for a top-down arcade shooter: procedural
//! elliptical flight paths for enemies, linear motion with screen-bounds
//! lifecycle for projectiles, pairwise collision resolution with
//! exactly-once destruction, and a timed explosion state machine.
//!
//! All geometry is carried in fixed-point integer coordinates: one world
//! unit is `FP` subunits, and one simulated second is split into `FPS`
//! fixed-timestep frames. Rendering, window and input plumbing are outside
//! collaborators; they hand the engine plain values each frame and receive
//! the registry contents back for presentation.

use vstd::prelude::*;

pub mod collision;
pub mod explosion;
pub mod formation;
pub mod geometry;
pub mod frame;
pub mod motion;
pub mod registry;
pub mod rng;
pub mod spawner;
pub mod trig;

verus! {

/// Fixed-point denominator: subunits per world unit.
pub const FP: i64 = 1000;

/// Simulation frames per second; the fixed timestep is `1 / FPS` seconds.
pub const FPS: i64 = 60;

/// Default global speed constant, in subunits per second: unit velocities
/// are scaled by this (and by the timestep) at integration time.
pub const BASE_SPEED: i64 = 300_000;

/// Uniform sprite scale applied to all rendered sizes, in thousandths.
pub const SPRITE_SCALE: i64 = 500;

/// Full extents of the player sprite, in subunits (pre-scale).
pub const PLAYER_SIZE_W: i64 = 144_000;
pub const PLAYER_SIZE_H: i64 = 75_000;

/// Full extents of the enemy sprite, in subunits (pre-scale).
pub const ENEMY_SIZE_W: i64 = 144_000;
pub const ENEMY_SIZE_H: i64 = 75_000;

/// Full extents of the player projectile sprite, in subunits (pre-scale).
pub const PLAYER_LASER_SIZE_W: i64 = 9_000;
pub const PLAYER_LASER_SIZE_H: i64 = 54_000;

/// Full extents of the enemy projectile sprite, in subunits (pre-scale).
pub const ENEMY_LASER_SIZE_W: i64 = 7_000;
pub const ENEMY_LASER_SIZE_H: i64 = 55_000;

/// Population cap on live enemies.
pub const ENEMY_MAX_COUNT: u32 = 5;

/// Number of animation frames an explosion plays before it retires.
pub const EXPLOSION_LEN: u32 = 16;

/// Simulated time between explosion animation frames, in microseconds.
pub const EXPLOSION_TICK_US: u64 = 50_000;

/// Extra border around the window inside which auto-despawning movables
/// survive, in subunits.
pub const DESPAWN_MARGIN: i64 = 200_000;

/// Cadence of enemy spawn ticks, in microseconds of simulated time.
pub const SPAWN_PERIOD_US: u64 = 2_000_000;

/// Cooldown between the player's destruction and respawn eligibility.
pub const RESPAWN_DELAY_US: u64 = 2_000_000;

/// Per-enemy, per-tick fire probability, as a ratio.
pub const ENEMY_FIRE_NUM: u32 = 1;
pub const ENEMY_FIRE_DEN: u32 = 90;

/// Largest coordinate magnitude the engine carries, in subunits.
pub const COORD_LIMIT: i64 = 1_000_000_000;

/// Largest unit-velocity magnitude, in thousandths of a unit.
pub const VEL_LIMIT: i64 = 10_000;

/// Largest formation or base speed, in subunits per second.
pub const SPEED_LIMIT: i64 = 10_000_000;

/// Largest sprite extent, in subunits.
pub const SIZE_LIMIT: i64 = 1_000_000;

/// Largest sprite scale, in thousandths.
pub const SCALE_LIMIT: i64 = 10_000;

/// Largest window extent, in subunits.
pub const WIN_LIMIT: i64 = 100_000_000;

/// Largest formation angle magnitude carried, in milliradians; angle
/// advances saturate here rather than overflow.
pub const ANGLE_CAP: i64 = 4_000_000_000_000_000_000;

/// Largest frame delta the engine accepts, in microseconds (one hour).
pub const DELTA_MAX_US: u64 = 3_600_000_000;

} // verus!
