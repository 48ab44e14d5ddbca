//! Simulation core of a top-down action game.
//!
//! The library turns a tile-based level description into collision geometry
//! (greedy meshing of marked grid cells into maximal rectangles), detects
//! pairwise overlaps between entity colliders every tick, projects the
//! overlaps into directed collision events, and resolves those events into
//! gameplay consequences: damage with per-entity cooldowns, aggregated
//! knockback impulses, containment inside walls, and despawn on death.
//!
//! All linear quantities (positions, sizes, offsets, velocities) are integers
//! in *sub-units*: two sub-units to a pixel. Halving a pixel quantity (a
//! rectangle's center, half of a collider's size) therefore stays exact.
//! Durations and time deltas are integer milliseconds.

pub mod collision;
pub mod combat;
pub mod geometry;
pub mod ghost;
pub mod health;
pub mod enemies;
pub mod levels;
pub mod map;
pub mod movement;
pub mod player;
pub mod meshing;
pub mod intmath;
pub mod tick;
pub mod world;
