//! Core of a real-time arcade combat simulation.
//!
//! A player-controlled actor and AI-controlled actors share a continuous 2D
//! world, fight with projectile weapons, take damage, and are driven through a
//! round-based wave spawner.  This crate holds the simulation engine itself: a
//! generation-safe entity arena, a read-only description catalog, a spatial
//! index, the collision and contact pipeline, the weapon and projectile
//! subsystem, the round state machine, and a binary snapshot codec for save
//! and restore.
//!
//! All continuous quantities are fixed-point integers: distances in
//! milli-units (one thousandth of a world unit), time in milliseconds, and
//! unit direction vectors scaled by one thousand.  Rendering, input polling
//! and file I/O live outside this crate; the engine only exchanges plain
//! values with them.

pub mod arena;
pub mod codec;
pub mod combat;
pub mod fixed;
pub mod infos;
pub mod motion;
pub mod rand;
pub mod rounds;
pub mod snapshot;
pub mod spatial;
pub mod state;
pub mod systems;
pub mod vec2;
