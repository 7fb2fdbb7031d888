//! Core simulation of a small tile-based 2D platformer.
//!
//! The player character moves across a level built from typed tiles, jumps
//! with a variable hold time, collides with walls, teleporters and coins, and
//! accumulates score until a win or out-of-bounds condition ends the round.
//!
//! All geometry uses fixed-point integers so that every step of the
//! simulation is exact and verified:
//!   - positions and box half-extents are in micro-units
//!     (one world unit = 1_000_000 micro-units);
//!   - velocities are in milli-units per second
//!     (one world unit per second = 1_000 milli-units per second);
//!   - tick durations are in milliseconds.
//! With these scales a position advances by exactly
//! `velocity * dt_ms` micro-units per tick, with no rounding anywhere.

pub mod collide;
pub mod game;
pub mod player;
pub mod round;
pub mod tile;
pub mod tilemap;
pub mod types;
