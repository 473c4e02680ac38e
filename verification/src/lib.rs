//! Physics core for a 2D platformer: axis-aligned bounding-box collision
//! detection and movement resolution over discrete time steps.
//!
//! Coordinates, sizes, velocities and time deltas are fixed-point numbers:
//! an `i64` counting units of one millionth of a world unit (see [`fixed`]).
//! The core consumes entity state and a time delta and produces a position
//! update, a list of contact events and a list of movement records; it does
//! no rendering, input polling or window management.

pub mod collision;
pub mod entity;
pub mod fixed;
pub mod game;
pub mod rect;
