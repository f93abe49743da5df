//! Authoritative simulation core of a multiplayer top-down arena shooter.
//!
//! Positions and velocities are fixed-point integers (`UNIT` steps to one
//! world unit); time is a millisecond count supplied by the caller.
pub mod geometry;
pub mod boss;
pub mod bullet;
pub mod chance;
pub mod collision;
pub mod player;
pub mod resolver;
pub mod server;
pub mod spatial;
