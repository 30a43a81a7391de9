//! Authoritative core of a real-time multiplayer grid game: several snakes
//! crawl a toroidal grid, eat spawned food, grow, and are synchronized to
//! clients through a compact binary snapshot protocol.
//!
//! The simulation state (field occupancy, snake bodies, food inventory) is
//! advanced one tick at a time by a single driver; connected players only
//! submit heading changes, which are coalesced and applied at tick
//! boundaries.

pub mod codec;
pub mod field;
pub mod food;
pub mod game;
pub mod protocol;
pub mod render;
pub mod snake;
pub mod sprites;
pub mod types;
