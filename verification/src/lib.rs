//! A 4x4 sliding-tile merging puzzle engine.
//!
//! The library holds the verified game core: the grid of optional
//! power-of-two tiles, the move engine (compact, merge, compact),
//! the random spawner, and the turn state machine. Reading input
//! lines and rendering the board are left to the surrounding program.

pub mod game;
pub mod grid;
pub mod input;
pub mod line;
pub mod rng;
pub mod types;
