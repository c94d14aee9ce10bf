//! A deterministic falling-block puzzle engine.
//!
//! The engine owns the grid state, the catalog of the seven tetromino
//! shapes, movement and collision rules, line clearing with a one-tick
//! animation phase, scoring, and a pause switch. Rendering and input
//! wiring live outside the engine; they drive it through the action and
//! query methods of [`engine::Tetris`].

pub mod engine;
pub mod laws;
pub mod position;
pub mod render;
pub mod shape;
pub mod tetromino;

mod rng;
