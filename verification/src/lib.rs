//! Procedural-dungeon and visibility core for a grid-based roguelike.
//!
//! The library builds a 2-D tile map from randomly placed, non-overlapping
//! rooms connected by corridors, and computes, per observer, which tiles are
//! currently visible and which have ever been revealed.

pub mod components;
pub mod fov;
pub mod maps;
pub mod rect;
pub mod rng;
pub mod visibility;
