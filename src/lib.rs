//! Grid-consistent move and undo simulation for a voxel snake puzzle.
//!
//! The crate keeps an occupancy index of the level, the geometry of every
//! movable entity, and a history of reversible events, and mutates all three
//! together so that any player turn can be rolled back exactly.
pub mod commands;
pub mod grid;
pub mod level_entities;
pub mod level_instance;
pub mod level_template;
pub mod movement;
pub mod occupancy;
pub mod registry;
pub mod snake;
pub mod undo;
