//! A seeded, deterministic generator for layered, top-down tile maps.
//!
//! Rooms parsed from ASCII-art templates are placed on a grid without
//! overlap, remaining space is filled with open floor, items are scattered,
//! and a walkable path between a chosen entry and exit is searched for and
//! marked. The same seed and configuration always produce the same map.

pub mod builder;
pub mod cell;
pub mod coordinate;
pub mod error;
pub mod generator;
pub mod grid;
pub mod items;
pub mod laws;
pub mod layer;
pub mod loading;
pub mod random;
pub mod room;
pub mod route;
pub mod templates;
pub mod top_down_map;
