//! Tile-grid occupancy tracking, collision-aware A* path search and a
//! speed-limited movement integrator, all over integer coordinates.
pub mod arith;
pub mod error;
pub mod grid;
pub mod movement;
pub mod pathing;
pub mod rect2d;
pub mod render;
pub mod search;
pub mod terminal;
pub mod transform;
pub mod world;
