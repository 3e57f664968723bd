//! The raycasting engine's inventory.
pub mod player;
