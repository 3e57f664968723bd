pub mod entity;
pub mod map;
pub mod player;
