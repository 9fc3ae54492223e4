pub mod entity;
pub mod game_map;
pub mod tile;
pub mod world;
pub mod generation;
