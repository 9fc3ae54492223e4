pub mod app;
pub mod game;
pub mod random;
pub mod render;
pub mod util;
pub mod world;
