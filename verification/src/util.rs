pub mod direction;
pub mod hash;
pub mod vec2;
