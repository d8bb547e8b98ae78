//! A ray-cast maze renderer: tile grid, collision queries, ray casting,
//! wall and billboard projection into a pixel framebuffer, all in integer
//! fixed-point arithmetic.

pub mod angle;
pub mod cast_ray;
pub mod color;
pub mod framebuffer;
pub mod game;
pub mod grid;
pub mod player;
pub mod render;
pub mod sprite;
pub mod texture;
