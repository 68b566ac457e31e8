//! A first-person raycasting engine over a grid maze, in fixed-point
//! arithmetic: ray marching, wall and billboard projection, a per-column
//! depth buffer and texture sampling.

pub mod caster;
pub mod color;
pub mod enemy;
pub mod fixed;
pub mod framebuffer;
pub mod game;
pub mod maze;
pub mod player;
pub mod render;
pub mod sprites;
pub mod wall_textures;
