//! A software-raycasting maze explorer: a grid maze, a player with a heading,
//! per-column ray traversal with fisheye correction, textured wall columns
//! over a sky/floor background, billboard sprites composited against a
//! per-column depth buffer, a minimap, and a menu/game/win screen machine.
//!
//! All world geometry is carried in 16.16 fixed point (see [`fixed`]), so the
//! whole rendering and gameplay core is verified; the host supplies the
//! trigonometric values it needs as fixed-point numbers.

pub mod caster;
pub mod fixed;
pub mod framebuffer;
pub mod game;
pub mod maze;
pub mod player;
pub mod render;
pub mod sprite;
pub mod texture;

use vstd::prelude::*;

verus! {

} // verus!
