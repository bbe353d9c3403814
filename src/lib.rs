//! Arena generation and grid-aware collision for a tile-based 2D shooter.
//!
//! - `grid`: the tile grid and its well-formedness.
//! - `cave`: the noise-cave generator's post-processing (smoothing, sealed
//!   border, cleared spawn square).
//! - `rooms`: the room-template generator.
//! - `collision`: box overlap, the local wall query and the axis-separated
//!   movement resolver.
//! - `motion`: moving bodies, projectiles and enemy placement.
//!
//! World coordinates are integers and the grid is centred on the world
//! origin. A body is described by its centre and its full size; the
//! specifications double every coordinate so that half sizes stay whole.
pub mod grid;
pub mod cave;
pub mod rooms;
pub mod collision;
pub mod motion;
mod random;
