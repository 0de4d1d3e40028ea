//! A pseudo-3D view of a walled maze for a character grid.
//!
//! - [`draw_2d`] rasterizes lines, regions and triangles into lists of cells;
//!   [`slope`] holds the arithmetic of their edges.
//! - [`render`] composes a frame from walls that are already projected onto
//!   the screen: it culls, orders back to front, and draws.
//! - [`input`] turns pressed keys into steps of the camera.
//! - [`maze`] makes the maze, shows it as text and turns it into the
//!   pillars and walls of [`world`].
//!
//! The library works in whole numbers throughout and touches neither screen
//! nor keyboard: what it draws it hands out as a list of cells.

pub mod draw_2d;
pub mod input;
pub mod maze;
pub mod render;
pub mod slope;
pub mod world;
