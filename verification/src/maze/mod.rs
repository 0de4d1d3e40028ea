//! The maze: its cells and walls, how it is generated, and how it is
//! shown as text and as a world of pillars.

pub mod cell_set;
pub mod display;
pub mod flood;
pub mod generation;
pub mod random;
pub mod wall_set;
pub mod world_translation;
