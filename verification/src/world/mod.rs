//! What the world is made of: pillars, and the walls between them.

pub mod pillar;
