//! What the routes accept and answer.

pub mod events;
pub mod worlds;
