//! What the user told the system, and what the system may keep.

pub mod chat;
pub mod consent;
pub mod item;
