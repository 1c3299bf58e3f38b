//! Scenario streams: what each event of a running workflow shows, keeps and resolves.

pub mod artifacts;
pub mod card;
pub mod combine;
pub mod deck;
pub mod json;
pub mod laws;
pub mod morning;
pub mod workflow;
