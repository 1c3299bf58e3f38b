//! The logic of a personal operating system: intake and synthesis of what the user asks,
//! arbitration between the worlds of work and home, memory, consent, scenario streams and the
//! personal baseline. Every function is pure or works on a plain state; I/O lives outside.

pub mod agents;
pub mod calendar;
pub mod clock;
pub mod domain;
pub mod intelligence;
pub mod memory;
pub mod mother;
pub mod orchestrator;
pub mod ranking;
pub mod routes;
pub mod text;
pub mod voice;
pub mod worlds;
