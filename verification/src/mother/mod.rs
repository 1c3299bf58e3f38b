//! The Mother: the single orchestrator.
//!
//! - [`intake`] classifies an utterance into worlds, targets, kind and urgency.
//! - [`synth`] composes one answer with mode-tagged actions.
//! - [`bus`] carries messages between the Mother and the worlds (trace ids, depth cap).
//! - [`arbitrate`] dedupes proposals and turns a work/home clash into one neutral question.
//! - [`summary`] counts the cards and agents of a session per life domain.

pub mod arbitrate;
pub mod bus;
pub mod intake;
pub mod keywords;
pub mod summary;
pub mod synth;
