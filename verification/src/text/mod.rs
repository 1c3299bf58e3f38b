//! Text as sequences of characters: the vocabulary in which every contract of the crate speaks
//! of strings, with the functions that compute it.

pub mod chars;
pub mod laws;
pub mod number;
pub mod order;
pub mod pieces;
pub mod scan;
