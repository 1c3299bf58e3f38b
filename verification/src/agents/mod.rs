//! Agents: what each makes of the user's memory and tasks.

pub mod family;
pub mod personal_productivity;
pub mod stub;
