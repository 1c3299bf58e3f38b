//! Observation: daily patterns from the activity ledger, and the personal baseline with drift
//! detection. Statistics on fractions stay with the caller; every decision is here.

pub mod baseline;
pub mod patterns;
pub mod store;
