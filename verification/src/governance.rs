//! Governance: proposals on a property and the weighted votes cast on them.
pub mod engine;
pub mod laws;
pub mod ledgers;
pub mod result;
pub mod tally;
pub mod types;
