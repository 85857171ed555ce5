//! Paper trading.

pub mod engine;
pub mod invariants;
pub mod laws;
pub mod models;
