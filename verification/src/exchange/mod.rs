//! What is asked of an exchange and what its answers say.

pub mod batch;
pub mod bybit;
pub mod history;
pub mod traits;
