//! Alerts.

pub mod dedup;
pub mod telegram;
