//! Statistics: which samples are looked at, and what the measured numbers mean.

pub mod cointegration;
pub mod laws;
pub mod math;
