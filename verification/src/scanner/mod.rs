//! Finding pairs to trade.

pub mod finder;
