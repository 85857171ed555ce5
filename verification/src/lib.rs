//! Decision core of a cointegration scanner and paper trader for perpetual futures.
//!
//! Everything that decides something lives here and is verified: which pairs are tracked, when a
//! position opens or closes, how candles are cached and paged, what an exchange message means and
//! which alerts go out. Real-number arithmetic is done by the caller; this crate carries such
//! numbers as bit patterns ([`num::Num`]) and orders them exactly.

pub mod alerts;
pub mod arith;
pub mod candle_cache;
pub mod clock;
pub mod config;
pub mod decimal;
pub mod display;
pub mod exchange;
pub mod json;
pub mod laws;
pub mod monitor;
pub mod notify;
pub mod num;
pub mod prices;
pub mod rank;
pub mod scanner;
pub mod stats;
pub mod symbols;
pub mod text;
pub mod trading;
pub mod ws;
