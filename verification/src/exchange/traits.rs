//! What every exchange tells.

use vstd::prelude::*;

use crate::num::Num;

verus! {

/// A symbol that can be traded.
#[derive(Clone, Debug)]
pub struct SymbolInfo {
    pub symbol: String,
    pub volume_24h_usd: Num,
    pub last_price: Num,
}

/// A symbol that can be traded, with its name as a sequence.
pub struct SymbolView {
    pub symbol: Seq<char>,
    pub volume_24h_usd: Num,
    pub last_price: Num,
}

impl View for SymbolInfo {
    type V = SymbolView;

    open spec fn view(&self) -> SymbolView {
        SymbolView {
            symbol: self.symbol@,
            volume_24h_usd: self.volume_24h_usd,
            last_price: self.last_price,
        }
    }
}

/// A candle: when it began, in milliseconds, and the price at which it closed.
#[derive(Clone, Copy, PartialEq, Eq, Structural, Debug)]
pub struct Kline {
    pub timestamp: u64,
    pub close: Num,
}

} // verus!
