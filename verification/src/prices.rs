//! Latest prices by symbol.

use vstd::hash_map::StringHashMap;
use vstd::prelude::*;

use crate::num::Num;

verus! {

/// The latest price of each symbol that has one.
pub struct PriceBook {
    prices: StringHashMap<Num>,
}

impl View for PriceBook {
    type V = Map<Seq<char>, Num>;

    closed spec fn view(&self) -> Map<Seq<char>, Num> {
        self.prices@
    }
}

impl PriceBook {
    /// A book without prices.
    pub fn new() -> (r: PriceBook)
        ensures
            r@ == Map::<Seq<char>, Num>::empty(),
    {
        PriceBook { prices: StringHashMap::new() }
    }

    /// Sets the price of a symbol.
    pub fn insert(&mut self, symbol: &str, price: Num)
        ensures
            final(self)@ == old(self)@.insert(symbol@, price),
    {
        self.prices.insert(symbol.to_owned(), price);
    }

    /// The price of a symbol, where there is one.
    pub fn get(&self, symbol: &str) -> (r: Option<Num>)
        ensures
            r == (if self@.contains_key(symbol@) {
                Some(self@[symbol@])
            } else {
                None
            }),
    {
        match self.prices.get(symbol) {
            Some(p) => Some(*p),
            None => None,
        }
    }
}

} // verus!
