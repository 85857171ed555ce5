//! A bounded cache of closing prices.

use std::collections::VecDeque;
use vstd::prelude::*;

use crate::symbols::SymbolMap;
use crate::text::texts;

verus! {

/// Closing prices by symbol. No series is longer than the limit, but for the one tick that a limit
/// of zero lets stay.
#[verifier::reject_recursive_types(T)]
pub struct CandleCache<T: Copy> {
    data: SymbolMap<VecDeque<T>>,
    max_len: usize,
}

/// The newest `max_len` values, oldest first.
pub open spec fn trimmed<T>(series: Seq<T>, max_len: nat) -> Seq<T> {
    if series.len() > max_len {
        series.skip(series.len() - max_len)
    } else {
        series
    }
}

/// The series of a symbol. A symbol that is not in the cache has none.
pub open spec fn series_of<T>(data: Map<Seq<char>, Seq<T>>, symbol: Seq<char>) -> Seq<T> {
    if data.contains_key(symbol) {
        data[symbol]
    } else {
        Seq::empty()
    }
}

/// The cache after a symbol's series has been replaced.
pub open spec fn after_insert<T>(
    data: Map<Seq<char>, Seq<T>>,
    max_len: nat,
    symbol: Seq<char>,
    closes: Seq<T>,
) -> Map<Seq<char>, Seq<T>> {
    data.insert(symbol, trimmed(closes, max_len))
}

/// The cache after a candle has been completed: its close is appended, and the oldest one leaves
/// where there would be too many.
pub open spec fn after_update<T>(
    data: Map<Seq<char>, Seq<T>>,
    max_len: nat,
    symbol: Seq<char>,
    close: T,
) -> Map<Seq<char>, Seq<T>> {
    let longer = series_of(data, symbol).push(close);
    data.insert(
        symbol,
        if longer.len() > max_len {
            longer.drop_first()
        } else {
            longer
        },
    )
}

/// The cache after a tick within a candle: the newest close is replaced. The first tick of a symbol
/// starts its series.
pub open spec fn after_update_last<T>(
    data: Map<Seq<char>, Seq<T>>,
    symbol: Seq<char>,
    close: T,
) -> Map<Seq<char>, Seq<T>> {
    let series = series_of(data, symbol);
    data.insert(
        symbol,
        if series.len() > 0 {
            series.drop_last().push(close)
        } else {
            seq![close]
        },
    )
}

/// The order after a symbol has been written to: a new one comes last.
pub open spec fn order_with<T>(
    order: Seq<Seq<char>>,
    data: Map<Seq<char>, Seq<T>>,
    symbol: Seq<char>,
) -> Seq<Seq<char>> {
    if data.contains_key(symbol) {
        order
    } else {
        order.push(symbol)
    }
}

impl<T: Copy> View for CandleCache<T> {
    type V = Map<Seq<char>, Seq<T>>;

    closed spec fn view(&self) -> Map<Seq<char>, Seq<T>> {
        self.data@.map_values(|d: VecDeque<T>| d@)
    }
}

impl<T: Copy> CandleCache<T> {
    /// The cache has been made by [`CandleCache::new`] and its other methods.
    pub closed spec fn well_formed(&self) -> bool {
        self.data.well_formed()
    }

    /// The most values that a series holds.
    pub closed spec fn limit(&self) -> nat {
        self.max_len as nat
    }

    /// The symbols, in the order in which they came in.
    pub closed spec fn order(&self) -> Seq<Seq<char>> {
        self.data.order()
    }

    /// A cache without candles.
    pub fn new(max_len: usize) -> (r: Self)
        ensures
            r.well_formed(),
            r.limit() == max_len,
            r@ == Map::<Seq<char>, Seq<T>>::empty(),
            r.order() == Seq::<Seq<char>>::empty(),
    {
        let r = CandleCache { data: SymbolMap::new(), max_len };
        assert(r@ =~= Map::<Seq<char>, Seq<T>>::empty());
        r
    }

    /// Replaces all candles of a symbol. The newest `max_len` stay.
    pub fn insert(&mut self, symbol: &str, closes: Vec<T>)
        requires
            old(self).well_formed(),
        ensures
            final(self).well_formed(),
            final(self).limit() == old(self).limit(),
            final(self)@ == after_insert(old(self)@, old(self).limit(), symbol@, closes@),
            final(self).order() == order_with(old(self).order(), old(self)@, symbol@),
    {
        let n: usize = closes.len();
        let start: usize = if n > self.max_len { n - self.max_len } else { 0 };
        let mut kept: VecDeque<T> = VecDeque::new();
        let mut i: usize = start;
        while i < n
            invariant
                n == closes@.len(),
                start <= i <= n,
                kept@ == closes@.subrange(start as int, i as int),
            decreases n - i,
        {
            kept.push_back(closes[i]);
            assert(kept@ =~= closes@.subrange(start as int, i + 1));
            i += 1;
        }
        assert(kept@ =~= trimmed(closes@, self.limit()));
        self.data.insert(symbol, kept);
        assert(self@ =~= after_insert(old(self)@, old(self).limit(), symbol@, closes@));
    }

    /// Appends the close of a candle that is complete. Where there are too many, the oldest leaves.
    pub fn update(&mut self, symbol: &str, close: T)
        requires
            old(self).well_formed(),
        ensures
            final(self).well_formed(),
            final(self).limit() == old(self).limit(),
            final(self)@ == after_update(old(self)@, old(self).limit(), symbol@, close),
            final(self).order() == order_with(old(self).order(), old(self)@, symbol@),
    {
        let max_len: usize = self.max_len;
        match self.data.get_mut(symbol) {
            Some(series) => {
                series.push_back(close);
                if series.len() > max_len {
                    series.pop_front();
                }
            },
            None => {
                let mut series: VecDeque<T> = VecDeque::new();
                series.push_back(close);
                if series.len() > max_len {
                    series.pop_front();
                }
                self.data.insert(symbol, series);
            },
        }
        proof {
            let goal = after_update(old(self)@, old(self).limit(), symbol@, close);
            assert(self@[symbol@] =~= goal[symbol@]);
            assert(self@ =~= goal);
        }
    }

    /// Replaces the close of the newest candle, which is not complete yet.
    ///
    /// An exchange sends many ticks for one candle. Appending them would flood the cache.
    pub fn update_last(&mut self, symbol: &str, close: T)
        requires
            old(self).well_formed(),
        ensures
            final(self).well_formed(),
            final(self).limit() == old(self).limit(),
            final(self)@ == after_update_last(old(self)@, symbol@, close),
            final(self).order() == order_with(old(self).order(), old(self)@, symbol@),
    {
        match self.data.get_mut(symbol) {
            Some(series) => {
                if series.len() > 0 {
                    series.pop_back();
                }
                series.push_back(close);
            },
            None => {
                let mut series: VecDeque<T> = VecDeque::new();
                series.push_back(close);
                self.data.insert(symbol, series);
            },
        }
        proof {
            let goal = after_update_last(old(self)@, symbol@, close);
            assert(self@[symbol@] =~= goal[symbol@]);
            assert(self@ =~= goal);
        }
    }

    /// The closing prices of a symbol, oldest first.
    pub fn get(&self, symbol: &str) -> (r: Option<&VecDeque<T>>)
        requires
            self.well_formed(),
        ensures
            match r {
                Some(series) => self@.contains_key(symbol@) && series@ == self@[symbol@],
                None => !self@.contains_key(symbol@),
            },
    {
        self.data.get(symbol)
    }

    /// The symbols in the cache.
    pub fn symbols(&self) -> (r: Vec<String>)
        requires
            self.well_formed(),
        ensures
            texts(r@) == self.order(),
    {
        self.data.symbols()
    }

    /// The number of candles of a symbol.
    pub fn len(&self, symbol: &str) -> (r: usize)
        requires
            self.well_formed(),
        ensures
            r == series_of(self@, symbol@).len(),
    {
        match self.data.get(symbol) {
            Some(series) => series.len(),
            None => 0,
        }
    }

    /// Empties the cache.
    pub fn clear(&mut self)
        ensures
            final(self).well_formed(),
            final(self).limit() == old(self).limit(),
            final(self)@ == Map::<Seq<char>, Seq<T>>::empty(),
            final(self).order() == Seq::<Seq<char>>::empty(),
    {
        self.data = SymbolMap::new();
        assert(self@ =~= Map::<Seq<char>, Seq<T>>::empty());
    }

    /// The newest close of a symbol.
    pub fn last_price(&self, symbol: &str) -> (r: Option<T>)
        requires
            self.well_formed(),
        ensures
            r == (if series_of(self@, symbol@).len() > 0 {
                Some(self@[symbol@].last())
            } else {
                None
            }),
    {
        match self.data.get(symbol) {
            Some(series) => {
                let n: usize = series.len();
                if n > 0 {
                    Some(series[n - 1])
                } else {
                    None
                }
            },
            None => None,
        }
    }

    /// All series, for the scanner.
    pub fn to_hashmap(&self) -> (r: SymbolMap<Vec<T>>)
        requires
            self.well_formed(),
        ensures
            r.well_formed(),
            r.order() == self.order(),
            r@.dom() == self@.dom(),
            forall|k: Seq<char>| #[trigger] self@.contains_key(k) ==> r@[k]@ == self@[k],
    {
        proof {
            self.data.order_is_domain();
        }
        let ghost order = self.order();
        let mut out: SymbolMap<Vec<T>> = SymbolMap::new();
        let mut i: usize = 0;
        while i < self.data.len()
            invariant
                self.well_formed(),
                out.well_formed(),
                order == self.order(),
                order == self.data.order(),
                order.no_duplicates(),
                forall|k: Seq<char>| order.contains(k) <==> #[trigger] self.data@.contains_key(k),
                0 <= i <= order.len(),
                out.order() == order.take(i as int),
                forall|k: Seq<char>| #[trigger] out@.contains_key(k) <==> order.take(i as int).contains(k),
                forall|k: Seq<char>| #[trigger] out@.contains_key(k) ==> out@[k]@ == self@[k],
            decreases order.len() - i,
        {
            let name: &String = self.data.name(i);
            let ghost key = order[i as int];
            proof {
                assert(order.contains(key));
                assert(!order.take(i as int).contains(key));
            }
            let series: Vec<T> = listed(self.data.value(i));
            out.insert(name.as_str(), series);
            proof {
                assert(order.take(i + 1) =~= order.take(i as int).push(key));
                assert forall|k: Seq<char>| #[trigger] out@.contains_key(k) <==> order.take(i + 1).contains(k) by {
                    let less = order.take(i as int);
                    let more = order.take(i + 1);
                    if less.contains(k) {
                        let j = choose|j: int| 0 <= j < less.len() && #[trigger] less[j] == k;
                        assert(more[j] == k);
                    }
                    if k == key {
                        assert(more[i as int] == k);
                    }
                    if more.contains(k) {
                        let j = choose|j: int| 0 <= j < more.len() && #[trigger] more[j] == k;
                        if j < i {
                            assert(less[j] == k);
                        }
                    }
                }
            }
            i += 1;
        }
        proof {
            assert(order.take(order.len() as int) =~= order);
            assert forall|k: Seq<char>| #[trigger] self@.contains_key(k) implies out@.contains_key(k) by {
                assert(self.data@.contains_key(k));
            }
            assert forall|k: Seq<char>| #[trigger] out@.contains_key(k) implies self@.contains_key(k) by {
                assert(self.data@.contains_key(k));
            }
            assert(out@.dom() =~= self@.dom());
        }
        out
    }
}

fn listed<T: Copy>(series: &VecDeque<T>) -> (r: Vec<T>)
    ensures
        r@ == series@,
{
    let mut out: Vec<T> = Vec::new();
    let mut i: usize = 0;
    while i < series.len()
        invariant
            0 <= i <= series@.len(),
            out@ == series@.take(i as int),
        decreases series@.len() - i,
    {
        out.push(series[i]);
        assert(out@ =~= series@.take(i + 1));
        i += 1;
    }
    assert(out@ =~= series@);
    out
}

/// No series is longer than the limit.
pub open spec fn bounded<T>(data: Map<Seq<char>, Seq<T>>, max_len: nat) -> bool {
    forall|k: Seq<char>| #[trigger] data.contains_key(k) ==> data[k].len() <= max_len
}

/// Whatever is written, no series grows longer than a limit of at least one.
pub proof fn cache_stays_bounded<T>(
    data: Map<Seq<char>, Seq<T>>,
    max_len: nat,
    symbol: Seq<char>,
    closes: Seq<T>,
    close: T,
)
    requires
        max_len >= 1,
        bounded(data, max_len),
    ensures
        bounded(after_insert(data, max_len, symbol, closes), max_len),
        bounded(after_update(data, max_len, symbol, close), max_len),
        bounded(after_update_last(data, symbol, close), max_len),
        bounded(Map::<Seq<char>, Seq<T>>::empty(), max_len),
{
}

/// What was written last is the last price, and no other symbol is touched.
pub proof fn last_write_is_last_price<T>(
    data: Map<Seq<char>, Seq<T>>,
    max_len: nat,
    symbol: Seq<char>,
    closes: Seq<T>,
    close: T,
    other: Seq<char>,
)
    requires
        max_len >= 1,
        bounded(data, max_len),
        closes.len() > 0,
        other != symbol,
    ensures
        after_insert(data, max_len, symbol, closes)[symbol].last() == closes.last(),
        after_update(data, max_len, symbol, close)[symbol].last() == close,
        after_update_last(data, symbol, close)[symbol].last() == close,
        series_of(after_insert(data, max_len, symbol, closes), other) == series_of(data, other),
        series_of(after_update(data, max_len, symbol, close), other) == series_of(data, other),
        series_of(after_update_last(data, symbol, close), other) == series_of(data, other),
{
}

/// Ticks within a candle never change how many candles a known symbol has; completing a candle adds
/// one until the limit is reached.
pub proof fn ticks_do_not_count<T>(data: Map<Seq<char>, Seq<T>>, max_len: nat, symbol: Seq<char>, close: T)
    requires
        bounded(data, max_len),
        series_of(data, symbol).len() > 0,
    ensures
        after_update_last(data, symbol, close)[symbol].len() == data[symbol].len(),
        after_update_last(data, symbol, close)[symbol].drop_last() == data[symbol].drop_last(),
        after_update(data, max_len, symbol, close)[symbol].len() == (if data[symbol].len() < max_len {
            (data[symbol].len() + 1) as nat
        } else {
            data[symbol].len()
        }),
{
    assert(after_update_last(data, symbol, close)[symbol].drop_last() =~= data[symbol].drop_last());
}

} // verus!
