//! One round of the trading loop: when to scan again and for what, which prices are needed and how
//! tracked pairs are brought to them.

use vstd::prelude::*;

use crate::arith::{Arithmetic, Calculator, Op};
use crate::candle_cache::{series_of, CandleCache};
use crate::clock::{utc_now, Timestamp};
use crate::exchange::traits::SymbolInfo;
use crate::num::Num;
use crate::prices::PriceBook;
use crate::scanner::finder::{coint_views, cointegrated_pairs, correlated_pairs, eligible};
use crate::scanner::finder::{valid_count, CointFinder, Scan};
use crate::stats::cointegration::{live_zscore, CointResult, CointView, EntryGuard};
use crate::stats::cointegration::measured_guard;
use crate::symbols::SymbolMap;
use crate::text::texts;
use crate::trading::engine::PaperEngine;
use crate::trading::engine::{all_marked, pair_zscore, priced, signals, tracking_all, untracked};
use crate::trading::models::{Signal, StateView, TrackedPair};

verus! {

/// How many symbols a list shows before it is cut off.
pub const SHOWN_SYMBOLS: usize = 8;

/// What to do next.
#[derive(Clone, Copy, PartialEq, Eq, Structural, Debug)]
pub enum Action {
    /// Look for pairs again.
    Rescan,
    /// Nothing is tracked: wait.
    Wait,
    /// Watch the tracked pairs.
    Watch,
}

/// How many seconds lie between two scans.
pub fn rescan_interval(rescan_min: u64) -> (r: u64)
    requires
        rescan_min * 60 <= u64::MAX,
    ensures
        r == rescan_min * 60,
{
    rescan_min * 60
}

/// What to do next, so many seconds after the last scan. A round scans at most once.
pub fn next_action(elapsed: u64, interval: u64, scanned: bool, pairs: usize) -> (r: Action)
    ensures
        r == (if elapsed >= interval && !scanned {
            Action::Rescan
        } else if pairs == 0 {
            Action::Wait
        } else {
            Action::Watch
        }),
{
    if elapsed >= interval && !scanned {
        Action::Rescan
    } else if pairs == 0 {
        Action::Wait
    } else {
        Action::Watch
    }
}

/// How many seconds are left until the next scan.
pub fn next_scan_in(elapsed: u64, interval: u64) -> (r: u64)
    ensures
        r == (if interval > elapsed {
            interval - elapsed
        } else {
            0
        }),
{
    if interval > elapsed {
        interval - elapsed
    } else {
        0
    }
}

/// The names of the first `top_n` symbols.
pub fn top_symbols(symbols: &Vec<SymbolInfo>, top_n: usize) -> (r: Vec<String>)
    ensures
        r@.len() == (if symbols@.len() < top_n {
            symbols@.len()
        } else {
            top_n as nat
        }),
        forall|i: int| 0 <= i < r@.len() ==> #[trigger] r@[i] == symbols@[i].symbol,
{
    let n: usize = if symbols.len() < top_n { symbols.len() } else { top_n };
    let mut out: Vec<String> = Vec::new();
    let mut i: usize = 0;
    while i < n
        invariant
            n <= symbols@.len(),
            0 <= i <= n,
            out@.len() == i,
            forall|j: int| 0 <= j < i ==> #[trigger] out@[j] == symbols@[j].symbol,
        decreases n - i,
    {
        out.push(symbols[i].symbol.clone());
        i += 1;
    }
    out
}

/// How many of the top symbols a shown list leaves out.
pub fn symbols_not_shown(top_n: usize) -> (r: usize)
    ensures
        r == (if top_n > SHOWN_SYMBOLS {
            top_n - SHOWN_SYMBOLS
        } else {
            0
        }),
{
    if top_n > SHOWN_SYMBOLS {
        top_n - SHOWN_SYMBOLS
    } else {
        0
    }
}

/// The list with a symbol, once.
pub open spec fn with_symbol(list: Seq<Seq<char>>, symbol: Seq<char>) -> Seq<Seq<char>> {
    if list.contains(symbol) {
        list
    } else {
        list.push(symbol)
    }
}

/// The symbols of the first `n` pairs, each once, in the order in which they appear.
pub open spec fn symbols_of(pairs: Seq<TrackedPair>, n: int) -> Seq<Seq<char>>
    decreases n,
{
    if n <= 0 {
        Seq::empty()
    } else {
        with_symbol(with_symbol(symbols_of(pairs, n - 1), pairs[n - 1].symbol_a@), pairs[n - 1].symbol_b@)
    }
}

fn add_symbol(list: &mut Vec<String>, symbol: &String)
    ensures
        texts(final(list)@) == with_symbol(texts(old(list)@), symbol@),
{
    let mut i: usize = 0;
    while i < list.len()
        invariant
            list@ == old(list)@,
            0 <= i <= list@.len(),
            forall|j: int| 0 <= j < i ==> (#[trigger] list@[j])@ != symbol@,
        decreases list@.len() - i,
    {
        if list[i] == *symbol {
            assert(texts(list@)[i as int] == symbol@);
            return;
        }
        i += 1;
    }
    proof {
        assert forall|j: int| 0 <= j < list@.len() implies texts(list@)[j] != symbol@ by {
            assert(list@[j]@ != symbol@);
        }
    }
    list.push(symbol.clone());
    assert(texts(list@) =~= texts(old(list)@).push(symbol@));
}

/// The symbols of the tracked pairs, each once.
pub fn tracked_symbols(pairs: &Vec<TrackedPair>) -> (r: Vec<String>)
    ensures
        texts(r@) == symbols_of(pairs@, pairs@.len() as int),
{
    let mut out: Vec<String> = Vec::new();
    let mut i: usize = 0;
    assert(texts(out@) =~= symbols_of(pairs@, 0));
    while i < pairs.len()
        invariant
            0 <= i <= pairs@.len(),
            texts(out@) == symbols_of(pairs@, i as int),
        decreases pairs@.len() - i,
    {
        add_symbol(&mut out, &pairs[i].symbol_a);
        add_symbol(&mut out, &pairs[i].symbol_b);
        i += 1;
    }
    out
}

/// Every symbol of a tracked pair is listed, and none is listed twice.
pub proof fn symbols_are_listed_once(pairs: Seq<TrackedPair>, n: int)
    requires
        0 <= n <= pairs.len(),
    ensures
        symbols_of(pairs, n).no_duplicates(),
        forall|i: int|
            0 <= i < n ==> symbols_of(pairs, n).contains((#[trigger] pairs[i]).symbol_a@) && symbols_of(
                pairs,
                n,
            ).contains(pairs[i].symbol_b@),
    decreases n,
{
    if n > 0 {
        symbols_are_listed_once(pairs, n - 1);
        let before = symbols_of(pairs, n - 1);
        let a = pairs[n - 1].symbol_a@;
        let b = pairs[n - 1].symbol_b@;
        lemma_with_symbol(before, a);
        lemma_with_symbol(with_symbol(before, a), b);
    }
}

proof fn lemma_with_symbol(list: Seq<Seq<char>>, symbol: Seq<char>)
    ensures
        list.no_duplicates() ==> with_symbol(list, symbol).no_duplicates(),
        with_symbol(list, symbol).contains(symbol),
        forall|s: Seq<char>| list.contains(s) ==> #[trigger] with_symbol(list, symbol).contains(s),
{
    let next = with_symbol(list, symbol);
    if !list.contains(symbol) {
        assert(next[list.len() as int] == symbol);
        assert forall|s: Seq<char>| list.contains(s) implies #[trigger] next.contains(s) by {
            let i = choose|i: int| 0 <= i < list.len() && list[i] == s;
            assert(next[i] == s);
        }
    }
}

/// The prices with the newest one of a symbol, where there is one.
pub open spec fn with_last(
    prices: Map<Seq<char>, Num>,
    data: Map<Seq<char>, Seq<Num>>,
    symbol: Seq<char>,
) -> Map<Seq<char>, Num> {
    if series_of(data, symbol).len() > 0 {
        prices.insert(symbol, data[symbol].last())
    } else {
        prices
    }
}

/// The newest prices of the first `n` pairs.
pub open spec fn cached_prices(
    pairs: Seq<TrackedPair>,
    data: Map<Seq<char>, Seq<Num>>,
    n: int,
) -> Map<Seq<char>, Num>
    decreases n,
{
    if n <= 0 {
        Map::empty()
    } else {
        with_last(
            with_last(cached_prices(pairs, data, n - 1), data, pairs[n - 1].symbol_a@),
            data,
            pairs[n - 1].symbol_b@,
        )
    }
}

/// The newest cached prices of the tracked pairs.
pub fn prices_from_cache(pairs: &Vec<TrackedPair>, cache: &CandleCache<Num>) -> (r: PriceBook)
    requires
        cache.well_formed(),
    ensures
        r@ == cached_prices(pairs@, cache@, pairs@.len() as int),
{
    let mut out: PriceBook = PriceBook::new();
    let mut i: usize = 0;
    while i < pairs.len()
        invariant
            cache.well_formed(),
            0 <= i <= pairs@.len(),
            out@ == cached_prices(pairs@, cache@, i as int),
        decreases pairs@.len() - i,
    {
        let pair: &TrackedPair = &pairs[i];
        match cache.last_price(pair.symbol_a.as_str()) {
            Some(p) => {
                out.insert(pair.symbol_a.as_str(), p);
            },
            None => {},
        }
        match cache.last_price(pair.symbol_b.as_str()) {
            Some(p) => {
                out.insert(pair.symbol_b.as_str(), p);
            },
            None => {},
        }
        i += 1;
    }
    out
}

/// The newest prices of the first `n` series.
pub open spec fn newest_prices(
    order: Seq<Seq<char>>,
    data: Map<Seq<char>, Vec<Num>>,
    n: int,
) -> Map<Seq<char>, Num>
    decreases n,
{
    if n <= 0 {
        Map::empty()
    } else {
        let before = newest_prices(order, data, n - 1);
        let series = data[order[n - 1]]@;
        if series.len() > 0 {
            before.insert(order[n - 1], series.last())
        } else {
            before
        }
    }
}

/// The newest price of every series.
pub fn prices_from_series(series: &SymbolMap<Vec<Num>>) -> (r: PriceBook)
    requires
        series.well_formed(),
    ensures
        r@ == newest_prices(series.order(), series@, series.order().len() as int),
{
    let mut out: PriceBook = PriceBook::new();
    let mut i: usize = 0;
    while i < series.len()
        invariant
            series.well_formed(),
            0 <= i <= series.order().len(),
            out@ == newest_prices(series.order(), series@, i as int),
        decreases series.order().len() - i,
    {
        let one: &Vec<Num> = series.value(i);
        let n: usize = one.len();
        if n > 0 {
            out.insert(series.name(i).as_str(), one[n - 1]);
        }
        i += 1;
    }
    out
}

/// The symbols among the first `n` that have no price.
pub open spec fn unpriced(symbols: Seq<String>, prices: Map<Seq<char>, Num>, n: int) -> Seq<String>
    decreases n,
{
    if n <= 0 {
        Seq::empty()
    } else {
        let before = unpriced(symbols, prices, n - 1);
        if prices.contains_key(symbols[n - 1]@) {
            before
        } else {
            before.push(symbols[n - 1])
        }
    }
}

/// The symbols that have no price yet and must be asked for.
pub fn missing_symbols(symbols: &Vec<String>, prices: &PriceBook) -> (r: Vec<String>)
    ensures
        r@ == unpriced(symbols@, prices@, symbols@.len() as int),
{
    let mut out: Vec<String> = Vec::new();
    let mut i: usize = 0;
    while i < symbols.len()
        invariant
            0 <= i <= symbols@.len(),
            out@ == unpriced(symbols@, prices@, i as int),
        decreases symbols@.len() - i,
    {
        if prices.get(symbols[i].as_str()).is_none() {
            out.push(symbols[i].clone());
        }
        i += 1;
    }
    out
}

/// How the entry guard looks at a pair.
#[derive(Clone, Copy, PartialEq, Eq, Structural, Debug)]
pub struct GuardSettings {
    pub momentum_window: usize,
    pub hurst_window: usize,
    pub hurst_threshold: Num,
}

/// A pair at the latest prices: its z-score and, where there are candles of both symbols, its
/// guard. A pair without both prices stays as it is.
pub open spec fn refreshed(
    m: Arithmetic,
    pair: TrackedPair,
    prices: Map<Seq<char>, Num>,
    candles: Map<Seq<char>, Vec<Num>>,
    g: GuardSettings,
    now: Timestamp,
) -> TrackedPair {
    if priced(prices, pair) {
        let z = pair_zscore(m, prices, pair);
        let seen = TrackedPair { last_zscore: z, last_updated: now, ..pair };
        if candles.contains_key(pair.symbol_a@) && candles.contains_key(pair.symbol_b@) {
            let guard = measured_guard(
                m,
                candles[pair.symbol_a@]@,
                candles[pair.symbol_b@]@,
                pair.hedge_ratio,
                pair.spread_mean,
                pair.spread_std,
                z,
                g.momentum_window as int,
                g.hurst_window as int,
                g.hurst_threshold,
            );
            TrackedPair { spread_momentum: guard.velocity, hurst: guard.hurst, entry_guard: guard, ..seen }
        } else {
            seen
        }
    } else {
        pair
    }
}

/// The state with all pairs at the latest prices.
pub open spec fn all_refreshed(
    m: Arithmetic,
    s: StateView,
    prices: Map<Seq<char>, Num>,
    candles: Map<Seq<char>, Vec<Num>>,
    g: GuardSettings,
    moments: Seq<Timestamp>,
) -> StateView {
    StateView {
        tracked_pairs: Seq::new(
            s.tracked_pairs.len(),
            |i: int| refreshed(m, s.tracked_pairs[i], prices, candles, g, moments[i]),
        ),
        ..s
    }
}

/// Brings all pairs to the latest prices, each as of its own moment.
pub fn refresh_pairs_at<F: Fn(Op) -> Num>(
    engine: &mut PaperEngine,
    prices: &PriceBook,
    candles: &SymbolMap<Vec<Num>>,
    g: GuardSettings,
    moments: &Vec<Timestamp>,
    calc: &Calculator<F>,
)
    requires
        calc.reliable(),
        candles.well_formed(),
        moments@.len() == old(engine).state@.tracked_pairs.len(),
    ensures
        final(engine).state@ == all_refreshed(
            calc.meaning(),
            old(engine).state@,
            prices@,
            candles@,
            g,
            moments@,
        ),
        final(engine).config == old(engine).config,
        final(engine).state_path == old(engine).state_path,
{
    let ghost m = calc.meaning();
    let ghost s = engine.state@;
    let ghost goal = all_refreshed(m, s, prices@, candles@, g, moments@).tracked_pairs;
    let n: usize = engine.state.tracked_pairs.len();
    let mut i: usize = 0;
    while i < n
        invariant
            calc.reliable(),
            candles.well_formed(),
            m == calc.meaning(),
            n == s.tracked_pairs.len(),
            n == moments@.len(),
            0 <= i <= n,
            s == old(engine).state@,
            goal == all_refreshed(m, s, prices@, candles@, g, moments@).tracked_pairs,
            engine.config == old(engine).config,
            engine.state_path == old(engine).state_path,
            engine.state@ == (StateView { tracked_pairs: engine.state@.tracked_pairs, ..s }),
            engine.state@.tracked_pairs.len() == n,
            forall|j: int| 0 <= j < i ==> engine.state@.tracked_pairs[j] == goal[j],
            forall|j: int| i <= j < n ==> engine.state@.tracked_pairs[j] == s.tracked_pairs[j],
        decreases n - i,
    {
        let pair: &mut TrackedPair = &mut engine.state.tracked_pairs[i];
        refresh_pair(pair, prices, candles, g, moments[i], calc);
        i += 1;
    }
    assert(engine.state@.tracked_pairs =~= goal);
}

fn refresh_pair<F: Fn(Op) -> Num>(
    pair: &mut TrackedPair,
    prices: &PriceBook,
    candles: &SymbolMap<Vec<Num>>,
    g: GuardSettings,
    now: Timestamp,
    calc: &Calculator<F>,
)
    requires
        calc.reliable(),
        candles.well_formed(),
    ensures
        *final(pair) == refreshed(calc.meaning(), *old(pair), prices@, candles@, g, now),
{
    match (prices.get(pair.symbol_a.as_str()), prices.get(pair.symbol_b.as_str())) {
        (Some(price_a), Some(price_b)) => {
            let z: Num = live_zscore(
                price_a,
                price_b,
                pair.hedge_ratio,
                pair.spread_mean,
                pair.spread_std,
                calc,
            );
            let measured: Option<EntryGuard> = match (
                candles.get(pair.symbol_a.as_str()),
                candles.get(pair.symbol_b.as_str()),
            ) {
                (Some(a), Some(b)) => Some(
                    EntryGuard::compute(
                        a.as_slice(),
                        b.as_slice(),
                        pair.hedge_ratio,
                        pair.spread_mean,
                        pair.spread_std,
                        z,
                        g.momentum_window,
                        g.hurst_window,
                        g.hurst_threshold,
                        calc,
                    ),
                ),
                _ => None,
            };
            pair.last_zscore = z;
            pair.last_updated = now;
            match measured {
                Some(guard) => {
                    pair.spread_momentum = guard.velocity;
                    pair.hurst = guard.hurst;
                    pair.entry_guard = guard;
                },
                None => {},
            }
        },
        _ => {},
    }
}

/// The state after a look at the latest prices: pairs are refreshed, then positions are marked.
pub open spec fn after_watch(
    m: Arithmetic,
    s: StateView,
    prices: Map<Seq<char>, Num>,
    candles: Map<Seq<char>, Vec<Num>>,
    g: GuardSettings,
    moments: Seq<Timestamp>,
) -> StateView {
    all_marked(m, all_refreshed(m, s, prices, candles, g, moments), prices)
}

/// Looks at the latest prices, as of the given moments, and gives the signals.
pub fn watch_at<F: Fn(Op) -> Num>(
    engine: &mut PaperEngine,
    prices: &PriceBook,
    candles: &SymbolMap<Vec<Num>>,
    g: GuardSettings,
    moments: &Vec<Timestamp>,
    calc: &Calculator<F>,
) -> (r: Vec<Signal>)
    requires
        calc.reliable(),
        candles.well_formed(),
        moments@.len() == old(engine).state@.tracked_pairs.len(),
    ensures
        final(engine).state@ == after_watch(calc.meaning(), old(engine).state@, prices@, candles@, g, moments@),
        r@ == signals(
            calc.meaning(),
            final(engine).state@,
            old(engine).config,
            prices@,
            final(engine).state@.tracked_pairs.len() as int,
        ),
        final(engine).config == old(engine).config,
        final(engine).state_path == old(engine).state_path,
{
    refresh_pairs_at(engine, prices, candles, g, moments, calc);
    engine.update_positions(prices, calc);
    engine.generate_signals(prices, calc)
}

/// Looks at the latest prices, as of now, and gives the signals.
pub fn watch<F: Fn(Op) -> Num>(
    engine: &mut PaperEngine,
    prices: &PriceBook,
    candles: &SymbolMap<Vec<Num>>,
    g: GuardSettings,
    calc: &Calculator<F>,
) -> (r: Vec<Signal>)
    requires
        calc.reliable(),
        candles.well_formed(),
    ensures
        exists|moments: Seq<Timestamp>|
            moments.len() == old(engine).state@.tracked_pairs.len() && final(engine).state@ == #[trigger] after_watch(
                calc.meaning(),
                old(engine).state@,
                prices@,
                candles@,
                g,
                moments,
            ),
        r@ == signals(
            calc.meaning(),
            final(engine).state@,
            old(engine).config,
            prices@,
            final(engine).state@.tracked_pairs.len() as int,
        ),
        final(engine).config == old(engine).config,
        final(engine).state_path == old(engine).state_path,
{
    let n: usize = engine.state.tracked_pairs.len();
    let mut moments: Vec<Timestamp> = Vec::new();
    let mut i: usize = 0;
    while i < n
        invariant
            0 <= i <= n,
            moments@.len() == i,
        decreases n - i,
    {
        moments.push(utc_now());
        i += 1;
    }
    watch_at(engine, prices, candles, g, &moments, calc)
}

/// What a scan has found and what is shown of it.
pub struct ScanReport {
    /// Symbols with enough candles.
    pub valid: usize,
    /// Pairs that passed the correlation filter.
    pub correlated: usize,
    /// Cointegrated pairs, farthest from the mean first.
    pub cointegrated: Vec<CointResult>,
    /// How many of those are beyond the entry threshold.
    pub signals: usize,
}

/// How many of the first `n` results are beyond the entry threshold.
pub open spec fn beyond_entry(results: Seq<CointView>, zscore_entry: Num, n: int) -> int
    decreases n,
{
    if n <= 0 {
        0
    } else {
        beyond_entry(results, zscore_entry, n - 1) + if zscore_entry.less(results[n - 1].current_zscore.absolute()) {
            1int
        } else {
            0int
        }
    }
}

/// How many results are beyond the entry threshold.
pub fn signal_count(results: &Vec<CointResult>, zscore_entry: Num) -> (r: usize)
    ensures
        r == beyond_entry(coint_views(results@), zscore_entry, results@.len() as int),
{
    let mut count: usize = 0;
    let mut i: usize = 0;
    while i < results.len()
        invariant
            0 <= i <= results@.len(),
            count <= i,
            count == beyond_entry(coint_views(results@), zscore_entry, i as int),
        decreases results@.len() - i,
    {
        if zscore_entry.lt(results[i].current_zscore.abs()) {
            count += 1;
        }
        i += 1;
    }
    count
}

/// May the state `next` follow `s` when these results replace what was tracked?
pub open spec fn tracks_results(engine: PaperEngine, results: Seq<CointResult>, next: StateView) -> bool {
    exists|moments: Seq<(Timestamp, Timestamp)>|
        moments.len() == results.len() && next == #[trigger] tracking_all(
            untracked(engine.state@),
            engine.config,
            results,
            moments,
            results.len() as int,
        )
}

/// Scans the symbols that have `min_candles` candles and tracks what is found in place of what was
/// tracked. Where nothing is found and `keep` is set, what was tracked stays.
pub fn scan_and_track<F: Fn(Op) -> Num>(
    engine: &mut PaperEngine,
    candles: &SymbolMap<Vec<Num>>,
    min_candles: usize,
    min_correlation: Num,
    zscore_entry: Num,
    keep: bool,
    calc: &Calculator<F>,
) -> (r: ScanReport)
    requires
        calc.reliable(),
        candles.well_formed(),
    ensures
        ({
            let m = calc.meaning();
            let f = CointFinder { min_correlation, min_candles };
            let order = candles.order();
            let pairs = correlated_pairs(m, f, order, candles@);
            let found = coint_views(r.cointegrated@);
            &&& r.valid == eligible(order, candles@, f.min_candles as int, order.len() as int).len()
            &&& r.correlated == pairs.len()
            &&& found == cointegrated_pairs(m, f, candles@, pairs)
            &&& r.signals == beyond_entry(found, zscore_entry, found.len() as int)
        }),
        keep && r.cointegrated@.len() == 0 ==> *final(engine) == *old(engine),
        !(keep && r.cointegrated@.len() == 0) ==> tracks_results(
            *old(engine),
            r.cointegrated@,
            final(engine).state@,
        ),
        final(engine).config == old(engine).config,
        final(engine).state_path == old(engine).state_path,
{
    let finder: CointFinder = CointFinder { min_correlation, min_candles };
    let scan: Scan = finder.scan(candles, calc);
    let signals: usize = signal_count(&scan.cointegrated, zscore_entry);
    if !keep || scan.cointegrated.len() > 0 {
        engine.replace_pairs(&scan.cointegrated);
    }
    ScanReport { valid: scan.valid, correlated: scan.correlated, cointegrated: scan.cointegrated, signals }
}

/// Scans again from what is cached. With fewer than two symbols that have `min_candles` candles
/// nothing is scanned and what was tracked stays.
pub fn rescan<F: Fn(Op) -> Num>(
    engine: &mut PaperEngine,
    candles: &SymbolMap<Vec<Num>>,
    min_candles: usize,
    min_correlation: Num,
    zscore_entry: Num,
    calc: &Calculator<F>,
) -> (r: (usize, Option<ScanReport>))
    requires
        calc.reliable(),
        candles.well_formed(),
    ensures
        r.0 == eligible(candles.order(), candles@, min_candles as int, candles.order().len() as int).len(),
        r.1 is Some <==> r.0 >= 2,
        r.1 is None ==> *final(engine) == *old(engine),
        r.1 matches Some(report) ==> {
            let m = calc.meaning();
            let f = CointFinder { min_correlation, min_candles };
            let pairs = correlated_pairs(m, f, candles.order(), candles@);
            let found = coint_views(report.cointegrated@);
            &&& report.valid == r.0
            &&& report.correlated == pairs.len()
            &&& found == cointegrated_pairs(m, f, candles@, pairs)
            &&& report.signals == beyond_entry(found, zscore_entry, found.len() as int)
            &&& tracks_results(*old(engine), report.cointegrated@, final(engine).state@)
        },
        final(engine).config == old(engine).config,
        final(engine).state_path == old(engine).state_path,
{
    let valid: usize = valid_count(candles, min_candles);
    if valid < 2 {
        return (valid, None);
    }
    let report: ScanReport = scan_and_track(engine, candles, min_candles, min_correlation, zscore_entry, false, calc);
    (valid, Some(report))
}

} // verus!
