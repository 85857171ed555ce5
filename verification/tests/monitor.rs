use lead_lag::arith::{Calculator, Op};
use lead_lag::num::Num;
use lead_lag::candle_cache::CandleCache;
use lead_lag::clock::Timestamp;
use lead_lag::display::{
    direction, direction_text, divergences, hurst_level, momentum_level, summary, zscore_level, Direction, HurstLevel,
    MomentumLevel, ZscoreLevel, ELEVATED,
};
use lead_lag::exchange::traits::SymbolInfo;
use lead_lag::monitor::{
    missing_symbols, next_action, next_scan_in, prices_from_cache, prices_from_series, refresh_pairs_at, rescan,
    rescan_interval, scan_and_track, signal_count, symbols_not_shown, top_symbols, tracked_symbols, watch, watch_at,
    Action, GuardSettings,
};
use lead_lag::prices::PriceBook;
use lead_lag::stats::cointegration::{CointResult, EntryGuard};
use lead_lag::symbols::SymbolMap;
use lead_lag::trading::engine::PaperEngine;
use lead_lag::trading::models::{Signal, TradingConfig};

fn num(x: f64) -> Num {
    Num::from_bits(x.to_bits())
}

fn value(n: Num) -> f64 {
    f64::from_bits(n.to_bits())
}

fn answer(op: Op) -> Num {
    num(match op {
        Op::Sum(a, b) => value(a) + value(b),
        Op::Difference(a, b) => value(a) - value(b),
        Op::Product(a, b) => value(a) * value(b),
        Op::Quotient(a, b) => value(a) / value(b),
        Op::Root(a) => value(a).sqrt(),
        Op::Log(a) => value(a).ln(),
        Op::Whole(n) => n as f64,
    })
}

fn calc() -> Calculator<fn(Op) -> Num> {
    Calculator::new(answer)
}

const NOW: Timestamp = Timestamp { secs: 1_700_000_000, nanos: 0 };

fn nums(xs: &[f64]) -> Vec<Num> {
    xs.iter().map(|x| num(*x)).collect()
}

fn result(a: &str, b: &str, z: f64) -> CointResult {
    CointResult {
        symbol_a: a.to_string(),
        symbol_b: b.to_string(),
        correlation: num(0.9),
        hedge_ratio: num(1.0),
        adf_stat: num(-4.0),
        is_cointegrated: true,
        current_zscore: num(z),
        half_life_periods: num(20.0),
        spread_mean: num(0.0),
        spread_std: num(1.0),
    }
}

fn engine(pairs: &[(&str, &str)]) -> PaperEngine {
    let mut e = PaperEngine::new(TradingConfig::default(), num(100.0), "s.json", None);
    for (a, b) in pairs {
        e.track_pair(&result(a, b, 0.0));
    }
    e
}

fn settings() -> GuardSettings {
    GuardSettings { momentum_window: 5, hurst_window: 500, hurst_threshold: num(0.5) }
}

#[test]
fn a_round_scans_waits_or_watches() {
    assert_eq!(rescan_interval(30), 1800);
    assert_eq!(next_action(1800, 1800, false, 3), Action::Rescan);
    assert_eq!(next_action(1800, 1800, true, 3), Action::Watch);
    assert_eq!(next_action(1800, 1800, true, 0), Action::Wait);
    assert_eq!(next_action(1799, 1800, false, 0), Action::Wait);
    assert_eq!(next_action(1799, 1800, false, 1), Action::Watch);
    assert_eq!(next_scan_in(10, 1800), 1790);
    assert_eq!(next_scan_in(1900, 1800), 0);
}

#[test]
fn the_top_symbols_are_the_first() {
    let all: Vec<SymbolInfo> = ["A", "B", "C"]
        .iter()
        .map(|s| SymbolInfo { symbol: s.to_string(), volume_24h_usd: num(1.0), last_price: num(1.0) })
        .collect();
    assert_eq!(top_symbols(&all, 2), vec!["A", "B"]);
    assert_eq!(top_symbols(&all, 9), vec!["A", "B", "C"]);
    assert_eq!(symbols_not_shown(80), 72);
    assert_eq!(symbols_not_shown(8), 0);
}

#[test]
fn every_tracked_symbol_is_listed_once() {
    let e = engine(&[("A", "B"), ("B", "C"), ("D", "A")]);
    assert_eq!(tracked_symbols(&e.state.tracked_pairs), vec!["A", "B", "C", "D"]);
}

#[test]
fn prices_come_from_the_cache_and_the_rest_is_asked_for() {
    let e = engine(&[("A", "B"), ("C", "D")]);
    let mut cache = CandleCache::new(5);
    cache.insert("A", nums(&[1.0, 2.0]));
    cache.insert("C", Vec::new());
    cache.insert("Z", nums(&[9.0]));
    let prices = prices_from_cache(&e.state.tracked_pairs, &cache);
    assert_eq!(prices.get("A"), Some(num(2.0)));
    assert_eq!(prices.get("Z"), None);
    let missing = missing_symbols(&tracked_symbols(&e.state.tracked_pairs), &prices);
    assert_eq!(missing, vec!["B", "C", "D"]);
    let all = prices_from_series(&cache.to_hashmap());
    assert_eq!((all.get("A"), all.get("C"), all.get("Z")), (Some(num(2.0)), None, Some(num(9.0))));
}

#[test]
fn pairs_are_refreshed_from_prices_and_candles() {
    let mut e = engine(&[("A", "B"), ("C", "D"), ("E", "F")]);
    let mut prices = PriceBook::new();
    for (s, p) in [("A", 10.0), ("B", 13.0), ("C", 1.0), ("D", 2.5), ("E", 1.0)] {
        prices.insert(s, num(p));
    }
    let mut candles = SymbolMap::new();
    let a: Vec<f64> = (0..120).map(|i| 10.0 + (i as f64 * 0.3).sin()).collect();
    let b: Vec<f64> = (0..120).map(|i| 11.0 + (i as f64 * 0.2).cos()).collect();
    candles.insert("A", nums(&a));
    candles.insert("B", nums(&b));
    refresh_pairs_at(&mut e, &prices, &candles, settings(), &vec![NOW, NOW, NOW], &calc());
    let pairs = &e.state.tracked_pairs;
    assert_eq!(pairs[0].last_zscore, num(3.0));
    assert_eq!(pairs[0].last_updated, NOW);
    let guard = EntryGuard::compute(
        &nums(&a),
        &nums(&b),
        num(1.0),
        num(0.0),
        num(1.0),
        num(3.0),
        5,
        500,
        num(0.5),
        &calc(),
    );
    assert_eq!(pairs[0].entry_guard, guard);
    assert_eq!(pairs[0].hurst, guard.hurst);
    assert_eq!(pairs[0].spread_momentum, guard.velocity);
    // without candles only the z-score moves
    assert_eq!(pairs[1].last_zscore, num(1.5));
    assert_eq!(pairs[1].last_updated, NOW);
    assert_eq!(pairs[1].entry_guard, EntryGuard::default());
    // without both prices nothing moves
    assert_eq!(pairs[2].last_zscore, num(0.0));
    assert_ne!(pairs[2].last_updated, NOW);
    let none = watch(&mut e, &prices, &candles, settings(), &calc());
    assert!(none.is_empty());
    assert!(e.state.tracked_pairs[0].last_updated.secs > NOW.secs);
}

#[test]
fn watching_refreshes_marks_and_signals() {
    let mut e = engine(&[("A", "B")]);
    let mut prices = PriceBook::new();
    prices.insert("A", num(10.0));
    prices.insert("B", num(13.0));
    e.execute_signals(
        &vec![Signal::OpenShort {
            symbol_a: "A".to_string(),
            symbol_b: "B".to_string(),
            zscore: num(3.0),
            hedge_ratio: num(1.0),
        }],
        &prices,
        &calc(),
    );
    prices.insert("B", num(10.25));
    let candles = SymbolMap::new();
    let signals = watch_at(&mut e, &prices, &candles, settings(), &vec![NOW], &calc());
    assert_eq!(e.state.tracked_pairs[0].last_zscore, num(0.25));
    assert_eq!(e.state.positions[0].current_zscore, num(0.25));
    assert_eq!(e.state.positions[0].current_price_b, num(10.25));
    assert!(matches!(&signals[..], [Signal::ClosePosition { position_id: 1, zscore }] if *zscore == num(0.25)));
}

fn market() -> SymbolMap<Vec<Num>> {
    let mut state = 42u64;
    let mut x = 100.0;
    let mut base = Vec::new();
    for _ in 0..300 {
        state = state.wrapping_mul(6364136223846793005).wrapping_add(1442695040888963407);
        x += (state >> 33) as f64 / (1u64 << 31) as f64 - 0.5;
        base.push(x);
    }
    let twice: Vec<f64> = base.iter().enumerate().map(|(i, x)| 2.0 * x + (i as f64 * 1.3).sin() * 0.2).collect();
    let mut m = SymbolMap::new();
    m.insert("BASE", nums(&base));
    m.insert("TWICE", nums(&twice));
    m
}

#[test]
fn a_scan_replaces_the_tracked_pairs() {
    let mut e = engine(&[("X", "Y")]);
    let report = scan_and_track(&mut e, &market(), 50, num(0.7), num(0.0), false, &calc());
    assert_eq!((report.valid, report.correlated, report.signals), (2, 1, 1));
    assert_eq!(report.cointegrated.len(), 1);
    assert_eq!(e.state.tracked_pairs.len(), 1);
    assert_eq!(e.state.tracked_pairs[0].symbol_a, "BASE");
}

#[test]
fn a_scan_without_results_may_keep_what_was_tracked() {
    let mut e = engine(&[("X", "Y")]);
    scan_and_track(&mut e, &market(), 50, num(1.1), num(0.0), true, &calc());
    assert_eq!(e.state.tracked_pairs.len(), 1);
    scan_and_track(&mut e, &market(), 50, num(1.1), num(0.0), false, &calc());
    assert!(e.state.tracked_pairs.is_empty());
}

#[test]
fn a_scan_asks_for_the_configured_candles() {
    let mut e = engine(&[]);
    let report = scan_and_track(&mut e, &market(), 300, num(0.7), num(0.0), false, &calc());
    assert_eq!((report.valid, report.correlated), (2, 1));
    let report = scan_and_track(&mut e, &market(), 301, num(0.7), num(0.0), false, &calc());
    assert_eq!((report.valid, report.correlated), (0, 0));
}

#[test]
fn a_rescan_needs_two_symbols() {
    let mut e = engine(&[("X", "Y")]);
    let (valid, report) = rescan(&mut e, &market(), 301, num(0.7), num(2.0), &calc());
    assert_eq!(valid, 0);
    assert!(report.is_none());
    assert_eq!(e.state.tracked_pairs[0].symbol_a, "X");
    let (valid, report) = rescan(&mut e, &market(), 300, num(0.7), num(2.0), &calc());
    assert_eq!(valid, 2);
    assert_eq!(report.unwrap().cointegrated.len(), 1);
    assert_eq!(e.state.tracked_pairs[0].symbol_a, "BASE");
}

#[test]
fn signals_are_counted_beyond_the_threshold() {
    let results = vec![result("A", "B", 2.5), result("C", "D", -2.1), result("E", "F", 2.0), result("G", "H", f64::NAN)];
    assert_eq!(signal_count(&results, num(2.0)), 2);
    assert_eq!(divergences(&results, num(2.0)), vec![0, 1]);
}

#[test]
fn levels_are_told_apart() {
    assert_eq!(ELEVATED, 1.5f64.to_bits());
    let entry = num(2.0);
    assert_eq!(zscore_level(num(-2.1), entry), ZscoreLevel::Diverged);
    assert_eq!(zscore_level(num(2.0), entry), ZscoreLevel::Elevated);
    assert_eq!(zscore_level(num(1.5), entry), ZscoreLevel::Calm);
    assert_eq!(momentum_level(num(2.5), num(-0.1), entry), MomentumLevel::Reverting);
    assert_eq!(momentum_level(num(-1.0), num(0.1), entry), MomentumLevel::Reverting);
    assert_eq!(momentum_level(num(2.5), num(0.1), entry), MomentumLevel::Against);
    assert_eq!(momentum_level(num(1.0), num(0.1), entry), MomentumLevel::Neutral);
    assert_eq!(hurst_level(num(0.49), num(0.5), num(0.6)), HurstLevel::Reverting);
    assert_eq!(hurst_level(num(0.5), num(0.5), num(0.6)), HurstLevel::Uncertain);
    assert_eq!(hurst_level(num(0.6), num(0.5), num(0.6)), HurstLevel::Trending);
}

#[test]
fn directions_are_shown_in_words() {
    let entry = num(2.0);
    assert_eq!(direction(num(2.5), entry, true), Direction::LongA);
    assert_eq!(direction(num(-2.5), entry, true), Direction::ShortA);
    assert_eq!(direction(num(-2.5), entry, false), Direction::Blocked);
    assert_eq!(direction(num(2.0), entry, true), Direction::Nothing);
    assert_eq!(direction_text(Direction::ShortA, "H V", 4), " ✓ SHORT A / LONG B [H V]");
    assert_eq!(direction_text(Direction::LongA, "H V", 4), " ✓ LONG A / SHORT B [H V]");
    assert_eq!(direction_text(Direction::Blocked, "H V", 4), " ✗ [H V] (need 4/5)");
    assert_eq!(direction_text(Direction::Nothing, "H V", 4), "");
}

#[test]
fn an_account_at_a_glance() {
    let mut e = engine(&[]);
    let s = summary(&e, &calc());
    assert_eq!((s.total_trades, value(s.win_rate), value(s.roi), s.gained), (0, 0.0, 0.0, true));
    e.state.win_count = 3;
    e.state.loss_count = 1;
    e.state.balance = num(90.0);
    let s = summary(&e, &calc());
    assert_eq!((s.total_trades, value(s.win_rate), value(s.roi), s.gained), (4, 75.0, -10.0, false));
    e.state.initial_balance = num(0.0);
    assert_eq!(value(summary(&e, &calc()).roi), 0.0);
}
