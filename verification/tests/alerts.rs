use lead_lag::arith::{Calculator, Op};
use lead_lag::num::Num;
use lead_lag::alerts::{
    collect_closings, collect_openings, message, should_trade, trade, trade_at, Alert, SAME_ZSCORE,
};
use lead_lag::clock::Timestamp;
use lead_lag::decimal::DecimalWriter;
use lead_lag::notify::dedup::TradeDedup;
use lead_lag::prices::PriceBook;
use lead_lag::stats::cointegration::CointResult;
use lead_lag::trading::engine::PaperEngine;
use lead_lag::trading::models::{PositionSide, Signal, TradingConfig};

fn num(x: f64) -> Num {
    Num::from_bits(x.to_bits())
}

fn value(n: Num) -> f64 {
    f64::from_bits(n.to_bits())
}

fn answer(op: Op) -> Num {
    num(match op {
        Op::Sum(a, b) => value(a) + value(b),
        Op::Difference(a, b) => value(a) - value(b),
        Op::Product(a, b) => value(a) * value(b),
        Op::Quotient(a, b) => value(a) / value(b),
        Op::Root(a) => value(a).sqrt(),
        Op::Log(a) => value(a).ln(),
        Op::Whole(n) => n as f64,
    })
}

fn calc() -> Calculator<fn(Op) -> Num> {
    Calculator::new(answer)
}

const NOW: Timestamp = Timestamp { secs: 1_700_000_000, nanos: 0 };

fn engine() -> PaperEngine {
    PaperEngine::new(TradingConfig::default(), num(100.0), "s.json", None)
}

fn book() -> PriceBook {
    let mut b = PriceBook::new();
    b.insert("A", num(10.0));
    b.insert("B", num(20.0));
    b.insert("C", num(30.0));
    b.insert("D", num(40.0));
    b
}

fn open(a: &str, b: &str, z: f64) -> Signal {
    let (symbol_a, symbol_b, zscore, hedge_ratio) = (a.to_string(), b.to_string(), num(z), num(1.5));
    if z > 0.0 {
        Signal::OpenShort { symbol_a, symbol_b, zscore, hedge_ratio }
    } else {
        Signal::OpenLong { symbol_a, symbol_b, zscore, hedge_ratio }
    }
}

fn close(position_id: u64, z: f64) -> Signal {
    Signal::ClosePosition { position_id, zscore: num(z) }
}

fn pair(a: &str, b: &str) -> CointResult {
    CointResult {
        symbol_a: a.to_string(),
        symbol_b: b.to_string(),
        correlation: num(0.9),
        hedge_ratio: num(1.0),
        adf_stat: num(-4.0),
        is_cointegrated: true,
        current_zscore: num(2.5),
        half_life_periods: num(17.4),
        spread_mean: num(0.0),
        spread_std: num(1.0),
    }
}

#[test]
fn same_zscore_is_a_tenth() {
    assert_eq!(SAME_ZSCORE, 0.1f64.to_bits());
}

#[test]
fn openings_and_closings_are_announced() {
    let mut e = engine();
    let mut d = TradeDedup::new();
    let alerts = trade(&mut e, &mut d, &vec![open("A", "B", 2.5), open("C", "D", -3.0)], &book(), num(100.0), &calc());
    assert_eq!(alerts.len(), 2);
    match &alerts[0] {
        Alert::Opened { note, price_a, price_b, size } => {
            assert_eq!((note.symbol_a.as_str(), note.symbol_b.as_str()), ("A", "B"));
            assert_eq!((note.side_a, note.side_b), (PositionSide::Long, PositionSide::Short));
            assert_eq!((*price_a, *price_b, *size), (num(10.0), num(20.0), num(25.0)));
            assert_eq!(note.hedge_ratio, num(1.5));
        }
        _ => panic!("not an opening"),
    }
    match &alerts[1] {
        Alert::Opened { note, .. } => assert_eq!((note.side_a, note.side_b), (PositionSide::Short, PositionSide::Long)),
        _ => panic!("not an opening"),
    }
    let entry_pnl = e.state.positions[0].pnl;
    let alerts = trade(&mut e, &mut d, &vec![close(1, 0.2), close(2, -4.25), close(9, 0.0)], &book(), num(100.0), &calc());
    assert_eq!(alerts.len(), 2);
    match &alerts[0] {
        Alert::Closed { note, balance } => {
            assert_eq!(note.position_id, 1);
            assert_eq!((note.entry_zscore, note.zscore), (num(2.5), num(0.2)));
            assert_eq!(note.pnl, entry_pnl);
            assert_eq!(*balance, e.state.balance);
        }
        _ => panic!("not a closing"),
    }
    assert!(matches!(&alerts[1], Alert::Stopped { note, .. } if note.position_id == 2));
}

#[test]
fn a_stop_begins_beyond_the_threshold() {
    for (z, stopped) in [(3.7, false), (4.0, false), (4.01, true), (-4.01, true), (-4.0, false)] {
        let mut e = engine();
        let mut d = TradeDedup::new();
        trade(&mut e, &mut d, &vec![open("A", "B", 2.5)], &book(), num(100.0), &calc());
        let alerts = trade(&mut e, &mut d, &vec![close(1, z)], &book(), num(100.0), &calc());
        assert_eq!(matches!(&alerts[0], Alert::Stopped { .. }), stopped);
    }
}

#[test]
fn an_opening_that_did_not_happen_is_not_announced() {
    let mut e = engine();
    let mut d = TradeDedup::new();
    let alerts = trade(&mut e, &mut d, &vec![open("A", "MISSING", 2.5)], &book(), num(100.0), &calc());
    assert!(alerts.is_empty());
    // a position in the same symbols with another z-score is not the one
    trade(&mut e, &mut d, &vec![open("A", "B", 2.5)], &book(), num(100.0), &calc());
    e.config.max_open_positions = 1;
    let alerts = trade(&mut e, &mut d, &vec![open("A", "B", 2.6)], &book(), num(100.0), &calc());
    assert!(alerts.is_empty());
}

#[test]
fn an_opening_is_announced_once() {
    let mut e = engine();
    e.config.max_open_positions = 1;
    let mut d = TradeDedup::new();
    let signals = vec![open("A", "B", 2.5)];
    assert_eq!(trade(&mut e, &mut d, &signals, &book(), num(100.0), &calc()).len(), 1);
    assert_eq!(trade(&mut e, &mut d, &signals, &book(), num(100.0), &calc()).len(), 0);
}

#[test]
fn a_closing_that_is_signalled_twice_is_announced_once() {
    let mut e = engine();
    let mut d = TradeDedup::new();
    trade(&mut e, &mut d, &vec![open("A", "B", 2.5), open("C", "D", 2.5)], &book(), num(100.0), &calc());
    let signals = vec![close(1, 0.1), close(2, 0.1), close(1, 0.2)];
    let alerts = trade(&mut e, &mut d, &signals, &book(), num(100.0), &calc());
    assert_eq!(alerts.len(), 2);
    assert_eq!(e.state.closed_trades.len(), 2);
}

#[test]
fn two_openings_of_one_pair_give_one_alert() {
    let mut e = engine();
    let mut d = TradeDedup::new();
    let signals = vec![open("A", "B", 2.5), open("A", "B", 2.55)];
    let alerts = trade(&mut e, &mut d, &signals, &book(), num(100.0), &calc());
    assert_eq!(e.state.positions.len(), 2);
    assert_eq!(alerts.len(), 1);
}

#[test]
fn notes_are_taken_before_anything_changes() {
    let mut e = engine();
    let mut d = TradeDedup::new();
    trade_at(&mut e, &mut d, &vec![open("A", "B", 2.5)], &book(), num(100.0), &vec![NOW], &calc());
    assert_eq!(e.state.positions[0].entry_time, NOW);
    let signals = vec![open("C", "D", 2.5), close(1, 0.1), close(7, 0.1)];
    assert_eq!(collect_openings(&e, &signals).len(), 1);
    let closings = collect_closings(&e, &signals);
    assert_eq!(closings.len(), 1);
    assert_eq!(closings[0].symbol_b, "B");
}

#[test]
fn an_opening_has_the_half_life_of_its_pair() {
    let w = DecimalWriter::new(write);
    let mut e = engine();
    let mut d = TradeDedup::new();
    e.track_pair(&pair("A", "B"));
    let signals = vec![open("A", "B", 2.5), open("C", "D", 2.5)];
    let notes = collect_openings(&e, &signals);
    assert_eq!((notes[0].half_life, notes[1].half_life), (num(17.4), num(f64::INFINITY)));
    let alerts = trade(&mut e, &mut d, &signals, &book(), num(100.0), &calc());
    assert!(message(&alerts[0], &w).contains("Half-life: <code>17</code>"));
    assert!(message(&alerts[1], &w).contains("Half-life: <code>∞</code>"));
}

#[test]
fn every_entry_is_announced_and_so_is_every_exit() {
    let mut e = engine();
    let mut d = TradeDedup::new();
    e.track_pair(&pair("A", "B"));
    e.track_pair(&pair("A", "C"));
    e.track_pair(&pair("D", "C"));
    for p in e.state.tracked_pairs.iter_mut() {
        p.entry_guard.score = 5;
    }
    // entries of one moment may share a symbol
    let signals = e.generate_signals(&book(), &calc());
    let alerts = trade(&mut e, &mut d, &signals, &book(), num(100.0), &calc());
    let told: Vec<(&str, &str)> = alerts
        .iter()
        .map(|alert| match alert {
            Alert::Opened { note, .. } => (note.symbol_a.as_str(), note.symbol_b.as_str()),
            _ => panic!("not an opening"),
        })
        .collect();
    assert_eq!(told, [("A", "B"), ("A", "C"), ("D", "C")]);
    let opened: Vec<(&str, &str)> =
        e.state.positions.iter().map(|p| (p.symbol_a.as_str(), p.symbol_b.as_str())).collect();
    assert_eq!(told, opened);
    let mut even = PriceBook::new();
    for symbol in ["A", "B", "C", "D"] {
        even.insert(symbol, num(10.0));
    }
    let signals = e.generate_signals(&even, &calc());
    let alerts = trade(&mut e, &mut d, &signals, &even, num(100.0), &calc());
    assert!(e.state.positions.is_empty());
    let left: Vec<u64> = alerts
        .iter()
        .map(|alert| match alert {
            Alert::Closed { note, .. } => note.position_id,
            _ => panic!("not a closing"),
        })
        .collect();
    assert_eq!(left, [1, 2, 3]);
}

#[test]
fn an_opening_at_an_infinite_zscore_is_not_recognised() {
    let mut e = engine();
    let mut d = TradeDedup::new();
    let alerts = trade(&mut e, &mut d, &vec![open("A", "B", f64::INFINITY)], &book(), num(100.0), &calc());
    assert_eq!((e.state.positions.len(), alerts.len()), (1, 0));
}

#[test]
fn nothing_is_traded_unless_configured() {
    assert!(should_trade(true, &vec![close(1, 0.0)]));
    assert!(!should_trade(false, &vec![close(1, 0.0)]));
    assert!(!should_trade(true, &Vec::new()));
}

fn write(x: Num, decimals: u8, _signed: bool) -> String {
    format!("{:.*}", decimals as usize, value(x))
}

#[test]
fn alerts_become_messages() {
    let w = DecimalWriter::new(write);
    let mut e = engine();
    let mut d = TradeDedup::new();
    let opened = trade(&mut e, &mut d, &vec![open("A", "B", -2.5)], &book(), num(100.0), &calc());
    assert!(message(&opened[0], &w).contains("SHORT A @ 10.0000 | LONG B @ 20.0000"));
    let stopped = trade(&mut e, &mut d, &vec![close(1, -4.5)], &book(), num(100.0), &calc());
    assert!(message(&stopped[0], &w).contains("<b>STOP LOSS</b>"));
    let mut e = engine();
    trade(&mut e, &mut d, &vec![open("A", "B", -2.5)], &book(), num(100.0), &calc());
    let closed = trade(&mut e, &mut d, &vec![close(1, -0.25)], &book(), num(100.0), &calc());
    assert!(message(&closed[0], &w).contains("Exit z: <code>-0.250</code>"));
}
