use lead_lag::arith::{Calculator, Op};
use lead_lag::num::Num;
use lead_lag::clock::Timestamp;
use lead_lag::prices::PriceBook;
use lead_lag::stats::cointegration::{CointResult, EntryGuard};
use lead_lag::trading::engine::{PaperEngine, HUNDRED, MAX_HEDGE};
use lead_lag::trading::models::{Position, PositionSide, PositionStatus, Signal, TradingConfig, TradingState};

fn num(x: f64) -> Num {
    Num::from_bits(x.to_bits())
}

fn value(n: Num) -> f64 {
    f64::from_bits(n.to_bits())
}

fn answer(op: Op) -> Num {
    num(match op {
        Op::Sum(a, b) => value(a) + value(b),
        Op::Difference(a, b) => value(a) - value(b),
        Op::Product(a, b) => value(a) * value(b),
        Op::Quotient(a, b) => value(a) / value(b),
        Op::Root(a) => value(a).sqrt(),
        Op::Log(a) => value(a).ln(),
        Op::Whole(n) => n as f64,
    })
}

fn calc() -> Calculator<fn(Op) -> Num> {
    Calculator::new(answer)
}

const NOW: Timestamp = Timestamp { secs: 1_700_000_000, nanos: 5 };

fn engine(balance: f64) -> PaperEngine {
    PaperEngine::new(TradingConfig::default(), num(balance), "state.json", None)
}

fn result(a: &str, b: &str, half_life: f64) -> CointResult {
    CointResult {
        symbol_a: a.to_string(),
        symbol_b: b.to_string(),
        correlation: num(0.9),
        hedge_ratio: num(2.0),
        adf_stat: num(-4.0),
        is_cointegrated: true,
        current_zscore: num(1.0),
        half_life_periods: num(half_life),
        spread_mean: num(0.0),
        spread_std: num(1.0),
    }
}

fn passing() -> EntryGuard {
    EntryGuard { score: 4, pass_mask: 15, ..EntryGuard::default() }
}

fn prices(list: &[(&str, f64)]) -> PriceBook {
    let mut book = PriceBook::new();
    for (s, p) in list {
        book.insert(s, num(*p));
    }
    book
}

fn open_ids(e: &PaperEngine) -> Vec<u64> {
    e.state.positions.iter().map(|p| p.id).collect()
}

fn open_short(a: &str, b: &str) -> Signal {
    Signal::OpenShort { symbol_a: a.to_string(), symbol_b: b.to_string(), zscore: num(2.5), hedge_ratio: num(2.0) }
}

#[test]
fn constants_of_the_engine() {
    assert_eq!(MAX_HEDGE, 3.0f64.to_bits());
    assert_eq!(HUNDRED, 100.0f64.to_bits());
}

#[test]
fn a_stored_state_is_taken_up() {
    let mut stored = TradingState::with_balance(num(42.0));
    stored.win_count = 3;
    let e = PaperEngine::new(TradingConfig::default(), num(100.0), "s.json", Some(stored));
    assert_eq!(e.state.balance, num(42.0));
    assert_eq!(e.state.win_count, 3);
    assert_eq!(e.state_path, "s.json");
    assert_eq!(engine(7.0).state.initial_balance, num(7.0));
}

#[test]
fn a_pair_is_tracked_once_in_either_order() {
    let mut e = engine(100.0);
    e.track_pair(&result("A", "B", 20.0));
    e.track_pair(&result("B", "A", 20.0));
    e.track_pair(&result("A", "B", 30.0));
    e.track_pair(&result("A", "C", 20.0));
    assert_eq!(e.state.tracked_pairs.len(), 2);
    let p = &e.state.tracked_pairs[0];
    assert_eq!((p.symbol_a.as_str(), p.symbol_b.as_str()), ("A", "B"));
    assert_eq!(p.half_life, num(20.0));
    assert_eq!(p.hedge_ratio, num(2.0));
    assert_eq!(p.last_zscore, num(1.0));
    assert_eq!(p.hurst, num(0.5));
    assert_eq!(p.spread_momentum, num(0.0));
    assert_eq!(p.entry_guard, EntryGuard::default());
    assert!(p.discovered_at.secs > 1_600_000_000);
}

#[test]
fn slow_pairs_are_not_tracked() {
    let mut e = engine(100.0);
    e.track_pair_at(&result("A", "B", 200.5), NOW, NOW);
    assert!(e.state.tracked_pairs.is_empty());
    e.track_pair_at(&result("A", "B", 200.0), NOW, NOW);
    assert_eq!(e.state.tracked_pairs.len(), 1);
    assert_eq!(e.state.tracked_pairs[0].discovered_at, NOW);
}

#[test]
fn a_scan_replaces_what_was_tracked() {
    let mut e = engine(100.0);
    e.track_pair(&result("X", "Y", 20.0));
    e.replace_pairs(&vec![result("A", "B", 20.0), result("B", "A", 20.0), result("C", "D", 900.0)]);
    assert_eq!(e.state.tracked_pairs.len(), 1);
    assert_eq!(e.state.tracked_pairs[0].symbol_a, "A");
}

#[test]
fn entries_follow_the_sign_of_the_zscore() {
    let mut e = engine(100.0);
    e.track_pair(&result("A", "B", 20.0));
    e.state.tracked_pairs[0].entry_guard = passing();
    // spread = b - 2a
    let above = e.generate_signals(&prices(&[("A", 100.0), ("B", 202.5)]), &calc());
    assert!(matches!(&above[..], [Signal::OpenShort { symbol_a, zscore, hedge_ratio, .. }]
        if symbol_a == "A" && *zscore == num(2.5) && *hedge_ratio == num(2.0)));
    let below = e.generate_signals(&prices(&[("A", 100.0), ("B", 197.5)]), &calc());
    assert!(matches!(&below[..], [Signal::OpenLong { zscore, .. }] if *zscore == num(-2.5)));
    // at the threshold nothing happens
    assert!(e.generate_signals(&prices(&[("A", 100.0), ("B", 202.0)]), &calc()).is_empty());
    // nor without both prices
    assert!(e.generate_signals(&prices(&[("A", 100.0)]), &calc()).is_empty());
    // nor with a guard that does not pass
    e.state.tracked_pairs[0].entry_guard.score = 3;
    assert!(e.generate_signals(&prices(&[("A", 100.0), ("B", 202.5)]), &calc()).is_empty());
}

#[test]
fn a_busy_symbol_or_a_full_book_blocks_entries() {
    let mut e = engine(100.0);
    let book = prices(&[("A", 100.0), ("B", 205.0), ("C", 100.0), ("D", 205.0)]);
    e.open_position(
        &"A".to_string(),
        &"C".to_string(),
        PositionSide::Long,
        PositionSide::Short,
        num(-2.5),
        num(1.0),
        &book,
        NOW,
        &calc(),
    );
    e.track_pair(&result("A", "B", 20.0));
    e.track_pair(&result("C", "D", 20.0));
    e.track_pair(&result("E", "F", 20.0));
    for p in &mut e.state.tracked_pairs {
        p.entry_guard = passing();
    }
    assert!(e.generate_signals(&book, &calc()).is_empty());
    let free = prices(&[("E", 1.0), ("F", 9.0)]);
    assert_eq!(e.generate_signals(&free, &calc()).len(), 1);
    e.config.max_open_positions = 1;
    assert!(e.generate_signals(&free, &calc()).is_empty());
}

#[test]
fn exits_on_reversion_stop_and_trend() {
    let mut e = engine(100.0);
    e.track_pair(&result("A", "B", 20.0));
    let entry = prices(&[("A", 100.0), ("B", 202.5)]);
    e.execute_signals(&vec![open_short("B", "A")], &entry, &calc());
    assert_eq!(open_ids(&e), vec![1]);
    let close = |e: &PaperEngine, b: f64| e.generate_signals(&prices(&[("A", 100.0), ("B", b)]), &calc());
    assert!(matches!(&close(&e, 200.4)[..], [Signal::ClosePosition { position_id: 1, .. }]));
    assert!(matches!(&close(&e, 204.5)[..], [Signal::ClosePosition { position_id: 1, .. }]));
    assert!(close(&e, 200.5).is_empty());
    assert!(close(&e, 204.0).is_empty());
    e.state.tracked_pairs[0].hurst = num(0.61);
    assert!(matches!(&close(&e, 202.0)[..], [Signal::ClosePosition { position_id: 1, .. }]));
    e.state.tracked_pairs[0].hurst = num(0.6);
    assert!(close(&e, 202.0).is_empty());
}

#[test]
fn opening_computes_fills_quantities_and_commission() {
    let mut e = engine(100.0);
    let book = prices(&[("A", 10.0), ("B", 20.0)]);
    e.execute_signals_at(&vec![open_short("A", "B")], &book, &vec![NOW], &calc());
    let p = &e.state.positions[0];
    let fill_a = 10.0 * (1.0 + 0.02 / 100.0);
    let fill_b = 20.0 * (1.0 - 0.02 / 100.0);
    assert_eq!((p.side_a, p.side_b), (PositionSide::Long, PositionSide::Short));
    assert_eq!(value(p.entry_price_a), fill_a);
    assert_eq!(value(p.entry_price_b), fill_b);
    assert_eq!(value(p.current_price_a), fill_a);
    assert_eq!(value(p.qty_a), 12.5 / fill_a);
    assert_eq!(value(p.qty_b), 12.5 * 2.0 / fill_b);
    let commission = 25.0 * 0.055 / 100.0;
    assert_eq!(value(p.size), 25.0);
    assert_eq!(value(p.entry_fee), -commission);
    assert_eq!(value(p.pnl), -commission);
    assert_eq!(value(e.state.balance), 100.0 - (25.0 + commission));
    assert_eq!(p.entry_time, NOW);
    assert_eq!(p.status, PositionStatus::Open);
    assert_eq!(e.state.next_position_id, 2);
}

#[test]
fn the_hedge_ratio_is_capped_at_three() {
    let size_b = |h: f64| {
        let mut e = engine(100.0);
        let book = prices(&[("A", 10.0), ("B", 20.0)]);
        e.open_position(
            &"A".to_string(),
            &"B".to_string(),
            PositionSide::Long,
            PositionSide::Short,
            num(-2.5),
            num(h),
            &book,
            NOW,
            &calc(),
        );
        value(e.state.positions[0].qty_b)
    };
    assert_eq!(size_b(50.0), size_b(3.0));
    assert_eq!(size_b(f64::NAN), size_b(3.0));
    assert!(size_b(2.0) < size_b(3.0));
}

#[test]
fn no_position_without_prices_above_zero() {
    for book in [
        prices(&[("A", 10.0)]),
        prices(&[("A", 10.0), ("B", 0.0)]),
        prices(&[("A", -1.0), ("B", 20.0)]),
    ] {
        let mut e = engine(100.0);
        e.execute_signals(&vec![open_short("A", "B")], &book, &calc());
        assert!(e.state.positions.is_empty());
        assert_eq!(e.state.balance, num(100.0));
        assert_eq!(e.state.next_position_id, 1);
    }
}

#[test]
fn a_batch_of_signals_respects_the_limit() {
    let mut e = engine(100.0);
    e.config.max_open_positions = 2;
    let book = prices(&[("A", 1.0), ("B", 1.0), ("C", 1.0), ("D", 1.0), ("E", 1.0), ("F", 1.0)]);
    let batch = vec![open_short("A", "B"), open_short("C", "D"), open_short("E", "F")];
    e.execute_signals(&batch, &book, &calc());
    assert_eq!(open_ids(&e), vec![1, 2]);
}

#[test]
fn closing_books_the_result() {
    let mut e = engine(100.0);
    e.execute_signals_at(
        &vec![open_short("A", "B")],
        &prices(&[("A", 10.0), ("B", 20.0)]),
        &vec![NOW],
        &calc(),
    );
    let before = value(e.state.balance);
    let (ea, eb, qa, qb, fee) = {
        let p = &e.state.positions[0];
        (value(p.entry_price_a), value(p.entry_price_b), value(p.qty_a), value(p.qty_b), value(p.entry_fee))
    };
    // what was shown in between does not count
    e.update_positions(&prices(&[("A", 30.0), ("B", 5.0)]), &calc());
    e.execute_signals(
        &vec![Signal::ClosePosition { position_id: 1, zscore: num(0.1) }],
        &prices(&[("A", 11.0), ("B", 18.0)]),
        &calc(),
    );
    // A was bought and is sold lower, B was sold and is bought back higher
    let fa = 11.0 * (1.0 - 0.02 / 100.0);
    let fb = 18.0 * (1.0 + 0.02 / 100.0);
    let commission = (fa * qa + fb * qb) / 2.0 * 0.055 / 100.0 * 2.0;
    let pnl = (fa - ea) * qa + (eb - fb) * qb + fee - commission;
    let t = &e.state.closed_trades[0];
    assert_eq!(value(t.pnl), pnl);
    assert_eq!(value(t.current_price_a), fa);
    assert_eq!(value(t.current_price_b), fb);
    assert_eq!(t.current_zscore, num(0.1));
    assert_eq!(t.status, PositionStatus::Closed);
    assert_eq!(value(e.state.balance), before + (25.0 + pnl));
    assert_eq!(value(e.state.total_pnl), pnl);
    assert_eq!((e.state.win_count, e.state.loss_count), (1, 0));
    assert!(e.state.positions.is_empty());
    assert!(e.get_position(1).is_none());
}

#[test]
fn a_position_without_prices_closes_at_its_last_ones_and_loses() {
    let mut e = engine(100.0);
    e.execute_signals(&vec![open_short("A", "B")], &prices(&[("A", 10.0), ("B", 20.0)]), &calc());
    e.execute_signals(
        &vec![
            Signal::ClosePosition { position_id: 9, zscore: num(0.0) },
            Signal::ClosePosition { position_id: 1, zscore: num(0.0) },
            Signal::ClosePosition { position_id: 1, zscore: num(0.0) },
        ],
        &PriceBook::new(),
        &calc(),
    );
    assert_eq!((e.state.win_count, e.state.loss_count), (0, 1));
    assert_eq!(e.state.closed_trades.len(), 1);
    assert_eq!(e.total_trades(), 1);
}

#[test]
fn numbers_are_given_out_once() {
    let mut e = engine(100.0);
    let book = prices(&[("A", 1.0), ("B", 1.0), ("C", 1.0), ("D", 1.0)]);
    e.execute_signals(
        &vec![
            open_short("A", "B"),
            Signal::ClosePosition { position_id: 1, zscore: num(0.0) },
            open_short("C", "D"),
            open_short("A", "B"),
        ],
        &book,
        &calc(),
    );
    assert_eq!(open_ids(&e), vec![2, 3]);
    assert_eq!(e.state.closed_trades[0].id, 1);
    assert_eq!(e.state.next_position_id, 4);
    assert_eq!(e.get_position(3).map(|p| p.symbol_a.clone()), Some("A".to_string()));
}

#[test]
fn positions_follow_prices() {
    let mut e = engine(100.0);
    e.track_pair(&result("A", "B", 20.0));
    e.execute_signals(&vec![open_short("A", "B")], &prices(&[("A", 10.0), ("B", 20.0)]), &calc());
    let (ea, eb, qa, qb, fee) = {
        let p = &e.state.positions[0];
        (value(p.entry_price_a), value(p.entry_price_b), value(p.qty_a), value(p.qty_b), value(p.entry_fee))
    };
    e.update_positions(&prices(&[("A", 11.0), ("B", 24.0)]), &calc());
    let p = &e.state.positions[0];
    assert_eq!(value(p.current_price_a), 11.0);
    assert_eq!(value(p.current_price_b), 24.0);
    assert_eq!(value(p.current_zscore), 2.0);
    assert_eq!(value(p.pnl), (11.0 - ea) * qa + (eb - 24.0) * qb + fee);
    assert_eq!(value(p.entry_price_a), ea);
    // a second look changes nothing
    let pnl = p.pnl;
    e.update_positions(&prices(&[("A", 11.0), ("B", 24.0)]), &calc());
    assert_eq!(e.state.positions[0].pnl, pnl);
    assert_eq!(value(e.state.positions[0].current_zscore), 2.0);
    // without a price the last one stays
    e.update_positions(&prices(&[("A", 12.0)]), &calc());
    assert_eq!(value(e.state.positions[0].current_price_b), 24.0);
}

#[test]
fn a_position_is_shown_with_prices_in_its_own_order() {
    let mut e = engine(100.0);
    e.track_pair(&result("A", "B", 20.0));
    e.execute_signals(&vec![open_short("B", "A")], &prices(&[("A", 10.0), ("B", 20.0)]), &calc());
    e.update_positions(&prices(&[("A", 11.0), ("B", 24.0)]), &calc());
    assert_eq!(value(e.state.positions[0].current_zscore), 11.0 - 2.0 * 24.0);
}

#[test]
fn the_overvalued_leg_is_sold() {
    for (price_b, side_a, side_b) in
        [(103.0, PositionSide::Long, PositionSide::Short), (97.0, PositionSide::Short, PositionSide::Long)]
    {
        let mut e = engine(100.0);
        let mut r = result("A", "B", 20.0);
        r.hedge_ratio = num(1.0);
        e.track_pair(&r);
        e.state.tracked_pairs[0].entry_guard = EntryGuard { score: 5, pass_mask: 31, ..EntryGuard::default() };
        let book = prices(&[("A", 100.0), ("B", price_b)]);
        let signals = e.generate_signals(&book, &calc());
        e.execute_signals(&signals, &book, &calc());
        assert_eq!(e.state.positions.len(), 1);
        assert_eq!((e.state.positions[0].side_a, e.state.positions[0].side_b), (side_a, side_b));
    }
}

#[test]
fn a_round_trip_costs_fees_and_slippage_and_gives_the_size_back() {
    let mut e = engine(100.0);
    let book = prices(&[("A", 100.0), ("B", 50.0)]);
    e.open_position(
        &"A".to_string(),
        &"B".to_string(),
        PositionSide::Long,
        PositionSide::Short,
        num(-2.5),
        num(1.0),
        &book,
        NOW,
        &calc(),
    );
    let before = value(e.state.balance);
    assert!((before - (100.0 - 25.0 * 1.00055)).abs() < 1e-9);
    e.close_position(1, num(0.0), &book, &calc());
    let pnl = value(e.state.closed_trades[0].pnl);
    // 0.055% fee and 0.02% slippage for each leg, both ways
    assert!((pnl + 25.0 * 0.0015).abs() < 1e-4);
    assert!((value(e.state.balance) - (before + 25.0 + pnl)).abs() < 1e-9);
    assert_eq!((e.state.win_count, e.state.loss_count), (0, 1));
}

#[test]
fn the_total_is_the_sum_of_the_closed_trades() {
    let mut e = engine(100.0);
    for (id, price) in [(1, 12.0), (2, 9.0), (3, 10.0), (4, 11.0)] {
        e.execute_signals(&vec![open_short("A", "B")], &prices(&[("A", 10.0), ("B", 20.0)]), &calc());
        e.execute_signals(
            &vec![Signal::ClosePosition { position_id: id, zscore: num(0.0) }],
            &prices(&[("A", price), ("B", 20.0)]),
            &calc(),
        );
    }
    let trades: Vec<f64> = e.state.closed_trades.iter().map(|p| value(p.pnl)).collect();
    assert_eq!(value(e.state.total_pnl), trades.iter().fold(0.0, |sum, x| sum + x));
    assert_eq!(e.state.win_count as usize, trades.iter().filter(|x| **x >= 0.0).count());
    assert_eq!((e.state.win_count, e.state.loss_count), (2, 2));
}

#[test]
fn the_newest_five_trades_come_first() {
    let mut e = engine(100.0);
    assert!(e.recent_trades().is_empty());
    let book = prices(&[("A", 1.0), ("B", 1.0)]);
    for id in 1..=7 {
        e.execute_signals(
            &vec![open_short("A", "B"), Signal::ClosePosition { position_id: id, zscore: num(0.0) }],
            &book,
            &calc(),
        );
    }
    let shown: Vec<u64> = e.recent_trades().iter().map(|p: &&Position| p.id).collect();
    assert_eq!(shown, vec![7, 6, 5, 4, 3]);
}
