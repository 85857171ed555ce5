//! The paper trading engine.
//!
//! The engine decides what to trade and keeps the books. Arithmetic is left to a calculator; the
//! contracts give every fill, quantity and profit as a formula.

use vstd::prelude::*;

use crate::arith::{minus, over, plus, times, Arithmetic, Calculator, Op};
use crate::clock::{utc_now, Timestamp};
use crate::num::{Num, HALF, ONE, ZERO};
use crate::prices::PriceBook;
use crate::stats::cointegration::{blank_guard, zscore_of};
use crate::stats::cointegration::{live_zscore, CointResult, EntryGuard, TWO};
use crate::trading::invariants::found_position_has_number;
use crate::trading::models::fresh_state;
use crate::trading::models::{
    Position, PositionSide, PositionStatus, Signal, StateView, TrackedPair, TradingConfig, TradingState,
};

verus! {

/// `3.0`: the largest hedge ratio that leg B is sized by.
pub const MAX_HEDGE: u64 = 0x4008_0000_0000_0000;

/// `100.0`
pub const HUNDRED: u64 = 0x4059_0000_0000_0000;

/// How many closed trades a summary shows.
pub const RECENT_TRADES: usize = 5;

/// Paper trading engine.
pub struct PaperEngine {
    pub state: TradingState,
    pub config: TradingConfig,
    pub state_path: String,
}

/// The same two symbols, in either order.
pub open spec fn same_pair(a1: Seq<char>, b1: Seq<char>, a2: Seq<char>, b2: Seq<char>) -> bool {
    (a1 == a2 && b1 == b2) || (a1 == b2 && b1 == a2)
}

/// The two pairs have a symbol in common.
pub open spec fn share_symbol(a1: Seq<char>, b1: Seq<char>, a2: Seq<char>, b2: Seq<char>) -> bool {
    a1 == a2 || b1 == a2 || a1 == b2 || b1 == b2
}

/// Is the pair of this test result among the given pairs?
pub open spec fn is_tracked(pairs: Seq<TrackedPair>, r: CointResult) -> bool {
    exists|i: int|
        0 <= i < pairs.len() && same_pair(
            (#[trigger] pairs[i]).symbol_a@,
            pairs[i].symbol_b@,
            r.symbol_a@,
            r.symbol_b@,
        )
}

/// The tracked pair that a test result becomes.
pub open spec fn new_pair(r: CointResult, discovered_at: Timestamp, last_updated: Timestamp) -> TrackedPair {
    TrackedPair {
        symbol_a: r.symbol_a,
        symbol_b: r.symbol_b,
        correlation: r.correlation,
        hedge_ratio: r.hedge_ratio,
        spread_mean: r.spread_mean,
        spread_std: r.spread_std,
        adf_stat: r.adf_stat,
        half_life: r.half_life_periods,
        discovered_at,
        last_zscore: r.current_zscore,
        last_updated,
        spread_momentum: Num { bits: ZERO },
        hurst: Num { bits: HALF },
        entry_guard: blank_guard(),
    }
}

/// The state after a test result has been offered for tracking: a pair that is tracked already or
/// whose half-life is too long changes nothing.
pub open spec fn tracking(
    s: StateView,
    rules: TradingConfig,
    r: CointResult,
    discovered_at: Timestamp,
    last_updated: Timestamp,
) -> StateView {
    if is_tracked(s.tracked_pairs, r) || rules.min_half_life.less(r.half_life_periods) {
        s
    } else {
        StateView {
            tracked_pairs: s.tracked_pairs.push(new_pair(r, discovered_at, last_updated)),
            ..s
        }
    }
}

/// Is there an open position in this pair?
pub open spec fn has_open(positions: Seq<Position>, pair: TrackedPair) -> bool {
    exists|i: int| 0 <= i < positions.len() && holds(#[trigger] positions[i], pair)
}

/// Is this a position in the pair?
pub open spec fn holds(p: Position, pair: TrackedPair) -> bool {
    same_pair(p.symbol_a@, p.symbol_b@, pair.symbol_a@, pair.symbol_b@)
}

/// Does an open position use a symbol of this pair?
pub open spec fn symbol_busy(positions: Seq<Position>, pair: TrackedPair) -> bool {
    exists|i: int| 0 <= i < positions.len() && uses(#[trigger] positions[i], pair)
}

/// Does the position use a symbol of the pair?
pub open spec fn uses(p: Position, pair: TrackedPair) -> bool {
    share_symbol(p.symbol_a@, p.symbol_b@, pair.symbol_a@, pair.symbol_b@)
}

/// The z-score has come back, has run away, or the spread has begun to trend.
pub open spec fn exit_now(rules: TradingConfig, pair: TrackedPair, z: Num) -> bool {
    z.absolute().less(rules.zscore_exit) || rules.stop_loss_zscore.less(z.absolute())
        || rules.hurst_exit.less(pair.hurst)
}

/// One closing signal for each position in the pair, in order.
pub open spec fn closings(positions: Seq<Position>, pair: TrackedPair, z: Num) -> Seq<Signal>
    decreases positions.len(),
{
    if positions.len() == 0 {
        Seq::empty()
    } else {
        let before = closings(positions.drop_last(), pair, z);
        if holds(positions.last(), pair) {
            before.push(Signal::ClosePosition { position_id: positions.last().id, zscore: z })
        } else {
            before
        }
    }
}

/// The signal for a pair in which nothing is held and whose symbols are free.
pub open spec fn entry(rules: TradingConfig, pair: TrackedPair, z: Num) -> Seq<Signal> {
    if pair.entry_guard.score < rules.entry_min_factors {
        Seq::empty()
    } else if rules.zscore_entry.less(z) {
        seq![
            Signal::OpenShort {
                symbol_a: pair.symbol_a,
                symbol_b: pair.symbol_b,
                zscore: z,
                hedge_ratio: pair.hedge_ratio,
            },
        ]
    } else if z.less(rules.zscore_entry.opposite()) {
        seq![
            Signal::OpenLong {
                symbol_a: pair.symbol_a,
                symbol_b: pair.symbol_b,
                zscore: z,
                hedge_ratio: pair.hedge_ratio,
            },
        ]
    } else {
        Seq::empty()
    }
}

/// The signals for a pair at the given z-score.
pub open spec fn pair_signals(s: StateView, rules: TradingConfig, pair: TrackedPair, z: Num) -> Seq<Signal> {
    if has_open(s.positions, pair) {
        if exit_now(rules, pair, z) {
            closings(s.positions, pair, z)
        } else {
            Seq::empty()
        }
    } else if !symbol_busy(s.positions, pair) && s.positions.len() < rules.max_open_positions {
        entry(rules, pair, z)
    } else {
        Seq::empty()
    }
}

/// Do both symbols of the pair have a price?
pub open spec fn priced(prices: Map<Seq<char>, Num>, pair: TrackedPair) -> bool {
    prices.contains_key(pair.symbol_a@) && prices.contains_key(pair.symbol_b@)
}

/// The z-score of a pair at these prices.
pub open spec fn pair_zscore(m: Arithmetic, prices: Map<Seq<char>, Num>, pair: TrackedPair) -> Num {
    zscore_of(
        m,
        prices[pair.symbol_a@],
        prices[pair.symbol_b@],
        pair.hedge_ratio,
        pair.spread_mean,
        pair.spread_std,
    )
}

/// The signals of the first `n` tracked pairs, pair by pair. A pair without both prices gives none.
pub open spec fn signals(
    m: Arithmetic,
    s: StateView,
    rules: TradingConfig,
    prices: Map<Seq<char>, Num>,
    n: int,
) -> Seq<Signal>
    decreases n,
{
    if n <= 0 {
        Seq::empty()
    } else {
        let before = signals(m, s, rules, prices, n - 1);
        let pair = s.tracked_pairs[n - 1];
        if priced(prices, pair) {
            before + pair_signals(s, rules, pair, pair_zscore(m, prices, pair))
        } else {
            before
        }
    }
}

/// Which way slippage moves the price of a leg.
#[derive(Clone, Copy, PartialEq, Eq, Structural, Debug)]
pub enum Slip {
    /// The fill is above the price: the leg is bought.
    Up,
    /// The fill is below the price: the leg is sold.
    Down,
    /// The fill is at the price.
    Flat,
}

/// The numbers of a new position.
#[derive(Clone, Copy, PartialEq, Eq, Structural, Debug)]
pub struct OpenFill {
    pub fill_a: Num,
    pub fill_b: Num,
    pub qty_a: Num,
    pub qty_b: Num,
    /// Money that the position takes.
    pub size: Num,
    /// Minus the opening commission.
    pub entry_fee: Num,
    /// Balance without the money that the position takes and its commission.
    pub balance: Num,
}

/// The numbers of a position that closes.
#[derive(Clone, Copy, PartialEq, Eq, Structural, Debug)]
pub struct CloseFill {
    pub fill_a: Num,
    pub fill_b: Num,
    /// What the position has made in the end.
    pub pnl: Num,
    /// Balance with the money of the position and its result returned.
    pub balance: Num,
    /// Total of all closed positions with this one.
    pub total_pnl: Num,
}

/// Opening a position buys its long leg and sells its short leg.
pub open spec fn opening_slip(side_a: PositionSide, side_b: PositionSide) -> (Slip, Slip) {
    match (side_a, side_b) {
        (PositionSide::Long, PositionSide::Short) => (Slip::Up, Slip::Down),
        (PositionSide::Short, PositionSide::Long) => (Slip::Down, Slip::Up),
        _ => (Slip::Flat, Slip::Flat),
    }
}

/// Closing a position sells its long leg and buys its short leg.
pub open spec fn closing_slip(side_a: PositionSide, side_b: PositionSide) -> (Slip, Slip) {
    match (side_a, side_b) {
        (PositionSide::Long, PositionSide::Short) => (Slip::Down, Slip::Up),
        (PositionSide::Short, PositionSide::Long) => (Slip::Up, Slip::Down),
        _ => (Slip::Flat, Slip::Flat),
    }
}

/// The price at which a leg trades: off by the slippage, which is in percent.
pub open spec fn filled(m: Arithmetic, price: Num, slippage_pct: Num, slip: Slip) -> Num {
    let share = over(m, slippage_pct, Num { bits: HUNDRED });
    match slip {
        Slip::Up => times(m, price, plus(m, Num { bits: ONE }, share)),
        Slip::Down => times(m, price, minus(m, Num { bits: ONE }, share)),
        Slip::Flat => price,
    }
}

/// May a position in these symbols open? There must be room for it, and both symbols must have a
/// price that is not zero or below.
pub open spec fn can_open(
    s: StateView,
    rules: TradingConfig,
    symbol_a: Seq<char>,
    symbol_b: Seq<char>,
    prices: Map<Seq<char>, Num>,
) -> bool {
    let zero = Num { bits: ZERO };
    &&& s.positions.len() < rules.max_open_positions
    &&& prices.contains_key(symbol_a)
    &&& prices.contains_key(symbol_b)
    &&& !prices[symbol_a].at_most(zero)
    &&& !prices[symbol_b].at_most(zero)
}

/// The numbers of a position that opens at these prices.
///
/// It takes the configured share of the balance. Half of that buys or sells leg A and half, times
/// the hedge ratio (at most three), leg B. Each leg pays the commission on its half.
pub open spec fn opening_fill(
    m: Arithmetic,
    balance: Num,
    rules: TradingConfig,
    price_a: Num,
    price_b: Num,
    slips: (Slip, Slip),
    hedge_ratio: Num,
) -> OpenFill {
    let two = Num { bits: TWO };
    let hundred = Num { bits: HUNDRED };
    let size = times(m, balance, rules.max_position_pct);
    let half = over(m, size, two);
    let fill_a = filled(m, price_a, rules.slippage_pct, slips.0);
    let fill_b = filled(m, price_b, rules.slippage_pct, slips.1);
    let commission = over(m, times(m, size, rules.commission_pct), hundred);
    OpenFill {
        fill_a,
        fill_b,
        qty_a: over(m, half, fill_a),
        qty_b: over(m, times(m, half, hedge_ratio.smaller(Num { bits: MAX_HEDGE })), fill_b),
        size,
        entry_fee: commission.opposite(),
        balance: minus(m, balance, plus(m, size, commission)),
    }
}

/// A position that has just opened.
pub open spec fn new_position(
    id: u64,
    symbol_a: String,
    symbol_b: String,
    side_a: PositionSide,
    side_b: PositionSide,
    zscore: Num,
    fill: OpenFill,
    now: Timestamp,
) -> Position {
    Position {
        id,
        symbol_a,
        symbol_b,
        side_a,
        side_b,
        qty_a: fill.qty_a,
        qty_b: fill.qty_b,
        entry_price_a: fill.fill_a,
        entry_price_b: fill.fill_b,
        current_price_a: fill.fill_a,
        current_price_b: fill.fill_b,
        entry_zscore: zscore,
        current_zscore: zscore,
        entry_time: now,
        size: fill.size,
        entry_fee: fill.entry_fee,
        pnl: fill.entry_fee,
        status: PositionStatus::Open,
    }
}

/// The state with one more position.
pub open spec fn opened(
    s: StateView,
    symbol_a: String,
    symbol_b: String,
    side_a: PositionSide,
    side_b: PositionSide,
    zscore: Num,
    fill: OpenFill,
    now: Timestamp,
) -> StateView {
    StateView {
        balance: fill.balance,
        positions: s.positions.push(
            new_position(s.next_position_id, symbol_a, symbol_b, side_a, side_b, zscore, fill, now),
        ),
        next_position_id: (s.next_position_id + 1) as u64,
        ..s
    }
}

/// The price of the symbol, or else the given one.
pub open spec fn price_or(prices: Map<Seq<char>, Num>, symbol: Seq<char>, otherwise: Num) -> Num {
    if prices.contains_key(symbol) {
        prices[symbol]
    } else {
        otherwise
    }
}

/// The index of the first position with this number.
pub open spec fn find_position(positions: Seq<Position>, id: u64) -> Option<int>
    decreases positions.len(),
{
    if positions.len() == 0 {
        None
    } else {
        match find_position(positions.drop_last(), id) {
            Some(i) => Some(i),
            None => if positions.last().id == id {
                Some(positions.len() - 1)
            } else {
                None
            },
        }
    }
}

/// What one leg has made: a long leg gains when the price rises, a short leg when it falls.
pub open spec fn leg_pnl(m: Arithmetic, side: PositionSide, entry: Num, price: Num, qty: Num) -> Num {
    match side {
        PositionSide::Long => times(m, minus(m, price, entry), qty),
        PositionSide::Short => times(m, minus(m, entry, price), qty),
    }
}

/// The numbers of a position that closes.
///
/// Its result is what both legs made, less the opening commission and the commission on what the
/// legs are worth. The balance gets the money that the opening took, and the result.
pub open spec fn closing_fill(
    m: Arithmetic,
    s: StateView,
    rules: TradingConfig,
    p: Position,
    prices: Map<Seq<char>, Num>,
) -> CloseFill {
    let two = Num { bits: TWO };
    let hundred = Num { bits: HUNDRED };
    let slips = closing_slip(p.side_a, p.side_b);
    let fill_a = filled(m, price_or(prices, p.symbol_a@, p.current_price_a), rules.slippage_pct, slips.0);
    let fill_b = filled(m, price_or(prices, p.symbol_b@, p.current_price_b), rules.slippage_pct, slips.1);
    let pnl_a = leg_pnl(m, p.side_a, p.entry_price_a, fill_a, p.qty_a);
    let pnl_b = leg_pnl(m, p.side_b, p.entry_price_b, fill_b, p.qty_b);
    let worth = plus(m, times(m, fill_a, p.qty_a), times(m, fill_b, p.qty_b));
    let commission = times(
        m,
        over(m, times(m, over(m, worth, two), rules.commission_pct), hundred),
        two,
    );
    let pnl = minus(m, plus(m, plus(m, pnl_a, pnl_b), p.entry_fee), commission);
    CloseFill {
        fill_a,
        fill_b,
        pnl,
        balance: plus(m, s.balance, plus(m, p.size, pnl)),
        total_pnl: plus(m, s.total_pnl, pnl),
    }
}

/// The position as it goes into the record of closed trades.
pub open spec fn settled(p: Position, zscore: Num, fill: CloseFill) -> Position {
    Position {
        current_price_a: fill.fill_a,
        current_price_b: fill.fill_b,
        current_zscore: zscore,
        pnl: fill.pnl,
        status: PositionStatus::Closed,
        ..p
    }
}

/// Did a position that made this much win?
pub open spec fn won(pnl: Num) -> bool {
    (Num { bits: ZERO }).at_most(pnl)
}

/// The state with the position at `at` closed.
pub open spec fn closed_at(s: StateView, at: int, zscore: Num, fill: CloseFill) -> StateView {
    StateView {
        balance: fill.balance,
        positions: s.positions.remove(at),
        closed_trades: s.closed_trades.push(settled(s.positions[at], zscore, fill)),
        total_pnl: fill.total_pnl,
        win_count: if won(fill.pnl) { (s.win_count + 1) as u32 } else { s.win_count },
        loss_count: if won(fill.pnl) { s.loss_count } else { (s.loss_count + 1) as u32 },
        ..s
    }
}

/// The state after a position in these symbols has been asked for.
pub open spec fn after_open(
    m: Arithmetic,
    rules: TradingConfig,
    s: StateView,
    symbol_a: String,
    symbol_b: String,
    side_a: PositionSide,
    side_b: PositionSide,
    zscore: Num,
    hedge_ratio: Num,
    prices: Map<Seq<char>, Num>,
    now: Timestamp,
) -> StateView {
    if can_open(s, rules, symbol_a@, symbol_b@, prices) {
        let fill = opening_fill(
            m,
            s.balance,
            rules,
            prices[symbol_a@],
            prices[symbol_b@],
            opening_slip(side_a, side_b),
            hedge_ratio,
        );
        opened(s, symbol_a, symbol_b, side_a, side_b, zscore, fill, now)
    } else {
        s
    }
}

/// The state after the position with this number has been told to close.
pub open spec fn after_close(
    m: Arithmetic,
    rules: TradingConfig,
    s: StateView,
    id: u64,
    zscore: Num,
    prices: Map<Seq<char>, Num>,
) -> StateView {
    match find_position(s.positions, id) {
        None => s,
        Some(at) => closed_at(s, at, zscore, closing_fill(m, s, rules, s.positions[at], prices)),
    }
}

/// The state after a signal has been carried out at the moment `now`.
///
/// The spread is the price of B less the hedged price of A. To be short in the spread is to be long
/// in A and short in B, to be long in the spread the other way round.
pub open spec fn after_signal(
    m: Arithmetic,
    rules: TradingConfig,
    s: StateView,
    signal: Signal,
    prices: Map<Seq<char>, Num>,
    now: Timestamp,
) -> StateView {
    match signal {
        Signal::OpenLong { symbol_a, symbol_b, zscore, hedge_ratio } => after_open(
            m,
            rules,
            s,
            symbol_a,
            symbol_b,
            PositionSide::Short,
            PositionSide::Long,
            zscore,
            hedge_ratio,
            prices,
            now,
        ),
        Signal::OpenShort { symbol_a, symbol_b, zscore, hedge_ratio } => after_open(
            m,
            rules,
            s,
            symbol_a,
            symbol_b,
            PositionSide::Long,
            PositionSide::Short,
            zscore,
            hedge_ratio,
            prices,
            now,
        ),
        Signal::ClosePosition { position_id, zscore } => after_close(m, rules, s, position_id, zscore, prices),
    }
}

/// The state after the first `n` signals, each carried out at its own moment.
pub open spec fn after_signals(
    m: Arithmetic,
    rules: TradingConfig,
    s: StateView,
    signals: Seq<Signal>,
    prices: Map<Seq<char>, Num>,
    moments: Seq<Timestamp>,
    n: int,
) -> StateView
    decreases n,
{
    if n <= 0 {
        s
    } else {
        after_signal(
            m,
            rules,
            after_signals(m, rules, s, signals, prices, moments, n - 1),
            signals[n - 1],
            prices,
            moments[n - 1],
        )
    }
}

/// No more positions are open than the rules allow.
pub open spec fn within_limit(s: StateView, rules: TradingConfig) -> bool {
    s.positions.len() <= rules.max_open_positions
}

/// How many of the signals from number `i` on may open a position.
pub open spec fn openings_from(signals: Seq<Signal>, i: int) -> int
    decreases signals.len() - i,
{
    if i >= signals.len() {
        0
    } else {
        openings_from(signals, i + 1) + if signals[i] is ClosePosition {
            0int
        } else {
            1int
        }
    }
}

/// How many of the signals from number `i` on may close a position.
pub open spec fn closings_from(signals: Seq<Signal>, i: int) -> int
    decreases signals.len() - i,
{
    if i >= signals.len() {
        0
    } else {
        closings_from(signals, i + 1) + if signals[i] is ClosePosition {
            1int
        } else {
            0int
        }
    }
}

/// The counters of the state have room for what these signals may do.
pub open spec fn counters_fit(s: StateView, signals: Seq<Signal>, i: int) -> bool {
    &&& s.next_position_id + openings_from(signals, i) <= u64::MAX
    &&& s.win_count + closings_from(signals, i) <= u32::MAX
    &&& s.loss_count + closings_from(signals, i) <= u32::MAX
}

/// The index of the first tracked pair with the symbols of the position.
pub open spec fn find_pair(pairs: Seq<TrackedPair>, p: Position) -> Option<int>
    decreases pairs.len(),
{
    if pairs.len() == 0 {
        None
    } else {
        match find_pair(pairs.drop_last(), p) {
            Some(i) => Some(i),
            None => if holds(p, pairs.last()) {
                Some(pairs.len() - 1)
            } else {
                None
            },
        }
    }
}

/// The position at the latest prices. Where its pair is tracked, its z-score goes by the hedge ratio
/// and the spread of that pair, with the prices in the order in which the position names its symbols,
/// also where the pair names them the other way round. Its result is what its legs have made since
/// they were entered, less the opening commission.
pub open spec fn marked(
    m: Arithmetic,
    pairs: Seq<TrackedPair>,
    prices: Map<Seq<char>, Num>,
    p: Position,
) -> Position {
    let price_a = price_or(prices, p.symbol_a@, p.current_price_a);
    let price_b = price_or(prices, p.symbol_b@, p.current_price_b);
    Position {
        current_price_a: price_a,
        current_price_b: price_b,
        current_zscore: match find_pair(pairs, p) {
            Some(k) => zscore_of(
                m,
                price_a,
                price_b,
                pairs[k].hedge_ratio,
                pairs[k].spread_mean,
                pairs[k].spread_std,
            ),
            None => p.current_zscore,
        },
        pnl: plus(
            m,
            plus(
                m,
                leg_pnl(m, p.side_a, p.entry_price_a, price_a, p.qty_a),
                leg_pnl(m, p.side_b, p.entry_price_b, price_b, p.qty_b),
            ),
            p.entry_fee,
        ),
        ..p
    }
}

/// The state with all positions at the latest prices.
pub open spec fn all_marked(m: Arithmetic, s: StateView, prices: Map<Seq<char>, Num>) -> StateView {
    StateView {
        positions: Seq::new(s.positions.len(), |i: int| marked(m, s.tracked_pairs, prices, s.positions[i])),
        ..s
    }
}

/// The state after the first `n` test results have been offered for tracking.
pub open spec fn tracking_all(
    s: StateView,
    rules: TradingConfig,
    results: Seq<CointResult>,
    moments: Seq<(Timestamp, Timestamp)>,
    n: int,
) -> StateView
    decreases n,
{
    if n <= 0 {
        s
    } else {
        tracking(
            tracking_all(s, rules, results, moments, n - 1),
            rules,
            results[n - 1],
            moments[n - 1].0,
            moments[n - 1].1,
        )
    }
}

/// The state that tracks nothing.
pub open spec fn untracked(s: StateView) -> StateView {
    StateView { tracked_pairs: Seq::empty(), ..s }
}

/// The newest five closed trades, newest first.
pub open spec fn recent_trades(trades: Seq<Position>) -> Seq<Position> {
    let n = if trades.len() < RECENT_TRADES {
        trades.len()
    } else {
        RECENT_TRADES as nat
    };
    Seq::new(n, |i: int| trades[trades.len() - 1 - i])
}

pub(crate) fn pair_matches(a1: &String, b1: &String, a2: &String, b2: &String) -> (r: bool)
    ensures
        r == same_pair(a1@, b1@, a2@, b2@),
{
    (*a1 == *a2 && *b1 == *b2) || (*a1 == *b2 && *b1 == *a2)
}

fn symbols_overlap(a1: &String, b1: &String, a2: &String, b2: &String) -> (r: bool)
    ensures
        r == share_symbol(a1@, b1@, a2@, b2@),
{
    *a1 == *a2 || *b1 == *a2 || *a1 == *b2 || *b1 == *b2
}

fn finds_open(positions: &Vec<Position>, pair: &TrackedPair) -> (r: bool)
    ensures
        r == has_open(positions@, *pair),
{
    let mut i: usize = 0;
    while i < positions.len()
        invariant
            0 <= i <= positions@.len(),
            forall|j: int| 0 <= j < i ==> !holds(#[trigger] positions@[j], *pair),
        decreases positions@.len() - i,
    {
        let p: &Position = &positions[i];
        if pair_matches(&p.symbol_a, &p.symbol_b, &pair.symbol_a, &pair.symbol_b) {
            assert(holds(positions@[i as int], *pair));
            return true;
        }
        i += 1;
    }
    false
}

fn finds_busy(positions: &Vec<Position>, pair: &TrackedPair) -> (r: bool)
    ensures
        r == symbol_busy(positions@, *pair),
{
    let mut i: usize = 0;
    while i < positions.len()
        invariant
            0 <= i <= positions@.len(),
            forall|j: int| 0 <= j < i ==> !uses(#[trigger] positions@[j], *pair),
        decreases positions@.len() - i,
    {
        let p: &Position = &positions[i];
        if symbols_overlap(&p.symbol_a, &p.symbol_b, &pair.symbol_a, &pair.symbol_b) {
            assert(uses(positions@[i as int], *pair));
            return true;
        }
        i += 1;
    }
    false
}

fn push_closings(out: &mut Vec<Signal>, positions: &Vec<Position>, pair: &TrackedPair, z: Num)
    ensures
        final(out)@ == old(out)@ + closings(positions@, *pair, z),
{
    let mut i: usize = 0;
    proof {
        assert(positions@.take(0) =~= Seq::<Position>::empty());
        assert(out@ =~= old(out)@ + closings(positions@.take(0), *pair, z));
    }
    while i < positions.len()
        invariant
            0 <= i <= positions@.len(),
            out@ == old(out)@ + closings(positions@.take(i as int), *pair, z),
        decreases positions@.len() - i,
    {
        let p: &Position = &positions[i];
        let ghost head = positions@.take(i + 1);
        let ghost before = closings(positions@.take(i as int), *pair, z);
        proof {
            assert(head.drop_last() =~= positions@.take(i as int));
            assert(head.last() == positions@[i as int]);
        }
        if pair_matches(&p.symbol_a, &p.symbol_b, &pair.symbol_a, &pair.symbol_b) {
            let signal: Signal = Signal::ClosePosition { position_id: p.id, zscore: z };
            out.push(signal);
            proof {
                assert(out@ =~= old(out)@ + before.push(signal));
            }
        }
        i += 1;
    }
    proof {
        assert(positions@.take(positions@.len() as int) =~= positions@);
    }
}

impl PaperEngine {
    /// An engine that goes on from a stored state, or starts afresh where there is none that can be
    /// read.
    pub fn new(
        config: TradingConfig,
        initial_balance: Num,
        state_path: &str,
        stored: Option<TradingState>,
    ) -> (r: Self)
        ensures
            r.config == config,
            r.state_path@ == state_path@,
            match stored {
                Some(s) => r.state == s,
                None => r.state@ == fresh_state(initial_balance),
            },
    {
        let state: TradingState = match stored {
            Some(s) => s,
            None => TradingState::with_balance(initial_balance),
        };
        PaperEngine { state, config, state_path: state_path.to_owned() }
    }

    /// Adds a cointegrated pair to the tracked pairs, as of the given moments.
    pub fn track_pair_at(&mut self, result: &CointResult, discovered_at: Timestamp, last_updated: Timestamp)
        ensures
            final(self).state@ == tracking(old(self).state@, old(self).config, *result, discovered_at, last_updated),
            final(self).config == old(self).config,
            final(self).state_path == old(self).state_path,
    {
        let mut i: usize = 0;
        while i < self.state.tracked_pairs.len()
            invariant
                *self == *old(self),
                0 <= i <= self.state.tracked_pairs@.len(),
                forall|j: int|
                    0 <= j < i ==> !same_pair(
                        (#[trigger] self.state.tracked_pairs@[j]).symbol_a@,
                        self.state.tracked_pairs@[j].symbol_b@,
                        result.symbol_a@,
                        result.symbol_b@,
                    ),
            decreases self.state.tracked_pairs@.len() - i,
        {
            let p: &TrackedPair = &self.state.tracked_pairs[i];
            if pair_matches(&p.symbol_a, &p.symbol_b, &result.symbol_a, &result.symbol_b) {
                assert(is_tracked(self.state.tracked_pairs@, *result)) by {
                    let q = self.state.tracked_pairs@[i as int];
                    assert(same_pair(q.symbol_a@, q.symbol_b@, result.symbol_a@, result.symbol_b@));
                }
                return;
            }
            i += 1;
        }
        if self.config.min_half_life.lt(result.half_life_periods) {
            return;
        }
        self.state.tracked_pairs.push(
            TrackedPair {
                symbol_a: result.symbol_a.clone(),
                symbol_b: result.symbol_b.clone(),
                correlation: result.correlation,
                hedge_ratio: result.hedge_ratio,
                spread_mean: result.spread_mean,
                spread_std: result.spread_std,
                adf_stat: result.adf_stat,
                half_life: result.half_life_periods,
                discovered_at,
                last_zscore: result.current_zscore,
                last_updated,
                spread_momentum: Num { bits: ZERO },
                hurst: Num { bits: HALF },
                entry_guard: EntryGuard::default(),
            },
        );
    }

    /// Adds a cointegrated pair to the tracked pairs, as of now.
    pub fn track_pair(&mut self, result: &CointResult)
        ensures
            exists|discovered_at: Timestamp, last_updated: Timestamp|
                final(self).state@ == #[trigger] tracking(
                    old(self).state@,
                    old(self).config,
                    *result,
                    discovered_at,
                    last_updated,
                ),
            final(self).config == old(self).config,
            final(self).state_path == old(self).state_path,
    {
        let discovered_at: Timestamp = utc_now();
        let last_updated: Timestamp = utc_now();
        self.track_pair_at(result, discovered_at, last_updated);
    }

    /// Tracks the given test results in place of what was tracked, as of the given moments.
    pub fn replace_pairs_at(&mut self, results: &Vec<CointResult>, moments: &Vec<(Timestamp, Timestamp)>)
        requires
            moments@.len() == results@.len(),
        ensures
            final(self).state@ == tracking_all(
                untracked(old(self).state@),
                old(self).config,
                results@,
                moments@,
                results@.len() as int,
            ),
            final(self).config == old(self).config,
            final(self).state_path == old(self).state_path,
    {
        self.state.tracked_pairs.clear();
        assert(self.state@ =~= untracked(old(self).state@));
        let mut i: usize = 0;
        while i < results.len()
            invariant
                moments@.len() == results@.len(),
                0 <= i <= results@.len(),
                self.config == old(self).config,
                self.state_path == old(self).state_path,
                self.state@ == tracking_all(
                    untracked(old(self).state@),
                    old(self).config,
                    results@,
                    moments@,
                    i as int,
                ),
            decreases results@.len() - i,
        {
            let (discovered_at, last_updated) = moments[i];
            self.track_pair_at(&results[i], discovered_at, last_updated);
            i += 1;
        }
    }

    /// Tracks the given test results in place of what was tracked, as of now.
    pub fn replace_pairs(&mut self, results: &Vec<CointResult>)
        ensures
            exists|moments: Seq<(Timestamp, Timestamp)>|
                moments.len() == results@.len() && final(self).state@ == #[trigger] tracking_all(
                    untracked(old(self).state@),
                    old(self).config,
                    results@,
                    moments,
                    results@.len() as int,
                ),
            final(self).config == old(self).config,
            final(self).state_path == old(self).state_path,
    {
        let mut moments: Vec<(Timestamp, Timestamp)> = Vec::new();
        let mut i: usize = 0;
        while i < results.len()
            invariant
                0 <= i <= results@.len(),
                moments@.len() == i,
            decreases results@.len() - i,
        {
            let discovered_at: Timestamp = utc_now();
            let last_updated: Timestamp = utc_now();
            moments.push((discovered_at, last_updated));
            i += 1;
        }
        self.replace_pairs_at(results, &moments);
    }

    /// The signals of all tracked pairs at the given prices.
    ///
    /// A pair in which a position is held is closed when its z-score has come back within the exit
    /// threshold, has gone beyond the stop, or its Hurst exponent says that the spread trends. A
    /// pair in which nothing is held, whose symbols no position uses and for which there is room is
    /// entered when its z-score is beyond the entry threshold and enough guard factors pass.
    pub fn generate_signals<F: Fn(Op) -> Num>(&self, prices: &PriceBook, calc: &Calculator<F>) -> (r: Vec<Signal>)
        requires
            calc.reliable(),
        ensures
            r@ == signals(
                calc.meaning(),
                self.state@,
                self.config,
                prices@,
                self.state@.tracked_pairs.len() as int,
            ),
    {
        let ghost s = self.state@;
        let ghost m = calc.meaning();
        let mut out: Vec<Signal> = Vec::new();
        let mut i: usize = 0;
        while i < self.state.tracked_pairs.len()
            invariant
                calc.reliable(),
                m == calc.meaning(),
                s == self.state@,
                0 <= i <= s.tracked_pairs.len(),
                out@ == signals(m, s, self.config, prices@, i as int),
            decreases s.tracked_pairs.len() - i,
        {
            let pair: &TrackedPair = &self.state.tracked_pairs[i];
            match (prices.get(&pair.symbol_a), prices.get(&pair.symbol_b)) {
                (Some(price_a), Some(price_b)) => {
                    let z: Num = live_zscore(
                        price_a,
                        price_b,
                        pair.hedge_ratio,
                        pair.spread_mean,
                        pair.spread_std,
                        calc,
                    );
                    self.push_pair_signals(&mut out, pair, z);
                },
                _ => {},
            }
            i += 1;
        }
        out
    }

    fn push_pair_signals(&self, out: &mut Vec<Signal>, pair: &TrackedPair, z: Num)
        ensures
            final(out)@ == old(out)@ + pair_signals(self.state@, self.config, *pair, z),
    {
        let rules: TradingConfig = self.config;
        let ghost none = Seq::<Signal>::empty();
        if finds_open(&self.state.positions, pair) {
            let size: Num = z.abs();
            if size.lt(rules.zscore_exit) || rules.stop_loss_zscore.lt(size) || rules.hurst_exit.lt(pair.hurst) {
                push_closings(out, &self.state.positions, pair, z);
            } else {
                assert(out@ =~= old(out)@ + none);
            }
        } else if !finds_busy(&self.state.positions, pair)
            && self.state.positions.len() < rules.max_open_positions {
            let passing: bool = pair.entry_guard.is_passing(rules.entry_min_factors);
            if rules.zscore_entry.lt(z) && passing {
                let signal: Signal = Signal::OpenShort {
                    symbol_a: pair.symbol_a.clone(),
                    symbol_b: pair.symbol_b.clone(),
                    zscore: z,
                    hedge_ratio: pair.hedge_ratio,
                };
                out.push(signal);
                assert(out@ =~= old(out)@ + seq![signal]);
            } else if z.lt(rules.zscore_entry.neg()) && passing {
                let signal: Signal = Signal::OpenLong {
                    symbol_a: pair.symbol_a.clone(),
                    symbol_b: pair.symbol_b.clone(),
                    zscore: z,
                    hedge_ratio: pair.hedge_ratio,
                };
                out.push(signal);
                assert(out@ =~= old(out)@ + seq![signal]);
            } else {
                assert(out@ =~= old(out)@ + none);
            }
        } else {
            assert(out@ =~= old(out)@ + none);
        }
    }
}

fn slips_on_opening(side_a: PositionSide, side_b: PositionSide) -> (r: (Slip, Slip))
    ensures
        r == opening_slip(side_a, side_b),
{
    match (side_a, side_b) {
        (PositionSide::Long, PositionSide::Short) => (Slip::Up, Slip::Down),
        (PositionSide::Short, PositionSide::Long) => (Slip::Down, Slip::Up),
        _ => (Slip::Flat, Slip::Flat),
    }
}

fn slips_on_closing(side_a: PositionSide, side_b: PositionSide) -> (r: (Slip, Slip))
    ensures
        r == closing_slip(side_a, side_b),
{
    match (side_a, side_b) {
        (PositionSide::Long, PositionSide::Short) => (Slip::Down, Slip::Up),
        (PositionSide::Short, PositionSide::Long) => (Slip::Up, Slip::Down),
        _ => (Slip::Flat, Slip::Flat),
    }
}

fn index_of(positions: &Vec<Position>, id: u64) -> (r: Option<usize>)
    ensures
        match r {
            Some(i) => find_position(positions@, id) == Some(i as int) && i < positions@.len(),
            None => find_position(positions@, id) is None,
        },
{
    let mut i: usize = 0;
    proof {
        assert(positions@.take(0) =~= Seq::<Position>::empty());
    }
    while i < positions.len()
        invariant
            0 <= i <= positions@.len(),
            find_position(positions@.take(i as int), id) is None,
        decreases positions@.len() - i,
    {
        proof {
            assert(positions@.take(i + 1).drop_last() =~= positions@.take(i as int));
        }
        if positions[i].id == id {
            proof {
                lemma_found_early(positions@, id, i + 1);
            }
            return Some(i);
        }
        i += 1;
    }
    proof {
        assert(positions@.take(positions@.len() as int) =~= positions@);
    }
    None
}

fn index_of_pair(pairs: &Vec<TrackedPair>, p: &Position) -> (r: Option<usize>)
    ensures
        match r {
            Some(i) => find_pair(pairs@, *p) == Some(i as int) && i < pairs@.len(),
            None => find_pair(pairs@, *p) is None,
        },
{
    let mut i: usize = 0;
    proof {
        assert(pairs@.take(0) =~= Seq::<TrackedPair>::empty());
    }
    while i < pairs.len()
        invariant
            0 <= i <= pairs@.len(),
            find_pair(pairs@.take(i as int), *p) is None,
        decreases pairs@.len() - i,
    {
        proof {
            assert(pairs@.take(i + 1).drop_last() =~= pairs@.take(i as int));
        }
        if pair_matches(&p.symbol_a, &p.symbol_b, &pairs[i].symbol_a, &pairs[i].symbol_b) {
            proof {
                lemma_pair_found_early(pairs@, *p, i + 1);
            }
            return Some(i);
        }
        i += 1;
    }
    proof {
        assert(pairs@.take(pairs@.len() as int) =~= pairs@);
    }
    None
}

proof fn lemma_pair_found_early(pairs: Seq<TrackedPair>, p: Position, n: int)
    requires
        0 <= n <= pairs.len(),
        find_pair(pairs.take(n), p) is Some,
    ensures
        find_pair(pairs, p) == find_pair(pairs.take(n), p),
    decreases pairs.len(),
{
    if n < pairs.len() {
        assert(pairs.drop_last().take(n) =~= pairs.take(n));
        lemma_pair_found_early(pairs.drop_last(), p, n);
    } else {
        assert(pairs.take(n) =~= pairs);
    }
}

pub(crate) proof fn lemma_counts_are_not_negative(signals: Seq<Signal>, i: int)
    ensures
        openings_from(signals, i) >= 0,
        closings_from(signals, i) >= 0,
    decreases signals.len() - i,
{
    if i < signals.len() {
        lemma_counts_are_not_negative(signals, i + 1);
    }
}

proof fn lemma_found_early(positions: Seq<Position>, id: u64, n: int)
    requires
        0 <= n <= positions.len(),
        find_position(positions.take(n), id) is Some,
    ensures
        find_position(positions, id) == find_position(positions.take(n), id),
    decreases positions.len(),
{
    if n < positions.len() {
        assert(positions.drop_last().take(n) =~= positions.take(n));
        lemma_found_early(positions.drop_last(), id, n);
    } else {
        assert(positions.take(n) =~= positions);
    }
}

fn fill_price<F: Fn(Op) -> Num>(price: Num, slippage_pct: Num, slip: Slip, calc: &Calculator<F>) -> (r: Num)
    requires
        calc.reliable(),
    ensures
        r == filled(calc.meaning(), price, slippage_pct, slip),
{
    let share: Num = calc.over(slippage_pct, Num { bits: HUNDRED });
    match slip {
        Slip::Up => calc.times(price, calc.plus(Num { bits: ONE }, share)),
        Slip::Down => calc.times(price, calc.minus(Num { bits: ONE }, share)),
        Slip::Flat => price,
    }
}

fn pnl_of_leg<F: Fn(Op) -> Num>(side: PositionSide, entry: Num, price: Num, qty: Num, calc: &Calculator<F>) -> (r: Num)
    requires
        calc.reliable(),
    ensures
        r == leg_pnl(calc.meaning(), side, entry, price, qty),
{
    match side {
        PositionSide::Long => calc.times(calc.minus(price, entry), qty),
        PositionSide::Short => calc.times(calc.minus(entry, price), qty),
    }
}

fn price_else(prices: &PriceBook, symbol: &String, otherwise: Num) -> (r: Num)
    ensures
        r == price_or(prices@, symbol@, otherwise),
{
    match prices.get(symbol) {
        Some(v) => v,
        None => otherwise,
    }
}

impl PaperEngine {
    /// The numbers of a position that opens at these prices.
    pub fn plan_open<F: Fn(Op) -> Num>(
        &self,
        price_a: Num,
        price_b: Num,
        side_a: PositionSide,
        side_b: PositionSide,
        hedge_ratio: Num,
        calc: &Calculator<F>,
    ) -> (r: OpenFill)
        requires
            calc.reliable(),
        ensures
            r == opening_fill(
                calc.meaning(),
                self.state@.balance,
                self.config,
                price_a,
                price_b,
                opening_slip(side_a, side_b),
                hedge_ratio,
            ),
    {
        let two: Num = Num { bits: TWO };
        let hundred: Num = Num { bits: HUNDRED };
        let (slip_a, slip_b) = slips_on_opening(side_a, side_b);
        let size: Num = calc.times(self.state.balance, self.config.max_position_pct);
        let half: Num = calc.over(size, two);
        let fill_a: Num = fill_price(price_a, self.config.slippage_pct, slip_a, calc);
        let fill_b: Num = fill_price(price_b, self.config.slippage_pct, slip_b, calc);
        let qty_a: Num = calc.over(half, fill_a);
        let qty_b: Num = calc.over(calc.times(half, hedge_ratio.min(Num { bits: MAX_HEDGE })), fill_b);
        let commission: Num = calc.over(calc.times(size, self.config.commission_pct), hundred);
        OpenFill {
            fill_a,
            fill_b,
            qty_a,
            qty_b,
            size,
            entry_fee: commission.neg(),
            balance: calc.minus(self.state.balance, calc.plus(size, commission)),
        }
    }

    /// Books a position whose numbers are known.
    pub fn book_open(
        &mut self,
        symbol_a: &String,
        symbol_b: &String,
        side_a: PositionSide,
        side_b: PositionSide,
        zscore: Num,
        fill: OpenFill,
        now: Timestamp,
    )
        requires
            old(self).state.next_position_id < u64::MAX,
        ensures
            final(self).state@ == opened(old(self).state@, *symbol_a, *symbol_b, side_a, side_b, zscore, fill, now),
            final(self).config == old(self).config,
            final(self).state_path == old(self).state_path,
    {
        self.state.balance = fill.balance;
        self.state.positions.push(
            Position {
                id: self.state.next_position_id,
                symbol_a: symbol_a.clone(),
                symbol_b: symbol_b.clone(),
                side_a,
                side_b,
                qty_a: fill.qty_a,
                qty_b: fill.qty_b,
                entry_price_a: fill.fill_a,
                entry_price_b: fill.fill_b,
                current_price_a: fill.fill_a,
                current_price_b: fill.fill_b,
                entry_zscore: zscore,
                current_zscore: zscore,
                entry_time: now,
                size: fill.size,
                entry_fee: fill.entry_fee,
                pnl: fill.entry_fee,
                status: PositionStatus::Open,
            },
        );
        self.state.next_position_id = self.state.next_position_id + 1;
    }

    /// Opens a position at the moment `now`, where one may open.
    pub fn open_position<F: Fn(Op) -> Num>(
        &mut self,
        symbol_a: &String,
        symbol_b: &String,
        side_a: PositionSide,
        side_b: PositionSide,
        zscore: Num,
        hedge_ratio: Num,
        prices: &PriceBook,
        now: Timestamp,
        calc: &Calculator<F>,
    )
        requires
            calc.reliable(),
            old(self).state.next_position_id < u64::MAX,
        ensures
            final(self).state@ == after_open(
                calc.meaning(),
                old(self).config,
                old(self).state@,
                *symbol_a,
                *symbol_b,
                side_a,
                side_b,
                zscore,
                hedge_ratio,
                prices@,
                now,
            ),
            final(self).config == old(self).config,
            final(self).state_path == old(self).state_path,
    {
        if self.state.positions.len() >= self.config.max_open_positions {
            return;
        }
        let zero: Num = Num { bits: ZERO };
        match (prices.get(symbol_a), prices.get(symbol_b)) {
            (Some(price_a), Some(price_b)) => {
                if !price_a.le(zero) && !price_b.le(zero) {
                    let fill: OpenFill = self.plan_open(price_a, price_b, side_a, side_b, hedge_ratio, calc);
                    self.book_open(symbol_a, symbol_b, side_a, side_b, zscore, fill, now);
                }
            },
            _ => {},
        }
    }

    /// The numbers of the position at `at`, were it to close.
    pub fn plan_close<F: Fn(Op) -> Num>(&self, at: usize, prices: &PriceBook, calc: &Calculator<F>) -> (r: CloseFill)
        requires
            calc.reliable(),
            at < self.state.positions@.len(),
        ensures
            r == closing_fill(
                calc.meaning(),
                self.state@,
                self.config,
                self.state@.positions[at as int],
                prices@,
            ),
    {
        let two: Num = Num { bits: TWO };
        let hundred: Num = Num { bits: HUNDRED };
        let p: &Position = &self.state.positions[at];
        let (slip_a, slip_b) = slips_on_closing(p.side_a, p.side_b);
        let price_a: Num = price_else(prices, &p.symbol_a, p.current_price_a);
        let price_b: Num = price_else(prices, &p.symbol_b, p.current_price_b);
        let fill_a: Num = fill_price(price_a, self.config.slippage_pct, slip_a, calc);
        let fill_b: Num = fill_price(price_b, self.config.slippage_pct, slip_b, calc);
        let pnl_a: Num = pnl_of_leg(p.side_a, p.entry_price_a, fill_a, p.qty_a, calc);
        let pnl_b: Num = pnl_of_leg(p.side_b, p.entry_price_b, fill_b, p.qty_b, calc);
        let worth: Num = calc.plus(calc.times(fill_a, p.qty_a), calc.times(fill_b, p.qty_b));
        let commission: Num = calc.times(
            calc.over(calc.times(calc.over(worth, two), self.config.commission_pct), hundred),
            two,
        );
        let pnl: Num = calc.minus(calc.plus(calc.plus(pnl_a, pnl_b), p.entry_fee), commission);
        CloseFill {
            fill_a,
            fill_b,
            pnl,
            balance: calc.plus(self.state.balance, calc.plus(p.size, pnl)),
            total_pnl: calc.plus(self.state.total_pnl, pnl),
        }
    }

    /// Moves the position at `at` to the closed trades.
    pub fn book_close(&mut self, at: usize, zscore: Num, fill: CloseFill)
        requires
            at < old(self).state.positions@.len(),
            won(fill.pnl) ==> old(self).state.win_count < u32::MAX,
            !won(fill.pnl) ==> old(self).state.loss_count < u32::MAX,
        ensures
            final(self).state@ == closed_at(old(self).state@, at as int, zscore, fill),
            final(self).config == old(self).config,
            final(self).state_path == old(self).state_path,
    {
        let mut p: Position = self.state.positions.remove(at);
        p.current_price_a = fill.fill_a;
        p.current_price_b = fill.fill_b;
        p.current_zscore = zscore;
        p.pnl = fill.pnl;
        p.status = PositionStatus::Closed;
        self.state.balance = fill.balance;
        if (Num { bits: ZERO }).le(fill.pnl) {
            self.state.win_count = self.state.win_count + 1;
        } else {
            self.state.loss_count = self.state.loss_count + 1;
        }
        self.state.total_pnl = fill.total_pnl;
        self.state.closed_trades.push(p);
    }

    /// Closes the position with this number, where there is one.
    pub fn close_position<F: Fn(Op) -> Num>(
        &mut self,
        position_id: u64,
        zscore: Num,
        prices: &PriceBook,
        calc: &Calculator<F>,
    )
        requires
            calc.reliable(),
            old(self).state.win_count < u32::MAX,
            old(self).state.loss_count < u32::MAX,
        ensures
            final(self).state@ == after_close(
                calc.meaning(),
                old(self).config,
                old(self).state@,
                position_id,
                zscore,
                prices@,
            ),
            final(self).config == old(self).config,
            final(self).state_path == old(self).state_path,
    {
        match index_of(&self.state.positions, position_id) {
            None => {},
            Some(at) => {
                let fill: CloseFill = self.plan_close(at, prices, calc);
                self.book_close(at, zscore, fill);
            },
        }
    }

    /// Carries out one signal at the moment `now`.
    pub fn execute_signal_at<F: Fn(Op) -> Num>(
        &mut self,
        signal: &Signal,
        prices: &PriceBook,
        now: Timestamp,
        calc: &Calculator<F>,
    )
        requires
            calc.reliable(),
            signal is ClosePosition ==> old(self).state.win_count < u32::MAX && old(self).state.loss_count < u32::MAX,
            !(signal is ClosePosition) ==> old(self).state.next_position_id < u64::MAX,
        ensures
            final(self).state@ == after_signal(
                calc.meaning(),
                old(self).config,
                old(self).state@,
                *signal,
                prices@,
                now,
            ),
            final(self).config == old(self).config,
            final(self).state_path == old(self).state_path,
    {
        match signal {
            Signal::OpenLong { symbol_a, symbol_b, zscore, hedge_ratio } => {
                self.open_position(
                    symbol_a,
                    symbol_b,
                    PositionSide::Short,
                    PositionSide::Long,
                    *zscore,
                    *hedge_ratio,
                    prices,
                    now,
                    calc,
                );
            },
            Signal::OpenShort { symbol_a, symbol_b, zscore, hedge_ratio } => {
                self.open_position(
                    symbol_a,
                    symbol_b,
                    PositionSide::Long,
                    PositionSide::Short,
                    *zscore,
                    *hedge_ratio,
                    prices,
                    now,
                    calc,
                );
            },
            Signal::ClosePosition { position_id, zscore } => {
                self.close_position(*position_id, *zscore, prices, calc);
            },
        }
    }

    /// Carries out signals one after the other, each at its own moment.
    pub fn execute_signals_at<F: Fn(Op) -> Num>(
        &mut self,
        signals: &Vec<Signal>,
        prices: &PriceBook,
        moments: &Vec<Timestamp>,
        calc: &Calculator<F>,
    )
        requires
            calc.reliable(),
            moments@.len() == signals@.len(),
            counters_fit(old(self).state@, signals@, 0),
        ensures
            final(self).state@ == after_signals(
                calc.meaning(),
                old(self).config,
                old(self).state@,
                signals@,
                prices@,
                moments@,
                signals@.len() as int,
            ),
            within_limit(old(self).state@, old(self).config) ==> within_limit(final(self).state@, old(self).config),
            final(self).config == old(self).config,
            final(self).state_path == old(self).state_path,
    {
        let ghost m = calc.meaning();
        let mut i: usize = 0;
        while i < signals.len()
            invariant
                calc.reliable(),
                m == calc.meaning(),
                moments@.len() == signals@.len(),
                0 <= i <= signals@.len(),
                within_limit(old(self).state@, self.config) ==> within_limit(self.state@, self.config),
                self.config == old(self).config,
                self.state_path == old(self).state_path,
                self.state@ == after_signals(
                    m,
                    old(self).config,
                    old(self).state@,
                    signals@,
                    prices@,
                    moments@,
                    i as int,
                ),
                counters_fit(self.state@, signals@, i as int),
            decreases signals@.len() - i,
        {
            proof {
                lemma_counts_are_not_negative(signals@, i + 1);
                match signals@[i as int] {
                    Signal::ClosePosition { position_id, .. } => {
                        found_position_has_number(self.state@.positions, position_id);
                    },
                    _ => {},
                }
            }
            self.execute_signal_at(&signals[i], prices, moments[i], calc);
            i += 1;
        }
    }

    /// Carries out signals one after the other, as of now.
    pub fn execute_signals<F: Fn(Op) -> Num>(
        &mut self,
        signals: &Vec<Signal>,
        prices: &PriceBook,
        calc: &Calculator<F>,
    )
        requires
            calc.reliable(),
            counters_fit(old(self).state@, signals@, 0),
        ensures
            exists|moments: Seq<Timestamp>|
                moments.len() == signals@.len() && final(self).state@ == #[trigger] after_signals(
                    calc.meaning(),
                    old(self).config,
                    old(self).state@,
                    signals@,
                    prices@,
                    moments,
                    signals@.len() as int,
                ),
            within_limit(old(self).state@, old(self).config) ==> within_limit(final(self).state@, old(self).config),
            final(self).config == old(self).config,
            final(self).state_path == old(self).state_path,
    {
        let mut moments: Vec<Timestamp> = Vec::new();
        let mut i: usize = 0;
        while i < signals.len()
            invariant
                0 <= i <= signals@.len(),
                moments@.len() == i,
            decreases signals@.len() - i,
        {
            moments.push(utc_now());
            i += 1;
        }
        self.execute_signals_at(signals, prices, &moments, calc);
    }

    /// Brings all open positions to the latest prices.
    pub fn update_positions<F: Fn(Op) -> Num>(&mut self, prices: &PriceBook, calc: &Calculator<F>)
        requires
            calc.reliable(),
        ensures
            final(self).state@ == all_marked(calc.meaning(), old(self).state@, prices@),
            final(self).config == old(self).config,
            final(self).state_path == old(self).state_path,
    {
        let ghost m = calc.meaning();
        let ghost s = self.state@;
        let ghost goal = all_marked(m, s, prices@).positions;
        let n: usize = self.state.positions.len();
        let mut i: usize = 0;
        while i < n
            invariant
                calc.reliable(),
                m == calc.meaning(),
                n == s.positions.len(),
                0 <= i <= n,
                s == old(self).state@,
                goal == all_marked(m, s, prices@).positions,
                self.config == old(self).config,
                self.state_path == old(self).state_path,
                self.state@ == (StateView { positions: self.state@.positions, ..s }),
                self.state@.positions.len() == n,
                forall|j: int| 0 <= j < i ==> self.state@.positions[j] == goal[j],
                forall|j: int| i <= j < n ==> self.state@.positions[j] == s.positions[j],
            decreases n - i,
        {
            let p: &Position = &self.state.positions[i];
            let price_a: Num = price_else(prices, &p.symbol_a, p.current_price_a);
            let price_b: Num = price_else(prices, &p.symbol_b, p.current_price_b);
            let z: Num = match index_of_pair(&self.state.tracked_pairs, p) {
                Some(k) => {
                    let pair: &TrackedPair = &self.state.tracked_pairs[k];
                    live_zscore(price_a, price_b, pair.hedge_ratio, pair.spread_mean, pair.spread_std, calc)
                },
                None => p.current_zscore,
            };
            let pnl_a: Num = pnl_of_leg(p.side_a, p.entry_price_a, price_a, p.qty_a, calc);
            let pnl_b: Num = pnl_of_leg(p.side_b, p.entry_price_b, price_b, p.qty_b, calc);
            let pnl: Num = calc.plus(calc.plus(pnl_a, pnl_b), p.entry_fee);
            let position: &mut Position = &mut self.state.positions[i];
            position.current_price_a = price_a;
            position.current_price_b = price_b;
            position.current_zscore = z;
            position.pnl = pnl;
            i += 1;
        }
        assert(self.state@.positions =~= goal);
    }

    /// The newest five closed trades, newest first.
    pub fn recent_trades(&self) -> (r: Vec<&Position>)
        ensures
            r@.len() == recent_trades(self.state@.closed_trades).len(),
            forall|i: int|
                0 <= i < r@.len() ==> *(#[trigger] r@[i]) == recent_trades(self.state@.closed_trades)[i],
    {
        let mut out: Vec<&Position> = Vec::new();
        let n: usize = self.state.closed_trades.len();
        let shown: usize = if n < RECENT_TRADES { n } else { RECENT_TRADES };
        let mut i: usize = 0;
        while i < shown
            invariant
                n == self.state.closed_trades@.len(),
                shown <= n,
                0 <= i <= shown,
                shown == recent_trades(self.state@.closed_trades).len(),
                out@.len() == i,
                forall|j: int|
                    0 <= j < i ==> *(#[trigger] out@[j]) == recent_trades(self.state@.closed_trades)[j],
            decreases shown - i,
        {
            out.push(&self.state.closed_trades[n - 1 - i]);
            i += 1;
        }
        out
    }

    /// How many trades have been closed.
    pub fn total_trades(&self) -> (r: u32)
        requires
            self.state.win_count + self.state.loss_count <= u32::MAX,
        ensures
            r == self.state@.win_count + self.state@.loss_count,
    {
        self.state.win_count + self.state.loss_count
    }

    /// The open position with this number.
    pub fn get_position(&self, id: u64) -> (r: Option<&Position>)
        ensures
            match find_position(self.state@.positions, id) {
                Some(at) => r == Some(&self.state@.positions[at]),
                None => r is None,
            },
    {
        match index_of(&self.state.positions, id) {
            Some(i) => Some(&self.state.positions[i]),
            None => None,
        }
    }
}

} // verus!
