//! What trading does to positions and money, in terms of prices and settings alone.

use vstd::prelude::*;

use crate::arith::{minus, over, plus, times, Arithmetic};
use crate::clock::Timestamp;
use crate::num::{Num, ONE, ZERO};
use crate::trading::engine::{
    after_close, after_open, all_marked, exit_now, holds, pair_signals, pair_zscore, signals, uses,
};
use crate::trading::invariants::{
    found_position_has_number, may_enter, no_entry_is_missed, no_exit_is_missed, signals_are_justified,
};
use crate::trading::models::{PositionSide, PositionStatus, Signal, StateView, TrackedPair, TradingConfig};

verus! {

/// `2.0`
pub const TWO: u64 = 0x4000_0000_0000_0000;

/// `3.0`
pub const THREE: u64 = 0x4008_0000_0000_0000;

/// `100.0`
pub const PERCENT: u64 = 0x4059_0000_0000_0000;

/// The share of a price that a percentage is, added to the price.
pub open spec fn raised(m: Arithmetic, price: Num, percentage: Num) -> Num {
    times(m, price, plus(m, Num { bits: ONE }, over(m, percentage, Num { bits: PERCENT })))
}

/// The share of a price that a percentage is, taken from the price.
pub open spec fn lowered(m: Arithmetic, price: Num, percentage: Num) -> Num {
    times(m, price, minus(m, Num { bits: ONE }, over(m, percentage, Num { bits: PERCENT })))
}

/// A position opens exactly where there is room and both symbols have a price that is not zero or
/// below. Nothing else is asked for, and where one does not open nothing changes.
pub proof fn opening_needs_room_and_prices(
    m: Arithmetic,
    rules: TradingConfig,
    s: StateView,
    symbol_a: String,
    symbol_b: String,
    side_a: PositionSide,
    side_b: PositionSide,
    zscore: Num,
    hedge_ratio: Num,
    prices: Map<Seq<char>, Num>,
    now: Timestamp,
)
    ensures
        ({
            let zero = Num { bits: ZERO };
            let next = after_open(m, rules, s, symbol_a, symbol_b, side_a, side_b, zscore, hedge_ratio, prices, now);
            if s.positions.len() < rules.max_open_positions && prices.contains_key(symbol_a@) && prices.contains_key(
                symbol_b@,
            ) && !prices[symbol_a@].at_most(zero) && !prices[symbol_b@].at_most(zero) {
                next.positions.len() == s.positions.len() + 1
            } else {
                next == s
            }
        }),
{
}

/// What a position that opens looks like.
///
/// It takes the configured share of the balance. Each leg is filled at its price, off by the slippage
/// against the trader. Leg A is bought or sold for half of the size, leg B for half of the size times
/// the hedge ratio, or times three where the ratio is above three. The commission on the size is its
/// first result. Size and commission leave the balance, and nothing else of the books changes.
pub proof fn opened_position_is_sized_by_the_hedge(
    m: Arithmetic,
    rules: TradingConfig,
    s: StateView,
    symbol_a: String,
    symbol_b: String,
    side_a: PositionSide,
    side_b: PositionSide,
    zscore: Num,
    hedge_ratio: Num,
    prices: Map<Seq<char>, Num>,
    now: Timestamp,
)
    requires
        after_open(
            m,
            rules,
            s,
            symbol_a,
            symbol_b,
            side_a,
            side_b,
            zscore,
            hedge_ratio,
            prices,
            now,
        ).positions.len() > s.positions.len(),
        s.next_position_id < u64::MAX,
        side_a != side_b,
    ensures
        ({
            let next = after_open(m, rules, s, symbol_a, symbol_b, side_a, side_b, zscore, hedge_ratio, prices, now);
            let p = next.positions.last();
            let size = times(m, s.balance, rules.max_position_pct);
            let half = over(m, size, Num { bits: TWO });
            let fee = over(m, times(m, size, rules.commission_pct), Num { bits: PERCENT });
            &&& p.size == size
            &&& p.qty_a == over(m, half, p.entry_price_a)
            &&& hedge_ratio.at_most(Num { bits: THREE }) ==> p.qty_b == over(
                m,
                times(m, half, hedge_ratio),
                p.entry_price_b,
            )
            &&& (Num { bits: THREE }).less(hedge_ratio) ==> p.qty_b == over(
                m,
                times(m, half, Num { bits: THREE }),
                p.entry_price_b,
            )
            &&& p.entry_price_a == if side_a is Long {
                raised(m, prices[symbol_a@], rules.slippage_pct)
            } else {
                lowered(m, prices[symbol_a@], rules.slippage_pct)
            }
            &&& p.entry_price_b == if side_b is Long {
                raised(m, prices[symbol_b@], rules.slippage_pct)
            } else {
                lowered(m, prices[symbol_b@], rules.slippage_pct)
            }
            &&& p.current_price_a == p.entry_price_a
            &&& p.current_price_b == p.entry_price_b
            &&& p.entry_zscore == zscore
            &&& p.current_zscore == zscore
            &&& p.entry_fee == fee.opposite()
            &&& p.pnl == fee.opposite()
            &&& p.id == s.next_position_id
            &&& p.symbol_a == symbol_a
            &&& p.symbol_b == symbol_b
            &&& p.side_a == side_a
            &&& p.side_b == side_b
            &&& p.entry_time == now
            &&& p.status == PositionStatus::Open
            &&& next.balance == minus(m, s.balance, plus(m, size, fee))
            &&& next.next_position_id == s.next_position_id + 1
            &&& next.positions.drop_last() =~= s.positions
            &&& next.closed_trades == s.closed_trades
            &&& next.total_pnl == s.total_pnl
            &&& next.win_count == s.win_count
            &&& next.loss_count == s.loss_count
            &&& next.tracked_pairs == s.tracked_pairs
            &&& next.initial_balance == s.initial_balance
        }),
{
}

/// What a leg has made: what its price has moved in its favour, times its quantity.
pub open spec fn gain(m: Arithmetic, side: PositionSide, bought: Num, now: Num, qty: Num) -> Num {
    if side is Long {
        times(m, minus(m, now, bought), qty)
    } else {
        times(m, minus(m, bought, now), qty)
    }
}

/// The latest price of a symbol, or the one it had.
pub open spec fn latest(prices: Map<Seq<char>, Num>, symbol: Seq<char>, had: Num) -> Num {
    if prices.contains_key(symbol) {
        prices[symbol]
    } else {
        had
    }
}

/// What closing a position does.
///
/// Each leg is filled at its latest price, off by the slippage against the trader. The result is what
/// both legs made, plus the opening fee, which is not above zero, less the commission on what they
/// are worth. The balance gets the size and the result, and the total the result. The trade is won
/// where the result is not below zero, and lost otherwise.
pub proof fn closed_position_is_settled_at_latest_prices(
    m: Arithmetic,
    rules: TradingConfig,
    s: StateView,
    id: u64,
    zscore: Num,
    prices: Map<Seq<char>, Num>,
    at: int,
)
    requires
        0 <= at < s.positions.len(),
        s.positions[at].id == id,
        forall|j: int| 0 <= j < at ==> (#[trigger] s.positions[j]).id != id,
        s.win_count < u32::MAX,
        s.loss_count < u32::MAX,
        s.positions[at].side_a != s.positions[at].side_b,
    ensures
        ({
            let p = s.positions[at];
            let next = after_close(m, rules, s, id, zscore, prices);
            let c = next.closed_trades.last();
            let price_a = latest(prices, p.symbol_a@, p.current_price_a);
            let price_b = latest(prices, p.symbol_b@, p.current_price_b);
            let two = Num { bits: TWO };
            let worth = plus(m, times(m, c.current_price_a, p.qty_a), times(m, c.current_price_b, p.qty_b));
            let half_fee = over(m, times(m, over(m, worth, two), rules.commission_pct), Num { bits: PERCENT });
            let made = plus(
                m,
                gain(m, p.side_a, p.entry_price_a, c.current_price_a, p.qty_a),
                gain(m, p.side_b, p.entry_price_b, c.current_price_b, p.qty_b),
            );
            let winner = (Num { bits: ZERO }).at_most(c.pnl);
            &&& c.current_price_a == if p.side_a is Long {
                lowered(m, price_a, rules.slippage_pct)
            } else {
                raised(m, price_a, rules.slippage_pct)
            }
            &&& c.current_price_b == if p.side_b is Long {
                lowered(m, price_b, rules.slippage_pct)
            } else {
                raised(m, price_b, rules.slippage_pct)
            }
            &&& c.pnl == minus(m, plus(m, made, p.entry_fee), times(m, half_fee, two))
            &&& c.current_zscore == zscore
            &&& c.status == PositionStatus::Closed
            &&& c.id == id
            &&& c.symbol_a == p.symbol_a
            &&& c.symbol_b == p.symbol_b
            &&& c.entry_zscore == p.entry_zscore
            &&& next.closed_trades.drop_last() =~= s.closed_trades
            &&& next.positions =~= s.positions.remove(at)
            &&& next.balance == plus(m, s.balance, plus(m, p.size, c.pnl))
            &&& next.total_pnl == plus(m, s.total_pnl, c.pnl)
            &&& next.win_count == s.win_count + if winner { 1int } else { 0int }
            &&& next.loss_count == s.loss_count + if winner { 0int } else { 1int }
            &&& next.next_position_id == s.next_position_id
            &&& next.tracked_pairs == s.tracked_pairs
        }),
{
    found_position_has_number(s.positions, id);
}

/// What a look at the latest prices does to a position: its result is what both legs made since they
/// were entered, plus the opening fee. Its entry, its legs and its size stay.
pub proof fn marked_position_is_worth_its_legs(
    m: Arithmetic,
    s: StateView,
    prices: Map<Seq<char>, Num>,
    i: int,
)
    requires
        0 <= i < s.positions.len(),
    ensures
        ({
            let p = s.positions[i];
            let q = all_marked(m, s, prices).positions[i];
            &&& q.current_price_a == latest(prices, p.symbol_a@, p.current_price_a)
            &&& q.current_price_b == latest(prices, p.symbol_b@, p.current_price_b)
            &&& q.pnl == plus(
                m,
                plus(
                    m,
                    gain(m, p.side_a, p.entry_price_a, q.current_price_a, p.qty_a),
                    gain(m, p.side_b, p.entry_price_b, q.current_price_b, p.qty_b),
                ),
                p.entry_fee,
            )
            &&& q.status == p.status
            &&& all_marked(m, s, prices).balance == s.balance
        }),
{
}

/// A position is left where the z-score is closer to zero than the exit threshold, farther from it
/// than the stop, or where the Hurst exponent of the pair is above the limit, whatever the sign of
/// the z-score: at `-z` as at `z`.
pub proof fn exits_do_not_depend_on_the_sign(rules: TradingConfig, pair: TrackedPair, z: Num)
    requires
        !z.nan(),
        !rules.zscore_exit.nan(),
        !rules.stop_loss_zscore.nan(),
    ensures
        exit_now(rules, pair, z) == exit_now(rules, pair, z.opposite()),
        exit_now(rules, pair, z) <==> {
            ||| -rules.zscore_exit.rank() < z.rank() < rules.zscore_exit.rank()
            ||| z.rank() > rules.stop_loss_zscore.rank()
            ||| z.rank() < -rules.stop_loss_zscore.rank()
            ||| rules.hurst_exit.less(pair.hurst)
        },
{
}

/// A pair gives no signal to close between the exit threshold and the stop, on either side of zero,
/// as long as its Hurst exponent is not above the limit.
pub proof fn positions_are_held_between_exit_and_stop(s: StateView, rules: TradingConfig, pair: TrackedPair, z: Num)
    requires
        !z.nan(),
        !rules.zscore_exit.nan(),
        !rules.stop_loss_zscore.nan(),
        rules.zscore_exit.rank() <= z.rank() <= rules.stop_loss_zscore.rank() || -rules.stop_loss_zscore.rank()
            <= z.rank() <= -rules.zscore_exit.rank(),
        0 <= rules.zscore_exit.rank(),
        !rules.hurst_exit.less(pair.hurst),
    ensures
        forall|x: int|
            0 <= x < pair_signals(s, rules, pair, z).len() ==> !((#[trigger] pair_signals(
                s,
                rules,
                pair,
                z,
            )[x]) is ClosePosition),
{
}

/// A held pair tells its positions to close below the exit threshold, beyond the stop, on either side
/// of zero, and above the Hurst limit.
pub proof fn positions_are_left_at_exit_and_stop(
    m: Arithmetic,
    s: StateView,
    rules: TradingConfig,
    prices: Map<Seq<char>, Num>,
    k: int,
    i: int,
)
    requires
        0 <= k < s.tracked_pairs.len(),
        0 <= i < s.positions.len(),
        prices.contains_key(s.tracked_pairs[k].symbol_a@),
        prices.contains_key(s.tracked_pairs[k].symbol_b@),
        (s.positions[i].symbol_a@ == s.tracked_pairs[k].symbol_a@ && s.positions[i].symbol_b@
            == s.tracked_pairs[k].symbol_b@) || (s.positions[i].symbol_a@ == s.tracked_pairs[k].symbol_b@
            && s.positions[i].symbol_b@ == s.tracked_pairs[k].symbol_a@),
        ({
            let z = pair_zscore(m, prices, s.tracked_pairs[k]);
            &&& !z.nan() && !rules.zscore_exit.nan() && !rules.stop_loss_zscore.nan()
            &&& {
                ||| -rules.zscore_exit.rank() < z.rank() < rules.zscore_exit.rank()
                ||| z.rank() > rules.stop_loss_zscore.rank()
                ||| z.rank() < -rules.stop_loss_zscore.rank()
                ||| rules.hurst_exit.less(s.tracked_pairs[k].hurst)
            }
        }),
    ensures
        signals(m, s, rules, prices, s.tracked_pairs.len() as int).contains(
            Signal::ClosePosition {
                position_id: s.positions[i].id,
                zscore: pair_zscore(m, prices, s.tracked_pairs[k]),
            },
        ),
{
    let z = pair_zscore(m, prices, s.tracked_pairs[k]);
    exits_do_not_depend_on_the_sign(rules, s.tracked_pairs[k], z);
    no_exit_is_missed(m, s, rules, prices, k, i);
}

/// A signal to open names symbols of which no open position uses any, and comes only where there is
/// room.
pub proof fn entries_use_free_symbols(
    m: Arithmetic,
    s: StateView,
    rules: TradingConfig,
    prices: Map<Seq<char>, Num>,
    x: int,
    i: int,
)
    requires
        0 <= x < signals(m, s, rules, prices, s.tracked_pairs.len() as int).len(),
        0 <= i < s.positions.len(),
    ensures
        ({
            let p = s.positions[i];
            match signals(m, s, rules, prices, s.tracked_pairs.len() as int)[x] {
                Signal::OpenShort { symbol_a, symbol_b, zscore, .. } => {
                    &&& p.symbol_a@ != symbol_a@ && p.symbol_a@ != symbol_b@
                    &&& p.symbol_b@ != symbol_a@ && p.symbol_b@ != symbol_b@
                    &&& s.positions.len() < rules.max_open_positions
                    &&& rules.zscore_entry.less(zscore)
                },
                Signal::OpenLong { symbol_a, symbol_b, zscore, .. } => {
                    &&& p.symbol_a@ != symbol_a@ && p.symbol_a@ != symbol_b@
                    &&& p.symbol_b@ != symbol_a@ && p.symbol_b@ != symbol_b@
                    &&& s.positions.len() < rules.max_open_positions
                    &&& zscore.less(rules.zscore_entry.opposite())
                },
                Signal::ClosePosition { .. } => true,
            }
        }),
{
    signals_are_justified(m, s, rules, prices, s.tracked_pairs.len() as int);
    match signals(m, s, rules, prices, s.tracked_pairs.len() as int)[x] {
        Signal::OpenShort { symbol_a, symbol_b, zscore, hedge_ratio } => {
            let k = choose|k: int|
                0 <= k < s.tracked_pairs.len() && may_enter(m, s, rules, prices, #[trigger] s.tracked_pairs[k], zscore)
                    && s.tracked_pairs[k].symbol_a == symbol_a && s.tracked_pairs[k].symbol_b == symbol_b
                    && s.tracked_pairs[k].hedge_ratio == hedge_ratio;
            assert(!uses(s.positions[i], s.tracked_pairs[k]));
        },
        Signal::OpenLong { symbol_a, symbol_b, zscore, hedge_ratio } => {
            let k = choose|k: int|
                0 <= k < s.tracked_pairs.len() && may_enter(m, s, rules, prices, #[trigger] s.tracked_pairs[k], zscore)
                    && s.tracked_pairs[k].symbol_a == symbol_a && s.tracked_pairs[k].symbol_b == symbol_b
                    && s.tracked_pairs[k].hedge_ratio == hedge_ratio;
            assert(!uses(s.positions[i], s.tracked_pairs[k]));
        },
        _ => {},
    }
}

/// A tracked pair is entered where both symbols have a price and are used by no open position, there
/// is room, enough guard factors pass, and its z-score is beyond the entry threshold: short in the
/// spread above it, long below its negative.
pub proof fn free_pairs_are_entered(
    m: Arithmetic,
    s: StateView,
    rules: TradingConfig,
    prices: Map<Seq<char>, Num>,
    k: int,
)
    requires
        0 <= k < s.tracked_pairs.len(),
        prices.contains_key(s.tracked_pairs[k].symbol_a@),
        prices.contains_key(s.tracked_pairs[k].symbol_b@),
        s.positions.len() < rules.max_open_positions,
        s.tracked_pairs[k].entry_guard.score >= rules.entry_min_factors,
        forall|i: int|
            0 <= i < s.positions.len() ==> {
                let (p, q) = (#[trigger] s.positions[i], s.tracked_pairs[k]);
                &&& p.symbol_a@ != q.symbol_a@ && p.symbol_a@ != q.symbol_b@
                &&& p.symbol_b@ != q.symbol_a@ && p.symbol_b@ != q.symbol_b@
            },
    ensures
        ({
            let q = s.tracked_pairs[k];
            let z = pair_zscore(m, prices, q);
            let all = signals(m, s, rules, prices, s.tracked_pairs.len() as int);
            &&& rules.zscore_entry.less(z) ==> all.contains(
                Signal::OpenShort {
                    symbol_a: q.symbol_a,
                    symbol_b: q.symbol_b,
                    zscore: z,
                    hedge_ratio: q.hedge_ratio,
                },
            )
            &&& !rules.zscore_entry.less(z) && z.less(rules.zscore_entry.opposite()) ==> all.contains(
                Signal::OpenLong {
                    symbol_a: q.symbol_a,
                    symbol_b: q.symbol_b,
                    zscore: z,
                    hedge_ratio: q.hedge_ratio,
                },
            )
        }),
{
    let q = s.tracked_pairs[k];
    assert forall|i: int| 0 <= i < s.positions.len() implies !uses(#[trigger] s.positions[i], q) by {}
    assert forall|i: int| 0 <= i < s.positions.len() implies !holds(#[trigger] s.positions[i], q) by {}
    no_entry_is_missed(m, s, rules, prices, k);
}

/// The z-score of a pair in signals is that of the prices of its own two symbols, times its deviation
/// the distance of `b - ratio * a` from the mean.
pub proof fn pair_zscore_is_of_its_symbols(m: Arithmetic, prices: Map<Seq<char>, Num>, pair: TrackedPair)
    ensures
        ({
            let (a, b) = (prices[pair.symbol_a@], prices[pair.symbol_b@]);
            let distance = minus(m, minus(m, b, times(m, pair.hedge_ratio, a)), pair.spread_mean);
            let z = pair_zscore(m, prices, pair);
            if pair.spread_std.less(Num { bits: 0x3ddb_7cdf_d9d7_bdbb }) {
                z.bits == 0
            } else {
                z == over(m, distance, pair.spread_std)
            }
        }),
{
}

} // verus!
