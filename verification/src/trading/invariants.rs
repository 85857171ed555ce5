//! What the books keep whatever is traded.

use vstd::prelude::*;

use crate::arith::{minus, over, plus, times, total, Arithmetic};
use crate::clock::Timestamp;
use crate::num::Num;
use crate::stats::cointegration::CointResult;
use crate::trading::engine::{
    after_close, after_open, after_signal, after_signals, all_marked, can_open, closing_fill, closing_slip,
    closings, counters_fit, entry, exit_now, find_pair, find_position, has_open, holds, is_tracked,
    lemma_counts_are_not_negative, marked, new_pair, opening_slip, pair_signals, pair_zscore, priced, same_pair,
    settled, signals, symbol_busy, tracking, tracking_all, untracked, won, HUNDRED,
};
use crate::trading::models::fresh_state;
use crate::trading::models::{
    Position, PositionSide, PositionStatus, Signal, StateView, TrackedPair, TradingConfig,
};

verus! {

/// One leg is long and the other short.
pub open spec fn hedged(p: Position) -> bool {
    p.side_a != p.side_b
}

/// How many of the trades were won.
pub open spec fn wins(trades: Seq<Position>) -> int
    decreases trades.len(),
{
    if trades.len() == 0 {
        0
    } else {
        wins(trades.drop_last()) + if won(trades.last().pnl) {
            1int
        } else {
            0int
        }
    }
}

/// What each of the trades made.
pub open spec fn results(trades: Seq<Position>) -> Seq<Num> {
    trades.map_values(|p: Position| p.pnl)
}

/// The books add up.
///
/// Numbers below the next one have been given out, each to one position, which is open or closed.
/// Every closed one is counted as won or lost: the wins are those that did not lose, and the total is
/// the sum of what all closed ones made, oldest first.
pub open spec fn adds_up(m: Arithmetic, s: StateView) -> bool {
    &&& forall|i: int| 0 <= i < s.positions.len() ==> (#[trigger] s.positions[i]).id < s.next_position_id
    &&& forall|i: int| 0 <= i < s.closed_trades.len() ==> (#[trigger] s.closed_trades[i]).id < s.next_position_id
    &&& forall|i: int, j: int|
        0 <= i < j < s.positions.len() ==> (#[trigger] s.positions[i]).id != (#[trigger] s.positions[j]).id
    &&& forall|i: int, j: int|
        0 <= i < j < s.closed_trades.len() ==> (#[trigger] s.closed_trades[i]).id != (
        #[trigger] s.closed_trades[j]).id
    &&& forall|i: int, j: int|
        0 <= i < s.positions.len() && 0 <= j < s.closed_trades.len() ==> (#[trigger] s.positions[i]).id != (
        #[trigger] s.closed_trades[j]).id
    &&& s.win_count + s.loss_count == s.closed_trades.len()
    &&& s.win_count == wins(s.closed_trades)
    &&& s.total_pnl == total(m, results(s.closed_trades))
}

/// The books are in order: they add up, every position is hedged, and each stands where its status
/// says.
pub open spec fn in_order(m: Arithmetic, s: StateView) -> bool {
    &&& adds_up(m, s)
    &&& forall|i: int|
        0 <= i < s.positions.len() ==> (#[trigger] s.positions[i]).status == PositionStatus::Open && hedged(
            s.positions[i],
        )
    &&& forall|i: int|
        0 <= i < s.closed_trades.len() ==> (#[trigger] s.closed_trades[i]).status == PositionStatus::Closed
            && hedged(s.closed_trades[i])
}

/// The book of an account on which nothing has been traded is in order.
pub proof fn fresh_books_are_in_order(m: Arithmetic, balance: Num)
    ensures
        in_order(m, fresh_state(balance)),
{
    assert(results(fresh_state(balance).closed_trades) =~= Seq::<Num>::empty());
}

/// A search by number finds a position with that number, and the first one.
pub proof fn found_position_has_number(positions: Seq<Position>, id: u64)
    ensures
        match find_position(positions, id) {
            Some(at) => 0 <= at < positions.len() && positions[at].id == id && forall|j: int|
                0 <= j < at ==> (#[trigger] positions[j]).id != id,
            None => forall|j: int| 0 <= j < positions.len() ==> (#[trigger] positions[j]).id != id,
        },
    decreases positions.len(),
{
    if positions.len() > 0 {
        let head = positions.drop_last();
        found_position_has_number(head, id);
        assert forall|j: int| 0 <= j < head.len() implies head[j] == positions[j] by {}
        match find_position(head, id) {
            Some(at) => {
                assert(positions[at] == head[at]);
                assert forall|j: int| 0 <= j < at implies (#[trigger] positions[j]).id != id by {
                    assert(head[j].id != id);
                }
            },
            None => {
                assert forall|j: int| 0 <= j < head.len() implies (#[trigger] positions[j]).id != id by {
                    assert(head[j].id != id);
                }
            },
        }
    }
}

/// Carrying out a signal leaves books that add up, and keeps them in order.
pub proof fn signal_keeps_order(
    m: Arithmetic,
    rules: TradingConfig,
    s: StateView,
    signal: Signal,
    prices: Map<Seq<char>, Num>,
    now: Timestamp,
)
    requires
        adds_up(m, s),
        s.next_position_id < u64::MAX,
        s.win_count < u32::MAX,
        s.loss_count < u32::MAX,
    ensures
        adds_up(m, after_signal(m, rules, s, signal, prices, now)),
        in_order(m, s) ==> in_order(m, after_signal(m, rules, s, signal, prices, now)),
{
    match signal {
        Signal::ClosePosition { position_id, zscore } => {
            closing_keeps_order(m, rules, s, position_id, zscore, prices);
        },
        _ => {},
    }
}

proof fn closing_keeps_order(
    m: Arithmetic,
    rules: TradingConfig,
    s: StateView,
    id: u64,
    zscore: Num,
    prices: Map<Seq<char>, Num>,
)
    requires
        adds_up(m, s),
        s.win_count < u32::MAX,
        s.loss_count < u32::MAX,
    ensures
        adds_up(m, after_close(m, rules, s, id, zscore, prices)),
        in_order(m, s) ==> in_order(m, after_close(m, rules, s, id, zscore, prices)),
{
    found_position_has_number(s.positions, id);
    match find_position(s.positions, id) {
        None => {},
        Some(at) => {
            let next = after_close(m, rules, s, id, zscore, prices);
            assert forall|i: int| 0 <= i < next.positions.len() implies #[trigger] next.positions[i] == (if i < at {
                s.positions[i]
            } else {
                s.positions[i + 1]
            }) by {}
            assert(s.positions[at].id < s.next_position_id);
            assert(next.closed_trades.drop_last() =~= s.closed_trades);
            assert(results(next.closed_trades).drop_last() =~= results(s.closed_trades));
            assert forall|i: int, j: int| 0 <= i < j < next.closed_trades.len() implies (
            #[trigger] next.closed_trades[i]).id != (#[trigger] next.closed_trades[j]).id by {
                if j == s.closed_trades.len() {
                    assert(s.positions[at].id != s.closed_trades[i].id);
                }
            }
        },
    }
}

/// Carrying out any list of signals leaves books that add up, and keeps them in order.
pub proof fn signals_keep_order(
    m: Arithmetic,
    rules: TradingConfig,
    s: StateView,
    signals: Seq<Signal>,
    prices: Map<Seq<char>, Num>,
    moments: Seq<Timestamp>,
    n: int,
)
    requires
        adds_up(m, s),
        counters_fit(s, signals, 0),
        0 <= n <= signals.len(),
    ensures
        adds_up(m, after_signals(m, rules, s, signals, prices, moments, n)),
        in_order(m, s) ==> in_order(m, after_signals(m, rules, s, signals, prices, moments, n)),
        counters_fit(after_signals(m, rules, s, signals, prices, moments, n), signals, n),
    decreases n,
{
    if n > 0 {
        signals_keep_order(m, rules, s, signals, prices, moments, n - 1);
        let before = after_signals(m, rules, s, signals, prices, moments, n - 1);
        lemma_counts_are_not_negative(signals, n);
        match signals[n - 1] {
            Signal::ClosePosition { position_id, zscore } => {
                closing_keeps_order(m, rules, before, position_id, zscore, prices);
            },
            _ => {},
        }
    }
}

/// Bringing positions to the latest prices leaves books that add up, keeps them in order and changes
/// no number, side, quantity, size, fee or entry price.
pub proof fn marking_keeps_order(m: Arithmetic, s: StateView, prices: Map<Seq<char>, Num>)
    requires
        adds_up(m, s),
    ensures
        adds_up(m, all_marked(m, s, prices)),
        in_order(m, s) ==> in_order(m, all_marked(m, s, prices)),
        all_marked(m, s, prices).positions.len() == s.positions.len(),
        forall|i: int|
            0 <= i < s.positions.len() ==> ({
                let p = s.positions[i];
                let q = #[trigger] all_marked(m, s, prices).positions[i];
                &&& q.id == p.id
                &&& q.symbol_a == p.symbol_a
                &&& q.symbol_b == p.symbol_b
                &&& q.side_a == p.side_a
                &&& q.side_b == p.side_b
                &&& q.qty_a == p.qty_a
                &&& q.qty_b == p.qty_b
                &&& q.entry_price_a == p.entry_price_a
                &&& q.entry_price_b == p.entry_price_b
                &&& q.entry_zscore == p.entry_zscore
                &&& q.entry_time == p.entry_time
                &&& q.size == p.size
                &&& q.entry_fee == p.entry_fee
            }),
{
    let next = all_marked(m, s, prices);
    assert forall|i: int| 0 <= i < next.positions.len() implies #[trigger] next.positions[i] == marked(
        m,
        s.tracked_pairs,
        prices,
        s.positions[i],
    ) by {}
}

proof fn lemma_pair_goes_by_symbols(pairs: Seq<TrackedPair>, p: Position, q: Position)
    requires
        p.symbol_a == q.symbol_a,
        p.symbol_b == q.symbol_b,
    ensures
        find_pair(pairs, p) == find_pair(pairs, q),
    decreases pairs.len(),
{
    if pairs.len() > 0 {
        lemma_pair_goes_by_symbols(pairs.drop_last(), p, q);
    }
}

/// A second look at the same prices changes nothing: what a position has made is worked out anew,
/// not added up.
pub proof fn marking_twice_is_marking_once(m: Arithmetic, s: StateView, prices: Map<Seq<char>, Num>)
    ensures
        forall|p: Position|
            marked(m, s.tracked_pairs, prices, #[trigger] marked(m, s.tracked_pairs, prices, p)) == marked(
                m,
                s.tracked_pairs,
                prices,
                p,
            ),
        all_marked(m, all_marked(m, s, prices), prices) == all_marked(m, s, prices),
{
    let pairs = s.tracked_pairs;
    assert forall|p: Position|
        marked(m, pairs, prices, #[trigger] marked(m, pairs, prices, p)) == marked(m, pairs, prices, p) by {
        lemma_pair_goes_by_symbols(pairs, marked(m, pairs, prices, p), p);
    }
    let once = all_marked(m, s, prices);
    let twice = all_marked(m, once, prices);
    assert forall|i: int| 0 <= i < once.positions.len() implies #[trigger] twice.positions[i] == once.positions[i] by {
        assert(once.positions[i] == marked(m, pairs, prices, s.positions[i]));
    }
    assert(twice.positions =~= once.positions);
}

/// The z-score that a position is shown with is that of its tracked pair, where both name the symbols
/// in the same order.
pub proof fn marked_zscore_is_that_of_the_pair(
    m: Arithmetic,
    pairs: Seq<TrackedPair>,
    prices: Map<Seq<char>, Num>,
    p: Position,
)
    requires
        find_pair(pairs, p) is Some,
        priced(prices, pairs[find_pair(pairs, p)->0]),
        p.symbol_a@ == pairs[find_pair(pairs, p)->0].symbol_a@,
    ensures
        marked(m, pairs, prices, p).current_zscore == pair_zscore(m, prices, pairs[find_pair(pairs, p)->0]),
{
    lemma_found_pair_is_held(pairs, p);
}

proof fn lemma_found_pair_is_held(pairs: Seq<TrackedPair>, p: Position)
    ensures
        find_pair(pairs, p) matches Some(k) ==> 0 <= k < pairs.len() && holds(p, pairs[k]),
    decreases pairs.len(),
{
    if pairs.len() > 0 {
        lemma_found_pair_is_held(pairs.drop_last(), p);
    }
}

/// No number of signals opens more positions than the limit allows: there are never more than the
/// limit, or than there were before.
pub proof fn open_positions_are_limited(
    m: Arithmetic,
    rules: TradingConfig,
    s: StateView,
    signals: Seq<Signal>,
    prices: Map<Seq<char>, Num>,
    moments: Seq<Timestamp>,
    n: int,
)
    requires
        0 <= n <= signals.len(),
    ensures
        ({
            let next = after_signals(m, rules, s, signals, prices, moments, n);
            next.positions.len() <= rules.max_open_positions || next.positions.len() <= s.positions.len()
        }),
    decreases n,
{
    if n > 0 {
        open_positions_are_limited(m, rules, s, signals, prices, moments, n - 1);
        let before = after_signals(m, rules, s, signals, prices, moments, n - 1);
        match signals[n - 1] {
            Signal::ClosePosition { position_id, .. } => {
                found_position_has_number(before.positions, position_id);
            },
            _ => {},
        }
    }
}

/// A position that has opened can be found under the number it was given, and it is the one asked
/// for: its symbols, sides and z-score. It has taken its share of the balance, and each leg has paid
/// the commission on its half.
pub proof fn opened_position_is_found(
    m: Arithmetic,
    rules: TradingConfig,
    s: StateView,
    symbol_a: String,
    symbol_b: String,
    side_a: PositionSide,
    side_b: PositionSide,
    zscore: Num,
    hedge_ratio: Num,
    prices: Map<Seq<char>, Num>,
    now: Timestamp,
)
    requires
        adds_up(m, s),
        can_open(s, rules, symbol_a@, symbol_b@, prices),
    ensures
        ({
            let next = after_open(
                m,
                rules,
                s,
                symbol_a,
                symbol_b,
                side_a,
                side_b,
                zscore,
                hedge_ratio,
                prices,
                now,
            );
            let p = next.positions.last();
            &&& find_position(next.positions, s.next_position_id) == Some(s.positions.len() as int)
            &&& next.positions.drop_last() == s.positions
            &&& p.symbol_a == symbol_a
            &&& p.symbol_b == symbol_b
            &&& p.side_a == side_a
            &&& p.side_b == side_b
            &&& p.entry_zscore == zscore
            &&& p.entry_time == now
            &&& p.size == times(m, s.balance, rules.max_position_pct)
            &&& p.entry_fee == over(m, times(m, p.size, rules.commission_pct), Num { bits: HUNDRED }).opposite()
            &&& next.balance == minus(m, s.balance, plus(m, p.size, p.entry_fee.opposite()))
        }),
{
    let next = after_open(m, rules, s, symbol_a, symbol_b, side_a, side_b, zscore, hedge_ratio, prices, now);
    assert(next.positions.drop_last() =~= s.positions);
    found_position_has_number(s.positions, s.next_position_id);
    match find_position(s.positions, s.next_position_id) {
        Some(at) => {
            assert(s.positions[at].id < s.next_position_id);
        },
        None => {},
    }
}

/// A position that has closed is no longer open, is the newest closed trade, and every other one
/// stays as it was. One trade more has been won or lost. The money that its opening took comes back
/// with what it made.
pub proof fn closed_position_moves(
    m: Arithmetic,
    rules: TradingConfig,
    s: StateView,
    id: u64,
    zscore: Num,
    prices: Map<Seq<char>, Num>,
)
    requires
        adds_up(m, s),
        find_position(s.positions, id) is Some,
        s.win_count < u32::MAX,
        s.loss_count < u32::MAX,
    ensures
        ({
            let at = find_position(s.positions, id)->0;
            let next = after_close(m, rules, s, id, zscore, prices);
            &&& find_position(next.positions, id) is None
            &&& next.positions == s.positions.remove(at)
            &&& next.closed_trades.drop_last() == s.closed_trades
            &&& next.closed_trades.last() == settled(
                s.positions[at],
                zscore,
                closing_fill(m, s, rules, s.positions[at], prices),
            )
            &&& next.win_count + next.loss_count == s.win_count + s.loss_count + 1
            &&& next.tracked_pairs == s.tracked_pairs
            &&& next.balance == plus(m, s.balance, plus(m, s.positions[at].size, next.closed_trades.last().pnl))
        }),
{
    found_position_has_number(s.positions, id);
    let at = find_position(s.positions, id)->0;
    let next = after_close(m, rules, s, id, zscore, prices);
    assert(next.closed_trades.drop_last() =~= s.closed_trades);
    found_position_has_number(next.positions, id);
    assert forall|i: int| 0 <= i < next.positions.len() implies (#[trigger] next.positions[i]).id != id by {
        if i < at {
            assert(next.positions[i] == s.positions[i]);
        } else {
            assert(next.positions[i] == s.positions[i + 1]);
        }
    }
}

/// Closing a position that is not there changes nothing.
pub proof fn closing_twice_is_closing_once(
    m: Arithmetic,
    rules: TradingConfig,
    s: StateView,
    id: u64,
    zscore: Num,
    prices: Map<Seq<char>, Num>,
)
    requires
        adds_up(m, s),
        s.win_count < u32::MAX,
        s.loss_count < u32::MAX,
    ensures
        ({
            let once = after_close(m, rules, s, id, zscore, prices);
            after_close(m, rules, once, id, zscore, prices) == once
        }),
{
    if find_position(s.positions, id) is Some {
        closed_position_moves(m, rules, s, id, zscore, prices);
    }
}

/// Closing an unknown position changes nothing, and neither does opening one without room or without
/// two prices above zero.
pub proof fn idle_signals_change_nothing(
    m: Arithmetic,
    rules: TradingConfig,
    s: StateView,
    signal: Signal,
    prices: Map<Seq<char>, Num>,
    now: Timestamp,
)
    requires
        match signal {
            Signal::ClosePosition { position_id, .. } => forall|i: int|
                0 <= i < s.positions.len() ==> (#[trigger] s.positions[i]).id != position_id,
            Signal::OpenLong { symbol_a, symbol_b, .. } => !can_open(s, rules, symbol_a@, symbol_b@, prices),
            Signal::OpenShort { symbol_a, symbol_b, .. } => !can_open(s, rules, symbol_a@, symbol_b@, prices),
        },
    ensures
        after_signal(m, rules, s, signal, prices, now) == s,
{
    match signal {
        Signal::ClosePosition { position_id, .. } => {
            found_position_has_number(s.positions, position_id);
        },
        _ => {},
    }
}

/// Signals leave the tracked pairs and the initial balance alone, and closed trades stay as they
/// are: new ones come after them, marked as closed.
pub proof fn closed_trades_only_grow(
    m: Arithmetic,
    rules: TradingConfig,
    s: StateView,
    signals: Seq<Signal>,
    prices: Map<Seq<char>, Num>,
    moments: Seq<Timestamp>,
    n: int,
)
    requires
        0 <= n <= signals.len(),
    ensures
        ({
            let next = after_signals(m, rules, s, signals, prices, moments, n);
            &&& s.closed_trades.is_prefix_of(next.closed_trades)
            &&& forall|i: int|
                s.closed_trades.len() <= i < next.closed_trades.len() ==> (#[trigger] next.closed_trades[i]).status
                    == PositionStatus::Closed
            &&& next.tracked_pairs == s.tracked_pairs
            &&& next.initial_balance == s.initial_balance
        }),
    decreases n,
{
    let next = after_signals(m, rules, s, signals, prices, moments, n);
    if n > 0 {
        closed_trades_only_grow(m, rules, s, signals, prices, moments, n - 1);
        let before = after_signals(m, rules, s, signals, prices, moments, n - 1);
        assert forall|i: int| 0 <= i < s.closed_trades.len() implies #[trigger] next.closed_trades[i]
            == s.closed_trades[i] by {
            assert(before.closed_trades[i] == before.closed_trades.subrange(0, s.closed_trades.len() as int)[i]);
        }
    }
    assert(s.closed_trades =~= next.closed_trades.subrange(0, s.closed_trades.len() as int));
}

/// The overvalued leg is sold and the undervalued one bought. Above the entry threshold B is dear
/// for the price of A: the position that opens is long in A and short in B. Below minus the
/// threshold it is the other way round.
pub proof fn overvalued_leg_is_sold(
    m: Arithmetic,
    rules: TradingConfig,
    s: StateView,
    pair: TrackedPair,
    z: Num,
    prices: Map<Seq<char>, Num>,
    now: Timestamp,
)
    requires
        pair.entry_guard.score >= rules.entry_min_factors,
        can_open(s, rules, pair.symbol_a@, pair.symbol_b@, prices),
    ensures
        rules.zscore_entry.less(z) ==> ({
            let p = after_signal(m, rules, s, entry(rules, pair, z)[0], prices, now).positions.last();
            &&& entry(rules, pair, z).len() == 1
            &&& p.symbol_a == pair.symbol_a
            &&& p.symbol_b == pair.symbol_b
            &&& p.side_a is Long
            &&& p.side_b is Short
        }),
        !rules.zscore_entry.less(z) && z.less(rules.zscore_entry.opposite()) ==> ({
            let p = after_signal(m, rules, s, entry(rules, pair, z)[0], prices, now).positions.last();
            &&& entry(rules, pair, z).len() == 1
            &&& p.symbol_a == pair.symbol_a
            &&& p.symbol_b == pair.symbol_b
            &&& p.side_a is Short
            &&& p.side_b is Long
        }),
{
}

/// Slippage is against the trader both ways: a leg that is bought to open is sold to close, and the
/// other way round.
pub proof fn closing_slips_the_other_way(side_a: PositionSide, side_b: PositionSide)
    requires
        side_a != side_b,
    ensures
        opening_slip(side_a, side_b).0 is Up <==> closing_slip(side_a, side_b).0 is Down,
        opening_slip(side_a, side_b).0 is Down <==> closing_slip(side_a, side_b).0 is Up,
        opening_slip(side_a, side_b).1 is Up <==> closing_slip(side_a, side_b).1 is Down,
        opening_slip(side_a, side_b).1 is Down <==> closing_slip(side_a, side_b).1 is Up,
        side_a is Long <==> opening_slip(side_a, side_b).0 is Up,
        side_b is Long <==> opening_slip(side_a, side_b).1 is Up,
{
}

/// No two of the pairs have the same symbols.
pub open spec fn distinct_pairs(pairs: Seq<TrackedPair>) -> bool {
    forall|i: int, j: int|
        0 <= i < j < pairs.len() ==> !same_pair(
            (#[trigger] pairs[i]).symbol_a@,
            pairs[i].symbol_b@,
            (#[trigger] pairs[j]).symbol_a@,
            pairs[j].symbol_b@,
        )
}

/// None of the pairs takes longer to revert than the rules allow.
pub open spec fn fast_pairs(pairs: Seq<TrackedPair>, rules: TradingConfig) -> bool {
    forall|i: int| 0 <= i < pairs.len() ==> !rules.min_half_life.less((#[trigger] pairs[i]).half_life)
}

/// Tracking a pair never makes a pair tracked twice, nor one that reverts too slowly. It drops no
/// pair and leaves the books alone.
pub proof fn tracking_keeps_pairs_distinct(
    s: StateView,
    rules: TradingConfig,
    r: CointResult,
    discovered_at: Timestamp,
    last_updated: Timestamp,
)
    requires
        distinct_pairs(s.tracked_pairs),
        fast_pairs(s.tracked_pairs, rules),
    ensures
        ({
            let next = tracking(s, rules, r, discovered_at, last_updated);
            &&& distinct_pairs(next.tracked_pairs)
            &&& fast_pairs(next.tracked_pairs, rules)
            &&& next == (StateView { tracked_pairs: next.tracked_pairs, ..s })
            &&& is_tracked(next.tracked_pairs, r) <==> is_tracked(s.tracked_pairs, r) || !rules.min_half_life.less(
                r.half_life_periods,
            )
            &&& forall|q: CointResult| is_tracked(s.tracked_pairs, q) ==> #[trigger] is_tracked(next.tracked_pairs, q)
        }),
{
    let next = tracking(s, rules, r, discovered_at, last_updated);
    assert forall|q: CointResult| is_tracked(s.tracked_pairs, q) implies #[trigger] is_tracked(
        next.tracked_pairs,
        q,
    ) by {
        let i = choose|i: int|
            0 <= i < s.tracked_pairs.len() && same_pair(
                (#[trigger] s.tracked_pairs[i]).symbol_a@,
                s.tracked_pairs[i].symbol_b@,
                q.symbol_a@,
                q.symbol_b@,
            );
        assert(next.tracked_pairs[i] == s.tracked_pairs[i]);
    }
    if !is_tracked(s.tracked_pairs, r) && !rules.min_half_life.less(r.half_life_periods) {
        let n = s.tracked_pairs.len() as int;
        let added = next.tracked_pairs[n];
        assert(added == new_pair(r, discovered_at, last_updated));
        assert(same_pair(added.symbol_a@, added.symbol_b@, r.symbol_a@, r.symbol_b@));
        assert(is_tracked(next.tracked_pairs, r));
        assert forall|i: int, j: int| 0 <= i < j < next.tracked_pairs.len() implies !same_pair(
            (#[trigger] next.tracked_pairs[i]).symbol_a@,
            next.tracked_pairs[i].symbol_b@,
            (#[trigger] next.tracked_pairs[j]).symbol_a@,
            next.tracked_pairs[j].symbol_b@,
        ) by {
            let p = s.tracked_pairs[i];
            if j == n {
                assert(!same_pair(p.symbol_a@, p.symbol_b@, r.symbol_a@, r.symbol_b@));
            } else {
                let q = s.tracked_pairs[j];
                assert(!same_pair(p.symbol_a@, p.symbol_b@, q.symbol_a@, q.symbol_b@));
            }
        }
        assert forall|i: int| 0 <= i < next.tracked_pairs.len() implies !rules.min_half_life.less(
            (#[trigger] next.tracked_pairs[i]).half_life,
        ) by {
            if i < n {
                assert(next.tracked_pairs[i] == s.tracked_pairs[i]);
            }
        }
    }
}

/// After a scan every tracked pair is tracked once, reverts fast enough, and stands for one of the
/// results of the scan. Every result that reverts fast enough is tracked.
pub proof fn scan_tracks_distinct_pairs(
    s: StateView,
    rules: TradingConfig,
    results: Seq<CointResult>,
    moments: Seq<(Timestamp, Timestamp)>,
    n: int,
)
    requires
        0 <= n <= results.len(),
    ensures
        ({
            let next = tracking_all(untracked(s), rules, results, moments, n);
            &&& distinct_pairs(next.tracked_pairs)
            &&& fast_pairs(next.tracked_pairs, rules)
            &&& next == (StateView { tracked_pairs: next.tracked_pairs, ..s })
            &&& forall|i: int|
                0 <= i < next.tracked_pairs.len() ==> stands_for_a_result(#[trigger] next.tracked_pairs[i], results, n)
            &&& forall|k: int|
                0 <= k < n && !rules.min_half_life.less((#[trigger] results[k]).half_life_periods) ==> is_tracked(
                    next.tracked_pairs,
                    results[k],
                )
        }),
    decreases n,
{
    if n > 0 {
        scan_tracks_distinct_pairs(s, rules, results, moments, n - 1);
        let before = tracking_all(untracked(s), rules, results, moments, n - 1);
        tracking_keeps_pairs_distinct(before, rules, results[n - 1], moments[n - 1].0, moments[n - 1].1);
        let next = tracking_all(untracked(s), rules, results, moments, n);
        assert forall|i: int| 0 <= i < next.tracked_pairs.len() implies stands_for_a_result(
            #[trigger] next.tracked_pairs[i],
            results,
            n,
        ) by {
            if i < before.tracked_pairs.len() {
                assert(next.tracked_pairs[i] == before.tracked_pairs[i]);
                assert(stands_for_a_result(before.tracked_pairs[i], results, n - 1));
            } else {
                let r = results[n - 1];
                assert(next.tracked_pairs[i].symbol_a == r.symbol_a);
            }
        }
        assert forall|k: int| 0 <= k < n && !rules.min_half_life.less(
            (#[trigger] results[k]).half_life_periods,
        ) implies is_tracked(next.tracked_pairs, results[k]) by {
            if k < n - 1 {
                assert(is_tracked(before.tracked_pairs, results[k]));
            }
        }
    }
}

/// The pair is one of the first `n` results.
pub open spec fn stands_for_a_result(pair: TrackedPair, results: Seq<CointResult>, n: int) -> bool {
    exists|k: int|
        0 <= k < n && (#[trigger] results[k]).symbol_a == pair.symbol_a && results[k].symbol_b == pair.symbol_b
            && results[k].hedge_ratio == pair.hedge_ratio && results[k].half_life_periods == pair.half_life
}

/// A signal to open is for a tracked pair with both prices: nothing is held in it, no open position
/// uses its symbols, there is room, enough guard factors pass, and its z-score is above the entry
/// threshold to go short in the spread, or below minus the threshold to go long. A signal to close
/// is for an open position in a tracked pair with both prices whose exit condition is met.
pub open spec fn justified(
    m: Arithmetic,
    s: StateView,
    rules: TradingConfig,
    prices: Map<Seq<char>, Num>,
    signal: Signal,
) -> bool {
    match signal {
        Signal::OpenShort { symbol_a, symbol_b, zscore, hedge_ratio } => rules.zscore_entry.less(zscore) && exists|
            k: int,
        |
            0 <= k < s.tracked_pairs.len() && may_enter(m, s, rules, prices, #[trigger] s.tracked_pairs[k], zscore)
                && s.tracked_pairs[k].symbol_a == symbol_a && s.tracked_pairs[k].symbol_b == symbol_b
                && s.tracked_pairs[k].hedge_ratio == hedge_ratio,
        Signal::OpenLong { symbol_a, symbol_b, zscore, hedge_ratio } => zscore.less(rules.zscore_entry.opposite())
            && exists|k: int|
            0 <= k < s.tracked_pairs.len() && may_enter(m, s, rules, prices, #[trigger] s.tracked_pairs[k], zscore)
                && s.tracked_pairs[k].symbol_a == symbol_a && s.tracked_pairs[k].symbol_b == symbol_b
                && s.tracked_pairs[k].hedge_ratio == hedge_ratio,
        Signal::ClosePosition { position_id, zscore } => exists|k: int, i: int|
            0 <= k < s.tracked_pairs.len() && 0 <= i < s.positions.len() && holds(
                #[trigger] s.positions[i],
                #[trigger] s.tracked_pairs[k],
            ) && s.positions[i].id == position_id && priced(prices, s.tracked_pairs[k]) && zscore == pair_zscore(
                m,
                prices,
                s.tracked_pairs[k],
            ) && exit_now(rules, s.tracked_pairs[k], zscore),
    }
}

/// May the pair be entered at this z-score, as far as its size does not matter?
pub open spec fn may_enter(
    m: Arithmetic,
    s: StateView,
    rules: TradingConfig,
    prices: Map<Seq<char>, Num>,
    pair: TrackedPair,
    z: Num,
) -> bool {
    &&& priced(prices, pair)
    &&& z == pair_zscore(m, prices, pair)
    &&& !has_open(s.positions, pair)
    &&& !symbol_busy(s.positions, pair)
    &&& s.positions.len() < rules.max_open_positions
    &&& pair.entry_guard.score >= rules.entry_min_factors
}

proof fn lemma_closings_name_positions(positions: Seq<Position>, pair: TrackedPair, z: Num)
    ensures
        forall|x: int|
            0 <= x < closings(positions, pair, z).len() ==> names_a_holding(
                #[trigger] closings(positions, pair, z)[x],
                positions,
                pair,
                z,
            ),
    decreases positions.len(),
{
    if positions.len() > 0 {
        let head = positions.drop_last();
        lemma_closings_name_positions(head, pair, z);
        assert forall|x: int| 0 <= x < closings(positions, pair, z).len() implies names_a_holding(
            #[trigger] closings(positions, pair, z)[x],
            positions,
            pair,
            z,
        ) by {
            if x < closings(head, pair, z).len() {
                assert(closings(positions, pair, z)[x] == closings(head, pair, z)[x]);
                let i = choose|i: int|
                    0 <= i < head.len() && holds(#[trigger] head[i], pair) && closings(head, pair, z)[x]
                        == (Signal::ClosePosition { position_id: head[i].id, zscore: z });
                assert(positions[i] == head[i]);
            } else {
                assert(holds(positions[positions.len() - 1], pair));
            }
        }
    }
}

spec fn names_a_holding(signal: Signal, positions: Seq<Position>, pair: TrackedPair, z: Num) -> bool {
    exists|i: int|
        0 <= i < positions.len() && holds(#[trigger] positions[i], pair) && signal == (Signal::ClosePosition {
            position_id: positions[i].id,
            zscore: z,
        })
}

/// Every signal is justified: openings by a free pair with room, a strong z-score and enough guard
/// factors; closings by a held pair whose exit condition is met.
pub proof fn signals_are_justified(
    m: Arithmetic,
    s: StateView,
    rules: TradingConfig,
    prices: Map<Seq<char>, Num>,
    n: int,
)
    requires
        0 <= n <= s.tracked_pairs.len(),
    ensures
        forall|x: int|
            0 <= x < signals(m, s, rules, prices, n).len() ==> justified(
                m,
                s,
                rules,
                prices,
                #[trigger] signals(m, s, rules, prices, n)[x],
            ),
    decreases n,
{
    if n > 0 {
        signals_are_justified(m, s, rules, prices, n - 1);
        let pair = s.tracked_pairs[n - 1];
        let before = signals(m, s, rules, prices, n - 1);
        if priced(prices, pair) {
            let z = pair_zscore(m, prices, pair);
            let more = pair_signals(s, rules, pair, z);
            lemma_closings_name_positions(s.positions, pair, z);
            assert forall|x: int| 0 <= x < signals(m, s, rules, prices, n).len() implies justified(
                m,
                s,
                rules,
                prices,
                #[trigger] signals(m, s, rules, prices, n)[x],
            ) by {
                if x < before.len() {
                    assert(signals(m, s, rules, prices, n)[x] == before[x]);
                } else {
                    let y = x - before.len();
                    assert(signals(m, s, rules, prices, n)[x] == more[y]);
                    if has_open(s.positions, pair) {
                        assert(names_a_holding(closings(s.positions, pair, z)[y], s.positions, pair, z));
                        let i = choose|i: int|
                            0 <= i < s.positions.len() && holds(#[trigger] s.positions[i], pair) && more[y]
                                == (Signal::ClosePosition { position_id: s.positions[i].id, zscore: z });
                        assert(holds(s.positions[i], s.tracked_pairs[n - 1]));
                    } else {
                        assert(may_enter(m, s, rules, prices, s.tracked_pairs[n - 1], z));
                    }
                }
            }
        }
    }
}

/// The signals to close what is held in a pair open nothing.
pub proof fn closings_only_close(positions: Seq<Position>, pair: TrackedPair, z: Num)
    ensures
        forall|x: int|
            0 <= x < closings(positions, pair, z).len() ==> (#[trigger] closings(positions, pair, z)[x]) is ClosePosition,
{
    lemma_closings_name_positions(positions, pair, z);
    assert forall|x: int| 0 <= x < closings(positions, pair, z).len() implies (
    #[trigger] closings(positions, pair, z)[x]) is ClosePosition by {
        assert(names_a_holding(closings(positions, pair, z)[x], positions, pair, z));
    }
}

/// A pair is never entered and left at once: it gives closings only, or one opening, or nothing.
pub proof fn pair_enters_or_leaves(s: StateView, rules: TradingConfig, pair: TrackedPair, z: Num)
    ensures
        ({
            let out = pair_signals(s, rules, pair, z);
            ||| forall|x: int| 0 <= x < out.len() ==> (#[trigger] out[x]) is ClosePosition
            ||| out.len() == 1
        }),
{
    closings_only_close(s.positions, pair, z);
}

proof fn lemma_holdings_are_closed(positions: Seq<Position>, pair: TrackedPair, z: Num, i: int)
    requires
        0 <= i < positions.len(),
        holds(positions[i], pair),
    ensures
        closings(positions, pair, z).contains(Signal::ClosePosition { position_id: positions[i].id, zscore: z }),
    decreases positions.len(),
{
    let head = positions.drop_last();
    let all = closings(positions, pair, z);
    let signal = Signal::ClosePosition { position_id: positions[i].id, zscore: z };
    if i < head.len() {
        assert(head[i] == positions[i]);
        lemma_holdings_are_closed(head, pair, z, i);
        let before = closings(head, pair, z);
        let x = choose|x: int| 0 <= x < before.len() && before[x] == signal;
        assert(all[x] == signal);
    } else {
        assert(all[all.len() - 1] == signal);
    }
}

proof fn lemma_signals_of_pair_are_there(
    m: Arithmetic,
    s: StateView,
    rules: TradingConfig,
    prices: Map<Seq<char>, Num>,
    n: int,
    k: int,
    signal: Signal,
)
    requires
        0 <= k < n <= s.tracked_pairs.len(),
        priced(prices, s.tracked_pairs[k]),
        pair_signals(s, rules, s.tracked_pairs[k], pair_zscore(m, prices, s.tracked_pairs[k])).contains(signal),
    ensures
        signals(m, s, rules, prices, n).contains(signal),
    decreases n,
{
    let all = signals(m, s, rules, prices, n);
    let before = signals(m, s, rules, prices, n - 1);
    if k < n - 1 {
        lemma_signals_of_pair_are_there(m, s, rules, prices, n - 1, k, signal);
        let x = choose|x: int| 0 <= x < before.len() && before[x] == signal;
        assert(all[x] == signal);
    } else {
        let more = pair_signals(s, rules, s.tracked_pairs[k], pair_zscore(m, prices, s.tracked_pairs[k]));
        let x = choose|x: int| 0 <= x < more.len() && more[x] == signal;
        assert(all[before.len() + x] == signal);
    }
}

/// No exit is missed: every position in a tracked pair with both prices is told to close when the
/// exit condition of the pair is met.
pub proof fn no_exit_is_missed(
    m: Arithmetic,
    s: StateView,
    rules: TradingConfig,
    prices: Map<Seq<char>, Num>,
    k: int,
    i: int,
)
    requires
        0 <= k < s.tracked_pairs.len(),
        0 <= i < s.positions.len(),
        holds(s.positions[i], s.tracked_pairs[k]),
        priced(prices, s.tracked_pairs[k]),
        exit_now(rules, s.tracked_pairs[k], pair_zscore(m, prices, s.tracked_pairs[k])),
    ensures
        signals(m, s, rules, prices, s.tracked_pairs.len() as int).contains(
            Signal::ClosePosition {
                position_id: s.positions[i].id,
                zscore: pair_zscore(m, prices, s.tracked_pairs[k]),
            },
        ),
{
    let pair = s.tracked_pairs[k];
    let z = pair_zscore(m, prices, pair);
    assert(has_open(s.positions, pair));
    lemma_holdings_are_closed(s.positions, pair, z, i);
    lemma_signals_of_pair_are_there(
        m,
        s,
        rules,
        prices,
        s.tracked_pairs.len() as int,
        k,
        Signal::ClosePosition { position_id: s.positions[i].id, zscore: z },
    );
}

/// No entry is missed: a tracked pair that may be entered is entered when its z-score is beyond the
/// threshold, short in the spread above it and long below its negative.
pub proof fn no_entry_is_missed(
    m: Arithmetic,
    s: StateView,
    rules: TradingConfig,
    prices: Map<Seq<char>, Num>,
    k: int,
)
    requires
        0 <= k < s.tracked_pairs.len(),
        may_enter(m, s, rules, prices, s.tracked_pairs[k], pair_zscore(m, prices, s.tracked_pairs[k])),
    ensures
        ({
            let pair = s.tracked_pairs[k];
            let z = pair_zscore(m, prices, pair);
            let all = signals(m, s, rules, prices, s.tracked_pairs.len() as int);
            &&& rules.zscore_entry.less(z) ==> all.contains(
                Signal::OpenShort {
                    symbol_a: pair.symbol_a,
                    symbol_b: pair.symbol_b,
                    zscore: z,
                    hedge_ratio: pair.hedge_ratio,
                },
            )
            &&& !rules.zscore_entry.less(z) && z.less(rules.zscore_entry.opposite()) ==> all.contains(
                Signal::OpenLong {
                    symbol_a: pair.symbol_a,
                    symbol_b: pair.symbol_b,
                    zscore: z,
                    hedge_ratio: pair.hedge_ratio,
                },
            )
        }),
{
    let pair = s.tracked_pairs[k];
    let z = pair_zscore(m, prices, pair);
    let more = pair_signals(s, rules, pair, z);
    if more.len() > 0 {
        assert(more.contains(more[0]));
        lemma_signals_of_pair_are_there(m, s, rules, prices, s.tracked_pairs.len() as int, k, more[0]);
    }
}

} // verus!
