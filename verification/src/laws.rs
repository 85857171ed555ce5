//! What the parts of the program do, told by what goes in and what comes out.

use vstd::prelude::*;

use crate::alerts::{close_note, open_note, with_opening, Alert, Outbox};
use crate::arith::{log, minus, over, times, whole, Arithmetic};
use crate::candle_cache::{after_insert, after_update, after_update_last, series_of};
use crate::clock::Timestamp;
use crate::config::{engine_rules, overridden, AppConfig, Overrides};
use crate::decimal::Numerals;
use crate::display::{hurst_level_of, momentum_level_of, summary_of, zscore_level_of};
use crate::exchange::bybit::{
    by_volume, listed_symbols_are_tradable, tradable, tradables, InstrumentView, TickerView,
};
use crate::exchange::history::{after_page, finished, oldest_is_least, pages_join_history, Progress};
use crate::exchange::history::{has_moment, in_time_order};
use crate::exchange::traits::Kline;
use crate::monitor::{cached_prices, refreshed, unpriced, GuardSettings};
use crate::num::{Num, ZERO};
use crate::rank::ranked;
use crate::scanner::finder::{
    cointegrated_pairs, cointegrated_pairs_are_sound, correlated_pairs, correlated_pairs_are_sound, correlation_of,
    divergence, log_returns, no_cointegrated_pair_is_missed, strength, verdict, verdicts, CointFinder, PairView,
};
use crate::stats::cointegration::{cointegration_of, measured_guard, newest, CointResult, CointView};
use crate::stats::math::pearson_of;
use crate::trading::engine::{pair_zscore, tracking};
use crate::trading::invariants::found_position_has_number;
use crate::trading::models::{Position, Signal, StateView, TrackedPair, TradingConfig};
use crate::ws::{after_tick, CacheState, Tick};

verus! {

/// The logarithmic returns of the last `n` prices.
pub open spec fn last_returns(m: Arithmetic, prices: Seq<Num>, n: int) -> Seq<Num> {
    let from = prices.len() - n;
    Seq::new((n - 1) as nat, |i: int| log(m, over(m, prices[from + i + 1], prices[from + i])))
}

/// Two symbols are correlated by the logarithmic returns of the newest prices that both have, where
/// both have enough.
pub proof fn correlation_is_of_the_newest_returns(m: Arithmetic, a: Seq<Num>, b: Seq<Num>, min_candles: int)
    requires
        a.len() > 0,
        b.len() > 0,
    ensures
        ({
            let n = if a.len() <= b.len() { a.len() as int } else { b.len() as int };
            if n < min_candles {
                correlation_of(m, a, b, min_candles) is None
            } else {
                correlation_of(m, a, b, min_candles) == Some(
                    pearson_of(m, last_returns(m, a, n), last_returns(m, b, n)),
                )
            }
        }),
{
    let n = if a.len() <= b.len() { a.len() as int } else { b.len() as int };
    assert(newest(log_returns(m, a), n - 1) =~= last_returns(m, a, n));
    assert(newest(log_returns(m, b), n - 1) =~= last_returns(m, b, n));
}

/// Pairs that are correlated more strongly, whatever the sign, come first.
pub proof fn stronger_pairs_come_first(
    m: Arithmetic,
    f: CointFinder,
    order: Seq<Seq<char>>,
    data: Map<Seq<char>, Vec<Num>>,
    x: int,
    y: int,
)
    requires
        order.no_duplicates(),
        0 <= x < y < correlated_pairs(m, f, order, data).len(),
    ensures
        ({
            let pairs = correlated_pairs(m, f, order, data);
            &&& pairs[y].2.absolute().at_most(pairs[x].2.absolute())
            &&& f.min_correlation.at_most(pairs[y].2.absolute())
        }),
{
    correlated_pairs_are_sound(m, f, order, data);
    let pairs = correlated_pairs(m, f, order, data);
    let key = strength();
    assert(key(pairs[y]).at_most(key(pairs[x])));
}

/// What comes out of the second phase is the test of a pair that went in, with enough candles of both
/// symbols, cointegrated, and with a finite half-life.
pub proof fn results_are_tests_of_their_pairs(
    m: Arithmetic,
    f: CointFinder,
    data: Map<Seq<char>, Vec<Num>>,
    pairs: Seq<PairView>,
    x: int,
)
    requires
        0 <= x < cointegrated_pairs(m, f, data, pairs).len(),
    ensures
        is_tested(m, f, data, pairs, cointegrated_pairs(m, f, data, pairs)[x]),
{
    cointegrated_pairs_are_sound(m, f, data, pairs);
    let r = cointegrated_pairs(m, f, data, pairs)[x];
    let k = choose|k: int| 0 <= k < pairs.len() && verdict(m, f, data, #[trigger] pairs[k]) == Some(r);
    assert(r == tested(m, data, pairs[k]));
}

/// The test of a pair.
pub open spec fn tested(m: Arithmetic, data: Map<Seq<char>, Vec<Num>>, p: PairView) -> CointView {
    cointegration_of(m, p.0, p.1, data[p.0]@, data[p.1]@, p.2)
}

/// Does the result stand for one of the pairs?
pub open spec fn is_tested(
    m: Arithmetic,
    f: CointFinder,
    data: Map<Seq<char>, Vec<Num>>,
    pairs: Seq<PairView>,
    r: CointView,
) -> bool {
    &&& r.is_cointegrated
    &&& r.half_life_periods.finite()
    &&& exists|k: int|
        0 <= k < pairs.len() && r == tested(m, data, #[trigger] pairs[k]) && data.contains_key(pairs[k].0)
            && data.contains_key(pairs[k].1) && data[pairs[k].0]@.len() >= f.min_candles && data[pairs[k].1]@.len()
            >= f.min_candles
}

/// Every pair that goes in with enough candles of both symbols, is cointegrated and has a finite
/// half-life comes out.
pub proof fn cointegrated_pairs_come_out(
    m: Arithmetic,
    f: CointFinder,
    data: Map<Seq<char>, Vec<Num>>,
    pairs: Seq<PairView>,
    k: int,
)
    requires
        0 <= k < pairs.len(),
        data.contains_key(pairs[k].0),
        data.contains_key(pairs[k].1),
        data[pairs[k].0]@.len() >= f.min_candles,
        data[pairs[k].1]@.len() >= f.min_candles,
        tested(m, data, pairs[k]).is_cointegrated,
        tested(m, data, pairs[k]).half_life_periods.finite(),
    ensures
        cointegrated_pairs(m, f, data, pairs).contains(tested(m, data, pairs[k])),
{
    no_cointegrated_pair_is_missed(m, f, data, pairs, k);
}

/// Results that are farther from the mean, on either side, come first, where all z-scores are
/// numbers.
pub proof fn farther_results_come_first(
    m: Arithmetic,
    f: CointFinder,
    data: Map<Seq<char>, Vec<Num>>,
    pairs: Seq<PairView>,
    x: int,
    y: int,
)
    requires
        forall|k: int|
            0 <= k < verdicts(m, f, data, pairs, pairs.len() as int).len() ==> !(#[trigger] verdicts(
                m,
                f,
                data,
                pairs,
                pairs.len() as int,
            )[k]).current_zscore.absolute().nan(),
        0 <= x < y < cointegrated_pairs(m, f, data, pairs).len(),
    ensures
        ({
            let results = cointegrated_pairs(m, f, data, pairs);
            results[y].current_zscore.absolute().at_most(results[x].current_zscore.absolute())
        }),
{
    cointegrated_pairs_are_sound(m, f, data, pairs);
    let results = cointegrated_pairs(m, f, data, pairs);
    let key = divergence();
    assert(key(results[y]).at_most(key(results[x])));
}

/// A series that is written whole keeps its newest prices, as many as fit.
pub proof fn whole_series_keeps_its_newest<T>(
    data: Map<Seq<char>, Seq<T>>,
    max_len: nat,
    symbol: Seq<char>,
    closes: Seq<T>,
    back: int,
)
    requires
        1 <= back <= closes.len(),
        back <= max_len,
    ensures
        ({
            let next = after_insert(data, max_len, symbol, closes)[symbol];
            &&& next.len() == closes.len() && closes.len() <= max_len || next.len() == max_len && max_len
                <= closes.len()
            &&& next[next.len() - back] == closes[closes.len() - back]
        }),
{
}

/// A completed candle comes last, and those before it move back by one. The oldest leaves where there
/// would be too many.
pub proof fn completed_candle_comes_last<T>(
    data: Map<Seq<char>, Seq<T>>,
    max_len: nat,
    symbol: Seq<char>,
    close: T,
    back: int,
)
    requires
        data.contains_key(symbol),
        1 <= back <= data[symbol].len(),
        data[symbol].len() <= max_len,
        back < max_len,
    ensures
        ({
            let (old_series, next) = (data[symbol], after_update(data, max_len, symbol, close)[symbol]);
            &&& next.len() == old_series.len() + 1 && old_series.len() < max_len || next.len() == max_len
                && old_series.len() == max_len
            &&& next.last() == close
            &&& next[next.len() - 1 - back] == old_series[old_series.len() - back]
        }),
{
}

/// A tick of an open candle replaces the newest price and leaves the others alone.
pub proof fn open_candle_is_replaced<T>(data: Map<Seq<char>, Seq<T>>, symbol: Seq<char>, close: T, i: int)
    requires
        data.contains_key(symbol),
        0 <= i < data[symbol].len(),
    ensures
        ({
            let next = after_update_last(data, symbol, close)[symbol];
            &&& next.len() == data[symbol].len()
            &&& next[i] == if i == data[symbol].len() - 1 { close } else { data[symbol][i] }
        }),
{
}

/// A streamed price that is above zero becomes the newest of its symbol: as one more where its candle
/// is complete, in place of the newest where it is not. Any other price changes nothing.
pub proof fn streamed_price_is_the_newest(s: CacheState, max_len: nat, symbol: Seq<char>, tick: Tick)
    requires
        max_len >= 1,
        series_of(s.data, symbol).len() <= max_len,
    ensures
        ({
            let next = after_tick(s, max_len, symbol, tick);
            let (had, has) = (series_of(s.data, symbol), series_of(next.data, symbol));
            if !(Num { bits: ZERO }).less(tick.close) {
                next == s
            } else {
                &&& has.len() > 0 && has.last() == tick.close
                &&& tick.confirm && had.len() < max_len ==> has.len() == had.len() + 1 && has.drop_last() == had
                &&& tick.confirm && had.len() == max_len ==> has.drop_last() == had.drop_first()
                &&& !tick.confirm && had.len() > 0 ==> has.drop_last() == had.drop_last()
                &&& !tick.confirm && had.len() == 0 ==> has.len() == 1
            }
        }),
{
    let next = after_tick(s, max_len, symbol, tick);
    let (had, has) = (series_of(s.data, symbol), series_of(next.data, symbol));
    if (Num { bits: ZERO }).less(tick.close) {
        if tick.confirm {
            if had.len() < max_len {
                assert(has.drop_last() =~= had);
            } else {
                assert(has.drop_last() =~= had.drop_first());
            }
        } else if had.len() > 0 {
            assert(has.drop_last() =~= had.drop_last());
        }
    }
}

/// A value on the command line takes the place of the configured one, and no other value changes.
pub proof fn command_line_wins(c: AppConfig, o: Overrides)
    ensures
        ({
            let r = overridden(c, o);
            &&& o.min_correlation matches Some(v) ==> r.scanner.min_correlation == v
            &&& o.interval matches Some(v) ==> r.scanner.interval == v
            &&& o.kline_limit matches Some(v) ==> r.scanner.kline_limit == v
            &&& o.top_n matches Some(v) ==> r.scanner.top_n == v
            &&& o.zscore_entry matches Some(v) ==> r.trading.zscore_entry == v
            &&& o.zscore_exit matches Some(v) ==> r.trading.zscore_exit == v
            &&& o.balance matches Some(v) ==> r.trading.balance == v
            &&& o.tg_bot_token matches Some(v) ==> r.telegram.bot_token == v
            &&& o.tg_chat_id matches Some(v) ==> r.telegram.chat_id.0 == v
            &&& r.exchange == c.exchange
            &&& r.monitor == c.monitor
            &&& engine_rules(r).stop_loss_zscore == c.trading.stop_loss_zscore
            &&& engine_rules(r).max_position_pct == c.trading.max_position_pct
            &&& engine_rules(r).max_open_positions == c.trading.max_open_positions
            &&& engine_rules(r).min_half_life == c.trading.min_half_life
            &&& engine_rules(r).commission_pct == c.trading.commission_pct
            &&& engine_rules(r).slippage_pct == c.trading.slippage_pct
            &&& engine_rules(r).hurst_threshold == c.trading.hurst_threshold
            &&& engine_rules(r).hurst_exit == c.trading.hurst_exit
            &&& engine_rules(r).entry_min_factors == c.trading.entry_min_factors
            &&& engine_rules(r).zscore_entry == r.trading.zscore_entry
            &&& engine_rules(r).zscore_exit == r.trading.zscore_exit
        }),
{
}

/// How a z-score is shown does not depend on its sign: diverged beyond the threshold, elevated beyond
/// one and a half, calm otherwise.
pub proof fn zscore_is_shown_by_its_distance(z: Num, zscore_entry: Num)
    requires
        !z.nan(),
        !zscore_entry.nan(),
    ensures
        zscore_level_of(z, zscore_entry) == zscore_level_of(z.opposite(), zscore_entry),
        zscore_level_of(z, zscore_entry) is Diverged <==> z.rank() > zscore_entry.rank() || z.rank()
            < -zscore_entry.rank(),
        !(zscore_level_of(z, zscore_entry) is Diverged) ==> (zscore_level_of(z, zscore_entry) is Elevated <==> z.rank()
            > 0x3ff8_0000_0000_0000 || z.rank() < -0x3ff8_0000_0000_0000),
{
}

/// A spread is shown as reverting where it moves against the sign of its z-score, and as moving
/// against where it has diverged otherwise.
pub proof fn momentum_is_shown_by_direction(z: Num, v: Num, zscore_entry: Num)
    requires
        !z.nan(),
        !v.nan(),
        !zscore_entry.nan(),
    ensures
        momentum_level_of(z, v, zscore_entry) is Reverting <==> (z.rank() > 0 && v.rank() < 0) || (z.rank() < 0
            && v.rank() > 0),
        !(momentum_level_of(z, v, zscore_entry) is Reverting) ==> (momentum_level_of(z, v, zscore_entry) is Against
            <==> z.rank() > zscore_entry.rank() || z.rank() < -zscore_entry.rank()),
{
}

/// A Hurst exponent is shown as reverting below the threshold, as trending from the exit limit on, and
/// as uncertain in between.
pub proof fn hurst_is_shown_by_its_limits(h: Num, threshold: Num, exit: Num)
    requires
        !h.nan(),
        !threshold.nan(),
        !exit.nan(),
        threshold.at_most(exit),
    ensures
        hurst_level_of(h, threshold, exit) is Reverting <==> h.rank() < threshold.rank(),
        hurst_level_of(h, threshold, exit) is Trending <==> h.rank() >= exit.rank(),
{
}

/// The win rate is won trades in percent of all, and the return what the balance has grown by in
/// percent of what it was.
pub proof fn summary_is_in_percent(m: Arithmetic, s: StateView)
    requires
        s.win_count + s.loss_count <= u32::MAX,
    ensures
        ({
            let r = summary_of(m, s);
            let hundred = Num { bits: 0x4059_0000_0000_0000 };
            let n = s.win_count + s.loss_count;
            &&& r.total_trades == n
            &&& n > 0 ==> r.win_rate == times(m, over(m, whole(m, s.win_count as int), whole(m, n)), hundred)
            &&& n == 0 ==> r.win_rate.bits == 0
            &&& (Num { bits: ZERO }).less(s.initial_balance) ==> r.roi == times(
                m,
                over(m, minus(m, s.balance, s.initial_balance), s.initial_balance),
                hundred,
            )
            &&& !(Num { bits: ZERO }).less(s.initial_balance) ==> r.roi.bits == 0
            &&& r.gained <==> (Num { bits: ZERO }).at_most(r.roi)
        }),
{
}

/// A page of a download leaves two hundred candles fewer to ask for, or none, and the next page ends
/// right before the oldest candle of this one. Nothing that came in is lost, and no page or an empty
/// one ends the download.
pub proof fn next_page_ends_before_this_one(p: Progress, page: Seq<Kline>)
    requires
        !finished(p),
        page.len() > 0,
        forall|i: int| 0 <= i < page.len() ==> (#[trigger] page[i]).timestamp > 0,
        in_time_order(p.klines),
    ensures
        ({
            let next = after_page(p, Some(page));
            &&& next.remaining == if p.remaining < 200 { 0 } else { p.remaining - 200 }
            &&& next.end matches Some(end) && (exists|i: int|
                0 <= i < page.len() && end + 1 == (#[trigger] page[i]).timestamp)
            &&& in_time_order(next.klines)
            &&& forall|t: u64| has_moment(next.klines, t) <==> has_moment(p.klines, t) || has_moment(page, t)
            &&& after_page(p, None).stopped && after_page(p, Some(Seq::empty())).stopped
        }),
{
    oldest_is_least(page);
    pages_join_history(p.klines, page);
    let next = after_page(p, Some(page));
    let i = choose|i: int|
        0 <= i < page.len() && crate::exchange::history::oldest(page) == (#[trigger] page[i]).timestamp;
    assert(page[i].timestamp > 0);
    assert(next.end->0 + 1 == page[i].timestamp);
}

/// A contract is listed exactly where it is in USDT, is being traded, and its turnover is not below a
/// hundred thousand. What cannot be read counts as zero.
pub proof fn listed_contracts_turn_over_enough(
    i: InstrumentView,
    tickers: Map<Seq<char>, TickerView>,
    numerals: Numerals,
)
    ensures
        ({
            let turnover = if tickers.contains_key(i.symbol) && tickers[i.symbol].turnover is Some && numerals(
                tickers[i.symbol].turnover->0,
            ) is Some {
                numerals(tickers[i.symbol].turnover->0)->0
            } else {
                Num { bits: ZERO }
            };
            let r = tradable(i, tickers, numerals);
            &&& r is Some <==> i.quote_coin == "USDT"@ && i.status == "Trading"@ && !turnover.less(
                Num { bits: 0x40f8_6a00_0000_0000 },
            )
            &&& r matches Some(s) ==> s.symbol == i.symbol && s.volume_24h_usd == turnover
        }),
{
}

/// A look at the latest prices gives a tracked pair its z-score and, where both symbols have candles,
/// its guard with the velocity and the Hurst exponent. What the test found of the pair stays.
pub proof fn refreshed_pair_has_its_guard(
    m: Arithmetic,
    pair: TrackedPair,
    prices: Map<Seq<char>, Num>,
    candles: Map<Seq<char>, Vec<Num>>,
    g: GuardSettings,
    now: Timestamp,
)
    ensures
        ({
            let r = refreshed(m, pair, prices, candles, g, now);
            let (a, b) = (pair.symbol_a@, pair.symbol_b@);
            let z = pair_zscore(m, prices, pair);
            &&& !(prices.contains_key(a) && prices.contains_key(b)) ==> r == pair
            &&& prices.contains_key(a) && prices.contains_key(b) ==> r.last_zscore == z && r.last_updated == now
            &&& prices.contains_key(a) && prices.contains_key(b) && candles.contains_key(a) && candles.contains_key(b)
                ==> {
                &&& r.entry_guard == measured_guard(
                    m,
                    candles[a]@,
                    candles[b]@,
                    pair.hedge_ratio,
                    pair.spread_mean,
                    pair.spread_std,
                    z,
                    g.momentum_window as int,
                    g.hurst_window as int,
                    g.hurst_threshold,
                )
                &&& r.spread_momentum == r.entry_guard.velocity
                &&& r.hurst == r.entry_guard.hurst
            }
            &&& !(candles.contains_key(a) && candles.contains_key(b)) ==> r.entry_guard == pair.entry_guard && r.hurst
                == pair.hurst
            &&& r.symbol_a == pair.symbol_a && r.symbol_b == pair.symbol_b && r.hedge_ratio == pair.hedge_ratio
            &&& r.spread_mean == pair.spread_mean && r.spread_std == pair.spread_std && r.half_life == pair.half_life
        }),
{
}

/// The price that a tracked symbol is traded at is the newest that the cache has of it.
pub proof fn prices_are_the_newest(pairs: Seq<TrackedPair>, data: Map<Seq<char>, Seq<Num>>, n: int, symbol: Seq<char>)
    requires
        0 <= n <= pairs.len(),
    ensures
        ({
            let prices = cached_prices(pairs, data, n);
            let is_used = exists|k: int|
                0 <= k < n && ((#[trigger] pairs[k]).symbol_a@ == symbol || pairs[k].symbol_b@ == symbol);
            &&& prices.contains_key(symbol) <==> is_used && data.contains_key(symbol) && data[symbol].len() > 0
            &&& prices.contains_key(symbol) ==> prices[symbol] == data[symbol].last()
        }),
    decreases n,
{
    if n > 0 {
        prices_are_the_newest(pairs, data, n - 1, symbol);
        if pairs[n - 1].symbol_a@ == symbol || pairs[n - 1].symbol_b@ == symbol {
            assert(exists|k: int|
                0 <= k < n && ((#[trigger] pairs[k]).symbol_a@ == symbol || pairs[k].symbol_b@ == symbol));
        }
        if exists|k: int|
            0 <= k < n - 1 && ((#[trigger] pairs[k]).symbol_a@ == symbol || pairs[k].symbol_b@ == symbol) {
            let k = choose|k: int|
                0 <= k < n - 1 && ((#[trigger] pairs[k]).symbol_a@ == symbol || pairs[k].symbol_b@ == symbol);
            assert(pairs[k].symbol_a@ == symbol || pairs[k].symbol_b@ == symbol);
        }
    }
}

/// The symbols that are asked for are those without a price.
pub proof fn asked_symbols_have_no_price(symbols: Seq<String>, prices: Map<Seq<char>, Num>, n: int, x: String)
    requires
        0 <= n <= symbols.len(),
    ensures
        unpriced(symbols, prices, n).contains(x) <==> symbols.take(n).contains(x) && !prices.contains_key(x@),
    decreases n,
{
    let next = unpriced(symbols, prices, n);
    if n > 0 {
        asked_symbols_have_no_price(symbols, prices, n - 1, x);
        let before = unpriced(symbols, prices, n - 1);
        let s = symbols[n - 1];
        assert(symbols.take(n) =~= symbols.take(n - 1).push(s));
        assert(symbols.take(n - 1).push(s).contains(x) <==> symbols.take(n - 1).contains(x) || x == s) by {
            lemma_push_contains(symbols.take(n - 1), s, x);
        }
        lemma_push_contains(before, s, x);
    }
}

proof fn lemma_push_contains(list: Seq<String>, s: String, x: String)
    ensures
        list.push(s).contains(x) <==> list.contains(x) || x == s,
{
    let next = list.push(s);
    if list.contains(x) {
        let i = choose|i: int| 0 <= i < list.len() && list[i] == x;
        assert(next[i] == x);
    }
    if x == s {
        assert(next[list.len() as int] == x);
    }
    if next.contains(x) {
        let i = choose|i: int| 0 <= i < next.len() && next[i] == x;
        if i < list.len() {
            assert(list[i] == x);
        }
    }
}

/// A pair that becomes tracked takes over what its test found, and has passed no guard factor yet.
pub proof fn tracked_pair_is_as_tested(
    s: StateView,
    rules: TradingConfig,
    r: CointResult,
    discovered_at: Timestamp,
    last_updated: Timestamp,
)
    requires
        tracking(s, rules, r, discovered_at, last_updated) != s,
    ensures
        ({
            let next = tracking(s, rules, r, discovered_at, last_updated);
            let p = next.tracked_pairs.last();
            &&& next.tracked_pairs.drop_last() =~= s.tracked_pairs
            &&& p.symbol_a == r.symbol_a && p.symbol_b == r.symbol_b
            &&& p.correlation == r.correlation && p.hedge_ratio == r.hedge_ratio
            &&& p.spread_mean == r.spread_mean && p.spread_std == r.spread_std
            &&& p.adf_stat == r.adf_stat && p.half_life == r.half_life_periods
            &&& p.last_zscore == r.current_zscore
            &&& p.entry_guard.score == 0 && p.entry_guard.pass_mask == 0
            &&& !rules.min_half_life.less(r.half_life_periods)
            &&& next.positions == s.positions && next.balance == s.balance
        }),
{
}

/// A result whose pair is tracked already, in either order of its symbols, changes nothing.
pub proof fn tracked_pairs_are_not_tracked_again(
    s: StateView,
    rules: TradingConfig,
    r: CointResult,
    discovered_at: Timestamp,
    last_updated: Timestamp,
    k: int,
)
    requires
        0 <= k < s.tracked_pairs.len(),
        (s.tracked_pairs[k].symbol_a@ == r.symbol_a@ && s.tracked_pairs[k].symbol_b@ == r.symbol_b@) || (
        s.tracked_pairs[k].symbol_a@ == r.symbol_b@ && s.tracked_pairs[k].symbol_b@ == r.symbol_a@),
    ensures
        tracking(s, rules, r, discovered_at, last_updated) == s,
{
    let p = s.tracked_pairs[k];
    assert(crate::trading::engine::same_pair(p.symbol_a@, p.symbol_b@, r.symbol_a@, r.symbol_b@));
}

/// A result whose pair is not tracked, in either order of its symbols, becomes tracked where its
/// half-life is not above the limit.
pub proof fn new_pairs_become_tracked(
    s: StateView,
    rules: TradingConfig,
    r: CointResult,
    discovered_at: Timestamp,
    last_updated: Timestamp,
)
    requires
        forall|k: int|
            0 <= k < s.tracked_pairs.len() ==> {
                let p = #[trigger] s.tracked_pairs[k];
                &&& p.symbol_a@ != r.symbol_a@ || p.symbol_b@ != r.symbol_b@
                &&& p.symbol_a@ != r.symbol_b@ || p.symbol_b@ != r.symbol_a@
            },
        !rules.min_half_life.less(r.half_life_periods),
    ensures
        ({
            let next = tracking(s, rules, r, discovered_at, last_updated);
            next.tracked_pairs.len() == s.tracked_pairs.len() + 1 && next.tracked_pairs.last().symbol_a == r.symbol_a
                && next.tracked_pairs.last().symbol_b == r.symbol_b
        }),
{
    assert forall|k: int| 0 <= k < s.tracked_pairs.len() implies !crate::trading::engine::same_pair(
        (#[trigger] s.tracked_pairs[k]).symbol_a@,
        s.tracked_pairs[k].symbol_b@,
        r.symbol_a@,
        r.symbol_b@,
    ) by {}
}

/// Contracts that turn over more come first, where all turnovers are numbers.
pub proof fn larger_turnover_comes_first(
    list: Seq<InstrumentView>,
    tickers: Map<Seq<char>, TickerView>,
    numerals: Numerals,
    x: int,
    y: int,
)
    requires
        forall|k: int|
            0 <= k < tradables(list, tickers, numerals, list.len() as int).len() ==> !(#[trigger] tradables(
                list,
                tickers,
                numerals,
                list.len() as int,
            )[k]).volume_24h_usd.nan(),
        0 <= x < y < ranked(tradables(list, tickers, numerals, list.len() as int), by_volume()).len(),
    ensures
        ({
            let symbols = ranked(tradables(list, tickers, numerals, list.len() as int), by_volume());
            symbols[y].volume_24h_usd.at_most(symbols[x].volume_24h_usd)
        }),
{
    listed_symbols_are_tradable(list, tickers, numerals);
    let symbols = ranked(tradables(list, tickers, numerals, list.len() as int), by_volume());
    let key = by_volume();
    assert(key(symbols[y]).at_most(key(symbols[x])));
}

/// An alert of an opening tells what the signal asked for, at the prices of its symbols: long in A and
/// short in B where the signal is to be short in the spread, the other way round where it is to be
/// long.
pub proof fn opening_alert_tells_the_signal(
    m: Arithmetic,
    out: Outbox,
    positions: Seq<Position>,
    pairs: Seq<TrackedPair>,
    signal: Signal,
    prices: Map<Seq<char>, Num>,
    size: Num,
)
    requires
        open_note(pairs, signal) is Some,
        with_opening(m, out, positions, open_note(pairs, signal)->0, prices, size).alerts.len() > out.alerts.len(),
    ensures
        ({
            let next = with_opening(m, out, positions, open_note(pairs, signal)->0, prices, size);
            &&& next.alerts.drop_last() =~= out.alerts
            &&& match next.alerts.last() {
                Alert::Opened { note, price_a, price_b, size: told } => {
                    &&& told == size
                    &&& prices.contains_key(note.symbol_a@) ==> price_a == prices[note.symbol_a@]
                    &&& prices.contains_key(note.symbol_b@) ==> price_b == prices[note.symbol_b@]
                    &&& match signal {
                        Signal::OpenShort { symbol_a, symbol_b, zscore, hedge_ratio } => {
                            &&& note.symbol_a == symbol_a && note.symbol_b == symbol_b
                            &&& note.side_a is Long && note.side_b is Short
                            &&& note.zscore == zscore && note.hedge_ratio == hedge_ratio
                        },
                        Signal::OpenLong { symbol_a, symbol_b, zscore, hedge_ratio } => {
                            &&& note.symbol_a == symbol_a && note.symbol_b == symbol_b
                            &&& note.side_a is Short && note.side_b is Long
                            &&& note.zscore == zscore && note.hedge_ratio == hedge_ratio
                        },
                        Signal::ClosePosition { .. } => false,
                    }
                },
                _ => false,
            }
        }),
{
}

/// What is announced of a closing is what was known of the position before: its symbols, the z-score
/// it was entered at, its result, and the z-score of the signal.
pub proof fn closing_note_tells_the_position(positions: Seq<Position>, id: u64, z: Num, at: int)
    requires
        0 <= at < positions.len(),
        positions[at].id == id,
        forall|j: int| 0 <= j < at ==> (#[trigger] positions[j]).id != id,
    ensures
        close_note(positions, Signal::ClosePosition { position_id: id, zscore: z }) matches Some(note) && ({
            &&& note.position_id == id
            &&& note.zscore == z
            &&& note.symbol_a == positions[at].symbol_a && note.symbol_b == positions[at].symbol_b
            &&& note.entry_zscore == positions[at].entry_zscore
            &&& note.pnl == positions[at].pnl
        }),
{
    found_position_has_number(positions, id);
}

} // verus!
