//! Carrying out signals and announcing what came of them.

use vstd::prelude::*;

use crate::arith::minus;
use crate::arith::times;
use crate::arith::{Arithmetic, Calculator, Op};
use crate::clock::{utc_now, Timestamp};
use crate::decimal::{DecimalWriter, Figures};
use crate::notify::dedup::{after_event, Announced, Event, TradeDedup};
use crate::notify::telegram::TelegramNotifier;
use crate::notify::telegram::{close_text, open_text, stop_text};
use crate::num::{Num, INFINITE, ZERO};
use crate::prices::PriceBook;
use crate::trading::engine::{
    after_signals, closings, counters_fit, find_position, has_open, lemma_counts_are_not_negative, pair_signals,
    pair_zscore, price_or, same_pair, signals, symbol_busy,
};
use crate::trading::engine::{pair_matches, PaperEngine};
use crate::trading::invariants::{
    adds_up, closings_only_close, distinct_pairs, found_position_has_number, pair_enters_or_leaves,
    signals_keep_order,
};
use crate::trading::models::{Position, PositionSide, Signal, StateView, TrackedPair, TradingConfig};

verus! {

/// `0.1`: a position is the one that a signal opened where their z-scores differ by less than this.
pub const SAME_ZSCORE: u64 = 0x3fb9_9999_9999_999a;

/// What a signal to open asks for.
pub struct OpenNote {
    pub symbol_a: String,
    pub symbol_b: String,
    pub side_a: PositionSide,
    pub side_b: PositionSide,
    pub zscore: Num,
    pub hedge_ratio: Num,
    /// Half-life of the tracked pair. Infinite where the pair is not tracked.
    pub half_life: Num,
}

/// What is known of a position before it closes.
pub struct CloseNote {
    pub position_id: u64,
    pub zscore: Num,
    pub symbol_a: String,
    pub symbol_b: String,
    pub entry_zscore: Num,
    pub pnl: Num,
}

/// An alert that goes out.
pub enum Alert {
    Opened { note: OpenNote, price_a: Num, price_b: Num, size: Num },
    Closed { note: CloseNote, balance: Num },
    Stopped { note: CloseNote, balance: Num },
}

/// The half-life of the first pair with these symbols. Infinite where there is none.
pub open spec fn half_life_in(pairs: Seq<TrackedPair>, symbol_a: Seq<char>, symbol_b: Seq<char>) -> Num
    decreases pairs.len(),
{
    if pairs.len() == 0 {
        Num { bits: INFINITE }
    } else if same_pair(pairs[0].symbol_a@, pairs[0].symbol_b@, symbol_a, symbol_b) {
        pairs[0].half_life
    } else {
        half_life_in(pairs.skip(1), symbol_a, symbol_b)
    }
}

/// What a signal to open asks for, with the half-life of the tracked pair. `None` for a signal to
/// close.
pub open spec fn open_note(pairs: Seq<TrackedPair>, signal: Signal) -> Option<OpenNote> {
    match signal {
        Signal::OpenLong { symbol_a, symbol_b, zscore, hedge_ratio } => Some(
            OpenNote {
                symbol_a,
                symbol_b,
                side_a: PositionSide::Short,
                side_b: PositionSide::Long,
                zscore,
                hedge_ratio,
                half_life: half_life_in(pairs, symbol_a@, symbol_b@),
            },
        ),
        Signal::OpenShort { symbol_a, symbol_b, zscore, hedge_ratio } => Some(
            OpenNote {
                symbol_a,
                symbol_b,
                side_a: PositionSide::Long,
                side_b: PositionSide::Short,
                zscore,
                hedge_ratio,
                half_life: half_life_in(pairs, symbol_a@, symbol_b@),
            },
        ),
        Signal::ClosePosition { .. } => None,
    }
}

/// What the first `n` signals ask to open.
pub open spec fn open_notes(pairs: Seq<TrackedPair>, signals: Seq<Signal>, n: int) -> Seq<OpenNote>
    decreases n,
{
    if n <= 0 {
        Seq::empty()
    } else {
        let before = open_notes(pairs, signals, n - 1);
        match open_note(pairs, signals[n - 1]) {
            Some(note) => before.push(note),
            None => before,
        }
    }
}

/// What is known of the position that a signal closes. `None` for a signal to open, and where there
/// is no such position.
pub open spec fn close_note(positions: Seq<Position>, signal: Signal) -> Option<CloseNote> {
    match signal {
        Signal::ClosePosition { position_id, zscore } => match find_position(positions, position_id) {
            Some(at) => Some(
                CloseNote {
                    position_id,
                    zscore,
                    symbol_a: positions[at].symbol_a,
                    symbol_b: positions[at].symbol_b,
                    entry_zscore: positions[at].entry_zscore,
                    pnl: positions[at].pnl,
                },
            ),
            None => None,
        },
        _ => None,
    }
}

/// What is known of the positions that the first `n` signals close.
pub open spec fn close_notes(positions: Seq<Position>, signals: Seq<Signal>, n: int) -> Seq<CloseNote>
    decreases n,
{
    if n <= 0 {
        Seq::empty()
    } else {
        let before = close_notes(positions, signals, n - 1);
        match close_note(positions, signals[n - 1]) {
            Some(note) => before.push(note),
            None => before,
        }
    }
}

/// Is this the position that the note asked for? Its symbols are the same and its z-score is close.
pub open spec fn answers_note(m: Arithmetic, p: Position, note: OpenNote) -> bool {
    &&& p.symbol_a@ == note.symbol_a@
    &&& p.symbol_b@ == note.symbol_b@
    &&& minus(m, p.current_zscore, note.zscore).absolute().less(Num { bits: SAME_ZSCORE })
}

/// The first position that answers the note.
pub open spec fn find_opened(m: Arithmetic, positions: Seq<Position>, note: OpenNote) -> Option<int>
    decreases positions.len(),
{
    if positions.len() == 0 {
        None
    } else {
        match find_opened(m, positions.drop_last(), note) {
            Some(i) => Some(i),
            None => if answers_note(m, positions.last(), note) {
                Some(positions.len() - 1)
            } else {
                None
            },
        }
    }
}

/// The alerts so far, and what they announced.
#[verifier::ext_equal]
pub struct Outbox {
    pub alerts: Seq<Alert>,
    pub announced: Announced,
}

/// The alerts with that for one opening, where a position answers the note and has not been
/// announced.
pub open spec fn with_opening(
    m: Arithmetic,
    out: Outbox,
    positions: Seq<Position>,
    note: OpenNote,
    prices: Map<Seq<char>, Num>,
    size: Num,
) -> Outbox {
    match find_opened(m, positions, note) {
        Some(at) => {
            let id = positions[at].id;
            Outbox {
                alerts: if out.announced.opens.contains(id) {
                    out.alerts
                } else {
                    out.alerts.push(
                        Alert::Opened {
                            note,
                            price_a: price_or(prices, note.symbol_a@, Num { bits: ZERO }),
                            price_b: price_or(prices, note.symbol_b@, Num { bits: ZERO }),
                            size,
                        },
                    )
                },
                announced: after_event(out.announced, Event::Opened(id)),
            }
        },
        None => out,
    }
}

/// The alerts with those for the first `n` openings.
pub open spec fn with_openings(
    m: Arithmetic,
    out: Outbox,
    positions: Seq<Position>,
    notes: Seq<OpenNote>,
    prices: Map<Seq<char>, Num>,
    size: Num,
    n: int,
) -> Outbox
    decreases n,
{
    if n <= 0 {
        out
    } else {
        with_opening(
            m,
            with_openings(m, out, positions, notes, prices, size, n - 1),
            positions,
            notes[n - 1],
            prices,
            size,
        )
    }
}

/// The alerts with that for one closing, where it has not been announced. A z-score beyond
/// `stop_from` counts as a stop.
pub open spec fn with_closing(out: Outbox, note: CloseNote, stop_from: Num, balance: Num) -> Outbox {
    Outbox {
        alerts: if out.announced.closes.contains(note.position_id) {
            out.alerts
        } else if stop_from.less(note.zscore.absolute()) {
            out.alerts.push(Alert::Stopped { note, balance })
        } else {
            out.alerts.push(Alert::Closed { note, balance })
        },
        announced: after_event(out.announced, Event::Closed(note.position_id)),
    }
}

/// The alerts with those for the first `n` closings.
pub open spec fn with_closings(out: Outbox, notes: Seq<CloseNote>, stop_from: Num, balance: Num, n: int) -> Outbox
    decreases n,
{
    if n <= 0 {
        out
    } else {
        with_closing(with_closings(out, notes, stop_from, balance, n - 1), notes[n - 1], stop_from, balance)
    }
}

/// The alerts that carrying out signals leads from the state `before` to the state `after` gives:
/// openings first, then closings.
pub open spec fn alerts_of(
    m: Arithmetic,
    announced: Announced,
    before: StateView,
    after: StateView,
    signals: Seq<Signal>,
    prices: Map<Seq<char>, Num>,
    size: Num,
    stop_from: Num,
) -> Outbox {
    let opens = open_notes(before.tracked_pairs, signals, signals.len() as int);
    let closes = close_notes(before.positions, signals, signals.len() as int);
    let start = Outbox { alerts: Seq::empty(), announced };
    let opened = with_openings(m, start, after.positions, opens, prices, size, opens.len() as int);
    with_closings(opened, closes, stop_from, after.balance, closes.len() as int)
}

fn half_life_of_pair(pairs: &Vec<TrackedPair>, symbol_a: &String, symbol_b: &String) -> (r: Num)
    ensures
        r == half_life_in(pairs@, symbol_a@, symbol_b@),
{
    let mut i: usize = 0;
    assert(pairs@.skip(0) =~= pairs@);
    while i < pairs.len()
        invariant
            0 <= i <= pairs@.len(),
            half_life_in(pairs@, symbol_a@, symbol_b@) == half_life_in(pairs@.skip(i as int), symbol_a@, symbol_b@),
        decreases pairs@.len() - i,
    {
        let p: &TrackedPair = &pairs[i];
        assert(pairs@.skip(i as int).skip(1) =~= pairs@.skip(i + 1));
        if pair_matches(&p.symbol_a, &p.symbol_b, symbol_a, symbol_b) {
            return p.half_life;
        }
        i += 1;
    }
    Num { bits: INFINITE }
}

fn note_opening(pairs: &Vec<TrackedPair>, signal: &Signal) -> (r: Option<OpenNote>)
    ensures
        r == open_note(pairs@, *signal),
{
    match signal {
        Signal::OpenLong { symbol_a, symbol_b, zscore, hedge_ratio } => Some(
            OpenNote {
                symbol_a: symbol_a.clone(),
                symbol_b: symbol_b.clone(),
                side_a: PositionSide::Short,
                side_b: PositionSide::Long,
                zscore: *zscore,
                hedge_ratio: *hedge_ratio,
                half_life: half_life_of_pair(pairs, symbol_a, symbol_b),
            },
        ),
        Signal::OpenShort { symbol_a, symbol_b, zscore, hedge_ratio } => Some(
            OpenNote {
                symbol_a: symbol_a.clone(),
                symbol_b: symbol_b.clone(),
                side_a: PositionSide::Long,
                side_b: PositionSide::Short,
                zscore: *zscore,
                hedge_ratio: *hedge_ratio,
                half_life: half_life_of_pair(pairs, symbol_a, symbol_b),
            },
        ),
        Signal::ClosePosition { .. } => None,
    }
}

/// What the signals ask to open.
pub fn collect_openings(engine: &PaperEngine, signals: &Vec<Signal>) -> (r: Vec<OpenNote>)
    ensures
        r@ == open_notes(engine.state@.tracked_pairs, signals@, signals@.len() as int),
{
    let mut out: Vec<OpenNote> = Vec::new();
    let mut i: usize = 0;
    while i < signals.len()
        invariant
            0 <= i <= signals@.len(),
            out@ == open_notes(engine.state@.tracked_pairs, signals@, i as int),
        decreases signals@.len() - i,
    {
        match note_opening(&engine.state.tracked_pairs, &signals[i]) {
            Some(note) => {
                out.push(note);
            },
            None => {},
        }
        i += 1;
    }
    out
}

/// What is known of the positions that the signals close.
pub fn collect_closings(engine: &PaperEngine, signals: &Vec<Signal>) -> (r: Vec<CloseNote>)
    ensures
        r@ == close_notes(engine.state@.positions, signals@, signals@.len() as int),
{
    let mut out: Vec<CloseNote> = Vec::new();
    let mut i: usize = 0;
    while i < signals.len()
        invariant
            0 <= i <= signals@.len(),
            out@ == close_notes(engine.state@.positions, signals@, i as int),
        decreases signals@.len() - i,
    {
        match &signals[i] {
            Signal::ClosePosition { position_id, zscore } => {
                match engine.get_position(*position_id) {
                    Some(p) => {
                        out.push(
                            CloseNote {
                                position_id: *position_id,
                                zscore: *zscore,
                                symbol_a: p.symbol_a.clone(),
                                symbol_b: p.symbol_b.clone(),
                                entry_zscore: p.entry_zscore,
                                pnl: p.pnl,
                            },
                        );
                    },
                    None => {},
                }
            },
            _ => {},
        }
        i += 1;
    }
    out
}

fn index_of_opened<F: Fn(Op) -> Num>(positions: &Vec<Position>, note: &OpenNote, calc: &Calculator<F>) -> (r: Option<
    usize,
>)
    requires
        calc.reliable(),
    ensures
        match r {
            Some(i) => find_opened(calc.meaning(), positions@, *note) == Some(i as int) && i < positions@.len(),
            None => find_opened(calc.meaning(), positions@, *note) is None,
        },
{
    let ghost m = calc.meaning();
    let mut i: usize = 0;
    proof {
        assert(positions@.take(0) =~= Seq::<Position>::empty());
    }
    while i < positions.len()
        invariant
            calc.reliable(),
            m == calc.meaning(),
            0 <= i <= positions@.len(),
            find_opened(m, positions@.take(i as int), *note) is None,
        decreases positions@.len() - i,
    {
        let p: &Position = &positions[i];
        proof {
            assert(positions@.take(i + 1).drop_last() =~= positions@.take(i as int));
        }
        if p.symbol_a == note.symbol_a && p.symbol_b == note.symbol_b && calc.minus(
            p.current_zscore,
            note.zscore,
        ).abs().lt(Num { bits: SAME_ZSCORE }) {
            proof {
                lemma_opened_found_early(m, positions@, *note, i + 1);
            }
            return Some(i);
        }
        i += 1;
    }
    proof {
        assert(positions@.take(positions@.len() as int) =~= positions@);
    }
    None
}

proof fn lemma_opened_found_early(m: Arithmetic, positions: Seq<Position>, note: OpenNote, n: int)
    requires
        0 <= n <= positions.len(),
        find_opened(m, positions.take(n), note) is Some,
    ensures
        find_opened(m, positions, note) == find_opened(m, positions.take(n), note),
    decreases positions.len(),
{
    if n < positions.len() {
        assert(positions.drop_last().take(n) =~= positions.take(n));
        lemma_opened_found_early(m, positions.drop_last(), note, n);
    } else {
        assert(positions.take(n) =~= positions);
    }
}

fn price_or_zero(prices: &PriceBook, symbol: &String) -> (r: Num)
    ensures
        r == price_or(prices@, symbol@, Num { bits: ZERO }),
{
    match prices.get(symbol.as_str()) {
        Some(p) => p,
        None => Num { bits: ZERO },
    }
}

/// The alerts for what the signals did, without those that went out before. `opens` and `closes`
/// were collected before the signals were carried out.
pub fn announce<F: Fn(Op) -> Num>(
    engine: &PaperEngine,
    dedup: &mut TradeDedup,
    opens: Vec<OpenNote>,
    closes: Vec<CloseNote>,
    prices: &PriceBook,
    size: Num,
    stop_from: Num,
    calc: &Calculator<F>,
) -> (r: Vec<Alert>)
    requires
        calc.reliable(),
    ensures
        ({
            let start = Outbox { alerts: Seq::empty(), announced: old(dedup).announced() };
            let opened = with_openings(
                calc.meaning(),
                start,
                engine.state@.positions,
                opens@,
                prices@,
                size,
                opens@.len() as int,
            );
            let all = with_closings(opened, closes@, stop_from, engine.state@.balance, closes@.len() as int);
            &&& r@ == all.alerts
            &&& final(dedup).announced() == after_event(all.announced, Event::Cleanup)
        }),
{
    let ghost m = calc.meaning();
    let ghost start = Outbox { alerts: Seq::empty(), announced: dedup.announced() };
    let ghost opened_notes = opens@;
    let ghost closed_notes = closes@;
    let ghost positions = engine.state@.positions;
    let mut out: Vec<Alert> = Vec::new();
    let mut waiting: Vec<OpenNote> = reversed(opens);
    let ghost n = waiting@.len() as int;
    let ghost mut done: int = 0;
    assert(Outbox { alerts: out@, announced: dedup.announced() } =~= start);
    while waiting.len() > 0
        invariant
            calc.reliable(),
            m == calc.meaning(),
            positions == engine.state@.positions,
            n == opened_notes.len(),
            0 <= done <= n,
            waiting@ == opened_notes.skip(done).reverse(),
            (Outbox { alerts: out@, announced: dedup.announced() }) == with_openings(
                m,
                start,
                positions,
                opened_notes,
                prices@,
                size,
                done,
            ),
        decreases waiting@.len(),
    {
        match waiting.pop() {
            Some(note) => {
                assert(note == opened_notes[done]);
                match index_of_opened(&engine.state.positions, &note, calc) {
                    Some(at) => {
                        let id: u64 = engine.state.positions[at].id;
                        if dedup.should_alert_open(id) {
                            let price_a: Num = price_or_zero(prices, &note.symbol_a);
                            let price_b: Num = price_or_zero(prices, &note.symbol_b);
                            out.push(Alert::Opened { note, price_a, price_b, size });
                        }
                    },
                    None => {},
                }
            },
            None => {},
        }
        proof {
            assert(waiting@ =~= opened_notes.skip(done + 1).reverse());
            done = done + 1;
        }
    }
    let ghost opened = with_openings(m, start, positions, opened_notes, prices@, size, n);
    let ghost k = closed_notes.len() as int;
    let mut leaving: Vec<CloseNote> = reversed(closes);
    proof {
        done = 0;
    }
    while leaving.len() > 0
        invariant
            k == closed_notes.len(),
            0 <= done <= k,
            leaving@ == closed_notes.skip(done).reverse(),
            (Outbox { alerts: out@, announced: dedup.announced() }) == with_closings(
                opened,
                closed_notes,
                stop_from,
                engine.state@.balance,
                done,
            ),
        decreases leaving@.len(),
    {
        match leaving.pop() {
            Some(note) => {
                assert(note == closed_notes[done]);
                if dedup.should_alert_close(note.position_id) {
                    let balance: Num = engine.state.balance;
                    if stop_from.lt(note.zscore.abs()) {
                        out.push(Alert::Stopped { note, balance });
                    } else {
                        out.push(Alert::Closed { note, balance });
                    }
                }
            },
            None => {},
        }
        proof {
            assert(leaving@ =~= closed_notes.skip(done + 1).reverse());
            done = done + 1;
        }
    }
    dedup.cleanup();
    out
}

fn reversed<T>(items: Vec<T>) -> (r: Vec<T>)
    ensures
        r@ == items@.skip(0).reverse(),
{
    let ghost all = items@;
    let mut rest: Vec<T> = items;
    let mut out: Vec<T> = Vec::new();
    while rest.len() > 0
        invariant
            rest@.len() <= all.len(),
            rest@ == all.take(rest@.len() as int),
            out@ == all.skip(rest@.len() as int).reverse(),
        decreases rest@.len(),
    {
        let ghost n = rest@.len();
        match rest.pop() {
            Some(x) => {
                out.push(x);
            },
            None => {},
        }
        proof {
            assert(rest@ =~= all.take(n - 1));
            assert(out@ =~= all.skip(n - 1).reverse());
        }
    }
    out
}

/// Is there anything to trade? Only where trading is configured and there are signals.
pub fn should_trade(configured: bool, signals: &Vec<Signal>) -> (r: bool)
    ensures
        r == (configured && signals@.len() > 0),
{
    configured && signals.len() > 0
}

/// Carries out signals, as of the given moments, and gives the alerts that go out.
pub fn trade_at<F: Fn(Op) -> Num>(
    engine: &mut PaperEngine,
    dedup: &mut TradeDedup,
    signals: &Vec<Signal>,
    prices: &PriceBook,
    account_balance: Num,
    moments: &Vec<Timestamp>,
    calc: &Calculator<F>,
) -> (r: Vec<Alert>)
    requires
        calc.reliable(),
        moments@.len() == signals@.len(),
        counters_fit(old(engine).state@, signals@, 0),
    ensures
        ({
            let m = calc.meaning();
            let rules = old(engine).config;
            let out = alerts_of(
                m,
                old(dedup).announced(),
                old(engine).state@,
                final(engine).state@,
                signals@,
                prices@,
                times(m, account_balance, rules.max_position_pct),
                rules.stop_loss_zscore,
            );
            &&& final(engine).state@ == after_signals(
                m,
                rules,
                old(engine).state@,
                signals@,
                prices@,
                moments@,
                signals@.len() as int,
            )
            &&& r@ == out.alerts
            &&& final(dedup).announced() == after_event(out.announced, Event::Cleanup)
        }),
        final(engine).config == old(engine).config,
        final(engine).state_path == old(engine).state_path,
{
    let closes: Vec<CloseNote> = collect_closings(engine, signals);
    let opens: Vec<OpenNote> = collect_openings(engine, signals);
    engine.execute_signals_at(signals, prices, moments, calc);
    let size: Num = calc.times(account_balance, engine.config.max_position_pct);
    announce(engine, dedup, opens, closes, prices, size, engine.config.stop_loss_zscore, calc)
}

/// Carries out signals, as of now, and gives the alerts that go out.
pub fn trade<F: Fn(Op) -> Num>(
    engine: &mut PaperEngine,
    dedup: &mut TradeDedup,
    signals: &Vec<Signal>,
    prices: &PriceBook,
    account_balance: Num,
    calc: &Calculator<F>,
) -> (r: Vec<Alert>)
    requires
        calc.reliable(),
        counters_fit(old(engine).state@, signals@, 0),
    ensures
        exists|moments: Seq<Timestamp>|
            moments.len() == signals@.len() && final(engine).state@ == #[trigger] after_signals(
                calc.meaning(),
                old(engine).config,
                old(engine).state@,
                signals@,
                prices@,
                moments,
                signals@.len() as int,
            ),
        ({
            let m = calc.meaning();
            let rules = old(engine).config;
            let out = alerts_of(
                m,
                old(dedup).announced(),
                old(engine).state@,
                final(engine).state@,
                signals@,
                prices@,
                times(m, account_balance, rules.max_position_pct),
                rules.stop_loss_zscore,
            );
            &&& r@ == out.alerts
            &&& final(dedup).announced() == after_event(out.announced, Event::Cleanup)
        }),
        final(engine).config == old(engine).config,
        final(engine).state_path == old(engine).state_path,
{
    let mut moments: Vec<Timestamp> = Vec::new();
    let mut i: usize = 0;
    while i < signals.len()
        invariant
            0 <= i <= signals@.len(),
            moments@.len() == i,
        decreases signals@.len() - i,
    {
        moments.push(utc_now());
        i += 1;
    }
    trade_at(engine, dedup, signals, prices, account_balance, &moments, calc)
}

/// The half-life in an alert is that of the pair that the signal is for.
pub proof fn alert_has_the_half_life_of_its_pair(pairs: Seq<TrackedPair>, k: int)
    requires
        0 <= k < pairs.len(),
        distinct_pairs(pairs),
    ensures
        half_life_in(pairs, pairs[k].symbol_a@, pairs[k].symbol_b@) == pairs[k].half_life,
    decreases k,
{
    if k > 0 {
        let rest = pairs.skip(1);
        assert forall|i: int, j: int| 0 <= i < j < rest.len() implies !same_pair(
            (#[trigger] rest[i]).symbol_a@,
            rest[i].symbol_b@,
            (#[trigger] rest[j]).symbol_a@,
            rest[j].symbol_b@,
        ) by {
            let p = pairs[i + 1];
            let q = pairs[j + 1];
            assert(!same_pair(p.symbol_a@, p.symbol_b@, q.symbol_a@, q.symbol_b@));
        }
        let p = pairs[0];
        let q = pairs[k];
        assert(!same_pair(p.symbol_a@, p.symbol_b@, q.symbol_a@, q.symbol_b@));
        alert_has_the_half_life_of_its_pair(rest, k - 1);
        assert(rest[k - 1] == q);
    }
}

/// A closing is announced as a stop exactly where its z-score is beyond the stop threshold.
pub proof fn stops_are_beyond_the_threshold(out: Outbox, note: CloseNote, stop_loss_zscore: Num, balance: Num)
    requires
        !out.announced.closes.contains(note.position_id),
    ensures
        ({
            let alert = with_closing(out, note, stop_loss_zscore, balance).alerts.last();
            &&& alert is Stopped <==> stop_loss_zscore.less(note.zscore.absolute())
            &&& alert is Closed <==> !stop_loss_zscore.less(note.zscore.absolute())
        }),
{
}

/// As many openings are announced as positions become known to have been announced: no position
/// gets two alerts, and none that was announced before gets another.
pub proof fn one_alert_per_opening(
    m: Arithmetic,
    out: Outbox,
    positions: Seq<Position>,
    notes: Seq<OpenNote>,
    prices: Map<Seq<char>, Num>,
    size: Num,
    n: int,
)
    requires
        out.announced.opens.finite(),
        0 <= n <= notes.len(),
    ensures
        ({
            let next = with_openings(m, out, positions, notes, prices, size, n);
            &&& next.announced.opens.finite()
            &&& out.announced.opens.subset_of(next.announced.opens)
            &&& next.alerts.len() - out.alerts.len() == next.announced.opens.len() - out.announced.opens.len()
            &&& out.alerts.is_prefix_of(next.alerts)
            &&& forall|x: int|
                out.alerts.len() <= x < next.alerts.len() ==> (#[trigger] next.alerts[x]) is Opened
        }),
    decreases n,
{
    if n > 0 {
        one_alert_per_opening(m, out, positions, notes, prices, size, n - 1);
        let before = with_openings(m, out, positions, notes, prices, size, n - 1);
        let next = with_openings(m, out, positions, notes, prices, size, n);
        match find_opened(m, positions, notes[n - 1]) {
            Some(at) => {
                let id = positions[at].id;
                if before.announced.opens.contains(id) {
                    assert(before.announced.opens.insert(id) =~= before.announced.opens);
                }
            },
            None => {},
        }
        assert forall|x: int| 0 <= x < out.alerts.len() implies #[trigger] next.alerts[x] == out.alerts[x] by {
            assert(before.alerts[x] == out.alerts[x]);
        }
        assert(out.alerts =~= next.alerts.subrange(0, out.alerts.len() as int));
    } else {
        assert(out.alerts =~= out.alerts.subrange(0, out.alerts.len() as int));
    }
}

/// As many closings are announced as positions become known to have closed: no position gets two
/// alerts, and none that was announced since the last cleanup gets another.
pub proof fn one_alert_per_closing(out: Outbox, notes: Seq<CloseNote>, stop_from: Num, balance: Num, n: int)
    requires
        out.announced.closes.finite(),
        0 <= n <= notes.len(),
    ensures
        ({
            let next = with_closings(out, notes, stop_from, balance, n);
            &&& next.announced.closes.finite()
            &&& out.announced.closes.subset_of(next.announced.closes)
            &&& next.alerts.len() - out.alerts.len() == next.announced.closes.len() - out.announced.closes.len()
            &&& out.alerts.is_prefix_of(next.alerts)
            &&& forall|k: int| 0 <= k < n ==> next.announced.closes.contains((#[trigger] notes[k]).position_id)
        }),
    decreases n,
{
    if n > 0 {
        one_alert_per_closing(out, notes, stop_from, balance, n - 1);
        let before = with_closings(out, notes, stop_from, balance, n - 1);
        let next = with_closings(out, notes, stop_from, balance, n);
        let id = notes[n - 1].position_id;
        if before.announced.closes.contains(id) {
            assert(before.announced.closes.insert(id) =~= before.announced.closes);
        }
        assert forall|x: int| 0 <= x < out.alerts.len() implies #[trigger] next.alerts[x] == out.alerts[x] by {
            assert(before.alerts[x] == out.alerts[x]);
        }
        assert(out.alerts =~= next.alerts.subrange(0, out.alerts.len() as int));
    } else {
        assert(out.alerts =~= out.alerts.subrange(0, out.alerts.len() as int));
    }
}

/// A position with the symbols of the note and its z-score answers the note, where the z-score less
/// itself is zero, as it is of every finite number.
pub proof fn asked_for_position_answers(m: Arithmetic, p: Position, note: OpenNote)
    requires
        p.symbol_a@ == note.symbol_a@,
        p.symbol_b@ == note.symbol_b@,
        p.current_zscore == note.zscore,
        minus(m, note.zscore, note.zscore).rank() == 0,
    ensures
        answers_note(m, p, note),
{
}

/// The search for the position that a note asked for finds one that answers it, and the first one.
pub proof fn found_position_answers(m: Arithmetic, positions: Seq<Position>, note: OpenNote)
    ensures
        match find_opened(m, positions, note) {
            Some(at) => 0 <= at < positions.len() && answers_note(m, positions[at], note) && forall|j: int|
                0 <= j < at ==> !answers_note(m, #[trigger] positions[j], note),
            None => forall|j: int| 0 <= j < positions.len() ==> !answers_note(m, #[trigger] positions[j], note),
        },
    decreases positions.len(),
{
    if positions.len() > 0 {
        let head = positions.drop_last();
        found_position_answers(m, head, note);
        assert forall|j: int| 0 <= j < head.len() implies head[j] == positions[j] by {}
        match find_opened(m, head, note) {
            Some(at) => {
                assert forall|j: int| 0 <= j < at implies !answers_note(m, #[trigger] positions[j], note) by {
                    assert(!answers_note(m, head[j], note));
                }
            },
            None => {
                assert forall|j: int| 0 <= j < head.len() implies !answers_note(
                    m,
                    #[trigger] positions[j],
                    note,
                ) by {
                    assert(!answers_note(m, head[j], note));
                }
            },
        }
    }
}

/// One of the alerts from number `from` on announces that a position in these symbols has opened.
pub open spec fn tells_opening(alerts: Seq<Alert>, from: int, symbol_a: Seq<char>, symbol_b: Seq<char>) -> bool {
    exists|x: int|
        from <= x < alerts.len() && (#[trigger] alerts[x] matches Alert::Opened { note, .. } && note.symbol_a@
            == symbol_a && note.symbol_b@ == symbol_b)
}

/// What has been told stays told when more alerts are added.
proof fn lemma_told_stays_told(
    alerts: Seq<Alert>,
    more: Seq<Alert>,
    from: int,
    symbol_a: Seq<char>,
    symbol_b: Seq<char>,
)
    requires
        0 <= from,
        tells_opening(alerts, from, symbol_a, symbol_b),
        alerts.len() <= more.len(),
        forall|x: int| 0 <= x < alerts.len() ==> #[trigger] more[x] == alerts[x],
    ensures
        tells_opening(more, from, symbol_a, symbol_b),
{
    let x = choose|x: int|
        from <= x < alerts.len() && (#[trigger] alerts[x] matches Alert::Opened { note, .. } && note.symbol_a@
            == symbol_a && note.symbol_b@ == symbol_b);
    assert(more[x] == alerts[x]);
}

/// A position that was asked for and has not been announced before is announced: its opening becomes
/// known to have been announced, and an alert with its symbols goes out. No other position may have
/// its number.
pub proof fn asked_for_position_is_announced(
    m: Arithmetic,
    out: Outbox,
    positions: Seq<Position>,
    notes: Seq<OpenNote>,
    prices: Map<Seq<char>, Num>,
    size: Num,
    k: int,
    at: int,
)
    requires
        0 <= k < notes.len(),
        find_opened(m, positions, notes[k]) == Some(at),
        !out.announced.opens.contains(positions[at].id),
        forall|i: int| 0 <= i < positions.len() && i != at ==> (#[trigger] positions[i]).id != positions[at].id,
    ensures
        ({
            let next = with_openings(m, out, positions, notes, prices, size, notes.len() as int);
            &&& next.announced.opens.contains(positions[at].id)
            &&& tells_opening(
                next.alerts,
                out.alerts.len() as int,
                positions[at].symbol_a@,
                positions[at].symbol_b@,
            )
        }),
{
    found_position_answers(m, positions, notes[k]);
    lemma_announced_as_asked(m, out, positions, notes, prices, size, at, notes.len() as int);
    lemma_asked_is_announced(m, out, positions, notes, prices, size, k, at, notes.len() as int);
}

/// A position that was not known to have been announced becomes so together with an alert.
proof fn lemma_announced_as_asked(
    m: Arithmetic,
    out: Outbox,
    positions: Seq<Position>,
    notes: Seq<OpenNote>,
    prices: Map<Seq<char>, Num>,
    size: Num,
    at: int,
    n: int,
)
    requires
        0 <= n <= notes.len(),
        0 <= at < positions.len(),
        !out.announced.opens.contains(positions[at].id),
        forall|i: int| 0 <= i < positions.len() && i != at ==> (#[trigger] positions[i]).id != positions[at].id,
    ensures
        ({
            let next = with_openings(m, out, positions, notes, prices, size, n);
            &&& out.alerts.len() <= next.alerts.len()
            &&& next.announced.opens.contains(positions[at].id) ==> tells_opening(
                next.alerts,
                out.alerts.len() as int,
                positions[at].symbol_a@,
                positions[at].symbol_b@,
            )
        }),
    decreases n,
{
    if n > 0 {
        lemma_announced_as_asked(m, out, positions, notes, prices, size, at, n - 1);
        let before = with_openings(m, out, positions, notes, prices, size, n - 1);
        let next = with_openings(m, out, positions, notes, prices, size, n);
        let (a, b) = (positions[at].symbol_a@, positions[at].symbol_b@);
        found_position_answers(m, positions, notes[n - 1]);
        if before.announced.opens.contains(positions[at].id) {
            lemma_told_stays_told(before.alerts, next.alerts, out.alerts.len() as int, a, b);
        } else if next.announced.opens.contains(positions[at].id) {
            assert(find_opened(m, positions, notes[n - 1]) == Some(at));
            assert(next.alerts[before.alerts.len() as int] matches Alert::Opened { note, .. } && note.symbol_a@ == a
                && note.symbol_b@ == b);
        }
    }
}

/// A position that one of the first `n` notes asked for is known to have been announced.
proof fn lemma_asked_is_announced(
    m: Arithmetic,
    out: Outbox,
    positions: Seq<Position>,
    notes: Seq<OpenNote>,
    prices: Map<Seq<char>, Num>,
    size: Num,
    k: int,
    at: int,
    n: int,
)
    requires
        0 <= k < n <= notes.len(),
        find_opened(m, positions, notes[k]) == Some(at),
    ensures
        with_openings(m, out, positions, notes, prices, size, n).announced.opens.contains(positions[at].id),
    decreases n,
{
    if k < n - 1 {
        lemma_asked_is_announced(m, out, positions, notes, prices, size, k, at, n - 1);
    }
}

/// Announcing closings takes back no alert, and forgets only the openings of what closes.
proof fn lemma_closings_forget_no_other(
    out: Outbox,
    notes: Seq<CloseNote>,
    stop_from: Num,
    balance: Num,
    id: u64,
    n: int,
)
    requires
        0 <= n <= notes.len(),
        forall|k: int| 0 <= k < notes.len() ==> (#[trigger] notes[k]).position_id != id,
    ensures
        ({
            let next = with_closings(out, notes, stop_from, balance, n);
            &&& out.announced.opens.contains(id) ==> next.announced.opens.contains(id)
            &&& out.alerts.len() <= next.alerts.len()
            &&& forall|x: int| 0 <= x < out.alerts.len() ==> #[trigger] next.alerts[x] == out.alerts[x]
        }),
    decreases n,
{
    if n > 0 {
        lemma_closings_forget_no_other(out, notes, stop_from, balance, id, n - 1);
        let before = with_closings(out, notes, stop_from, balance, n - 1);
        let next = with_closings(out, notes, stop_from, balance, n);
        assert(notes[n - 1].position_id != id);
        assert forall|x: int| 0 <= x < out.alerts.len() implies #[trigger] next.alerts[x] == out.alerts[x] by {
            assert(before.alerts[x] == out.alerts[x]);
        }
    }
}

/// Only positions that were open are noted as closing.
proof fn lemma_closing_was_open(positions: Seq<Position>, signals: Seq<Signal>, id: u64, n: int)
    requires
        0 <= n <= signals.len(),
        forall|i: int| 0 <= i < positions.len() ==> (#[trigger] positions[i]).id != id,
    ensures
        forall|k: int|
            0 <= k < close_notes(positions, signals, n).len() ==> (#[trigger] close_notes(
                positions,
                signals,
                n,
            )[k]).position_id != id,
    decreases n,
{
    if n > 0 {
        lemma_closing_was_open(positions, signals, id, n - 1);
        let before = close_notes(positions, signals, n - 1);
        let next = close_notes(positions, signals, n);
        match signals[n - 1] {
            Signal::ClosePosition { position_id, .. } => {
                found_position_has_number(positions, position_id);
            },
            _ => {},
        }
        assert forall|k: int| 0 <= k < next.len() implies (#[trigger] next[k]).position_id != id by {
            if k < before.len() {
                assert(next[k] == before[k]);
            }
        }
    }
}

/// The note of one of the first `n` signals is among their notes.
proof fn lemma_signal_has_its_note(pairs: Seq<TrackedPair>, signals: Seq<Signal>, y: int, n: int)
    requires
        0 <= y < n <= signals.len(),
        open_note(pairs, signals[y]) is Some,
    ensures
        open_notes(pairs, signals, n).contains(open_note(pairs, signals[y])->0),
    decreases n,
{
    let before = open_notes(pairs, signals, n - 1);
    let next = open_notes(pairs, signals, n);
    if y < n - 1 {
        lemma_signal_has_its_note(pairs, signals, y, n - 1);
        let k = choose|k: int| 0 <= k < before.len() && before[k] == open_note(pairs, signals[y])->0;
        assert(next[k] == before[k]);
    } else {
        assert(next[before.len() as int] == open_note(pairs, signals[y])->0);
    }
}

/// Is this the position that the signal opened?
pub open spec fn opened_by(pairs: Seq<TrackedPair>, signal: Signal, p: Position) -> bool {
    open_note(pairs, signal) matches Some(note) && p.symbol_a == note.symbol_a && p.symbol_b == note.symbol_b
        && p.side_a == note.side_a && p.side_b == note.side_b && p.current_zscore == note.zscore
}

/// Was the position opened by one of the first `n` signals?
pub open spec fn opened_by_any(pairs: Seq<TrackedPair>, signals: Seq<Signal>, p: Position, n: int) -> bool {
    exists|y: int| 0 <= y < n && opened_by(pairs, #[trigger] signals[y], p)
}

/// After signals have been carried out, every open position was open before, or one of the signals
/// opened it and its number is new.
pub proof fn positions_come_from_signals(
    m: Arithmetic,
    rules: TradingConfig,
    s: StateView,
    signals: Seq<Signal>,
    prices: Map<Seq<char>, Num>,
    moments: Seq<Timestamp>,
    n: int,
)
    requires
        adds_up(m, s),
        counters_fit(s, signals, 0),
        0 <= n <= signals.len(),
    ensures
        ({
            let next = after_signals(m, rules, s, signals, prices, moments, n);
            &&& s.next_position_id <= next.next_position_id
            &&& forall|i: int|
                0 <= i < next.positions.len() ==> if (#[trigger] next.positions[i]).id < s.next_position_id {
                    s.positions.contains(next.positions[i])
                } else {
                    opened_by_any(s.tracked_pairs, signals, next.positions[i], n)
                }
        }),
    decreases n,
{
    let next = after_signals(m, rules, s, signals, prices, moments, n);
    if n > 0 {
        positions_come_from_signals(m, rules, s, signals, prices, moments, n - 1);
        signals_keep_order(m, rules, s, signals, prices, moments, n - 1);
        let before = after_signals(m, rules, s, signals, prices, moments, n - 1);
        let pairs = s.tracked_pairs;
        lemma_counts_are_not_negative(signals, n);
        match signals[n - 1] {
            Signal::ClosePosition { position_id, .. } => {
                found_position_has_number(before.positions, position_id);
            },
            _ => {},
        }
        assert forall|i: int| 0 <= i < next.positions.len() implies if (#[trigger] next.positions[i]).id
            < s.next_position_id {
            s.positions.contains(next.positions[i])
        } else {
            opened_by_any(pairs, signals, next.positions[i], n)
        } by {
            let p = next.positions[i];
            if before.positions.contains(p) {
                let j = choose|j: int| 0 <= j < before.positions.len() && before.positions[j] == p;
                assert(before.positions[j] == p);
                if p.id >= s.next_position_id {
                    let y = choose|y: int| 0 <= y < n - 1 && opened_by(pairs, #[trigger] signals[y], p);
                    assert(opened_by(pairs, signals[y], p));
                }
            } else {
                match signals[n - 1] {
                    Signal::ClosePosition { position_id, .. } => {
                        match find_position(before.positions, position_id) {
                            Some(at) => {
                                let j = if i < at { i } else { i + 1 };
                                assert(before.positions[j] == p);
                            },
                            None => {
                                assert(before.positions[i] == p);
                            },
                        }
                    },
                    _ => {
                        if i < before.positions.len() {
                            assert(before.positions[i] == p);
                        }
                        assert(opened_by(pairs, signals[n - 1], p));
                    },
                }
            }
        }
    } else {
        assert forall|i: int| 0 <= i < next.positions.len() implies s.positions.contains(
            #[trigger] next.positions[i],
        ) by {}
    }
}

/// Every position that a round of trading opens is announced, unless its number was announced
/// before: its opening becomes known to have been announced, and an alert with its symbols goes out.
/// Its z-score less itself must be zero, as it is of every finite number, and no other open position
/// may name the same symbols in the same order.
pub proof fn new_positions_are_announced(
    m: Arithmetic,
    rules: TradingConfig,
    announced: Announced,
    before: StateView,
    signals: Seq<Signal>,
    prices: Map<Seq<char>, Num>,
    moments: Seq<Timestamp>,
    size: Num,
    stop_from: Num,
    at: int,
)
    requires
        adds_up(m, before),
        counters_fit(before, signals, 0),
        ({
            let after = after_signals(m, rules, before, signals, prices, moments, signals.len() as int);
            let p = after.positions[at];
            &&& 0 <= at < after.positions.len()
            &&& before.next_position_id <= p.id
            &&& !announced.opens.contains(p.id)
            &&& minus(m, p.current_zscore, p.current_zscore).rank() == 0
            &&& forall|i: int|
                0 <= i < after.positions.len() && i != at ==> !((#[trigger] after.positions[i]).symbol_a@
                    == p.symbol_a@ && after.positions[i].symbol_b@ == p.symbol_b@)
        }),
    ensures
        ({
            let after = after_signals(m, rules, before, signals, prices, moments, signals.len() as int);
            let p = after.positions[at];
            let out = alerts_of(m, announced, before, after, signals, prices, size, stop_from);
            &&& out.announced.opens.contains(p.id)
            &&& tells_opening(out.alerts, 0, p.symbol_a@, p.symbol_b@)
        }),
{
    let n = signals.len() as int;
    let after = after_signals(m, rules, before, signals, prices, moments, n);
    let p = after.positions[at];
    let pairs = before.tracked_pairs;
    let opens = open_notes(pairs, signals, n);
    let closes = close_notes(before.positions, signals, n);
    let start = Outbox { alerts: Seq::empty(), announced };
    let told = with_openings(m, start, after.positions, opens, prices, size, opens.len() as int);
    let out = alerts_of(m, announced, before, after, signals, prices, size, stop_from);

    positions_come_from_signals(m, rules, before, signals, prices, moments, n);
    let y = choose|y: int| 0 <= y < n && opened_by(pairs, #[trigger] signals[y], p);
    let note = open_note(pairs, signals[y])->0;
    lemma_signal_has_its_note(pairs, signals, y, n);
    let k = choose|k: int| 0 <= k < opens.len() && opens[k] == note;

    asked_for_position_answers(m, p, note);
    found_position_answers(m, after.positions, note);
    assert(find_opened(m, after.positions, note) == Some(at));
    signals_keep_order(m, rules, before, signals, prices, moments, n);
    asked_for_position_is_announced(m, start, after.positions, opens, prices, size, k, at);

    lemma_closing_was_open(before.positions, signals, p.id, n);
    lemma_closings_forget_no_other(told, closes, stop_from, after.balance, p.id, closes.len() as int);
    lemma_told_stays_told(told.alerts, out.alerts, 0, p.symbol_a@, p.symbol_b@);
}

/// Does the signal open a position in this pair, whose symbols no open position uses?
pub open spec fn enters(pairs: Seq<TrackedPair>, positions: Seq<Position>, signal: Signal, k: int) -> bool {
    open_note(pairs, signal) matches Some(note) && note.symbol_a == pairs[k].symbol_a && note.symbol_b
        == pairs[k].symbol_b && !symbol_busy(positions, pairs[k])
}

/// Does the signal open a position in one of the first `n` pairs, whose symbols no open position uses?
pub open spec fn enters_any(pairs: Seq<TrackedPair>, positions: Seq<Position>, signal: Signal, n: int) -> bool {
    exists|k: int| 0 <= k < n && #[trigger] enters(pairs, positions, signal, k)
}

/// Do both signals open positions in the same symbols?
pub open spec fn alike(pairs: Seq<TrackedPair>, one: Signal, other: Signal) -> bool {
    open_note(pairs, one) matches Some(a) && open_note(pairs, other) matches Some(b) && same_pair(
        a.symbol_a@,
        a.symbol_b@,
        b.symbol_a@,
        b.symbol_b@,
    )
}

/// Signals of the same moment open nothing in symbols that are in use, and no two of them open
/// positions in the same symbols.
pub proof fn entries_are_apart(
    m: Arithmetic,
    s: StateView,
    rules: TradingConfig,
    prices: Map<Seq<char>, Num>,
    n: int,
)
    requires
        distinct_pairs(s.tracked_pairs),
        0 <= n <= s.tracked_pairs.len(),
    ensures
        ({
            let all = signals(m, s, rules, prices, n);
            &&& forall|x: int|
                0 <= x < all.len() ==> (#[trigger] all[x]) is ClosePosition || enters_any(
                    s.tracked_pairs,
                    s.positions,
                    all[x],
                    n,
                )
            &&& forall|x: int, y: int|
                0 <= x < y < all.len() ==> !alike(s.tracked_pairs, #[trigger] all[x], #[trigger] all[y])
        }),
    decreases n,
{
    if n > 0 {
        entries_are_apart(m, s, rules, prices, n - 1);
        let pairs = s.tracked_pairs;
        let pair = pairs[n - 1];
        let before = signals(m, s, rules, prices, n - 1);
        let all = signals(m, s, rules, prices, n);
        let z = pair_zscore(m, prices, pair);
        let more = pair_signals(s, rules, pair, z);
        pair_enters_or_leaves(s, rules, pair, z);
        assert forall|x: int| 0 <= x < all.len() implies (#[trigger] all[x]) is ClosePosition || enters_any(
            pairs,
            s.positions,
            all[x],
            n,
        ) by {
            if x < before.len() {
                assert(all[x] == before[x]);
                if !(before[x] is ClosePosition) {
                    let k = choose|k: int| 0 <= k < n - 1 && #[trigger] enters(pairs, s.positions, before[x], k);
                    assert(enters(pairs, s.positions, all[x], k));
                }
            } else {
                assert(all[x] == more[x - before.len()]);
                if !(all[x] is ClosePosition) {
                    lemma_pair_enters_itself(s, rules, n - 1, z, x - before.len());
                }
            }
        }
        assert forall|x: int, y: int| 0 <= x < y < all.len() implies !alike(
            pairs,
            #[trigger] all[x],
            #[trigger] all[y],
        ) by {
            if y < before.len() {
                assert(all[x] == before[x] && all[y] == before[y]);
            } else if alike(pairs, all[x], all[y]) {
                assert(all[y] == more[y - before.len()]);
                lemma_pair_enters_itself(s, rules, n - 1, z, y - before.len());
                if x < before.len() {
                    assert(all[x] == before[x]);
                    let k = choose|k: int| 0 <= k < n - 1 && #[trigger] enters(pairs, s.positions, before[x], k);
                    let q = pairs[k];
                    assert(!same_pair(q.symbol_a@, q.symbol_b@, pair.symbol_a@, pair.symbol_b@));
                } else {
                    assert(all[x] == more[x - before.len()]);
                }
            }
        }
    }
}

/// A signal of a pair that opens a position opens it in that pair.
proof fn lemma_pair_enters_itself(s: StateView, rules: TradingConfig, k: int, z: Num, x: int)
    requires
        0 <= k < s.tracked_pairs.len(),
        0 <= x < pair_signals(s, rules, s.tracked_pairs[k], z).len(),
        !(pair_signals(s, rules, s.tracked_pairs[k], z)[x] is ClosePosition),
    ensures
        pair_signals(s, rules, s.tracked_pairs[k], z).len() == 1,
        enters(s.tracked_pairs, s.positions, pair_signals(s, rules, s.tracked_pairs[k], z)[x], k),
{
    let pair = s.tracked_pairs[k];
    pair_enters_or_leaves(s, rules, pair, z);
    if has_open(s.positions, pair) {
        closings_only_close(s.positions, pair, z);
        assert(closings(s.positions, pair, z)[x] is ClosePosition);
    }
}

/// A position that the signals of one moment open shares its two symbols with no other open position.
pub proof fn new_positions_are_apart(
    m: Arithmetic,
    rules: TradingConfig,
    s: StateView,
    prices: Map<Seq<char>, Num>,
    moments: Seq<Timestamp>,
    n: int,
    i: int,
    j: int,
)
    requires
        adds_up(m, s),
        distinct_pairs(s.tracked_pairs),
        counters_fit(s, signals(m, s, rules, prices, s.tracked_pairs.len() as int), 0),
        0 <= n <= signals(m, s, rules, prices, s.tracked_pairs.len() as int).len(),
        ({
            let all = signals(m, s, rules, prices, s.tracked_pairs.len() as int);
            let next = after_signals(m, rules, s, all, prices, moments, n);
            &&& 0 <= i < next.positions.len()
            &&& 0 <= j < next.positions.len()
            &&& i != j
            &&& s.next_position_id <= next.positions[i].id
        }),
    ensures
        ({
            let all = signals(m, s, rules, prices, s.tracked_pairs.len() as int);
            let next = after_signals(m, rules, s, all, prices, moments, n);
            let (p, q) = (next.positions[i], next.positions[j]);
            !same_pair(p.symbol_a@, p.symbol_b@, q.symbol_a@, q.symbol_b@)
        }),
    decreases n,
{
    let all = signals(m, s, rules, prices, s.tracked_pairs.len() as int);
    let next = after_signals(m, rules, s, all, prices, moments, n);
    if n > 0 {
        let before = after_signals(m, rules, s, all, prices, moments, n - 1);
        positions_come_from_signals(m, rules, s, all, prices, moments, n - 1);
        match all[n - 1] {
            Signal::ClosePosition { position_id, .. } => {
                found_position_has_number(before.positions, position_id);
                match find_position(before.positions, position_id) {
                    Some(at) => {
                        let a = if i < at { i } else { i + 1 };
                        let b = if j < at { j } else { j + 1 };
                        assert(before.positions[a] == next.positions[i]);
                        assert(before.positions[b] == next.positions[j]);
                        new_positions_are_apart(m, rules, s, prices, moments, n - 1, a, b);
                    },
                    None => {
                        new_positions_are_apart(m, rules, s, prices, moments, n - 1, i, j);
                    },
                }
            },
            _ => {
                let last = before.positions.len() as int;
                if i < last && j < last {
                    new_positions_are_apart(m, rules, s, prices, moments, n - 1, i, j);
                } else {
                    let x = if i < last { i } else { j };
                    lemma_newest_is_apart(m, rules, s, prices, moments, n, x);
                }
            },
        }
    } else {
        assert(s.positions[i].id < s.next_position_id);
    }
}

/// The position that signal number `n` opens shares its symbols with none that was open.
proof fn lemma_newest_is_apart(
    m: Arithmetic,
    rules: TradingConfig,
    s: StateView,
    prices: Map<Seq<char>, Num>,
    moments: Seq<Timestamp>,
    n: int,
    x: int,
)
    requires
        adds_up(m, s),
        distinct_pairs(s.tracked_pairs),
        counters_fit(s, signals(m, s, rules, prices, s.tracked_pairs.len() as int), 0),
        0 < n <= signals(m, s, rules, prices, s.tracked_pairs.len() as int).len(),
        ({
            let all = signals(m, s, rules, prices, s.tracked_pairs.len() as int);
            &&& open_note(s.tracked_pairs, all[n - 1]) is Some
            &&& 0 <= x < after_signals(m, rules, s, all, prices, moments, n - 1).positions.len()
        }),
    ensures
        ({
            let all = signals(m, s, rules, prices, s.tracked_pairs.len() as int);
            let p = after_signals(m, rules, s, all, prices, moments, n - 1).positions[x];
            let note = open_note(s.tracked_pairs, all[n - 1])->0;
            !same_pair(p.symbol_a@, p.symbol_b@, note.symbol_a@, note.symbol_b@)
        }),
{
    let pairs = s.tracked_pairs;
    let all = signals(m, s, rules, prices, pairs.len() as int);
    let p = after_signals(m, rules, s, all, prices, moments, n - 1).positions[x];
    positions_come_from_signals(m, rules, s, all, prices, moments, n - 1);
    entries_are_apart(m, s, rules, prices, pairs.len() as int);
    if p.id < s.next_position_id {
        let i = choose|i: int| 0 <= i < s.positions.len() && s.positions[i] == p;
        assert(enters_any(pairs, s.positions, all[n - 1], pairs.len() as int));
        let k = choose|k: int| 0 <= k < pairs.len() && #[trigger] enters(pairs, s.positions, all[n - 1], k);
        assert(!symbol_busy(s.positions, pairs[k]));
        assert(s.positions[i].symbol_a@ == p.symbol_a@);
    } else {
        let y = choose|y: int| 0 <= y < n - 1 && opened_by(pairs, #[trigger] all[y], p);
        assert(!alike(pairs, all[y], all[n - 1]));
    }
}

/// Every entry that the rules ask for and that opens is announced, unless its number was announced
/// before: its opening becomes known to have been announced, and an alert with its symbols goes out.
/// Its z-score less itself must be zero, as it is of every finite number.
pub proof fn entries_are_announced(
    m: Arithmetic,
    rules: TradingConfig,
    announced: Announced,
    before: StateView,
    prices: Map<Seq<char>, Num>,
    moments: Seq<Timestamp>,
    size: Num,
    stop_from: Num,
    at: int,
)
    requires
        adds_up(m, before),
        distinct_pairs(before.tracked_pairs),
        counters_fit(before, signals(m, before, rules, prices, before.tracked_pairs.len() as int), 0),
        ({
            let all = signals(m, before, rules, prices, before.tracked_pairs.len() as int);
            let after = after_signals(m, rules, before, all, prices, moments, all.len() as int);
            let p = after.positions[at];
            &&& 0 <= at < after.positions.len()
            &&& before.next_position_id <= p.id
            &&& !announced.opens.contains(p.id)
            &&& minus(m, p.current_zscore, p.current_zscore).rank() == 0
        }),
    ensures
        ({
            let all = signals(m, before, rules, prices, before.tracked_pairs.len() as int);
            let after = after_signals(m, rules, before, all, prices, moments, all.len() as int);
            let p = after.positions[at];
            let out = alerts_of(m, announced, before, after, all, prices, size, stop_from);
            &&& out.announced.opens.contains(p.id)
            &&& tells_opening(out.alerts, 0, p.symbol_a@, p.symbol_b@)
        }),
{
    let all = signals(m, before, rules, prices, before.tracked_pairs.len() as int);
    let n = all.len() as int;
    let after = after_signals(m, rules, before, all, prices, moments, n);
    let p = after.positions[at];
    assert forall|i: int| 0 <= i < after.positions.len() && i != at implies !((
    #[trigger] after.positions[i]).symbol_a@ == p.symbol_a@ && after.positions[i].symbol_b@ == p.symbol_b@) by {
        new_positions_are_apart(m, rules, before, prices, moments, n, at, i);
    }
    new_positions_are_announced(m, rules, announced, before, all, prices, moments, size, stop_from, at);
}

/// The position that a closing or a stop is announced of. `None` for an opening.
pub open spec fn leaving(alert: Alert) -> Option<u64> {
    match alert {
        Alert::Opened { .. } => None,
        Alert::Closed { note, .. } => Some(note.position_id),
        Alert::Stopped { note, .. } => Some(note.position_id),
    }
}

/// One of the alerts from number `from` on announces that the position with this number has closed.
pub open spec fn tells_closing(alerts: Seq<Alert>, from: int, id: u64) -> bool {
    exists|x: int| from <= x < alerts.len() && leaving(#[trigger] alerts[x]) == Some(id)
}

/// A closing that has not been announced since the last cleanup is announced: it becomes known to
/// have been announced, and an alert for it goes out.
pub proof fn noted_closing_is_announced(
    out: Outbox,
    notes: Seq<CloseNote>,
    stop_from: Num,
    balance: Num,
    k: int,
    n: int,
)
    requires
        0 <= k < n <= notes.len(),
        !out.announced.closes.contains(notes[k].position_id),
    ensures
        ({
            let next = with_closings(out, notes, stop_from, balance, n);
            &&& next.announced.closes.contains(notes[k].position_id)
            &&& tells_closing(next.alerts, out.alerts.len() as int, notes[k].position_id)
        }),
{
    lemma_closed_as_noted(out, notes, stop_from, balance, notes[k].position_id, n);
    lemma_noted_is_closed(out, notes, stop_from, balance, k, n);
}

/// A closing that was not known to have been announced becomes so together with an alert.
proof fn lemma_closed_as_noted(
    out: Outbox,
    notes: Seq<CloseNote>,
    stop_from: Num,
    balance: Num,
    id: u64,
    n: int,
)
    requires
        0 <= n <= notes.len(),
        !out.announced.closes.contains(id),
    ensures
        ({
            let next = with_closings(out, notes, stop_from, balance, n);
            &&& out.alerts.len() <= next.alerts.len()
            &&& next.announced.closes.contains(id) ==> tells_closing(next.alerts, out.alerts.len() as int, id)
        }),
    decreases n,
{
    if n > 0 {
        lemma_closed_as_noted(out, notes, stop_from, balance, id, n - 1);
        let before = with_closings(out, notes, stop_from, balance, n - 1);
        let next = with_closings(out, notes, stop_from, balance, n);
        if before.announced.closes.contains(id) {
            let x = choose|x: int|
                out.alerts.len() <= x < before.alerts.len() && leaving(#[trigger] before.alerts[x]) == Some(id);
            assert(leaving(next.alerts[x]) == Some(id));
        } else if next.announced.closes.contains(id) {
            assert(leaving(next.alerts[before.alerts.len() as int]) == Some(id));
        }
    }
}

/// What one of the first `n` notes is of is known to have been announced.
proof fn lemma_noted_is_closed(
    out: Outbox,
    notes: Seq<CloseNote>,
    stop_from: Num,
    balance: Num,
    k: int,
    n: int,
)
    requires
        0 <= k < n <= notes.len(),
    ensures
        with_closings(out, notes, stop_from, balance, n).announced.closes.contains(notes[k].position_id),
    decreases n,
{
    if k < n - 1 {
        lemma_noted_is_closed(out, notes, stop_from, balance, k, n - 1);
    }
}

/// The closing of an open position by one of the first `n` signals is noted.
proof fn lemma_closing_has_its_note(positions: Seq<Position>, signals: Seq<Signal>, y: int, n: int) -> (k: int)
    requires
        0 <= y < n <= signals.len(),
        close_note(positions, signals[y]) is Some,
    ensures
        0 <= k < close_notes(positions, signals, n).len(),
        close_notes(positions, signals, n)[k] == close_note(positions, signals[y])->0,
    decreases n,
{
    if y < n - 1 {
        lemma_closing_has_its_note(positions, signals, y, n - 1)
    } else {
        close_notes(positions, signals, n - 1).len() as int
    }
}

/// Does one of the first `n` signals tell the position with this number to close?
spec fn told_to_close(signals: Seq<Signal>, id: u64, n: int) -> bool {
    exists|y: int|
        0 <= y < n && (#[trigger] signals[y] matches Signal::ClosePosition { position_id, .. } && position_id == id)
}

/// A position that no signal tells to close stays open.
proof fn lemma_untold_stays_open(
    m: Arithmetic,
    rules: TradingConfig,
    s: StateView,
    signals: Seq<Signal>,
    prices: Map<Seq<char>, Num>,
    moments: Seq<Timestamp>,
    id: u64,
    n: int,
)
    requires
        0 <= n <= signals.len(),
        find_position(s.positions, id) is Some,
        !told_to_close(signals, id, n),
    ensures
        find_position(after_signals(m, rules, s, signals, prices, moments, n).positions, id) is Some,
    decreases n,
{
    if n > 0 {
        assert forall|y: int| 0 <= y < n - 1 implies !(#[trigger] signals[y] matches Signal::ClosePosition {
            position_id,
            ..
        } && position_id == id) by {}
        lemma_untold_stays_open(m, rules, s, signals, prices, moments, id, n - 1);
        let before = after_signals(m, rules, s, signals, prices, moments, n - 1).positions;
        let next = after_signals(m, rules, s, signals, prices, moments, n).positions;
        found_position_has_number(before, id);
        found_position_has_number(next, id);
        let at = find_position(before, id)->0;
        match signals[n - 1] {
            Signal::ClosePosition { position_id, .. } => {
                assert(position_id != id);
                found_position_has_number(before, position_id);
                match find_position(before, position_id) {
                    Some(gone) => {
                        let j = if at < gone { at } else { at - 1 };
                        assert(next[j] == before[at]);
                    },
                    None => {},
                }
            },
            _ => {
                assert(next[at] == before[at]);
            },
        }
    }
}

/// Every position that a round of trading closes is announced as closed or stopped, unless that was
/// announced since the last cleanup: its closing becomes known to have been announced, and an alert
/// with its number goes out.
pub proof fn closed_positions_are_announced(
    m: Arithmetic,
    rules: TradingConfig,
    announced: Announced,
    before: StateView,
    signals: Seq<Signal>,
    prices: Map<Seq<char>, Num>,
    moments: Seq<Timestamp>,
    size: Num,
    stop_from: Num,
    id: u64,
)
    requires
        find_position(before.positions, id) is Some,
        find_position(
            after_signals(m, rules, before, signals, prices, moments, signals.len() as int).positions,
            id,
        ) is None,
        !announced.closes.contains(id),
    ensures
        ({
            let after = after_signals(m, rules, before, signals, prices, moments, signals.len() as int);
            let out = alerts_of(m, announced, before, after, signals, prices, size, stop_from);
            &&& out.announced.closes.contains(id)
            &&& tells_closing(out.alerts, 0, id)
        }),
{
    let n = signals.len() as int;
    let after = after_signals(m, rules, before, signals, prices, moments, n);
    let opens = open_notes(before.tracked_pairs, signals, n);
    let closes = close_notes(before.positions, signals, n);
    let start = Outbox { alerts: Seq::empty(), announced };
    let told = with_openings(m, start, after.positions, opens, prices, size, opens.len() as int);
    if !told_to_close(signals, id, n) {
        lemma_untold_stays_open(m, rules, before, signals, prices, moments, id, n);
    }
    let y = choose|y: int|
        0 <= y < n && (#[trigger] signals[y] matches Signal::ClosePosition { position_id, .. } && position_id == id);
    let k = lemma_closing_has_its_note(before.positions, signals, y, n);
    lemma_openings_announce_no_closing(m, start, after.positions, opens, prices, size, opens.len() as int);
    noted_closing_is_announced(told, closes, stop_from, after.balance, k, closes.len() as int);
    let out = alerts_of(m, announced, before, after, signals, prices, size, stop_from);
    let x = choose|x: int|
        told.alerts.len() <= x < out.alerts.len() && leaving(#[trigger] out.alerts[x]) == Some(id);
    assert(leaving(out.alerts[x]) == Some(id));
}

/// Announcing openings announces no closing.
proof fn lemma_openings_announce_no_closing(
    m: Arithmetic,
    out: Outbox,
    positions: Seq<Position>,
    notes: Seq<OpenNote>,
    prices: Map<Seq<char>, Num>,
    size: Num,
    n: int,
)
    requires
        0 <= n <= notes.len(),
    ensures
        with_openings(m, out, positions, notes, prices, size, n).announced.closes == out.announced.closes,
    decreases n,
{
    if n > 0 {
        lemma_openings_announce_no_closing(m, out, positions, notes, prices, size, n - 1);
    }
}

/// A side in words.
pub open spec fn side_text(side: PositionSide) -> Seq<char> {
    match side {
        PositionSide::Long => "LONG"@,
        PositionSide::Short => "SHORT"@,
    }
}

/// What an alert says.
pub open spec fn alert_text(figures: Figures, alert: Alert) -> Seq<char> {
    match alert {
        Alert::Opened { note, price_a, price_b, size } => open_text(
            figures,
            note.symbol_a@,
            note.symbol_b@,
            side_text(note.side_a),
            side_text(note.side_b),
            note.zscore,
            note.hedge_ratio,
            note.half_life,
            price_a,
            price_b,
            size,
        ),
        Alert::Closed { note, balance } => close_text(
            figures,
            note.symbol_a@,
            note.symbol_b@,
            note.entry_zscore,
            note.zscore,
            note.pnl,
            balance,
        ),
        Alert::Stopped { note, balance } => stop_text(
            figures,
            note.symbol_a@,
            note.symbol_b@,
            note.entry_zscore,
            note.zscore,
            note.pnl,
            balance,
        ),
    }
}

fn side_word(side: PositionSide) -> (r: &'static str)
    ensures
        r@ == side_text(side),
{
    match side {
        PositionSide::Long => "LONG",
        PositionSide::Short => "SHORT",
    }
}

/// What an alert says.
pub fn message<W: Fn(Num, u8, bool) -> String>(alert: &Alert, writer: &DecimalWriter<W>) -> (r: String)
    requires
        writer.reliable(),
    ensures
        r@ == alert_text(writer.meaning(), *alert),
{
    match alert {
        Alert::Opened { note, price_a, price_b, size } => TelegramNotifier::alert_open(
            note.symbol_a.as_str(),
            note.symbol_b.as_str(),
            side_word(note.side_a),
            side_word(note.side_b),
            note.zscore,
            note.hedge_ratio,
            note.half_life,
            *price_a,
            *price_b,
            *size,
            writer,
        ),
        Alert::Closed { note, balance } => TelegramNotifier::alert_close(
            note.symbol_a.as_str(),
            note.symbol_b.as_str(),
            note.entry_zscore,
            note.zscore,
            note.pnl,
            *balance,
            writer,
        ),
        Alert::Stopped { note, balance } => TelegramNotifier::alert_stop_loss(
            note.symbol_a.as_str(),
            note.symbol_b.as_str(),
            note.entry_zscore,
            note.zscore,
            note.pnl,
            *balance,
            writer,
        ),
    }
}

} // verus!
