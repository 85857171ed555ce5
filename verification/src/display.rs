//! How pairs and accounts are shown.

use vstd::prelude::*;
use vstd::string::StringExecFns;

use crate::arith::{minus, over, times, whole};
use crate::arith::{Arithmetic, Calculator, Op};
use crate::num::{Num, ZERO};
use crate::scanner::finder::coint_views;
use crate::stats::cointegration::turning;
use crate::stats::cointegration::{CointResult, CointView};
use crate::text::decimal;
use crate::text::numeral;
use crate::trading::engine::entry;
use crate::trading::engine::{PaperEngine, HUNDRED};
use crate::trading::models::{StateView, TrackedPair, TradingConfig};

verus! {

/// `1.5`: a z-score beyond this is worth watching.
pub const ELEVATED: u64 = 0x3ff8_0000_0000_0000;

/// How far a spread is from its mean.
#[derive(Clone, Copy, PartialEq, Eq, Structural, Debug)]
pub enum ZscoreLevel {
    /// Beyond the entry threshold.
    Diverged,
    /// Worth watching.
    Elevated,
    Calm,
}

/// Where a spread is going.
#[derive(Clone, Copy, PartialEq, Eq, Structural, Debug)]
pub enum MomentumLevel {
    /// On its way back.
    Reverting,
    /// Diverged and not on its way back.
    Against,
    Neutral,
}

/// What the Hurst exponent says.
#[derive(Clone, Copy, PartialEq, Eq, Structural, Debug)]
pub enum HurstLevel {
    Reverting,
    Uncertain,
    Trending,
}

/// What would be traded.
#[derive(Clone, Copy, PartialEq, Eq, Structural, Debug)]
pub enum Direction {
    /// Short in A, long in B.
    ShortA,
    /// Long in A, short in B.
    LongA,
    /// Diverged, but too few guard factors pass.
    Blocked,
    Nothing,
}

/// An account at a glance.
#[derive(Clone, Copy, PartialEq, Eq, Structural, Debug)]
pub struct Summary {
    pub total_trades: u32,
    /// Won trades in percent of all. Zero where there are none.
    pub win_rate: Num,
    /// Return on the initial balance in percent. Zero where there was none.
    pub roi: Num,
    /// The return is not below zero.
    pub gained: bool,
}

/// How far a spread is from its mean.
pub open spec fn zscore_level_of(z: Num, zscore_entry: Num) -> ZscoreLevel {
    if zscore_entry.less(z.absolute()) {
        ZscoreLevel::Diverged
    } else if (Num { bits: ELEVATED }).less(z.absolute()) {
        ZscoreLevel::Elevated
    } else {
        ZscoreLevel::Calm
    }
}

/// Where a spread is going.
pub open spec fn momentum_level_of(z: Num, momentum: Num, zscore_entry: Num) -> MomentumLevel {
    if turning(z, momentum) {
        MomentumLevel::Reverting
    } else if zscore_entry.less(z.absolute()) {
        MomentumLevel::Against
    } else {
        MomentumLevel::Neutral
    }
}

/// What the Hurst exponent says.
pub open spec fn hurst_level_of(h: Num, threshold: Num, exit: Num) -> HurstLevel {
    if h.less(threshold) {
        HurstLevel::Reverting
    } else if h.less(exit) {
        HurstLevel::Uncertain
    } else {
        HurstLevel::Trending
    }
}

/// What would be traded at this z-score: above the mean B is dear for the price of A.
pub open spec fn direction_of(z: Num, zscore_entry: Num, passing: bool) -> Direction {
    if zscore_entry.less(z.absolute()) && passing {
        if (Num { bits: ZERO }).less(z) {
            Direction::LongA
        } else {
            Direction::ShortA
        }
    } else if zscore_entry.less(z.absolute()) {
        Direction::Blocked
    } else {
        Direction::Nothing
    }
}

/// What would be traded, in words.
pub open spec fn direction_words(d: Direction, breakdown: Seq<char>, min_factors: u8) -> Seq<char> {
    match d {
        Direction::ShortA => " ✓ SHORT A / LONG B ["@ + breakdown + "]"@,
        Direction::LongA => " ✓ LONG A / SHORT B ["@ + breakdown + "]"@,
        Direction::Blocked => " ✗ ["@ + breakdown + "] (need "@ + numeral(min_factors as nat) + "/5)"@,
        Direction::Nothing => Seq::empty(),
    }
}

/// The account at a glance.
pub open spec fn summary_of(m: Arithmetic, s: StateView) -> Summary {
    let zero = Num { bits: ZERO };
    let hundred = Num { bits: HUNDRED };
    let trades = s.win_count + s.loss_count;
    let roi = if zero.less(s.initial_balance) {
        times(m, over(m, minus(m, s.balance, s.initial_balance), s.initial_balance), hundred)
    } else {
        zero
    };
    Summary {
        total_trades: trades as u32,
        win_rate: if trades > 0 {
            times(m, over(m, whole(m, s.win_count as int), whole(m, trades as int)), hundred)
        } else {
            zero
        },
        roi,
        gained: zero.at_most(roi),
    }
}

/// How far a spread is from its mean.
pub fn zscore_level(z: Num, zscore_entry: Num) -> (r: ZscoreLevel)
    ensures
        r == zscore_level_of(z, zscore_entry),
{
    if zscore_entry.lt(z.abs()) {
        ZscoreLevel::Diverged
    } else if (Num { bits: ELEVATED }).lt(z.abs()) {
        ZscoreLevel::Elevated
    } else {
        ZscoreLevel::Calm
    }
}

/// Where a spread is going.
pub fn momentum_level(z: Num, momentum: Num, zscore_entry: Num) -> (r: MomentumLevel)
    ensures
        r == momentum_level_of(z, momentum, zscore_entry),
{
    let zero: Num = Num { bits: ZERO };
    if (zero.lt(z) && momentum.lt(zero)) || (z.lt(zero) && zero.lt(momentum)) {
        MomentumLevel::Reverting
    } else if zscore_entry.lt(z.abs()) {
        MomentumLevel::Against
    } else {
        MomentumLevel::Neutral
    }
}

/// What the Hurst exponent says.
pub fn hurst_level(h: Num, threshold: Num, exit: Num) -> (r: HurstLevel)
    ensures
        r == hurst_level_of(h, threshold, exit),
{
    if h.lt(threshold) {
        HurstLevel::Reverting
    } else if h.lt(exit) {
        HurstLevel::Uncertain
    } else {
        HurstLevel::Trending
    }
}

/// What would be traded at this z-score.
pub fn direction(z: Num, zscore_entry: Num, passing: bool) -> (r: Direction)
    ensures
        r == direction_of(z, zscore_entry, passing),
{
    if !zscore_entry.lt(z.abs()) {
        Direction::Nothing
    } else if !passing {
        Direction::Blocked
    } else if (Num { bits: ZERO }).lt(z) {
        Direction::LongA
    } else {
        Direction::ShortA
    }
}

/// What would be traded, in words.
pub fn direction_text(d: Direction, breakdown: &str, min_factors: u8) -> (r: String)
    ensures
        r@ == direction_words(d, breakdown@, min_factors),
{
    match d {
        Direction::ShortA => {
            let mut out: String = " ✓ SHORT A / LONG B [".to_owned();
            out.append(breakdown);
            out.append("]");
            out
        },
        Direction::LongA => {
            let mut out: String = " ✓ LONG A / SHORT B [".to_owned();
            out.append(breakdown);
            out.append("]");
            out
        },
        Direction::Blocked => {
            let mut out: String = " ✗ [".to_owned();
            out.append(breakdown);
            out.append("] (need ");
            out.append(decimal(min_factors as u64).as_str());
            out.append("/5)");
            out
        },
        Direction::Nothing => {
            let out: String = String::new();
            assert(out@ =~= Seq::<char>::empty());
            out
        },
    }
}

/// Which of the first `n` results are beyond the entry threshold.
pub open spec fn diverged(results: Seq<CointView>, zscore_entry: Num, n: int) -> Seq<int>
    decreases n,
{
    if n <= 0 {
        Seq::empty()
    } else {
        let before = diverged(results, zscore_entry, n - 1);
        if zscore_entry.less(results[n - 1].current_zscore.absolute()) {
            before.push(n - 1)
        } else {
            before
        }
    }
}

/// Which results are beyond the entry threshold, by their places.
pub fn divergences(results: &Vec<CointResult>, zscore_entry: Num) -> (r: Vec<usize>)
    ensures
        r@.map_values(|i: usize| i as int) == diverged(coint_views(results@), zscore_entry, results@.len() as int),
        forall|k: int| 0 <= k < r@.len() ==> (#[trigger] r@[k]) < results@.len(),
{
    let mut out: Vec<usize> = Vec::new();
    let mut i: usize = 0;
    let ghost as_int = |i: usize| i as int;
    assert(out@.map_values(as_int) =~= diverged(coint_views(results@), zscore_entry, 0));
    while i < results.len()
        invariant
            0 <= i <= results@.len(),
            as_int == (|i: usize| i as int),
            out@.map_values(as_int) == diverged(coint_views(results@), zscore_entry, i as int),
            forall|k: int| 0 <= k < out@.len() ==> (#[trigger] out@[k]) < i,
        decreases results@.len() - i,
    {
        if zscore_entry.lt(results[i].current_zscore.abs()) {
            let ghost before = out@;
            out.push(i);
            assert(out@.map_values(as_int) =~= before.map_values(as_int).push(i as int));
        }
        i += 1;
    }
    out
}

/// The account at a glance.
pub fn summary<F: Fn(Op) -> Num>(engine: &PaperEngine, calc: &Calculator<F>) -> (r: Summary)
    requires
        calc.reliable(),
        engine.state.win_count + engine.state.loss_count <= u32::MAX,
    ensures
        r == summary_of(calc.meaning(), engine.state@),
{
    let zero: Num = Num { bits: ZERO };
    let hundred: Num = Num { bits: HUNDRED };
    let total_trades: u32 = engine.total_trades();
    let win_rate: Num = if total_trades > 0 {
        calc.times(
            calc.over(calc.whole(engine.state.win_count as usize), calc.whole(total_trades as usize)),
            hundred,
        )
    } else {
        zero
    };
    let initial: Num = engine.state.initial_balance;
    let roi: Num = if zero.lt(initial) {
        calc.times(calc.over(calc.minus(engine.state.balance, initial), initial), hundred)
    } else {
        zero
    };
    Summary { total_trades, win_rate, roi, gained: zero.le(roi) }
}

/// What is shown is what would be traded: a free pair gives a signal exactly where a direction is
/// shown, and in that direction. The entry threshold must be a number that is not below zero.
pub proof fn direction_agrees_with_signal(rules: TradingConfig, pair: TrackedPair, z: Num)
    requires
        (Num { bits: ZERO }).at_most(rules.zscore_entry),
    ensures
        ({
            let d = direction_of(
                z,
                rules.zscore_entry,
                pair.entry_guard.score >= rules.entry_min_factors,
            );
            let out = entry(rules, pair, z);
            &&& d is LongA <==> out.len() == 1 && out[0] is OpenShort
            &&& d is ShortA <==> out.len() == 1 && out[0] is OpenLong
            &&& d is Blocked || d is Nothing <==> out.len() == 0
        }),
{
}

} // verus!
