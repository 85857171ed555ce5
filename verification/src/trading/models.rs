//! What paper trading keeps track of.

use vstd::prelude::*;

use crate::clock::Timestamp;
use crate::num::{Num, HALF, ZERO};
use crate::stats::cointegration::EntryGuard;

verus! {

/// `100.0`: the balance of a fresh state.
pub const DEFAULT_BALANCE: u64 = 0x4059_0000_0000_0000;

/// `2.0`: z-score beyond which a position opens.
pub const DEFAULT_ZSCORE_ENTRY: u64 = 0x4000_0000_0000_0000;

/// `4.0`: z-score beyond which a position is stopped.
pub const DEFAULT_STOP_LOSS_ZSCORE: u64 = 0x4010_0000_0000_0000;

/// `0.25`: share of the balance that one position takes.
pub const DEFAULT_POSITION_PCT: u64 = 0x3fd0_0000_0000_0000;

/// `200.0`: the longest half-life that is tracked.
pub const DEFAULT_HALF_LIFE: u64 = 0x4069_0000_0000_0000;

/// `0.055`: taker fee per leg, in percent.
pub const DEFAULT_COMMISSION_PCT: u64 = 0x3fac_28f5_c28f_5c29;

/// `0.02`: slippage per leg, in percent.
pub const DEFAULT_SLIPPAGE_PCT: u64 = 0x3f94_7ae1_47ae_147b;

/// `0.6`: Hurst exponent beyond which a position is abandoned.
pub const DEFAULT_HURST_EXIT: u64 = 0x3fe3_3333_3333_3333;

/// The side that a leg of a position is on.
#[derive(Clone, Copy, PartialEq, Eq, Structural, Debug)]
pub enum PositionSide {
    Long,
    Short,
}

/// Whether a position is still held.
#[derive(Clone, Copy, PartialEq, Eq, Structural, Debug)]
pub enum PositionStatus {
    Open,
    Closed,
}

/// A cointegrated pair that is watched for trades.
pub struct TrackedPair {
    pub symbol_a: String,
    pub symbol_b: String,
    pub correlation: Num,
    pub hedge_ratio: Num,
    pub spread_mean: Num,
    pub spread_std: Num,
    pub adf_stat: Num,
    pub half_life: Num,
    pub discovered_at: Timestamp,
    pub last_zscore: Num,
    pub last_updated: Timestamp,
    /// Change of the z-score over the recent window.
    pub spread_momentum: Num,
    /// Hurst exponent of the recent spread. Above one half the spread trends.
    pub hurst: Num,
    pub entry_guard: EntryGuard,
}

/// A position in a pair.
pub struct Position {
    pub id: u64,
    pub symbol_a: String,
    pub symbol_b: String,
    pub side_a: PositionSide,
    /// The other side than `side_a`.
    pub side_b: PositionSide,
    pub qty_a: Num,
    pub qty_b: Num,
    pub entry_price_a: Num,
    pub entry_price_b: Num,
    pub current_price_a: Num,
    pub current_price_b: Num,
    pub entry_zscore: Num,
    pub current_zscore: Num,
    pub entry_time: Timestamp,
    /// Money that the opening took, without its commission.
    pub size: Num,
    /// What the opening cost: minus its commission.
    pub entry_fee: Num,
    /// What the position has made so far, the opening commission included.
    pub pnl: Num,
    pub status: PositionStatus,
}

/// The state of paper trading, which outlives the process.
pub struct TradingState {
    pub balance: Num,
    pub initial_balance: Num,
    pub positions: Vec<Position>,
    pub closed_trades: Vec<Position>,
    pub next_position_id: u64,
    pub total_pnl: Num,
    pub win_count: u32,
    pub loss_count: u32,
    pub tracked_pairs: Vec<TrackedPair>,
}

/// The trading state as a mathematical value.
#[verifier::ext_equal]
pub struct StateView {
    pub balance: Num,
    pub initial_balance: Num,
    pub positions: Seq<Position>,
    pub closed_trades: Seq<Position>,
    pub next_position_id: u64,
    pub total_pnl: Num,
    pub win_count: u32,
    pub loss_count: u32,
    pub tracked_pairs: Seq<TrackedPair>,
}

impl View for TradingState {
    type V = StateView;

    open spec fn view(&self) -> StateView {
        StateView {
            balance: self.balance,
            initial_balance: self.initial_balance,
            positions: self.positions@,
            closed_trades: self.closed_trades@,
            next_position_id: self.next_position_id,
            total_pnl: self.total_pnl,
            win_count: self.win_count,
            loss_count: self.loss_count,
            tracked_pairs: self.tracked_pairs@,
        }
    }
}

/// A state in which nothing has happened yet.
pub open spec fn fresh_state(balance: Num) -> StateView {
    StateView {
        balance,
        initial_balance: balance,
        positions: Seq::empty(),
        closed_trades: Seq::empty(),
        next_position_id: 1,
        total_pnl: Num { bits: ZERO },
        win_count: 0,
        loss_count: 0,
        tracked_pairs: Seq::empty(),
    }
}

impl Default for TradingState {
    fn default() -> (r: Self)
        ensures
            r@ == fresh_state(Num { bits: DEFAULT_BALANCE }),
    {
        TradingState::with_balance(Num { bits: DEFAULT_BALANCE })
    }
}

impl TradingState {
    /// A state in which nothing has happened yet.
    pub fn with_balance(balance: Num) -> (r: Self)
        ensures
            r@ == fresh_state(balance),
    {
        TradingState {
            balance,
            initial_balance: balance,
            positions: Vec::new(),
            closed_trades: Vec::new(),
            next_position_id: 1,
            total_pnl: Num { bits: ZERO },
            win_count: 0,
            loss_count: 0,
            tracked_pairs: Vec::new(),
        }
    }
}

/// What a pair calls for.
pub enum Signal {
    OpenLong { symbol_a: String, symbol_b: String, zscore: Num, hedge_ratio: Num },
    OpenShort { symbol_a: String, symbol_b: String, zscore: Num, hedge_ratio: Num },
    ClosePosition { position_id: u64, zscore: Num },
}

/// The rules that the engine trades by.
#[derive(Clone, Copy, PartialEq, Eq, Structural, Debug)]
pub struct TradingConfig {
    pub zscore_entry: Num,
    pub zscore_exit: Num,
    /// Share of the balance that one position takes.
    pub max_position_pct: Num,
    /// Most positions that are open at the same time.
    pub max_open_positions: usize,
    /// Emergency exit beyond this z-score.
    pub stop_loss_zscore: Num,
    /// Pairs with a longer half-life are not tracked.
    pub min_half_life: Num,
    /// Taker fee per leg, in percent.
    pub commission_pct: Num,
    /// Estimated slippage per leg, in percent.
    pub slippage_pct: Num,
    /// Largest Hurst exponent for an entry. The entry guard is measured against it.
    pub hurst_threshold: Num,
    /// Emergency exit beyond this Hurst exponent.
    pub hurst_exit: Num,
    /// How many of the five entry factors have to pass.
    pub entry_min_factors: u8,
}

/// The rules that apply where nothing else is configured.
pub open spec fn default_rules() -> TradingConfig {
    TradingConfig {
        zscore_entry: Num { bits: DEFAULT_ZSCORE_ENTRY },
        zscore_exit: Num { bits: HALF },
        max_position_pct: Num { bits: DEFAULT_POSITION_PCT },
        max_open_positions: 4,
        stop_loss_zscore: Num { bits: DEFAULT_STOP_LOSS_ZSCORE },
        min_half_life: Num { bits: DEFAULT_HALF_LIFE },
        commission_pct: Num { bits: DEFAULT_COMMISSION_PCT },
        slippage_pct: Num { bits: DEFAULT_SLIPPAGE_PCT },
        hurst_threshold: Num { bits: HALF },
        hurst_exit: Num { bits: DEFAULT_HURST_EXIT },
        entry_min_factors: 4,
    }
}

impl Default for TradingConfig {
    fn default() -> (r: Self)
        ensures
            r == default_rules(),
    {
        TradingConfig {
            zscore_entry: Num { bits: DEFAULT_ZSCORE_ENTRY },
            zscore_exit: Num { bits: HALF },
            max_position_pct: Num { bits: DEFAULT_POSITION_PCT },
            max_open_positions: 4,
            stop_loss_zscore: Num { bits: DEFAULT_STOP_LOSS_ZSCORE },
            min_half_life: Num { bits: DEFAULT_HALF_LIFE },
            commission_pct: Num { bits: DEFAULT_COMMISSION_PCT },
            slippage_pct: Num { bits: DEFAULT_SLIPPAGE_PCT },
            hurst_threshold: Num { bits: HALF },
            hurst_exit: Num { bits: DEFAULT_HURST_EXIT },
            entry_min_factors: 4,
        }
    }
}

} // verus!
