//! Application configuration.

use vstd::prelude::*;
use vstd::std_specs::convert::FromSpecImpl;
use vstd::string::StringExecFns;

use crate::num::{Num, HALF};
use crate::text::decimal;
use crate::text::numeral;
use crate::trading::models;

verus! {

/// `0.7`: the weakest correlation that passes the pre-filter.
pub const DEFAULT_MIN_CORRELATION: u64 = 0x3fe6_6666_6666_6666;

/// The chat that alerts go to. Group chats have negative numbers, so it is kept as text.
#[derive(Clone, Debug)]
pub struct ChatId(pub String);

impl ChatId {
    /// Is no chat configured?
    pub fn is_empty(&self) -> (r: bool)
        ensures
            r == (self.0@.len() == 0),
    {
        self.0.as_str().is_empty()
    }

    /// The chat with this number.
    pub fn from_number(n: i64) -> (r: Self)
        ensures
            r.0@ == signed_numeral(n as int),
    {
        if n >= 0 {
            return ChatId(decimal(n as u64));
        }
        let mut out: String = "-".to_owned();
        let size: u64 = (-(n as i128)) as u64;
        out.append(decimal(size).as_str());
        ChatId(out)
    }
}

/// The decimal numeral of a number, with a minus sign before one below zero.
pub open spec fn signed_numeral(n: int) -> Seq<char> {
    if n >= 0 {
        numeral(n as nat)
    } else {
        "-"@ + numeral((-n) as nat)
    }
}

impl Default for ChatId {
    fn default() -> (r: Self)
        ensures
            r.0@ == Seq::<char>::empty(),
    {
        ChatId(String::new())
    }
}

impl From<String> for ChatId {
    fn from(s: String) -> (r: Self) {
        ChatId(s)
    }
}

impl FromSpecImpl<String> for ChatId {
    open spec fn obeys_from_spec() -> bool {
        true
    }

    open spec fn from_spec(s: String) -> Self {
        ChatId(s)
    }
}

/// Everything that can be configured.
pub struct AppConfig {
    pub exchange: ExchangeConfig,
    pub scanner: ScannerConfig,
    pub trading: TradingConfig,
    pub telegram: TelegramConfig,
    pub monitor: MonitorConfig,
}

/// Exchange settings.
pub struct ExchangeConfig {
    /// Name of the exchange.
    pub name: String,
    /// Address of the exchange's interface. Empty for the usual one.
    pub base_url: String,
    /// Most requests under way at the same time.
    pub rate_limit: usize,
}

/// Scanner settings.
pub struct ScannerConfig {
    /// The weakest correlation that passes the pre-filter.
    pub min_correlation: Num,
    /// The fewest candles that statistical tests accept.
    pub min_candles: usize,
    /// Candle interval: 1, 3, 5, 15, 30, 60, 240 or D.
    pub interval: String,
    /// Candles to fetch for each symbol.
    pub kline_limit: u32,
    /// How many symbols to scan, by traded volume.
    pub top_n: usize,
    /// Most candles that are kept for a symbol.
    pub candle_cache_len: usize,
    /// Periods between two z-scores whose difference is the momentum.
    pub momentum_window: usize,
    /// Candles that the Hurst exponent looks at.
    pub hurst_window: usize,
}

/// Trading settings.
#[derive(Clone, Copy, PartialEq, Eq, Structural, Debug)]
pub struct TradingConfig {
    /// Balance of a fresh paper account.
    pub balance: Num,
    /// Z-score beyond which a position opens.
    pub zscore_entry: Num,
    /// Z-score within which a position closes.
    pub zscore_exit: Num,
    /// Z-score beyond which a position is stopped.
    pub stop_loss_zscore: Num,
    /// Share of the balance that one position takes.
    pub max_position_pct: Num,
    /// Most positions that are open at the same time.
    pub max_open_positions: usize,
    /// Pairs with a longer half-life are not tracked.
    pub min_half_life: Num,
    /// Taker fee per leg, in percent.
    pub commission_pct: Num,
    /// Estimated slippage per leg, in percent.
    pub slippage_pct: Num,
    /// Largest Hurst exponent for an entry.
    pub hurst_threshold: Num,
    /// Emergency exit beyond this Hurst exponent.
    pub hurst_exit: Num,
    /// How many of the five entry factors have to pass.
    pub entry_min_factors: u8,
}

/// Where alerts go.
pub struct TelegramConfig {
    /// Token of the bot that sends. Empty to send nothing.
    pub bot_token: String,
    /// The chat that receives. Empty to send nothing.
    pub chat_id: ChatId,
}

/// Monitor settings.
#[derive(Clone, Copy, PartialEq, Eq, Structural, Debug)]
pub struct MonitorConfig {
    /// Seconds between two cycles.
    pub refresh_sec: u64,
    /// Are signals traded?
    pub trade: bool,
    /// Minutes between two scans for pairs.
    pub rescan_min: u64,
    /// Symbols that share a streaming connection.
    pub ws_batch_size: usize,
    /// Seconds between two pings on a streaming connection.
    pub ws_ping_sec: u64,
}

/// Momentum window where none is configured.
pub fn default_momentum_window() -> (r: usize)
    ensures
        r == 5,
{
    5
}

/// Hurst window where none is configured.
pub fn default_hurst_window() -> (r: usize)
    ensures
        r == 500,
{
    500
}

/// Largest Hurst exponent for an entry where none is configured.
pub fn default_hurst_threshold() -> (r: Num)
    ensures
        r == (Num { bits: HALF }),
{
    Num { bits: HALF }
}

/// Hurst exponent for an emergency exit where none is configured.
pub fn default_hurst_exit() -> (r: Num)
    ensures
        r == (Num { bits: models::DEFAULT_HURST_EXIT }),
{
    Num { bits: models::DEFAULT_HURST_EXIT }
}

/// Number of entry factors where none is configured.
pub fn default_entry_min_factors() -> (r: u8)
    ensures
        r == 4,
{
    4
}

/// The trading settings that apply where nothing else is configured.
pub open spec fn default_trading() -> TradingConfig {
    TradingConfig {
        balance: Num { bits: models::DEFAULT_BALANCE },
        zscore_entry: Num { bits: models::DEFAULT_ZSCORE_ENTRY },
        zscore_exit: Num { bits: HALF },
        stop_loss_zscore: Num { bits: models::DEFAULT_STOP_LOSS_ZSCORE },
        max_position_pct: Num { bits: models::DEFAULT_POSITION_PCT },
        max_open_positions: 4,
        min_half_life: Num { bits: models::DEFAULT_HALF_LIFE },
        commission_pct: Num { bits: models::DEFAULT_COMMISSION_PCT },
        slippage_pct: Num { bits: models::DEFAULT_SLIPPAGE_PCT },
        hurst_threshold: Num { bits: HALF },
        hurst_exit: Num { bits: models::DEFAULT_HURST_EXIT },
        entry_min_factors: 4,
    }
}

/// Are these the settings that apply where nothing is configured?
pub open spec fn is_default(c: AppConfig) -> bool {
    &&& c.exchange.name@ == "bybit"@
    &&& c.exchange.base_url@ == Seq::<char>::empty()
    &&& c.exchange.rate_limit == 5
    &&& c.scanner.min_correlation == (Num { bits: DEFAULT_MIN_CORRELATION })
    &&& c.scanner.min_candles == 50
    &&& c.scanner.interval@ == "5"@
    &&& c.scanner.kline_limit == 4000
    &&& c.scanner.top_n == 80
    &&& c.scanner.candle_cache_len == 4000
    &&& c.scanner.momentum_window == 5
    &&& c.scanner.hurst_window == 500
    &&& c.trading == default_trading()
    &&& c.telegram.bot_token@ == Seq::<char>::empty()
    &&& c.telegram.chat_id.0@ == Seq::<char>::empty()
    &&& c.monitor == (MonitorConfig {
        refresh_sec: 60,
        trade: false,
        rescan_min: 30,
        ws_batch_size: 50,
        ws_ping_sec: 20,
    })
}

impl Default for AppConfig {
    fn default() -> (r: Self)
        ensures
            is_default(r),
    {
        AppConfig {
            exchange: ExchangeConfig {
                name: "bybit".to_owned(),
                base_url: String::new(),
                rate_limit: 5,
            },
            scanner: ScannerConfig {
                min_correlation: Num { bits: DEFAULT_MIN_CORRELATION },
                min_candles: 50,
                interval: "5".to_owned(),
                kline_limit: 4000,
                top_n: 80,
                candle_cache_len: 4000,
                momentum_window: default_momentum_window(),
                hurst_window: default_hurst_window(),
            },
            trading: TradingConfig {
                balance: Num { bits: models::DEFAULT_BALANCE },
                zscore_entry: Num { bits: models::DEFAULT_ZSCORE_ENTRY },
                zscore_exit: Num { bits: HALF },
                stop_loss_zscore: Num { bits: models::DEFAULT_STOP_LOSS_ZSCORE },
                max_position_pct: Num { bits: models::DEFAULT_POSITION_PCT },
                max_open_positions: 4,
                min_half_life: Num { bits: models::DEFAULT_HALF_LIFE },
                commission_pct: Num { bits: models::DEFAULT_COMMISSION_PCT },
                slippage_pct: Num { bits: models::DEFAULT_SLIPPAGE_PCT },
                hurst_threshold: default_hurst_threshold(),
                hurst_exit: default_hurst_exit(),
                entry_min_factors: default_entry_min_factors(),
            },
            telegram: TelegramConfig { bot_token: String::new(), chat_id: ChatId::default() },
            monitor: MonitorConfig {
                refresh_sec: 60,
                trade: false,
                rescan_min: 30,
                ws_batch_size: 50,
                ws_ping_sec: 20,
            },
        }
    }
}

/// Values from the command line. Each one that is there takes the place of the configured one.
pub struct Overrides {
    pub min_correlation: Option<Num>,
    pub interval: Option<String>,
    pub kline_limit: Option<u32>,
    pub top_n: Option<usize>,
    pub zscore_entry: Option<Num>,
    pub zscore_exit: Option<Num>,
    pub balance: Option<Num>,
    pub tg_bot_token: Option<String>,
    pub tg_chat_id: Option<String>,
}

/// The value on the command line, or else the configured one.
pub open spec fn either<T>(given: Option<T>, configured: T) -> T {
    match given {
        Some(v) => v,
        None => configured,
    }
}

/// The configuration with the values from the command line in place.
pub open spec fn overridden(c: AppConfig, o: Overrides) -> AppConfig {
    AppConfig {
        exchange: c.exchange,
        scanner: ScannerConfig {
            min_correlation: either(o.min_correlation, c.scanner.min_correlation),
            interval: either(o.interval, c.scanner.interval),
            kline_limit: either(o.kline_limit, c.scanner.kline_limit),
            top_n: either(o.top_n, c.scanner.top_n),
            ..c.scanner
        },
        trading: TradingConfig {
            zscore_entry: either(o.zscore_entry, c.trading.zscore_entry),
            zscore_exit: either(o.zscore_exit, c.trading.zscore_exit),
            balance: either(o.balance, c.trading.balance),
            ..c.trading
        },
        telegram: TelegramConfig {
            bot_token: either(o.tg_bot_token, c.telegram.bot_token),
            chat_id: match o.tg_chat_id {
                Some(v) => ChatId(v),
                None => c.telegram.chat_id,
            },
        },
        monitor: c.monitor,
    }
}

impl AppConfig {
    /// Are alerts configured?
    pub fn has_telegram(&self) -> (r: bool)
        ensures
            r == (self.telegram.bot_token@.len() > 0 && self.telegram.chat_id.0@.len() > 0),
    {
        !self.telegram.bot_token.as_str().is_empty() && !self.telegram.chat_id.is_empty()
    }

    /// Puts the values from the command line in place.
    pub fn override_with(&mut self, o: Overrides)
        ensures
            *final(self) == overridden(*old(self), o),
    {
        if let Some(v) = o.min_correlation {
            self.scanner.min_correlation = v;
        }
        if let Some(v) = o.interval {
            self.scanner.interval = v;
        }
        if let Some(v) = o.kline_limit {
            self.scanner.kline_limit = v;
        }
        if let Some(v) = o.top_n {
            self.scanner.top_n = v;
        }
        if let Some(v) = o.zscore_entry {
            self.trading.zscore_entry = v;
        }
        if let Some(v) = o.zscore_exit {
            self.trading.zscore_exit = v;
        }
        if let Some(v) = o.balance {
            self.trading.balance = v;
        }
        if let Some(v) = o.tg_bot_token {
            self.telegram.bot_token = v;
        }
        if let Some(v) = o.tg_chat_id {
            self.telegram.chat_id = ChatId(v);
        }
    }
}

impl MonitorConfig {
    /// The settings with the values of the monitor command in place.
    pub fn override_with(self, refresh: Option<u64>, trade: Option<bool>) -> (r: MonitorConfig)
        ensures
            r == (MonitorConfig {
                refresh_sec: either(refresh, self.refresh_sec),
                trade: either(trade, self.trade),
                ..self
            }),
    {
        let mut out: MonitorConfig = self;
        if let Some(v) = refresh {
            out.refresh_sec = v;
        }
        if let Some(v) = trade {
            out.trade = v;
        }
        out
    }
}

/// The rules for the engine that a configuration holds.
pub open spec fn engine_rules(cfg: AppConfig) -> models::TradingConfig {
    models::TradingConfig {
        zscore_entry: cfg.trading.zscore_entry,
        zscore_exit: cfg.trading.zscore_exit,
        stop_loss_zscore: cfg.trading.stop_loss_zscore,
        max_position_pct: cfg.trading.max_position_pct,
        max_open_positions: cfg.trading.max_open_positions,
        min_half_life: cfg.trading.min_half_life,
        commission_pct: cfg.trading.commission_pct,
        slippage_pct: cfg.trading.slippage_pct,
        hurst_threshold: cfg.trading.hurst_threshold,
        hurst_exit: cfg.trading.hurst_exit,
        entry_min_factors: cfg.trading.entry_min_factors,
    }
}

impl From<&AppConfig> for models::TradingConfig {
    fn from(cfg: &AppConfig) -> (r: Self) {
        models::TradingConfig {
            zscore_entry: cfg.trading.zscore_entry,
            zscore_exit: cfg.trading.zscore_exit,
            stop_loss_zscore: cfg.trading.stop_loss_zscore,
            max_position_pct: cfg.trading.max_position_pct,
            max_open_positions: cfg.trading.max_open_positions,
            min_half_life: cfg.trading.min_half_life,
            commission_pct: cfg.trading.commission_pct,
            slippage_pct: cfg.trading.slippage_pct,
            hurst_threshold: cfg.trading.hurst_threshold,
            hurst_exit: cfg.trading.hurst_exit,
            entry_min_factors: cfg.trading.entry_min_factors,
        }
    }
}

impl FromSpecImpl<&AppConfig> for models::TradingConfig {
    open spec fn obeys_from_spec() -> bool {
        true
    }

    open spec fn from_spec(cfg: &AppConfig) -> Self {
        engine_rules(*cfg)
    }
}

/// Without anything configured, the engine trades by its own default rules.
pub proof fn default_config_has_default_rules(c: AppConfig)
    requires
        is_default(c),
    ensures
        engine_rules(c) == models::default_rules(),
{
}

/// Values that the command line leaves out stay as configured.
pub proof fn empty_command_line_changes_nothing(c: AppConfig, o: Overrides)
    requires
        o.min_correlation is None,
        o.interval is None,
        o.kline_limit is None,
        o.top_n is None,
        o.zscore_entry is None,
        o.zscore_exit is None,
        o.balance is None,
        o.tg_bot_token is None,
        o.tg_chat_id is None,
    ensures
        overridden(c, o) == c,
{
}

} // verus!
