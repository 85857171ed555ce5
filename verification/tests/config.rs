use lead_lag::config::{AppConfig, ChatId, MonitorConfig, Overrides, DEFAULT_MIN_CORRELATION};
use lead_lag::num::Num;
use lead_lag::trading::models::{
    TradingConfig, TradingState, DEFAULT_BALANCE, DEFAULT_COMMISSION_PCT, DEFAULT_HALF_LIFE, DEFAULT_HURST_EXIT,
    DEFAULT_POSITION_PCT, DEFAULT_SLIPPAGE_PCT, DEFAULT_STOP_LOSS_ZSCORE, DEFAULT_ZSCORE_ENTRY,
};

fn num(x: f64) -> Num {
    Num::from_bits(x.to_bits())
}

fn nothing() -> Overrides {
    Overrides {
        min_correlation: None,
        interval: None,
        kline_limit: None,
        top_n: None,
        zscore_entry: None,
        zscore_exit: None,
        balance: None,
        tg_bot_token: None,
        tg_chat_id: None,
    }
}

#[test]
fn test_telegram_disabled() {
    let config = AppConfig::default();
    assert!(!config.has_telegram());
}

#[test]
fn default_constants_stand_for_their_numbers() {
    assert_eq!(DEFAULT_MIN_CORRELATION, 0.7f64.to_bits());
    assert_eq!(DEFAULT_BALANCE, 100.0f64.to_bits());
    assert_eq!(DEFAULT_ZSCORE_ENTRY, 2.0f64.to_bits());
    assert_eq!(DEFAULT_STOP_LOSS_ZSCORE, 4.0f64.to_bits());
    assert_eq!(DEFAULT_POSITION_PCT, 0.25f64.to_bits());
    assert_eq!(DEFAULT_HALF_LIFE, 200.0f64.to_bits());
    assert_eq!(DEFAULT_COMMISSION_PCT, 0.055f64.to_bits());
    assert_eq!(DEFAULT_SLIPPAGE_PCT, 0.02f64.to_bits());
    assert_eq!(DEFAULT_HURST_EXIT, 0.6f64.to_bits());
}

#[test]
fn defaults_are_as_documented() {
    let c = AppConfig::default();
    assert_eq!(c.exchange.name, "bybit");
    assert_eq!(c.exchange.base_url, "");
    assert_eq!(c.exchange.rate_limit, 5);
    assert_eq!(c.scanner.min_correlation, num(0.7));
    assert_eq!(c.scanner.min_candles, 50);
    assert_eq!(c.scanner.interval, "5");
    assert_eq!(c.scanner.kline_limit, 4000);
    assert_eq!(c.scanner.top_n, 80);
    assert_eq!(c.scanner.candle_cache_len, 4000);
    assert_eq!(c.scanner.momentum_window, 5);
    assert_eq!(c.scanner.hurst_window, 500);
    assert_eq!(c.trading.balance, num(100.0));
    assert_eq!(c.trading.zscore_entry, num(2.0));
    assert_eq!(c.trading.zscore_exit, num(0.5));
    assert_eq!(c.trading.stop_loss_zscore, num(4.0));
    assert_eq!(c.trading.max_position_pct, num(0.25));
    assert_eq!(c.trading.max_open_positions, 4);
    assert_eq!(c.trading.min_half_life, num(200.0));
    assert_eq!(c.trading.commission_pct, num(0.055));
    assert_eq!(c.trading.slippage_pct, num(0.02));
    assert_eq!(c.trading.hurst_threshold, num(0.5));
    assert_eq!(c.trading.hurst_exit, num(0.6));
    assert_eq!(c.trading.entry_min_factors, 4);
    assert_eq!(
        c.monitor,
        MonitorConfig { refresh_sec: 60, trade: false, rescan_min: 30, ws_batch_size: 50, ws_ping_sec: 20 }
    );
    assert_eq!(TradingConfig::from(&c), TradingConfig::default());
}

#[test]
fn command_line_values_take_their_place() {
    let mut c = AppConfig::default();
    c.override_with(nothing());
    assert_eq!(c.scanner.top_n, 80);
    assert_eq!(c.scanner.interval, "5");
    c.override_with(Overrides {
        min_correlation: Some(num(0.6)),
        interval: Some("1".to_string()),
        kline_limit: Some(200),
        top_n: Some(50),
        zscore_entry: Some(num(2.5)),
        zscore_exit: Some(num(0.3)),
        balance: Some(num(500.0)),
        tg_bot_token: Some("123:ABC".to_string()),
        tg_chat_id: Some("999".to_string()),
    });
    assert_eq!(c.scanner.min_correlation, num(0.6));
    assert_eq!(c.scanner.interval, "1");
    assert_eq!(c.scanner.kline_limit, 200);
    assert_eq!(c.scanner.top_n, 50);
    assert_eq!(c.trading.zscore_entry, num(2.5));
    assert_eq!(c.trading.zscore_exit, num(0.3));
    assert_eq!(c.trading.balance, num(500.0));
    assert_eq!(c.trading.stop_loss_zscore, num(4.0));
    assert!(c.has_telegram());
    assert_eq!(TradingConfig::from(&c).zscore_entry, num(2.5));
}

#[test]
fn monitor_values_take_their_place() {
    let m = AppConfig::default().monitor;
    assert_eq!(m.override_with(None, None), m);
    let changed = m.override_with(Some(30), Some(true));
    assert_eq!(changed, MonitorConfig { refresh_sec: 30, trade: true, ..m });
}

#[test]
fn chats_are_texts_or_numbers() {
    assert!(ChatId::default().is_empty());
    assert_eq!(ChatId::from("999".to_string()).0, "999");
    assert_eq!(ChatId::from_number(-1003319647629).0, "-1003319647629");
    assert_eq!(ChatId::from_number(0).0, "0");
    assert_eq!(ChatId::from_number(i64::MIN).0, "-9223372036854775808");
    assert_eq!(ChatId::from_number(i64::MAX).0, "9223372036854775807");
}

#[test]
fn alerts_need_a_token_and_a_chat() {
    let mut c = AppConfig::default();
    c.telegram.bot_token = "123:ABC".to_string();
    assert!(!c.has_telegram());
    c.telegram.chat_id = ChatId("999".to_string());
    assert!(c.has_telegram());
    c.telegram.bot_token = String::new();
    assert!(!c.has_telegram());
}

#[test]
fn a_fresh_state_has_the_balance_and_nothing_else() {
    let s = TradingState::default();
    assert_eq!(s.balance, num(100.0));
    assert_eq!(s.initial_balance, num(100.0));
    assert_eq!(s.next_position_id, 1);
    assert!(s.positions.is_empty() && s.closed_trades.is_empty() && s.tracked_pairs.is_empty());
    assert_eq!((s.win_count, s.loss_count), (0, 0));
    assert_eq!(TradingState::with_balance(num(7.0)).initial_balance, num(7.0));
}
