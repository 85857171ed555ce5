use lead_lag::decimal::{format_half_life, format_pnl, format_price, format_qty, DecimalWriter, THOUSAND};
use lead_lag::notify::telegram::{delivery, Delivery, RateLimit, TelegramNotifier, SECOND};
use lead_lag::num::Num;

fn num(x: f64) -> Num {
    Num::from_bits(x.to_bits())
}

fn write(x: Num, decimals: u8, signed: bool) -> String {
    let x = f64::from_bits(x.to_bits());
    if signed {
        format!("{:+.*}", decimals as usize, x)
    } else {
        format!("{:.*}", decimals as usize, x)
    }
}

fn writer() -> DecimalWriter<fn(Num, u8, bool) -> String> {
    DecimalWriter::new(write)
}

fn notifier(token: &str, chat: &str) -> TelegramNotifier {
    TelegramNotifier::new(token.to_string(), chat.to_string(), 0)
}

fn at(secs: u64) -> u64 {
    secs * 1_000_000_000
}

#[test]
fn retry_after_is_read_from_the_answer() {
    let body = r#"{"ok":false,"error_code":429,"description":"Too Many Requests: retry after 38","parameters":{"retry_after":38}}"#;
    assert_eq!(TelegramNotifier::parse_retry_after(body), Some(38));
    assert_eq!(TelegramNotifier::parse_retry_after("{}"), None);
    assert_eq!(TelegramNotifier::parse_retry_after(r#""retry_after":"#), None);
    assert_eq!(TelegramNotifier::parse_retry_after(r#""retry_after": 5"#), None);
    assert_eq!(TelegramNotifier::parse_retry_after(r#"ä"retry_after":007x"#), Some(7));
    assert_eq!(TelegramNotifier::parse_retry_after(r#""retry_after":18446744073709551615"#), Some(u64::MAX));
    assert_eq!(TelegramNotifier::parse_retry_after(r#""retry_after":18446744073709551616"#), None);
    assert_eq!(TelegramNotifier::parse_retry_after(r#""retry_after":x,"retry_after":9"#), None);
}

#[test]
fn nothing_is_sent_without_token_and_chat() {
    assert_eq!(notifier("", "1").send(5), None);
    assert_eq!(notifier("t", "").send(5), None);
    assert_eq!(notifier("t", "1").send(5), Some(0));
    assert_eq!(notifier("123:ABC", "1").url(), "https://api.telegram.org/bot123:ABC/sendMessage");
}

#[test]
fn messages_keep_their_distance() {
    let mut n = notifier("t", "1");
    n.rate.attempted(Some(200), "", at(10));
    assert_eq!(n.send(at(10)), Some(2 * SECOND));
    assert_eq!(n.send(at(11)), Some(SECOND));
    assert_eq!(n.send(at(12)), Some(0));
    n.rate.attempted(Some(500), "\"retry_after\":90", at(20));
    assert_eq!(n.rate.next_allowed, 22 * SECOND);
    n.rate.attempted(None, "", at(30));
    assert_eq!(n.rate.next_allowed, 32 * SECOND);
}

#[test]
fn telegram_is_obeyed_when_it_asks_to_hold_back() {
    let mut rate = RateLimit::new(0);
    rate.attempted(Some(429), "{\"parameters\":{\"retry_after\":38}}", at(100));
    assert_eq!(rate.next_allowed, 139 * SECOND);
    assert_eq!(rate.wait(at(101)), 38 * SECOND);
    rate.attempted(Some(429), "busy", at(200));
    assert_eq!(rate.next_allowed, 231 * SECOND);
    rate.attempted(Some(429), "\"retry_after\":0", at(300));
    assert_eq!(rate.next_allowed, 302 * SECOND);
    rate.attempted(Some(429), "\"retry_after\":18446744073709551615", u64::MAX);
    assert_eq!(rate.next_allowed, u64::MAX as u128 + (u64::MAX as u128 + 1) * SECOND);
    assert_eq!(rate.wait(u64::MAX), (u64::MAX as u128 + 1) * SECOND);
}

#[test]
fn statuses_are_told_apart() {
    assert_eq!(delivery(Some(200)), Delivery::Sent);
    assert_eq!(delivery(Some(299)), Delivery::Sent);
    assert_eq!(delivery(Some(300)), Delivery::Failed);
    assert_eq!(delivery(Some(199)), Delivery::Failed);
    assert_eq!(delivery(Some(429)), Delivery::Limited);
    assert_eq!(delivery(None), Delivery::Unreachable);
}

#[test]
fn alerts_say_what_happened() {
    let w = writer();
    assert_eq!(
        TelegramNotifier::alert_open(
            "BTCUSDT",
            "ETHUSDT",
            "LONG",
            "SHORT",
            num(2.5),
            num(0.05),
            num(33.4),
            num(27000.5),
            num(1.5),
            num(25.0),
            &w
        ),
        "🔴 <b>OPEN #TRADE</b>\n\nBTCUSDT ↔ ETHUSDT\nLONG BTCUSDT @ 27000.50 | SHORT ETHUSDT @ 1.5000\n\n\
         Z-score: <code>+2.500</code>\nHedge β: <code>0.0500</code>\n\
         Half-life: <code>33</code>\nSize: <code>$25.00</code>"
    );
    let one = num(1.0);
    assert!(TelegramNotifier::alert_open("A", "B", "SHORT", "LONG", num(-2.5), one, one, one, one, one, &w)
        .starts_with("🟢 <b>OPEN"));
    assert_eq!(
        TelegramNotifier::alert_close("A", "B", num(2.5), num(0.25), num(1.5), num(101.5), &w),
        "🔚 <b>CLOSE</b>\n\nA ↔ B\n\nEntry z: <code>+2.500</code> → Exit z: <code>+0.250</code>\n\
         💰 PnL: <code>+$1.5000</code>\nBalance: <code>$101.50</code>"
    );
    assert_eq!(
        TelegramNotifier::alert_close("A", "B", num(2.5), num(0.25), num(-1.5), num(98.5), &w),
        "🔚 <b>CLOSE</b>\n\nA ↔ B\n\nEntry z: <code>+2.500</code> → Exit z: <code>+0.250</code>\n\
         📉 PnL: <code>$1.5000</code>\nBalance: <code>$98.50</code>"
    );
    assert_eq!(
        TelegramNotifier::alert_stop_loss("A", "B", num(2.5), num(4.5), num(-1.5), num(98.5), &w),
        "🛑 <b>STOP LOSS</b>\n\nA ↔ B\n\nEntry z: <code>+2.500</code> → Curr z: <code>+4.500</code>\n\
         PnL: <code>$-1.5000</code>\nBalance: <code>$98.50</code>"
    );
    assert_eq!(
        TelegramNotifier::alert_scan_summary(80, 120, 7, 2),
        "📊 <b>SCAN</b>\n\nSymbols: 80 | Correlated: 120 | Cointegrated: 7 | Signals: 2"
    );
}

#[test]
fn small_numbers_get_more_decimals() {
    let w = writer();
    assert_eq!(THOUSAND, 1000.0f64.to_bits());
    assert_eq!(format_price(num(1000.0), &w), "1000.00");
    assert_eq!(format_price(num(999.5), &w), "999.5000");
    assert_eq!(format_price(num(1.0), &w), "1.0000");
    assert_eq!(format_price(num(0.5), &w), "0.50000000");
    assert_eq!(format_qty(num(2000.0), &w), "2000.0000");
    assert_eq!(format_qty(num(0.25), &w), "0.25000000");
    assert_eq!(format_pnl(num(1.25), &w), "+$1.2500");
    assert_eq!(format_pnl(num(0.0), &w), "+$0.0000");
    assert_eq!(format_pnl(num(-1.25), &w), "-$1.2500");
    assert_eq!(format_half_life(num(12.6), &w), "13");
    assert_eq!(format_half_life(num(f64::INFINITY), &w), "∞");
}
