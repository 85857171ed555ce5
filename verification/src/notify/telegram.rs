//! Telegram alerts: what they say, when they may be sent and what the answers mean.

use vstd::prelude::*;
use vstd::string::StringExecFns;

use crate::decimal::{format_half_life, format_price, DecimalWriter, Figures};
use crate::decimal::{half_life_text, price_decimals};
use crate::num::{Num, ZERO};
use crate::text::{chars_of, decimal, find, leading_number};
use crate::text::{digit_run, find_from, found_is_first, numeral, unsigned};

verus! {

/// Nanoseconds in a second.
pub const SECOND: u128 = 1_000_000_000;

/// The least number of seconds between two messages.
pub const MIN_INTERVAL: u64 = 2;

/// How many seconds to hold back when Telegram asks for it without saying for how long.
pub const DEFAULT_RETRY: u64 = 30;

/// Sends alerts to a chat, not too many at a time.
pub struct TelegramNotifier {
    pub bot_token: String,
    pub chat_id: String,
    pub rate: RateLimit,
}

/// When the next message may be sent.
///
/// Moments are nanoseconds on a clock that never goes back. It starts with the program, so that 64
/// bits last for centuries.
#[derive(Clone, Copy, PartialEq, Eq, Structural, Debug)]
pub struct RateLimit {
    /// The earliest moment at which the next message may be sent.
    pub next_allowed: u128,
    /// The least number of seconds between two messages.
    pub min_interval_secs: u64,
}

/// What became of a message.
#[derive(Clone, Copy, PartialEq, Eq, Structural, Debug)]
pub enum Delivery {
    /// It was taken.
    Sent,
    /// There have been too many.
    Limited,
    /// It was refused.
    Failed,
    /// There was no answer.
    Unreachable,
}

/// What an HTTP status says about a message. `None` is no answer at all.
pub open spec fn delivery_of(status: Option<u16>) -> Delivery {
    match status {
        Some(code) => if 200 <= code < 300 {
            Delivery::Sent
        } else if code == 429 {
            Delivery::Limited
        } else {
            Delivery::Failed
        },
        None => Delivery::Unreachable,
    }
}

/// How many seconds an answer asks to hold back: the digits behind `"retry_after":`.
pub open spec fn retry_after_in(body: Seq<char>) -> Option<u64> {
    let key = "\"retry_after\":"@;
    match find_from(body, key, 0) {
        Some(at) => unsigned(digit_run(body, at + key.len())),
        None => None,
    }
}

/// How many seconds an answer asks to hold back, or what is usual.
pub open spec fn retry_after(body: Seq<char>) -> u64 {
    match retry_after_in(body) {
        Some(n) => n,
        None => DEFAULT_RETRY,
    }
}

/// How many seconds to hold back after an attempt: the minimum interval and, where there have been
/// too many messages, a second longer than Telegram asks for.
pub open spec fn pause_after(min_interval_secs: u64, status: Option<u16>, body: Seq<char>) -> int {
    let asked = if delivery_of(status) is Limited {
        retry_after(body) + 1
    } else {
        0
    };
    if asked > min_interval_secs {
        asked
    } else {
        min_interval_secs as int
    }
}

/// The limit after an attempt that ended at the moment `now`.
pub open spec fn after_attempt(rate: RateLimit, status: Option<u16>, body: Seq<char>, now: u64) -> RateLimit {
    RateLimit {
        next_allowed: (now + pause_after(rate.min_interval_secs, status, body) * SECOND) as u128,
        min_interval_secs: rate.min_interval_secs,
    }
}

/// How many nanoseconds a message has to wait at the moment `now`.
pub open spec fn wait_of(rate: RateLimit, now: u64) -> int {
    if now < rate.next_allowed {
        rate.next_allowed - now
    } else {
        0
    }
}

/// Red for a short spread, green for a long one.
pub open spec fn direction_mark(zscore: Num) -> Seq<char> {
    if (Num { bits: ZERO }).less(zscore) {
        "🔴"@
    } else {
        "🟢"@
    }
}

/// The alert for a position that has opened.
pub open spec fn open_text(
    figures: Figures,
    symbol_a: Seq<char>,
    symbol_b: Seq<char>,
    side_a: Seq<char>,
    side_b: Seq<char>,
    zscore: Num,
    hedge_ratio: Num,
    half_life: Num,
    price_a: Num,
    price_b: Num,
    size: Num,
) -> Seq<char> {
    direction_mark(zscore) + " <b>OPEN #TRADE</b>\n\n"@ + symbol_a + " ↔ "@ + symbol_b + "\n"@ + side_a + " "@ + symbol_a
        + " @ "@ + figures(price_a, price_decimals(price_a), false) + " | "@ + side_b + " "@ + symbol_b + " @ "@
        + figures(price_b, price_decimals(price_b), false) + "\n\nZ-score: <code>"@ + figures(zscore, 3, true)
        + "</code>\nHedge β: <code>"@ + figures(hedge_ratio, 4, false) + "</code>\nHalf-life: <code>"@
        + half_life_text(figures, half_life) + "</code>\nSize: <code>$"@ + figures(size, 2, false) + "</code>"@
}

/// The alert for a position that has closed.
pub open spec fn close_text(
    figures: Figures,
    symbol_a: Seq<char>,
    symbol_b: Seq<char>,
    entry_zscore: Num,
    exit_zscore: Num,
    pnl: Num,
    balance: Num,
) -> Seq<char> {
    let won = (Num { bits: ZERO }).at_most(pnl);
    "🔚 <b>CLOSE</b>\n\n"@ + symbol_a + " ↔ "@ + symbol_b + "\n\nEntry z: <code>"@ + figures(entry_zscore, 3, true)
        + "</code> → Exit z: <code>"@ + figures(exit_zscore, 3, true) + "</code>\n"@ + (if won {
        "💰"@
    } else {
        "📉"@
    }) + " PnL: <code>"@ + (if won {
        "+$"@
    } else {
        "$"@
    }) + figures(pnl.absolute(), 4, false) + "</code>\nBalance: <code>$"@ + figures(balance, 2, false) + "</code>"@
}

/// The alert for a position that was stopped.
pub open spec fn stop_text(
    figures: Figures,
    symbol_a: Seq<char>,
    symbol_b: Seq<char>,
    entry_zscore: Num,
    current_zscore: Num,
    pnl: Num,
    balance: Num,
) -> Seq<char> {
    "🛑 <b>STOP LOSS</b>\n\n"@ + symbol_a + " ↔ "@ + symbol_b + "\n\nEntry z: <code>"@ + figures(entry_zscore, 3, true)
        + "</code> → Curr z: <code>"@ + figures(current_zscore, 3, true) + "</code>\nPnL: <code>$"@ + figures(
        pnl,
        4,
        false,
    ) + "</code>\nBalance: <code>$"@ + figures(balance, 2, false) + "</code>"@
}

/// The summary of a scan.
pub open spec fn scan_text(total: int, correlated: int, cointegrated: int, signals: int) -> Seq<char> {
    "📊 <b>SCAN</b>\n\nSymbols: "@ + numeral(total as nat) + " | Correlated: "@ + numeral(correlated as nat)
        + " | Cointegrated: "@ + numeral(cointegrated as nat) + " | Signals: "@ + numeral(signals as nat)
}

/// What an HTTP status says about a message.
pub fn delivery(status: Option<u16>) -> (r: Delivery)
    ensures
        r == delivery_of(status),
{
    match status {
        Some(code) => if 200 <= code && code < 300 {
            Delivery::Sent
        } else if code == 429 {
            Delivery::Limited
        } else {
            Delivery::Failed
        },
        None => Delivery::Unreachable,
    }
}

impl RateLimit {
    /// Messages may be sent from the moment `now` on.
    pub fn new(now: u64) -> (r: Self)
        ensures
            r.next_allowed == now,
            r.min_interval_secs == MIN_INTERVAL,
    {
        RateLimit { next_allowed: now as u128, min_interval_secs: MIN_INTERVAL }
    }

    /// How many nanoseconds to wait before a message may be sent.
    pub fn wait(&self, now: u64) -> (r: u128)
        ensures
            r == wait_of(*self, now),
    {
        if (now as u128) < self.next_allowed {
            self.next_allowed - now as u128
        } else {
            0
        }
    }

    /// Takes note of an attempt that ended at the moment `now`.
    pub fn attempted(&mut self, status: Option<u16>, body: &str, now: u64)
        ensures
            *final(self) == after_attempt(*old(self), status, body@, now),
            final(self).next_allowed == now + pause_after(old(self).min_interval_secs, status, body@) * SECOND,
    {
        let asked: u128 = match delivery(status) {
            Delivery::Limited => match TelegramNotifier::parse_retry_after(body) {
                Some(n) => n as u128 + 1,
                None => DEFAULT_RETRY as u128 + 1,
            },
            _ => 0,
        };
        let least: u128 = self.min_interval_secs as u128;
        let pause: u128 = if asked > least { asked } else { least };
        assert(pause == pause_after(self.min_interval_secs, status, body@));
        self.next_allowed = now as u128 + pause * SECOND;
    }
}

impl TelegramNotifier {
    /// A notifier that may send from the moment `now` on.
    pub fn new(bot_token: String, chat_id: String, now: u64) -> (r: Self)
        ensures
            r.bot_token == bot_token,
            r.chat_id == chat_id,
            r.rate.next_allowed == now,
            r.rate.min_interval_secs == MIN_INTERVAL,
    {
        TelegramNotifier { bot_token, chat_id, rate: RateLimit::new(now) }
    }

    /// May a message be sent, and after how many nanoseconds? Without a token or a chat nothing is.
    pub fn send(&self, now: u64) -> (r: Option<u128>)
        ensures
            r is None <==> self.bot_token@.len() == 0 || self.chat_id@.len() == 0,
            r matches Some(wait) ==> wait == wait_of(self.rate, now),
    {
        if self.bot_token.as_str().is_empty() || self.chat_id.as_str().is_empty() {
            return None;
        }
        Some(self.rate.wait(now))
    }

    /// Where messages are sent.
    pub fn url(&self) -> (r: String)
        ensures
            r@ == "https://api.telegram.org/bot"@ + self.bot_token@ + "/sendMessage"@,
    {
        let mut out: String = "https://api.telegram.org/bot".to_owned();
        out.append(self.bot_token.as_str());
        out.append("/sendMessage");
        out
    }

    /// How many seconds an answer asks to hold back.
    pub fn parse_retry_after(body: &str) -> (r: Option<u64>)
        ensures
            r == retry_after_in(body@),
    {
        let key: &str = "\"retry_after\":";
        let text: Vec<char> = chars_of(body);
        let wanted: Vec<char> = chars_of(key);
        let n: usize = text.len();
        match find(&text, &wanted) {
            Some(at) => {
                proof {
                    found_is_first(text@, wanted@, 0);
                    assert(at + wanted@.len() <= n);
                }
                leading_number(&text, at + wanted.len())
            },
            None => None,
        }
    }

    /// The alert for a position that has opened.
    pub fn alert_open<W: Fn(Num, u8, bool) -> String>(
        symbol_a: &str,
        symbol_b: &str,
        side_a: &str,
        side_b: &str,
        zscore: Num,
        hedge_ratio: Num,
        half_life: Num,
        price_a: Num,
        price_b: Num,
        size: Num,
        writer: &DecimalWriter<W>,
    ) -> (r: String)
        requires
            writer.reliable(),
        ensures
            r@ == open_text(
                writer.meaning(),
                symbol_a@,
                symbol_b@,
                side_a@,
                side_b@,
                zscore,
                hedge_ratio,
                half_life,
                price_a,
                price_b,
                size,
            ),
    {
        let mut out: String = if (Num { bits: ZERO }).lt(zscore) { "🔴".to_owned() } else { "🟢".to_owned() };
        out.append(" <b>OPEN #TRADE</b>\n\n");
        out.append(symbol_a);
        out.append(" ↔ ");
        out.append(symbol_b);
        out.append("\n");
        out.append(side_a);
        out.append(" ");
        out.append(symbol_a);
        out.append(" @ ");
        out.append(format_price(price_a, writer).as_str());
        out.append(" | ");
        out.append(side_b);
        out.append(" ");
        out.append(symbol_b);
        out.append(" @ ");
        out.append(format_price(price_b, writer).as_str());
        out.append("\n\nZ-score: <code>");
        out.append(writer.figure(zscore, 3, true).as_str());
        out.append("</code>\nHedge β: <code>");
        out.append(writer.figure(hedge_ratio, 4, false).as_str());
        out.append("</code>\nHalf-life: <code>");
        out.append(format_half_life(half_life, writer).as_str());
        out.append("</code>\nSize: <code>$");
        out.append(writer.figure(size, 2, false).as_str());
        out.append("</code>");
        out
    }

    /// The alert for a position that has closed.
    pub fn alert_close<W: Fn(Num, u8, bool) -> String>(
        symbol_a: &str,
        symbol_b: &str,
        entry_zscore: Num,
        exit_zscore: Num,
        pnl: Num,
        balance: Num,
        writer: &DecimalWriter<W>,
    ) -> (r: String)
        requires
            writer.reliable(),
        ensures
            r@ == close_text(writer.meaning(), symbol_a@, symbol_b@, entry_zscore, exit_zscore, pnl, balance),
    {
        let won: bool = (Num { bits: ZERO }).le(pnl);
        let mut out: String = "🔚 <b>CLOSE</b>\n\n".to_owned();
        out.append(symbol_a);
        out.append(" ↔ ");
        out.append(symbol_b);
        out.append("\n\nEntry z: <code>");
        out.append(writer.figure(entry_zscore, 3, true).as_str());
        out.append("</code> → Exit z: <code>");
        out.append(writer.figure(exit_zscore, 3, true).as_str());
        out.append("</code>\n");
        out.append(if won { "💰" } else { "📉" });
        out.append(" PnL: <code>");
        out.append(if won { "+$" } else { "$" });
        out.append(writer.figure(pnl.abs(), 4, false).as_str());
        out.append("</code>\nBalance: <code>$");
        out.append(writer.figure(balance, 2, false).as_str());
        out.append("</code>");
        out
    }

    /// The alert for a position that was stopped.
    pub fn alert_stop_loss<W: Fn(Num, u8, bool) -> String>(
        symbol_a: &str,
        symbol_b: &str,
        entry_zscore: Num,
        current_zscore: Num,
        pnl: Num,
        balance: Num,
        writer: &DecimalWriter<W>,
    ) -> (r: String)
        requires
            writer.reliable(),
        ensures
            r@ == stop_text(writer.meaning(), symbol_a@, symbol_b@, entry_zscore, current_zscore, pnl, balance),
    {
        let mut out: String = "🛑 <b>STOP LOSS</b>\n\n".to_owned();
        out.append(symbol_a);
        out.append(" ↔ ");
        out.append(symbol_b);
        out.append("\n\nEntry z: <code>");
        out.append(writer.figure(entry_zscore, 3, true).as_str());
        out.append("</code> → Curr z: <code>");
        out.append(writer.figure(current_zscore, 3, true).as_str());
        out.append("</code>\nPnL: <code>$");
        out.append(writer.figure(pnl, 4, false).as_str());
        out.append("</code>\nBalance: <code>$");
        out.append(writer.figure(balance, 2, false).as_str());
        out.append("</code>");
        out
    }

    /// The summary of a scan.
    pub fn alert_scan_summary(total: usize, correlated: usize, cointegrated: usize, signals: usize) -> (r: String)
        ensures
            r@ == scan_text(total as int, correlated as int, cointegrated as int, signals as int),
    {
        let mut out: String = "📊 <b>SCAN</b>\n\nSymbols: ".to_owned();
        out.append(decimal(total as u64).as_str());
        out.append(" | Correlated: ");
        out.append(decimal(correlated as u64).as_str());
        out.append(" | Cointegrated: ");
        out.append(decimal(cointegrated as u64).as_str());
        out.append(" | Signals: ");
        out.append(decimal(signals as u64).as_str());
        out
    }
}

/// Whatever became of a message, the next one waits at least the minimum interval, and longer than
/// Telegram asked for.
pub proof fn pause_respects_both(min_interval_secs: u64, status: Option<u16>, body: Seq<char>)
    ensures
        pause_after(min_interval_secs, status, body) >= min_interval_secs,
        status == Some(429u16) ==> pause_after(min_interval_secs, status, body) > retry_after(body),
        status != Some(429u16) ==> pause_after(min_interval_secs, status, body) == min_interval_secs,
{
}

/// Whenever the next message comes, it goes out no earlier than the minimum interval after the last
/// attempt ended, and after a refusal for too many no earlier than Telegram asked for.
pub proof fn asked_wait_is_kept(rate: RateLimit, status: Option<u16>, body: Seq<char>, ended: u64, now: u64)
    ensures
        now + wait_of(after_attempt(rate, status, body, ended), now) >= ended + rate.min_interval_secs * SECOND,
        status == Some(429u16) ==> now + wait_of(after_attempt(rate, status, body, ended), now) > ended + retry_after(
            body,
        ) * SECOND,
{
}

} // verus!
