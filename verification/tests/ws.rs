use lead_lag::candle_cache::CandleCache;
use lead_lag::decimal::DecimalReader;
use lead_lag::num::Num;
use lead_lag::ws::{
    on_message, read_message, stream_url, topic, topics, Backoff, ConnectionAction, ConnectionEvent, Tick, WsManager,
};

fn num(x: f64) -> Num {
    Num::from_bits(x.to_bits())
}

fn read(text: &String) -> Option<Num> {
    text.parse::<f64>().ok().map(num)
}

fn reader() -> DecimalReader<fn(&String) -> Option<Num>> {
    DecimalReader::new(read)
}

fn names(list: &[&str]) -> Vec<String> {
    list.iter().map(|s| s.to_string()).collect()
}

fn cache() -> CandleCache<Num> {
    let mut c = CandleCache::new(3);
    c.insert("BTCUSDT", vec![num(1.0), num(2.0)]);
    c
}

fn series(cache: &CandleCache<Num>, symbol: &str) -> Option<Vec<Num>> {
    cache.get(symbol).map(|values| values.iter().copied().collect())
}

#[test]
fn complete_candles_are_appended_and_ticks_replace() {
    let mut c = cache();
    let symbols = names(&["BTCUSDT"]);
    let tick = br#"{"topic":"kline.5.BTCUSDT","data":[{"close":"2.5","confirm":false},{"close":"2.75"}]}"#;
    on_message(&mut c, &symbols, tick, &reader());
    assert_eq!(series(&c, "BTCUSDT"), Some(vec![num(1.0), num(2.75)]));
    let done = br#"{"topic":"kline.5.BTCUSDT","data":[{"close":"3","confirm":true},{"close":"4","confirm":true}]}"#;
    on_message(&mut c, &symbols, done, &reader());
    assert_eq!(series(&c, "BTCUSDT"), Some(vec![num(2.75), num(3.0), num(4.0)]));
}

#[test]
fn what_is_not_asked_for_is_ignored() {
    let symbols = names(&["BTCUSDT"]);
    for message in [
        "garbage",
        r#"{"op":"pong","topic":"kline.5.BTCUSDT","data":[{"close":"9","confirm":true}]}"#,
        r#"{"ret_msg":"pong","topic":"kline.5.BTCUSDT","data":[{"close":"9","confirm":true}]}"#,
        r#"{"topic":"tickers.BTCUSDT","data":[{"close":"9","confirm":true}]}"#,
        r#"{"topic":"kline.BTCUSDT","data":[{"close":"9","confirm":true}]}"#,
        r#"{"topic":"kline.5.ETHUSDT","data":[{"close":"9","confirm":true}]}"#,
        r#"{"topic":"kline.5.BTCUSDT","data":{"close":"9","confirm":true}}"#,
        r#"{"topic":"kline.5.BTCUSDT","data":[{"close":"0","confirm":true}]}"#,
        r#"{"topic":"kline.5.BTCUSDT","data":[{"close":"-1","confirm":true}]}"#,
        r#"{"topic":"kline.5.BTCUSDT","data":[{"close":"nan","confirm":true}]}"#,
        r#"{"topic":"kline.5.BTCUSDT","data":[{"close":9,"confirm":true}]}"#,
        r#"{"topic":"kline.5.BTCUSDT"}"#,
        r#"{"success":true,"op":"subscribe"}"#,
    ] {
        let mut c = cache();
        on_message(&mut c, &symbols, message.as_bytes(), &reader());
        assert_eq!(series(&c, "BTCUSDT"), Some(vec![num(1.0), num(2.0)]), "{}", message);
        assert_eq!(c.symbols(), vec!["BTCUSDT"]);
    }
}

#[test]
fn messages_are_read_as_they_are() {
    let m = br#"{"topic":"kline.5.X","data":[{"close":"1.5","confirm":true},{"confirm":"yes"}]}"#;
    let u = read_message(m, &reader()).unwrap();
    assert_eq!(u.topic, "kline.5.X");
    assert_eq!(
        u.ticks,
        vec![Tick { close: num(1.5), confirm: true }, Tick { close: num(0.0), confirm: false }]
    );
    assert!(read_message(b"{}", &reader()).is_none());
}

#[test]
fn a_topic_comes_back_for_its_symbol() {
    assert_eq!(topic("5", "BTCUSDT"), "kline.5.BTCUSDT");
    assert_eq!(topics("D", &names(&["A", "B"])), vec!["kline.D.A", "kline.D.B"]);
    let mut c = CandleCache::new(3);
    let message = format!("{{\"topic\":\"{}\",\"data\":[{{\"close\":\"7\",\"confirm\":true}}]}}", topic("240", "SOLUSDT"));
    on_message(&mut c, &names(&["SOLUSDT"]), message.as_bytes(), &reader());
    assert_eq!(series(&c, "SOLUSDT"), Some(vec![num(7.0)]));
}

#[test]
fn waits_double_up_to_a_minute() {
    let mut b = Backoff::new();
    let waits: Vec<u64> = (0..8).map(|_| b.wait()).collect();
    assert_eq!(waits, vec![1, 2, 4, 8, 16, 32, 60, 60]);
    b.connected();
    assert_eq!(b.wait(), 1);
    assert_eq!(b.wait(), 2);
}

#[test]
fn connections_share_the_symbols() {
    let m = WsManager::new(names(&["A", "B", "C"]), "5".to_string(), 2, 20);
    assert_eq!(m.connections(), vec![names(&["A", "B"]), names(&["C"])]);
    assert_eq!(m.ping_sec, 20);
    assert_eq!(stream_url(), "wss://stream.bybit.com/v5/public/linear");
}

#[test]
fn connections_are_made_again_after_a_wait() {
    let mut b = Backoff::new();
    assert_eq!(b.on_event(ConnectionEvent::Refused), ConnectionAction::Reconnect(1));
    assert_eq!(b.on_event(ConnectionEvent::Refused), ConnectionAction::Reconnect(2));
    assert_eq!(b.on_event(ConnectionEvent::Connected), ConnectionAction::Subscribe);
    assert_eq!(b.on_event(ConnectionEvent::SubscribeFailed), ConnectionAction::Reconnect(1));
    assert_eq!(b.on_event(ConnectionEvent::Dropped), ConnectionAction::Reconnect(2));
}
