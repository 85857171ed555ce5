use lead_lag::decimal::DecimalReader;
use lead_lag::exchange::batch::batches;
use lead_lag::exchange::bybit::{
    list_symbols, read_instruments, read_klines, read_mark_price, read_tickers, ApiError, BybitExchange, Instruments,
    LIQUID,
};
use lead_lag::exchange::history::{closes, KlinePager, PageRequest};
use lead_lag::exchange::traits::Kline;
use lead_lag::num::Num;

fn num(x: f64) -> Num {
    Num::from_bits(x.to_bits())
}

fn read(text: &String) -> Option<Num> {
    text.parse::<f64>().ok().map(num)
}

fn reader() -> DecimalReader<fn(&String) -> Option<Num>> {
    DecimalReader::new(read)
}

fn names(list: &[&str]) -> Vec<String> {
    list.iter().map(|s| s.to_string()).collect()
}

const INSTRUMENTS: &str = r#"{"retCode":0,"retMsg":"OK","result":{"list":[
    {"symbol":"AUSDT","quoteCoin":"USDT","status":"Trading"},
    {"symbol":"BUSDT","quoteCoin":"USDT","status":"Trading"},
    {"symbol":"CUSDC","quoteCoin":"USDC","status":"Trading"},
    {"symbol":"DUSDT","quoteCoin":"USDT","status":"PreLaunch"},
    {"symbol":"EUSDT","quoteCoin":"USDT","status":"Trading"},
    {"symbol":"FUSDT","quoteCoin":"USDT","status":"Trading"},
    {"quoteCoin":"USDT"},
    7
]}}"#;

const TICKERS: &str = r#"{"retCode":0,"result":{"list":[
    {"symbol":"AUSDT","turnover24h":"5","lastPrice":"1"},
    {"symbol":"AUSDT","turnover24h":"100000","lastPrice":"1.5"},
    {"symbol":"BUSDT","turnover24h":"2500000.25","lastPrice":"0.02"},
    {"symbol":"CUSDC","turnover24h":"9000000","lastPrice":"3"},
    {"symbol":"DUSDT","turnover24h":"9000000","lastPrice":"3"},
    {"symbol":"EUSDT","turnover24h":"99999.99","lastPrice":"4"},
    {"symbol":"FUSDT","turnover24h":"many","lastPrice":"5"},
    {"turnover24h":"1"}
]}}"#;

#[test]
fn liquid_turnover_is_a_hundred_thousand() {
    assert_eq!(LIQUID, 100_000.0f64.to_bits());
}

#[test]
fn tradable_symbols_are_listed_by_turnover() {
    let instruments = read_instruments(INSTRUMENTS.as_bytes()).unwrap();
    assert_eq!(instruments.list.as_ref().unwrap().len(), 8);
    assert_eq!(instruments.list.as_ref().unwrap()[2].quote_coin, "USDC");
    assert_eq!(instruments.list.as_ref().unwrap()[6].symbol, "");
    let tickers = read_tickers(TICKERS.as_bytes()).unwrap();
    assert_eq!(tickers.get("AUSDT").unwrap().turnover, Some("100000".to_string()));
    assert_eq!(tickers.len(), 6);
    let symbols = list_symbols(&instruments, &tickers, &reader()).unwrap();
    let shown: Vec<(&str, Num, Num)> =
        symbols.iter().map(|s| (s.symbol.as_str(), s.volume_24h_usd, s.last_price)).collect();
    assert_eq!(
        shown,
        vec![("BUSDT", num(2500000.25), num(0.02)), ("AUSDT", num(100000.0), num(1.5))]
    );
}

#[test]
fn a_refusal_carries_its_message() {
    let refused = read_instruments(br#"{"retCode":10001,"retMsg":"params error"}"#);
    match refused {
        Err(e) => assert_eq!(e.message(), "Bybit API error: \"params error\""),
        Ok(_) => panic!("accepted"),
    }
    for body in [r#"{"retMsg":"x"}"#, r#"{"retCode":"0"}"#, r#"{"retCode":0.5}"#, "[]"] {
        assert!(matches!(read_instruments(body.as_bytes()), Err(ApiError::Refused { .. })));
    }
    match read_instruments(b"{}") {
        Err(e) => assert_eq!(e.message(), "Bybit API error: null"),
        Ok(_) => panic!("accepted"),
    }
}

#[test]
fn answers_without_lists_are_errors() {
    match read_instruments(b"not json") {
        Err(e) => assert_eq!(e.message(), "error decoding response body"),
        Ok(_) => panic!("accepted"),
    }
    let none = read_instruments(br#"{"retCode":0,"result":{}}"#).unwrap();
    assert!(none.list.is_none());
    let tickers = read_tickers(TICKERS.as_bytes()).unwrap();
    match list_symbols(&none, &tickers, &reader()) {
        Err(e) => assert_eq!(e.message(), "No instruments in response"),
        Ok(_) => panic!("accepted"),
    }
    match read_tickers(br#"{"result":{"list":{}}}"#) {
        Err(e) => assert_eq!(e.message(), "No tickers list"),
        Ok(_) => panic!("accepted"),
    }
    assert!(matches!(read_tickers(b"{"), Err(ApiError::Malformed)));
    let empty = Instruments { list: Some(Vec::new()) };
    assert!(list_symbols(&empty, &tickers, &reader()).unwrap().is_empty());
}

#[test]
fn candles_are_read_from_their_first_and_fifth_elements() {
    let body = br#"{"result":{"list":[
        ["1700000300000","1","2","3","4.5","6","7"],
        ["1700000000000","1","2","3","x"],
        ["bad"],
        [12, "1", "2", "3", 4.5],
        {}
    ]}}"#;
    assert_eq!(
        read_klines(body, &reader()),
        Some(vec![
            Kline { timestamp: 1700000300000, close: num(4.5) },
            Kline { timestamp: 1700000000000, close: num(0.0) },
            Kline { timestamp: 0, close: num(0.0) },
            Kline { timestamp: 0, close: num(0.0) },
            Kline { timestamp: 0, close: num(0.0) },
        ])
    );
    assert_eq!(read_klines(br#"{"result":{}}"#, &reader()), None);
    assert_eq!(read_klines(b"<html>", &reader()), None);
    assert_eq!(read_klines(br#"{"result":{"list":[]}}"#, &reader()), Some(vec![]));
}

#[test]
fn the_mark_price_is_that_of_the_first_entry() {
    let body = br#"{"result":{"list":[{"markPrice":"27000.5"},{"markPrice":"1"}]}}"#;
    assert_eq!(read_mark_price(body, &reader()), Some(num(27000.5)));
    assert_eq!(read_mark_price(br#"{"result":{"list":[]}}"#, &reader()), Some(num(0.0)));
    assert_eq!(read_mark_price(br#"{"result":{"list":[{"markPrice":1}]}}"#, &reader()), Some(num(0.0)));
    assert_eq!(read_mark_price(b"", &reader()), None);
}

#[test]
fn addresses_name_what_is_wanted() {
    let e = BybitExchange::new();
    assert_eq!(e.name(), "bybit");
    assert_eq!(e.rate_limit, 5);
    assert_eq!(
        e.instruments_url(),
        "https://api.bybit.com/v5/market/instruments-info?category=linear&limit=1000"
    );
    assert_eq!(e.tickers_url(), "https://api.bybit.com/v5/market/tickers?category=linear");
    let other = BybitExchange::configured(&"http://localhost:1".to_string(), 9);
    assert_eq!(other.rate_limit, 9);
    assert_eq!(other.mark_price_url("BTCUSDT"), "http://localhost:1/v5/market/tickers?category=linear&symbol=BTCUSDT");
    assert_eq!(BybitExchange::configured(&String::new(), 9).base_url, "https://api.bybit.com");
    assert_eq!(BybitExchange::configured(&String::new(), 9).rate_limit, 9);
    let first = PageRequest { limit: 200, end: None, pause: false };
    assert_eq!(
        other.kline_url("BTCUSDT", "5", &first),
        "http://localhost:1/v5/market/kline?category=linear&symbol=BTCUSDT&interval=5&limit=200"
    );
    let next = PageRequest { limit: 7, end: Some(1699999999999), pause: false };
    assert_eq!(
        other.kline_url("BTCUSDT", "D", &next),
        "http://localhost:1/v5/market/kline?category=linear&symbol=BTCUSDT&interval=D&limit=7&end=1699999999999"
    );
}

fn kline(timestamp: u64, close: f64) -> Kline {
    Kline { timestamp, close: num(close) }
}

#[test]
fn a_download_goes_back_page_by_page() {
    let mut pager = KlinePager::new(450);
    assert_eq!(pager.next_request(), Some(PageRequest { limit: 200, end: None, pause: false }));
    pager.receive(Some(&vec![kline(30, 3.0), kline(20, 2.0), kline(25, 2.5)]));
    assert_eq!(pager.next_request(), Some(PageRequest { limit: 200, end: Some(19), pause: false }));
    pager.receive(Some(&vec![kline(10, 1.0), kline(20, 99.0)]));
    assert_eq!(pager.next_request(), Some(PageRequest { limit: 50, end: Some(9), pause: false }));
    pager.receive(Some(&vec![kline(5, 0.5)]));
    assert_eq!(pager.next_request(), None);
    let all = pager.finish();
    assert_eq!(
        all,
        vec![kline(5, 0.5), kline(10, 1.0), kline(20, 2.0), kline(25, 2.5), kline(30, 3.0)]
    );
    assert_eq!(closes(&all), vec![num(0.5), num(1.0), num(2.0), num(2.5), num(3.0)]);
}

#[test]
fn a_missing_or_empty_page_ends_the_download() {
    let mut pager = KlinePager::new(1000);
    pager.next_request();
    pager.receive(Some(&vec![kline(30, 3.0)]));
    pager.next_request();
    pager.receive(None);
    assert_eq!(pager.next_request(), None);
    assert_eq!(pager.finish(), vec![kline(30, 3.0)]);
    let mut pager = KlinePager::new(1000);
    pager.next_request();
    pager.receive(Some(&Vec::new()));
    assert_eq!(pager.next_request(), None);
    assert_eq!(KlinePager::new(0).next_request(), None);
    let mut pager = KlinePager::new(u32::MAX);
    pager.next_request();
    pager.receive(None);
    assert_eq!(pager.next_request(), None);
}

#[test]
fn every_fifth_request_waits() {
    let mut pager = KlinePager::new(4000);
    let mut pauses = Vec::new();
    let mut t = 1_000_000;
    while let Some(r) = pager.next_request() {
        pauses.push(r.pause);
        t -= 1;
        pager.receive(Some(&vec![kline(t, 1.0)]));
    }
    assert_eq!(pauses.len(), 20);
    for (i, p) in pauses.iter().enumerate() {
        assert_eq!(*p, (i + 1) % 5 == 0);
    }
}

#[test]
fn symbols_are_cut_into_batches() {
    let all = names(&["a", "b", "c", "d", "e", "f", "g"]);
    assert_eq!(batches(&all, 3), vec![names(&["a", "b", "c"]), names(&["d", "e", "f"]), names(&["g"])]);
    assert_eq!(batches(&all, 7), vec![all.clone()]);
    assert_eq!(batches(&all, 100), vec![all.clone()]);
    assert_eq!(batches(&all, 1).len(), 7);
    assert!(batches(&Vec::new(), 5).is_empty());
}
