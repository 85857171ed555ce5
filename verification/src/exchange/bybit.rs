//! The Bybit exchange: USDT linear futures.

use vstd::prelude::*;
use vstd::string::StringExecFns;

use crate::decimal::number_or_zero;
use crate::decimal::{DecimalReader, Numerals};
use crate::exchange::history::PageRequest;
use crate::exchange::traits::{Kline, SymbolInfo, SymbolView};
use crate::json::{document, result_list, text_at, text_view, tree_of, trees, written, Tree};
use crate::json::{compact, get, list_member, parse, text_member};
use crate::num::Num;
use crate::rank::place;
use crate::rank::{comparable, descending, ranked, ranked_with_one_more, ranking_descends, ranking_keeps_members};
use crate::rank::{ranking_has_the_same_members, slot_of};
use crate::symbols::SymbolMap;
use crate::text::{decimal, numeral, parse_unsigned, same, unsigned};

verus! {

/// `100000.0`: symbols that turn over less than this in a day are not looked at.
pub const LIQUID: u64 = 0x40f8_6a00_0000_0000;

/// How many requests may be under way at once, unless the configuration says otherwise.
pub const DEFAULT_RATE: usize = 5;

/// Where the exchange is and how many requests it may be sent at once.
pub struct BybitExchange {
    pub base_url: String,
    pub rate_limit: usize,
}

/// Why an answer of the exchange cannot be used.
#[derive(Debug)]
pub enum ApiError {
    /// It is not a JSON document.
    Malformed,
    /// The exchange refused the request.
    Refused { message: String },
    /// It has no list of tickers.
    NoTickers,
    /// It has no list of instruments.
    NoInstruments,
}

/// Why an answer cannot be used, with the message as a sequence.
pub enum Failure {
    Malformed,
    Refused(Seq<char>),
    NoTickers,
    NoInstruments,
}

impl View for ApiError {
    type V = Failure;

    open spec fn view(&self) -> Failure {
        match self {
            ApiError::Malformed => Failure::Malformed,
            ApiError::Refused { message } => Failure::Refused(message@),
            ApiError::NoTickers => Failure::NoTickers,
            ApiError::NoInstruments => Failure::NoInstruments,
        }
    }
}

/// A contract that the exchange lists.
pub struct Instrument {
    pub symbol: String,
    pub quote_coin: String,
    pub status: String,
}

/// A contract that the exchange lists, with its texts as sequences.
pub struct InstrumentView {
    pub symbol: Seq<char>,
    pub quote_coin: Seq<char>,
    pub status: Seq<char>,
}

impl View for Instrument {
    type V = InstrumentView;

    open spec fn view(&self) -> InstrumentView {
        InstrumentView { symbol: self.symbol@, quote_coin: self.quote_coin@, status: self.status@ }
    }
}

/// The contracts of an answer. `None` where the answer has no list.
pub struct Instruments {
    pub list: Option<Vec<Instrument>>,
}

/// What is known of a symbol's trading day, as the exchange writes it.
pub struct Ticker {
    pub turnover: Option<String>,
    pub last_price: Option<String>,
}

/// A trading day, with its texts as sequences.
pub struct TickerView {
    pub turnover: Option<Seq<char>>,
    pub last_price: Option<Seq<char>>,
}

impl View for Ticker {
    type V = TickerView;

    open spec fn view(&self) -> TickerView {
        TickerView { turnover: text_view(self.turnover), last_price: text_view(self.last_price) }
    }
}

/// A text, or the empty one where there is none.
pub open spec fn or_empty(t: Option<Seq<char>>) -> Seq<char> {
    match t {
        Some(s) => s,
        None => Seq::empty(),
    }
}

/// The contract that a list entry describes.
pub open spec fn instrument_of(t: Tree) -> InstrumentView {
    InstrumentView {
        symbol: or_empty(text_at(t, "symbol"@)),
        quote_coin: or_empty(text_at(t, "quoteCoin"@)),
        status: or_empty(text_at(t, "status"@)),
    }
}

/// The result code of an answer.
pub open spec fn result_code(t: Tree) -> Option<int> {
    match t.member("retCode"@) {
        Some(c) => c.integer(),
        None => None,
    }
}

/// The message of an answer, as JSON.
pub open spec fn result_message(t: Tree) -> Seq<char> {
    match t.member("retMsg"@) {
        Some(m) => written(m),
        None => "null"@,
    }
}

/// What an answer says about contracts. An answer with a result code other than zero is a refusal.
pub open spec fn instruments_in(doc: Option<Tree>) -> Result<Option<Seq<InstrumentView>>, Failure> {
    match doc {
        None => Err(Failure::Malformed),
        Some(t) => if result_code(t) != Some(0int) {
            Err(Failure::Refused(result_message(t)))
        } else {
            Ok(
                match result_list(t) {
                    Some(list) => Some(list.map_values(|e: Tree| instrument_of(e))),
                    None => None,
                },
            )
        },
    }
}

/// What a list of contracts says.
pub open spec fn instrument_views(list: Seq<Instrument>) -> Seq<InstrumentView> {
    list.map_values(|i: Instrument| i@)
}

/// What the contracts of an answer say.
pub open spec fn instruments_view(i: Instruments) -> Option<Seq<InstrumentView>> {
    match i.list {
        Some(list) => Some(instrument_views(list@)),
        None => None,
    }
}

/// The trading day that a list entry describes.
pub open spec fn ticker_of(t: Tree) -> TickerView {
    TickerView { turnover: text_at(t, "turnover24h"@), last_price: text_at(t, "lastPrice"@) }
}

/// The trading days of the first `n` entries. Entries without a symbol are skipped; of two entries
/// for one symbol the later one counts.
pub open spec fn tickers_of(list: Seq<Tree>, n: int) -> Map<Seq<char>, TickerView>
    decreases n,
{
    if n <= 0 {
        Map::empty()
    } else {
        let before = tickers_of(list, n - 1);
        match text_at(list[n - 1], "symbol"@) {
            Some(symbol) => before.insert(symbol, ticker_of(list[n - 1])),
            None => before,
        }
    }
}

/// What an answer says about trading days.
pub open spec fn tickers_in(doc: Option<Tree>) -> Result<Map<Seq<char>, TickerView>, Failure> {
    match doc {
        None => Err(Failure::Malformed),
        Some(t) => match result_list(t) {
            Some(list) => Ok(tickers_of(list, list.len() as int)),
            None => Err(Failure::NoTickers),
        },
    }
}

/// What the trading days of a map say.
pub open spec fn ticker_views(tickers: Map<Seq<char>, Ticker>) -> Map<Seq<char>, TickerView> {
    tickers.map_values(|t: Ticker| t@)
}

/// The symbol of a contract in USDT that is being traded and turns over enough.
pub open spec fn tradable(
    i: InstrumentView,
    tickers: Map<Seq<char>, TickerView>,
    numerals: Numerals,
) -> Option<SymbolView> {
    let turnover = if tickers.contains_key(i.symbol) {
        tickers[i.symbol].turnover
    } else {
        None
    };
    let last_price = if tickers.contains_key(i.symbol) {
        tickers[i.symbol].last_price
    } else {
        None
    };
    let volume = number_or_zero(numerals, turnover);
    if i.quote_coin == "USDT"@ && i.status == "Trading"@ && !volume.less(Num { bits: LIQUID }) {
        Some(
            SymbolView {
                symbol: i.symbol,
                volume_24h_usd: volume,
                last_price: number_or_zero(numerals, last_price),
            },
        )
    } else {
        None
    }
}

/// The symbols of the first `n` contracts that can be traded.
pub open spec fn tradables(
    list: Seq<InstrumentView>,
    tickers: Map<Seq<char>, TickerView>,
    numerals: Numerals,
    n: int,
) -> Seq<SymbolView>
    decreases n,
{
    if n <= 0 {
        Seq::empty()
    } else {
        let before = tradables(list, tickers, numerals, n - 1);
        match tradable(list[n - 1], tickers, numerals) {
            Some(s) => before.push(s),
            None => before,
        }
    }
}

/// Symbols are ranked by what they turn over.
pub open spec fn by_volume() -> spec_fn(SymbolView) -> Num {
    |s: SymbolView| s.volume_24h_usd
}

/// What a list of symbols says.
pub open spec fn symbol_views(list: Seq<SymbolInfo>) -> Seq<SymbolView> {
    list.map_values(|s: SymbolInfo| s@)
}

/// The element at `i`, where there is one, as a text.
pub open spec fn text_in(t: Tree, i: int) -> Option<Seq<char>> {
    match t.elements() {
        Some(items) => if i < items.len() {
            items[i].text()
        } else {
            None
        },
        None => None,
    }
}

/// The candle that a list entry describes: the moment is its first element, the close its fifth. An
/// element that is no text or says no number stands for zero.
pub open spec fn kline_of(t: Tree, numerals: Numerals) -> Kline {
    Kline {
        timestamp: match text_in(t, 0) {
            Some(s) => match unsigned(s) {
                Some(n) => n,
                None => 0,
            },
            None => 0,
        },
        close: match text_in(t, 4) {
            Some(s) => number_or_zero(numerals, Some(s)),
            None => number_or_zero(numerals, Some("0"@)),
        },
    }
}

/// The candles of an answer. `None` where the answer is not a document or has no list.
pub open spec fn klines_in(doc: Option<Tree>, numerals: Numerals) -> Option<Seq<Kline>> {
    match doc {
        None => None,
        Some(t) => match result_list(t) {
            Some(list) => Some(list.map_values(|e: Tree| kline_of(e, numerals))),
            None => None,
        },
    }
}

/// The mark price of an answer: that of the first list entry. Zero where there is none.
pub open spec fn mark_price_in(doc: Option<Tree>, numerals: Numerals) -> Option<Num> {
    match doc {
        None => None,
        Some(t) => Some(
            number_or_zero(
                numerals,
                match result_list(t) {
                    Some(list) => if list.len() > 0 {
                        text_at(list[0], "markPrice"@)
                    } else {
                        None
                    },
                    None => None,
                },
            ),
        ),
    }
}

impl ApiError {
    /// The error in words.
    pub fn message(&self) -> (r: String)
        ensures
            r@ == (match self@ {
                Failure::Malformed => "error decoding response body"@,
                Failure::Refused(m) => "Bybit API error: "@ + m,
                Failure::NoTickers => "No tickers list"@,
                Failure::NoInstruments => "No instruments in response"@,
            }),
    {
        match self {
            ApiError::Malformed => "error decoding response body".to_owned(),
            ApiError::Refused { message } => {
                let mut out: String = "Bybit API error: ".to_owned();
                out.append(message.as_str());
                out
            },
            ApiError::NoTickers => "No tickers list".to_owned(),
            ApiError::NoInstruments => "No instruments in response".to_owned(),
        }
    }
}

impl BybitExchange {
    /// The public exchange.
    pub fn new() -> (r: Self)
        ensures
            r.base_url@ == "https://api.bybit.com"@,
            r.rate_limit == DEFAULT_RATE,
    {
        BybitExchange { base_url: "https://api.bybit.com".to_owned(), rate_limit: DEFAULT_RATE }
    }

    /// An exchange elsewhere.
    pub fn with_base_url(base_url: String, rate_limit: usize) -> (r: Self)
        ensures
            r.base_url == base_url,
            r.rate_limit == rate_limit,
    {
        BybitExchange { base_url, rate_limit }
    }

    /// The exchange of a configuration: the public one where no place is given.
    pub fn configured(base_url: &String, rate_limit: usize) -> (r: Self)
        ensures
            base_url@.len() == 0 ==> r.base_url@ == "https://api.bybit.com"@,
            base_url@.len() > 0 ==> r.base_url@ == base_url@,
            r.rate_limit == rate_limit,
    {
        if base_url.as_str().is_empty() {
            BybitExchange::with_base_url(BybitExchange::new().base_url, rate_limit)
        } else {
            BybitExchange::with_base_url(base_url.clone(), rate_limit)
        }
    }

    /// The name of the exchange.
    pub fn name(&self) -> (r: &'static str)
        ensures
            r@ == "bybit"@,
    {
        "bybit"
    }

    /// Where all contracts are listed.
    pub fn instruments_url(&self) -> (r: String)
        ensures
            r@ == self.base_url@ + "/v5/market/instruments-info?category=linear&limit=1000"@,
    {
        let mut out: String = self.base_url.clone();
        out.append("/v5/market/instruments-info?category=linear&limit=1000");
        out
    }

    /// Where all trading days are listed.
    pub fn tickers_url(&self) -> (r: String)
        ensures
            r@ == self.base_url@ + "/v5/market/tickers?category=linear"@,
    {
        let mut out: String = self.base_url.clone();
        out.append("/v5/market/tickers?category=linear");
        out
    }

    /// Where the mark price of a symbol is.
    pub fn mark_price_url(&self, symbol: &str) -> (r: String)
        ensures
            r@ == self.base_url@ + "/v5/market/tickers?category=linear&symbol="@ + symbol@,
    {
        let mut out: String = self.base_url.clone();
        out.append("/v5/market/tickers?category=linear&symbol=");
        out.append(symbol);
        out
    }

    /// Where a page of candles is.
    pub fn kline_url(&self, symbol: &str, interval: &str, page: &PageRequest) -> (r: String)
        ensures
            r@ == kline_address(self.base_url@, symbol@, interval@, *page),
    {
        let mut out: String = self.base_url.clone();
        out.append("/v5/market/kline?category=linear&symbol=");
        out.append(symbol);
        out.append("&interval=");
        out.append(interval);
        out.append("&limit=");
        out.append(decimal(page.limit as u64).as_str());
        match page.end {
            Some(end) => {
                out.append("&end=");
                out.append(decimal(end).as_str());
            },
            None => {},
        }
        assert(out@ =~= kline_address(self.base_url@, symbol@, interval@, *page));
        out
    }
}

/// The address of a page of candles.
pub open spec fn kline_address(base: Seq<char>, symbol: Seq<char>, interval: Seq<char>, page: PageRequest) -> Seq<char> {
    let address = base + "/v5/market/kline?category=linear&symbol="@ + symbol + "&interval="@ + interval + "&limit="@
        + numeral(page.limit as nat);
    match page.end {
        Some(end) => address + "&end="@ + numeral(end as nat),
        None => address,
    }
}

fn text_or_empty(v: &serde_json::Value, key: &str) -> (r: String)
    ensures
        r@ == or_empty(text_at(tree_of(*v), key@)),
{
    match text_member(v, key) {
        Some(t) => t,
        None => {
            let r: String = String::new();
            assert(r@ =~= Seq::<char>::empty());
            r
        },
    }
}

/// Reads the contracts from an answer.
pub fn read_instruments(body: &[u8]) -> (r: Result<Instruments, ApiError>)
    ensures
        match r {
            Ok(i) => instruments_in(document(body@)) == Ok::<Option<Seq<InstrumentView>>, Failure>(instruments_view(i)),
            Err(e) => instruments_in(document(body@)) == Err::<Option<Seq<InstrumentView>>, Failure>(e@),
        },
{
    let v: serde_json::Value = match parse(body) {
        Ok(v) => v,
        Err(_) => {
            return Err(ApiError::Malformed);
        },
    };
    let code: Option<i64> = match get(&v, "retCode") {
        Some(c) => c.as_i64(),
        None => None,
    };
    let accepted: bool = match code {
        Some(n) => n == 0,
        None => false,
    };
    if !accepted {
        let message: String = match get(&v, "retMsg") {
            Some(m) => compact(m),
            None => "null".to_owned(),
        };
        return Err(ApiError::Refused { message });
    }
    match list_member(&v) {
        None => Ok(Instruments { list: None }),
        Some(list) => {
            let ghost goal = trees(list@).map_values(|e: Tree| instrument_of(e));
            let mut out: Vec<Instrument> = Vec::new();
            let mut i: usize = 0;
            while i < list.len()
                invariant
                    0 <= i <= list@.len(),
                    goal == trees(list@).map_values(|e: Tree| instrument_of(e)),
                    instrument_views(out@) == goal.take(i as int),
                decreases list@.len() - i,
            {
                let e: &serde_json::Value = &list[i];
                let one: Instrument = Instrument {
                    symbol: text_or_empty(e, "symbol"),
                    quote_coin: text_or_empty(e, "quoteCoin"),
                    status: text_or_empty(e, "status"),
                };
                let ghost before = out@;
                let ghost v = one@;
                out.push(one);
                proof {
                    assert(v == instrument_of(trees(list@)[i as int]));
                    assert(instrument_views(out@) =~= instrument_views(before).push(v));
                    assert(goal.take(i + 1) =~= goal.take(i as int).push(v));
                }
                i += 1;
            }
            assert(instrument_views(out@) =~= goal);
            Ok(Instruments { list: Some(out) })
        },
    }
}

/// Reads the trading days from an answer.
pub fn read_tickers(body: &[u8]) -> (r: Result<SymbolMap<Ticker>, ApiError>)
    ensures
        match r {
            Ok(t) => t.well_formed() && tickers_in(document(body@)) == Ok::<Map<Seq<char>, TickerView>, Failure>(
                ticker_views(t@),
            ),
            Err(e) => tickers_in(document(body@)) == Err::<Map<Seq<char>, TickerView>, Failure>(e@),
        },
{
    let v: serde_json::Value = match parse(body) {
        Ok(v) => v,
        Err(_) => {
            return Err(ApiError::Malformed);
        },
    };
    match list_member(&v) {
        None => Err(ApiError::NoTickers),
        Some(list) => {
            let mut out: SymbolMap<Ticker> = SymbolMap::new();
            let mut i: usize = 0;
            assert(ticker_views(out@) =~= tickers_of(trees(list@), 0));
            while i < list.len()
                invariant
                    0 <= i <= list@.len(),
                    out.well_formed(),
                    ticker_views(out@) == tickers_of(trees(list@), i as int),
                decreases list@.len() - i,
            {
                let e: &serde_json::Value = &list[i];
                let ghost before = out@;
                match text_member(e, "symbol") {
                    Some(symbol) => {
                        let ticker: Ticker = Ticker {
                            turnover: text_member(e, "turnover24h"),
                            last_price: text_member(e, "lastPrice"),
                        };
                        let ghost t = ticker@;
                        out.insert(symbol.as_str(), ticker);
                        assert(ticker_views(out@) =~= ticker_views(before).insert(symbol@, t));
                    },
                    None => {},
                }
                i += 1;
            }
            Ok(out)
        },
    }
}

/// The symbols that can be traded, largest turnover first.
pub fn list_symbols<G: Fn(&String) -> Option<Num>>(
    instruments: &Instruments,
    tickers: &SymbolMap<Ticker>,
    reader: &DecimalReader<G>,
) -> (r: Result<Vec<SymbolInfo>, ApiError>)
    requires
        tickers.well_formed(),
        reader.reliable(),
    ensures
        match instruments_view(*instruments) {
            None => r matches Err(e) && e@ == Failure::NoInstruments,
            Some(list) => r matches Ok(symbols) && symbol_views(symbols@) == ranked(
                tradables(list, ticker_views(tickers@), reader.meaning(), list.len() as int),
                by_volume(),
            ),
        },
{
    match &instruments.list {
        None => Err(ApiError::NoInstruments),
        Some(list) => {
            let ghost views = instrument_views(list@);
            let ghost days = ticker_views(tickers@);
            let ghost numerals = reader.meaning();
            let mut symbols: Vec<SymbolInfo> = Vec::new();
            let mut keys: Vec<Num> = Vec::new();
            let mut i: usize = 0;
            proof {
                assert(symbol_views(symbols@) =~= ranked(tradables(views, days, numerals, 0), by_volume()));
                assert(keys@ =~= symbol_views(symbols@).map_values(by_volume()));
            }
            while i < list.len()
                invariant
                    tickers.well_formed(),
                    reader.reliable(),
                    views == instrument_views(list@),
                    days == ticker_views(tickers@),
                    numerals == reader.meaning(),
                    0 <= i <= list@.len(),
                    symbol_views(symbols@) == ranked(tradables(views, days, numerals, i as int), by_volume()),
                    keys@ == symbol_views(symbols@).map_values(by_volume()),
                decreases list@.len() - i,
            {
                let one: &Instrument = &list[i];
                let ghost before = tradables(views, days, numerals, i as int);
                assert(views[i as int] == one@);
                if same(one.quote_coin.as_str(), "USDT") && same(one.status.as_str(), "Trading") {
                    let day: Option<&Ticker> = tickers.get(one.symbol.as_str());
                    let volume: Num = match day {
                        Some(t) => reader.number_or_zero(&t.turnover),
                        None => reader.number_or_zero(&None),
                    };
                    let last_price: Num = match day {
                        Some(t) => reader.number_or_zero(&t.last_price),
                        None => reader.number_or_zero(&None),
                    };
                    if !volume.lt(Num { bits: LIQUID }) {
                        let s: SymbolInfo = SymbolInfo {
                            symbol: one.symbol.clone(),
                            volume_24h_usd: volume,
                            last_price,
                        };
                        let ghost v = s@;
                        let ghost old_symbols = symbols@;
                        place(&mut symbols, &mut keys, s, volume);
                        proof {
                            assert(tradable(views[i as int], days, numerals) == Some(v));
                            ranked_with_one_more(before, by_volume(), v);
                            let slot = slot_of(symbol_views(old_symbols).map_values(by_volume()), volume);
                            assert(symbol_views(symbols@) =~= symbol_views(old_symbols).insert(slot, v));
                        }
                    }
                }
                i += 1;
            }
            Ok(symbols)
        },
    }
}

fn element_text(v: &serde_json::Value, i: usize) -> (r: Option<String>)
    ensures
        text_view(r) == text_in(tree_of(*v), i as int),
{
    match v.as_array() {
        Some(items) => if i < items.len() {
            match items[i].as_str() {
                Some(t) => Some(t.to_owned()),
                None => None,
            }
        } else {
            None
        },
        None => None,
    }
}

fn read_kline<G: Fn(&String) -> Option<Num>>(v: &serde_json::Value, reader: &DecimalReader<G>) -> (r: Kline)
    requires
        reader.reliable(),
    ensures
        r == kline_of(tree_of(*v), reader.meaning()),
{
    let timestamp: u64 = match element_text(v, 0) {
        Some(s) => match parse_unsigned(s.as_str()) {
            Some(n) => n,
            None => 0,
        },
        None => 0,
    };
    let close: Num = match element_text(v, 4) {
        Some(s) => reader.number_or_zero(&Some(s)),
        None => reader.number_or_zero(&Some("0".to_owned())),
    };
    Kline { timestamp, close }
}

/// Reads a page of candles from an answer.
pub fn read_klines<G: Fn(&String) -> Option<Num>>(body: &[u8], reader: &DecimalReader<G>) -> (r: Option<Vec<Kline>>)
    requires
        reader.reliable(),
    ensures
        match r {
            Some(klines) => klines_in(document(body@), reader.meaning()) == Some(klines@),
            None => klines_in(document(body@), reader.meaning()) is None,
        },
{
    let v: serde_json::Value = match parse(body) {
        Ok(v) => v,
        Err(_) => {
            return None;
        },
    };
    match list_member(&v) {
        None => None,
        Some(list) => {
            let ghost numerals = reader.meaning();
            let ghost goal = trees(list@).map_values(|e: Tree| kline_of(e, numerals));
            let mut out: Vec<Kline> = Vec::new();
            let mut i: usize = 0;
            while i < list.len()
                invariant
                    reader.reliable(),
                    numerals == reader.meaning(),
                    0 <= i <= list@.len(),
                    goal == trees(list@).map_values(|e: Tree| kline_of(e, numerals)),
                    out@ == goal.take(i as int),
                decreases list@.len() - i,
            {
                out.push(read_kline(&list[i], reader));
                assert(out@ =~= goal.take(i + 1));
                i += 1;
            }
            assert(out@ =~= goal);
            Some(out)
        },
    }
}

/// Reads the mark price from an answer. `None` where the answer is not a document.
pub fn read_mark_price<G: Fn(&String) -> Option<Num>>(body: &[u8], reader: &DecimalReader<G>) -> (r: Option<Num>)
    requires
        reader.reliable(),
    ensures
        r == mark_price_in(document(body@), reader.meaning()),
{
    let v: serde_json::Value = match parse(body) {
        Ok(v) => v,
        Err(_) => {
            return None;
        },
    };
    let text: Option<String> = match list_member(&v) {
        Some(list) => if list.len() > 0 {
            assert(trees(list@)[0] == tree_of(list@[0]));
            text_member(&list[0], "markPrice")
        } else {
            None
        },
        None => None,
    };
    Some(reader.number_or_zero(&text))
}

proof fn lemma_tradables(
    list: Seq<InstrumentView>,
    tickers: Map<Seq<char>, TickerView>,
    numerals: Numerals,
    n: int,
)
    requires
        0 <= n <= list.len(),
    ensures
        forall|x: int|
            0 <= x < tradables(list, tickers, numerals, n).len() ==> listed_as_tradable(
                list,
                tickers,
                numerals,
                #[trigger] tradables(list, tickers, numerals, n)[x],
            ),
    decreases n,
{
    if n > 0 {
        lemma_tradables(list, tickers, numerals, n - 1);
        let before = tradables(list, tickers, numerals, n - 1);
        let after = tradables(list, tickers, numerals, n);
        assert forall|x: int| 0 <= x < after.len() implies listed_as_tradable(
            list,
            tickers,
            numerals,
            #[trigger] after[x],
        ) by {
            if x < before.len() {
                assert(after[x] == before[x]);
            } else {
                assert(tradable(list[n - 1], tickers, numerals) == Some(after[x]));
            }
        }
    }
}

/// The symbol is that of one of the contracts, which can be traded.
pub open spec fn listed_as_tradable(
    list: Seq<InstrumentView>,
    tickers: Map<Seq<char>, TickerView>,
    numerals: Numerals,
    s: SymbolView,
) -> bool {
    exists|k: int| 0 <= k < list.len() && tradable(#[trigger] list[k], tickers, numerals) == Some(s)
}

/// Every symbol that is listed is that of a contract in USDT that is being traded and turns over
/// enough. Where all turnovers are numbers, larger ones come first.
pub proof fn listed_symbols_are_tradable(
    list: Seq<InstrumentView>,
    tickers: Map<Seq<char>, TickerView>,
    numerals: Numerals,
)
    ensures
        ({
            let all = tradables(list, tickers, numerals, list.len() as int);
            let symbols = ranked(all, by_volume());
            &&& forall|x: int|
                0 <= x < symbols.len() ==> listed_as_tradable(list, tickers, numerals, #[trigger] symbols[x])
                    && !symbols[x].volume_24h_usd.less(Num { bits: LIQUID })
            &&& comparable(all, by_volume()) ==> descending(symbols, by_volume())
        }),
{
    let all = tradables(list, tickers, numerals, list.len() as int);
    let symbols = ranked(all, by_volume());
    lemma_tradables(list, tickers, numerals, list.len() as int);
    ranking_keeps_members(all, by_volume());
    assert forall|x: int| 0 <= x < symbols.len() implies listed_as_tradable(
        list,
        tickers,
        numerals,
        #[trigger] symbols[x],
    ) && !symbols[x].volume_24h_usd.less(Num { bits: LIQUID }) by {
        assert(all.contains(symbols[x]));
    }
    if comparable(all, by_volume()) {
        ranking_descends(all, by_volume());
    }
}

proof fn lemma_tradable_is_there(
    list: Seq<InstrumentView>,
    tickers: Map<Seq<char>, TickerView>,
    numerals: Numerals,
    n: int,
    k: int,
)
    requires
        0 <= k < n <= list.len(),
        tradable(list[k], tickers, numerals) is Some,
    ensures
        tradables(list, tickers, numerals, n).contains(tradable(list[k], tickers, numerals)->0),
    decreases n,
{
    let after = tradables(list, tickers, numerals, n);
    let s = tradable(list[k], tickers, numerals)->0;
    if k < n - 1 {
        lemma_tradable_is_there(list, tickers, numerals, n - 1, k);
        let before = tradables(list, tickers, numerals, n - 1);
        let x = choose|x: int| 0 <= x < before.len() && before[x] == s;
        assert(after[x] == s);
    } else {
        assert(after[after.len() - 1] == s);
    }
}

/// No contract that can be traded is left out of the list.
pub proof fn no_tradable_symbol_is_missed(
    list: Seq<InstrumentView>,
    tickers: Map<Seq<char>, TickerView>,
    numerals: Numerals,
    k: int,
)
    requires
        0 <= k < list.len(),
        tradable(list[k], tickers, numerals) is Some,
    ensures
        ranked(tradables(list, tickers, numerals, list.len() as int), by_volume()).contains(
            tradable(list[k], tickers, numerals)->0,
        ),
{
    lemma_tradable_is_there(list, tickers, numerals, list.len() as int, k);
    ranking_has_the_same_members(
        tradables(list, tickers, numerals, list.len() as int),
        by_volume(),
        tradable(list[k], tickers, numerals)->0,
    );
}

} // verus!
