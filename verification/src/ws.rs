//! The stream of candles: what to subscribe to, what messages mean and when to reconnect.

use vstd::prelude::*;
use vstd::string::StringExecFns;

use crate::candle_cache::CandleCache;
use crate::candle_cache::{after_update, after_update_last, order_with};
use crate::decimal::number_or_zero;
use crate::decimal::{DecimalReader, Numerals};
use crate::exchange::batch::batches;
use crate::exchange::batch::{batch_count, batch_of, joined};
use crate::exchange::bybit::or_empty;
use crate::json::{document, text_at, tree_of, trees, Tree};
use crate::json::{get, parse, text_member};
use crate::num::{Num, ZERO};
use crate::text::{begins_with, has_char, split, split_of_three, texts};
use crate::text::{same, split_text, starts_with};

verus! {

/// The longest wait before a new connection, in seconds.
pub const MAX_BACKOFF: u64 = 60;

/// What is streamed, and over how many connections.
pub struct WsManager {
    pub symbols: Vec<String>,
    pub interval: String,
    pub batch_size: usize,
    pub ping_sec: u64,
}

/// A price of a candle that comes in over the stream.
#[derive(Clone, Copy, PartialEq, Eq, Structural, Debug)]
pub struct Tick {
    pub close: Num,
    /// The candle is complete.
    pub confirm: bool,
}

/// The prices of a message, and the topic they are for.
pub struct StreamUpdate {
    pub topic: String,
    pub ticks: Vec<Tick>,
}

/// How long to wait before a new connection.
#[derive(Clone, Copy, PartialEq, Eq, Structural, Debug)]
pub struct Backoff {
    /// The next wait, in seconds.
    pub secs: u64,
}

/// The series of a cache, and its symbols in order.
pub struct CacheState {
    pub data: Map<Seq<char>, Seq<Num>>,
    pub order: Seq<Seq<char>>,
}

/// The topic of a symbol's candles.
pub open spec fn topic_of(interval: Seq<char>, symbol: Seq<char>) -> Seq<char> {
    "kline."@ + interval + "."@ + symbol
}

/// The symbol that a topic is for: its third part.
pub open spec fn symbol_in(topic: Seq<char>) -> Option<Seq<char>> {
    let parts = split(topic, '.');
    if parts.len() >= 3 {
        Some(parts[2])
    } else {
        None
    }
}

/// Is the message an answer to a ping?
pub open spec fn is_pong(t: Tree) -> bool {
    text_at(t, "op"@) == Some("pong"@) || text_at(t, "ret_msg"@) == Some("pong"@)
}

/// The price that a list entry says. An entry without one stands for zero, and a candle is not
/// complete unless the entry says so.
pub open spec fn tick_of(t: Tree, numerals: Numerals) -> Tick {
    Tick {
        close: match text_at(t, "close"@) {
            Some(s) => number_or_zero(numerals, Some(s)),
            None => number_or_zero(numerals, Some("0"@)),
        },
        confirm: match t.member("confirm"@) {
            Some(c) => match c.truth() {
                Some(b) => b,
                None => false,
            },
            None => false,
        },
    }
}

/// The topic and prices of a message. `None` where it carries no candles.
pub open spec fn update_in(doc: Option<Tree>, numerals: Numerals) -> Option<(Seq<char>, Seq<Tick>)> {
    match doc {
        None => None,
        Some(t) => {
            let topic = or_empty(text_at(t, "topic"@));
            if is_pong(t) || !begins_with(topic, "kline."@) {
                None
            } else {
                match t.member("data"@) {
                    Some(d) => match d.elements() {
                        Some(list) => Some((topic, list.map_values(|e: Tree| tick_of(e, numerals)))),
                        None => None,
                    },
                    None => None,
                }
            }
        },
    }
}

/// The cache after a price of a symbol: the price of a complete candle is appended, any other
/// replaces the newest. Prices that are not above zero are dropped.
pub open spec fn after_tick(s: CacheState, max_len: nat, symbol: Seq<char>, tick: Tick) -> CacheState {
    if (Num { bits: ZERO }).less(tick.close) {
        CacheState {
            data: if tick.confirm {
                after_update(s.data, max_len, symbol, tick.close)
            } else {
                after_update_last(s.data, symbol, tick.close)
            },
            order: order_with(s.order, s.data, symbol),
        }
    } else {
        s
    }
}

/// The cache after the first `n` prices of a symbol.
pub open spec fn after_ticks(s: CacheState, max_len: nat, symbol: Seq<char>, ticks: Seq<Tick>, n: int) -> CacheState
    decreases n,
{
    if n <= 0 {
        s
    } else {
        after_tick(after_ticks(s, max_len, symbol, ticks, n - 1), max_len, symbol, ticks[n - 1])
    }
}

/// The cache after an update. One for a symbol that is not streamed changes nothing.
pub open spec fn after_stream(
    s: CacheState,
    max_len: nat,
    symbols: Seq<Seq<char>>,
    topic: Seq<char>,
    ticks: Seq<Tick>,
) -> CacheState {
    match symbol_in(topic) {
        Some(symbol) => if symbols.contains(symbol) {
            after_ticks(s, max_len, symbol, ticks, ticks.len() as int)
        } else {
            s
        },
        None => s,
    }
}

/// The cache after a message.
pub open spec fn after_message(
    s: CacheState,
    max_len: nat,
    symbols: Seq<Seq<char>>,
    doc: Option<Tree>,
    numerals: Numerals,
) -> CacheState {
    match update_in(doc, numerals) {
        Some((topic, ticks)) => after_stream(s, max_len, symbols, topic, ticks),
        None => s,
    }
}

/// What a cache holds.
pub open spec fn cache_state(cache: CandleCache<Num>) -> CacheState {
    CacheState { data: cache@, order: cache.order() }
}

/// Where candles are streamed.
pub fn stream_url() -> (r: &'static str)
    ensures
        r@ == "wss://stream.bybit.com/v5/public/linear"@,
{
    "wss://stream.bybit.com/v5/public/linear"
}

/// The topic of a symbol's candles.
pub fn topic(interval: &str, symbol: &str) -> (r: String)
    ensures
        r@ == topic_of(interval@, symbol@),
{
    let mut out: String = "kline.".to_owned();
    out.append(interval);
    out.append(".");
    out.append(symbol);
    out
}

/// The topics of symbols, in order.
pub fn topics(interval: &str, symbols: &Vec<String>) -> (r: Vec<String>)
    ensures
        texts(r@) == texts(symbols@).map_values(|s: Seq<char>| topic_of(interval@, s)),
{
    let ghost goal = texts(symbols@).map_values(|s: Seq<char>| topic_of(interval@, s));
    let mut out: Vec<String> = Vec::new();
    let mut i: usize = 0;
    while i < symbols.len()
        invariant
            0 <= i <= symbols@.len(),
            goal == texts(symbols@).map_values(|s: Seq<char>| topic_of(interval@, s)),
            texts(out@) == goal.take(i as int),
        decreases symbols@.len() - i,
    {
        let one: String = topic(interval, symbols[i].as_str());
        let ghost before = out@;
        let ghost t = one@;
        out.push(one);
        proof {
            assert(t == goal[i as int]);
            assert(texts(out@) =~= texts(before).push(t));
            assert(goal.take(i + 1) =~= goal.take(i as int).push(t));
        }
        i += 1;
    }
    assert(texts(out@) =~= goal);
    out
}

impl WsManager {
    /// A stream of the candles of these symbols.
    pub fn new(symbols: Vec<String>, interval: String, batch_size: usize, ping_sec: u64) -> (r: Self)
        ensures
            r == (WsManager { symbols, interval, batch_size, ping_sec }),
    {
        WsManager { symbols, interval, batch_size, ping_sec }
    }

    /// The symbols of each connection.
    pub fn connections(&self) -> (r: Vec<Vec<String>>)
        requires
            self.batch_size > 0,
        ensures
            r@.len() == batch_count(self.symbols@.len() as int, self.batch_size as int),
            forall|i: int|
                0 <= i < r@.len() ==> (#[trigger] r@[i])@ == batch_of(self.symbols@, self.batch_size as int, i),
            joined(r@, r@.len() as int) == self.symbols@,
    {
        batches(&self.symbols, self.batch_size)
    }
}

impl Backoff {
    /// One second to begin with.
    pub fn new() -> (r: Self)
        ensures
            r.secs == 1,
    {
        Backoff { secs: 1 }
    }

    /// A connection has been made: the next wait is one second again.
    pub fn connected(&mut self)
        ensures
            final(self).secs == 1,
    {
        self.secs = 1;
    }

    /// How long to wait now. The wait after that is twice as long, up to a minute.
    pub fn wait(&mut self) -> (r: u64)
        requires
            old(self).secs <= MAX_BACKOFF,
        ensures
            r == old(self).secs,
            *final(self) == after_wait(*old(self)),
    {
        let now: u64 = self.secs;
        let doubled: u64 = now * 2;
        self.secs = if doubled < MAX_BACKOFF { doubled } else { MAX_BACKOFF };
        now
    }
}

/// What happens to a connection.
#[derive(Clone, Copy, PartialEq, Eq, Structural, Debug)]
pub enum ConnectionEvent {
    /// It has been made.
    Connected,
    /// It could not be made.
    Refused,
    /// The topics could not be subscribed to.
    SubscribeFailed,
    /// It has ended.
    Dropped,
}

/// What to do about a connection.
#[derive(Clone, Copy, PartialEq, Eq, Structural, Debug)]
pub enum ConnectionAction {
    /// Subscribe to the topics and read.
    Subscribe,
    /// Connect again after so many seconds.
    Reconnect(u64),
}

impl Backoff {
    /// What to do after an event. A connection that has been made is used; anything else leads to a
    /// new connection after a wait.
    pub fn on_event(&mut self, event: ConnectionEvent) -> (r: ConnectionAction)
        requires
            old(self).secs <= MAX_BACKOFF,
        ensures
            event is Connected ==> r == ConnectionAction::Subscribe && final(self).secs == 1,
            !(event is Connected) ==> r == ConnectionAction::Reconnect(old(self).secs) && *final(self) == after_wait(
                *old(self),
            ),
    {
        match event {
            ConnectionEvent::Connected => {
                self.connected();
                ConnectionAction::Subscribe
            },
            _ => ConnectionAction::Reconnect(self.wait()),
        }
    }
}

/// The backoff after a wait.
pub open spec fn after_wait(b: Backoff) -> Backoff {
    Backoff { secs: if b.secs * 2 < MAX_BACKOFF { (b.secs * 2) as u64 } else { MAX_BACKOFF } }
}

/// The backoff after `n` waits since the last connection.
pub open spec fn after_waits(n: nat) -> Backoff
    decreases n,
{
    if n == 0 {
        Backoff { secs: 1 }
    } else {
        after_wait(after_waits((n - 1) as nat))
    }
}

/// Waits never shrink until a connection is made, and are between a second and a minute.
pub proof fn waits_grow_to_a_minute(n: nat)
    ensures
        1 <= after_waits(n).secs <= MAX_BACKOFF,
        after_waits(n).secs <= after_waits(n + 1).secs,
        n >= 6 ==> after_waits(n).secs == MAX_BACKOFF,
        n < 6 ==> after_waits(n).secs == vstd::arithmetic::power2::pow2(n),
    decreases n,
{
    vstd::arithmetic::power2::lemma2_to64();
    if n > 0 {
        waits_grow_to_a_minute((n - 1) as nat);
    }
    reveal_with_fuel(after_waits, 8);
}

fn read_tick<G: Fn(&String) -> Option<Num>>(v: &serde_json::Value, reader: &DecimalReader<G>) -> (r: Tick)
    requires
        reader.reliable(),
    ensures
        r == tick_of(tree_of(*v), reader.meaning()),
{
    let close: Num = match text_member(v, "close") {
        Some(s) => reader.number_or_zero(&Some(s)),
        None => reader.number_or_zero(&Some("0".to_owned())),
    };
    let confirm: bool = match get(v, "confirm") {
        Some(c) => match c.as_bool() {
            Some(b) => b,
            None => false,
        },
        None => false,
    };
    Tick { close, confirm }
}

fn says(v: &serde_json::Value, key: &str, word: &str) -> (r: bool)
    ensures
        r == (text_at(tree_of(*v), key@) == Some(word@)),
{
    match text_member(v, key) {
        Some(t) => same(t.as_str(), word),
        None => false,
    }
}

/// Reads a message of the stream. `None` where it carries no candles.
pub fn read_message<G: Fn(&String) -> Option<Num>>(message: &[u8], reader: &DecimalReader<G>) -> (r: Option<
    StreamUpdate,
>)
    requires
        reader.reliable(),
    ensures
        match r {
            Some(u) => update_in(document(message@), reader.meaning()) == Some((u.topic@, u.ticks@)),
            None => update_in(document(message@), reader.meaning()) is None,
        },
{
    let v: serde_json::Value = match parse(message) {
        Ok(v) => v,
        Err(_) => {
            return None;
        },
    };
    if says(&v, "op", "pong") || says(&v, "ret_msg", "pong") {
        return None;
    }
    let topic: String = match text_member(&v, "topic") {
        Some(t) => t,
        None => {
            proof {
                reveal_strlit("kline.");
            }
            return None;
        },
    };
    if !starts_with(topic.as_str(), "kline.") {
        return None;
    }
    let list: &Vec<serde_json::Value> = match get(&v, "data") {
        Some(d) => match d.as_array() {
            Some(list) => list,
            None => {
                return None;
            },
        },
        None => {
            return None;
        },
    };
    let ghost numerals = reader.meaning();
    let ghost goal = trees(list@).map_values(|e: Tree| tick_of(e, numerals));
    let mut ticks: Vec<Tick> = Vec::new();
    let mut i: usize = 0;
    while i < list.len()
        invariant
            reader.reliable(),
            numerals == reader.meaning(),
            0 <= i <= list@.len(),
            goal == trees(list@).map_values(|e: Tree| tick_of(e, numerals)),
            ticks@ == goal.take(i as int),
        decreases list@.len() - i,
    {
        ticks.push(read_tick(&list[i], reader));
        assert(ticks@ =~= goal.take(i + 1));
        i += 1;
    }
    assert(ticks@ =~= goal);
    Some(StreamUpdate { topic, ticks })
}

fn is_listed(symbols: &Vec<String>, symbol: &String) -> (r: bool)
    ensures
        r == texts(symbols@).contains(symbol@),
{
    let mut i: usize = 0;
    while i < symbols.len()
        invariant
            0 <= i <= symbols@.len(),
            forall|j: int| 0 <= j < i ==> (#[trigger] symbols@[j])@ != symbol@,
        decreases symbols@.len() - i,
    {
        if symbols[i] == *symbol {
            assert(texts(symbols@)[i as int] == symbol@);
            return true;
        }
        i += 1;
    }
    assert forall|j: int| 0 <= j < symbols@.len() implies texts(symbols@)[j] != symbol@ by {
        assert(symbols@[j]@ != symbol@);
    }
    false
}

/// Brings the prices of an update into the cache, where its symbol is one of those that are
/// streamed.
pub fn apply_update(cache: &mut CandleCache<Num>, symbols: &Vec<String>, update: &StreamUpdate)
    requires
        old(cache).well_formed(),
    ensures
        final(cache).well_formed(),
        final(cache).limit() == old(cache).limit(),
        cache_state(*final(cache)) == after_stream(
            cache_state(*old(cache)),
            old(cache).limit(),
            texts(symbols@),
            update.topic@,
            update.ticks@,
        ),
{
    let parts: Vec<String> = split_text(update.topic.as_str(), '.');
    if parts.len() < 3 {
        return;
    }
    let symbol: &String = &parts[2];
    assert(symbol_in(update.topic@) == Some(symbol@));
    if !is_listed(symbols, symbol) {
        return;
    }
    let ghost start = cache_state(*cache);
    let ghost max_len = cache.limit();
    let mut i: usize = 0;
    while i < update.ticks.len()
        invariant
            cache.well_formed(),
            cache.limit() == max_len,
            0 <= i <= update.ticks@.len(),
            cache_state(*cache) == after_ticks(start, max_len, symbol@, update.ticks@, i as int),
        decreases update.ticks@.len() - i,
    {
        let tick: Tick = update.ticks[i];
        if (Num { bits: ZERO }).lt(tick.close) {
            if tick.confirm {
                cache.update(symbol.as_str(), tick.close);
            } else {
                cache.update_last(symbol.as_str(), tick.close);
            }
        }
        i += 1;
    }
}

/// Takes a message of the stream into the cache.
pub fn on_message<G: Fn(&String) -> Option<Num>>(
    cache: &mut CandleCache<Num>,
    symbols: &Vec<String>,
    message: &[u8],
    reader: &DecimalReader<G>,
)
    requires
        old(cache).well_formed(),
        reader.reliable(),
    ensures
        final(cache).well_formed(),
        final(cache).limit() == old(cache).limit(),
        cache_state(*final(cache)) == after_message(
            cache_state(*old(cache)),
            old(cache).limit(),
            texts(symbols@),
            document(message@),
            reader.meaning(),
        ),
{
    match read_message(message, reader) {
        Some(update) => {
            apply_update(cache, symbols, &update);
        },
        None => {},
    }
}

/// A topic names its symbol: what is subscribed to for a symbol comes back for that symbol. The
/// interval and the symbol must not hold a dot.
pub proof fn topic_names_its_symbol(interval: Seq<char>, symbol: Seq<char>)
    requires
        !has_char(interval, '.'),
        !has_char(symbol, '.'),
    ensures
        symbol_in(topic_of(interval, symbol)) == Some(symbol),
        begins_with(topic_of(interval, symbol), "kline."@),
{
    reveal_strlit("kline.");
    reveal_strlit("kline");
    reveal_strlit(".");
    let head = "kline"@;
    assert("kline."@ =~= head + "."@);
    assert(!has_char(head, '.'));
    assert("."@ =~= seq!['.']);
    assert(topic_of(interval, symbol) =~= head.push('.') + interval.push('.') + symbol);
    split_of_three(head, interval, symbol, '.');
    assert(topic_of(interval, symbol).take("kline."@.len() as int) =~= "kline."@);
}

/// A message touches the series of no symbol but the one that its topic names.
pub proof fn ticks_touch_one_symbol(
    s: CacheState,
    max_len: nat,
    symbol: Seq<char>,
    ticks: Seq<Tick>,
    n: int,
    other: Seq<char>,
)
    requires
        0 <= n <= ticks.len(),
        other != symbol,
    ensures
        ({
            let next = after_ticks(s, max_len, symbol, ticks, n);
            &&& next.data.contains_key(other) == s.data.contains_key(other)
            &&& s.data.contains_key(other) ==> next.data[other] == s.data[other]
        }),
    decreases n,
{
    if n > 0 {
        ticks_touch_one_symbol(s, max_len, symbol, ticks, n - 1, other);
    }
}

} // verus!
