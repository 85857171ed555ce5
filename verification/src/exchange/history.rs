//! Fetching the history of a symbol page by page.

use vstd::prelude::*;

use crate::exchange::traits::Kline;
use crate::num::Num;

verus! {

/// The most candles that one request asks for.
pub const PER_PAGE: u32 = 200;

/// Every so many requests there is a pause.
pub const BURST: u32 = 5;

/// What one request asks for.
#[derive(Clone, Copy, PartialEq, Eq, Structural, Debug)]
pub struct PageRequest {
    /// How many candles.
    pub limit: u32,
    /// The newest moment that is wanted. `None` for the present.
    pub end: Option<u64>,
    /// Pause before this request.
    pub pause: bool,
}

/// How many candles began before the moment `t`, where candles are in order.
pub open spec fn slot_in_time(klines: Seq<Kline>, t: u64) -> int
    decreases klines.len(),
{
    if klines.len() == 0 {
        0
    } else {
        let before = slot_in_time(klines.drop_last(), t);
        if before < klines.len() - 1 || klines.last().timestamp >= t {
            before
        } else {
            klines.len() as int
        }
    }
}

/// The candles with one more. A candle of a moment that is there already is left out.
pub open spec fn with_kline(klines: Seq<Kline>, k: Kline) -> Seq<Kline> {
    let at = slot_in_time(klines, k.timestamp);
    if at < klines.len() && klines[at].timestamp == k.timestamp {
        klines
    } else {
        klines.insert(at, k)
    }
}

/// The candles with all of a page.
pub open spec fn with_page(klines: Seq<Kline>, page: Seq<Kline>) -> Seq<Kline>
    decreases page.len(),
{
    if page.len() == 0 {
        klines
    } else {
        with_kline(with_page(klines, page.drop_last()), page.last())
    }
}

/// The oldest moment of a page.
pub open spec fn oldest(page: Seq<Kline>) -> int
    decreases page.len(),
{
    if page.len() <= 1 {
        page[0].timestamp as int
    } else {
        let before = oldest(page.drop_last());
        if page.last().timestamp < before {
            page.last().timestamp as int
        } else {
            before
        }
    }
}

/// Later candles come later, and no moment has two.
pub open spec fn in_time_order(klines: Seq<Kline>) -> bool {
    forall|i: int, j: int|
        0 <= i < j < klines.len() ==> (#[trigger] klines[i]).timestamp < (#[trigger] klines[j]).timestamp
}

/// Where a download stands.
#[verifier::ext_equal]
pub struct Progress {
    /// Candles still to be asked for.
    pub remaining: int,
    /// The newest moment that the next page may have.
    pub end: Option<u64>,
    /// Requests made since the last pause.
    pub burst: int,
    /// Candles so far, oldest first.
    pub klines: Seq<Kline>,
    /// Nothing more will come.
    pub stopped: bool,
}

/// The size of the next page.
pub open spec fn page_size(p: Progress) -> int {
    if p.remaining < PER_PAGE {
        p.remaining
    } else {
        PER_PAGE as int
    }
}

/// Is there a pause before the request that follows so many requests?
pub open spec fn pauses(burst: int) -> bool {
    burst + 1 >= BURST
}

/// How many requests there have been since the last pause, after one more.
pub open spec fn next_burst(burst: int) -> int {
    if pauses(burst) {
        0
    } else {
        burst + 1
    }
}

/// How many requests of a download there have been since the last pause, after `n` of them.
pub open spec fn burst_after(n: nat) -> int
    decreases n,
{
    if n == 0 {
        0
    } else {
        next_burst(burst_after((n - 1) as nat))
    }
}

/// Has the download come to its end?
pub open spec fn finished(p: Progress) -> bool {
    p.stopped || p.remaining <= 0
}

/// The state after a request: a page that is missing or empty ends the download.
pub open spec fn after_page(p: Progress, page: Option<Seq<Kline>>) -> Progress {
    match page {
        Some(klines) => if klines.len() == 0 {
            Progress { stopped: true, ..p }
        } else {
            Progress {
                remaining: p.remaining - page_size(p),
                end: Some((oldest(klines) - 1) as u64),
                klines: with_page(p.klines, klines),
                ..p
            }
        },
        None => Progress { stopped: true, ..p },
    }
}

/// Downloads the newest candles of a symbol page by page, newest page first.
///
/// [`KlinePager::next_request`] says what to ask for, [`KlinePager::receive`] takes what came back.
pub struct KlinePager {
    remaining: u32,
    end: Option<u64>,
    burst: u32,
    klines: Vec<Kline>,
    stopped: bool,
}

impl View for KlinePager {
    type V = Progress;

    closed spec fn view(&self) -> Progress {
        Progress {
            remaining: self.remaining as int,
            end: self.end,
            burst: self.burst as int,
            klines: self.klines@,
            stopped: self.stopped,
        }
    }
}

impl KlinePager {
    /// A download of `limit` candles.
    pub fn new(limit: u32) -> (r: Self)
        ensures
            r@ == (Progress {
                remaining: limit as int,
                end: None,
                burst: 0,
                klines: Seq::empty(),
                stopped: false,
            }),
    {
        let r = KlinePager { remaining: limit, end: None, burst: 0, klines: Vec::new(), stopped: false };
        assert(r@.klines =~= Seq::<Kline>::empty());
        r
    }

    /// The next request, while there is one.
    pub fn next_request(&mut self) -> (r: Option<PageRequest>)
        ensures
            finished(old(self)@) ==> r is None && final(self)@ == old(self)@,
            !finished(old(self)@) ==> {
                &&& final(self)@ == (Progress { burst: next_burst(old(self)@.burst), ..old(self)@ })
                &&& r == Some(
                    PageRequest {
                        limit: page_size(old(self)@) as u32,
                        end: old(self)@.end,
                        pause: pauses(old(self)@.burst),
                    },
                )
            },
    {
        if self.stopped || self.remaining == 0 {
            return None;
        }
        let pause: bool = self.burst >= BURST - 1;
        self.burst = if pause { 0 } else { self.burst + 1 };
        let limit: u32 = if self.remaining < PER_PAGE { self.remaining } else { PER_PAGE };
        Some(PageRequest { limit, end: self.end, pause })
    }

    /// Takes the answer to the last request. `None` where there was none or it had no list.
    pub fn receive(&mut self, page: Option<&Vec<Kline>>)
        requires
            page matches Some(klines) ==> forall|i: int|
                0 <= i < klines@.len() ==> (#[trigger] klines@[i]).timestamp > 0,
        ensures
            final(self)@ == after_page(
                old(self)@,
                match page {
                    Some(klines) => Some(klines@),
                    None => None,
                },
            ),
    {
        match page {
            None => {
                self.stopped = true;
            },
            Some(klines) => {
                if klines.len() == 0 {
                    self.stopped = true;
                } else {
                    self.take_page(klines);
                }
            },
        }
    }

    fn take_page(&mut self, page: &Vec<Kline>)
        requires
            page@.len() > 0,
            forall|i: int| 0 <= i < page@.len() ==> (#[trigger] page@[i]).timestamp > 0,
        ensures
            final(self)@ == after_page(old(self)@, Some(page@)),
    {
        let ghost start = self.klines@;
        let mut first: u64 = page[0].timestamp;
        self.put(page[0]);
        let mut i: usize = 1;
        proof {
            assert(page@.take(1).drop_last() =~= Seq::<Kline>::empty());
            reveal_with_fuel(with_page, 2);
        }
        while i < page.len()
            invariant
                page@.len() > 0,
                1 <= i <= page@.len(),
                forall|j: int| 0 <= j < page@.len() ==> (#[trigger] page@[j]).timestamp > 0,
                first == oldest(page@.take(i as int)),
                first > 0,
                start == old(self).klines@,
                self.klines@ == with_page(start, page@.take(i as int)),
                self.remaining == old(self).remaining,
                self.end == old(self).end,
                self.burst == old(self).burst,
                self.stopped == old(self).stopped,
            decreases page@.len() - i,
        {
            proof {
                assert(page@.take(i + 1).drop_last() =~= page@.take(i as int));
                assert(page@[i as int].timestamp > 0);
            }
            if page[i].timestamp < first {
                first = page[i].timestamp;
            }
            self.put(page[i]);
            i += 1;
        }
        proof {
            assert(page@.take(page@.len() as int) =~= page@);
        }
        let size: u32 = if self.remaining < PER_PAGE { self.remaining } else { PER_PAGE };
        self.end = Some(first - 1);
        self.remaining = self.remaining - size;
    }

    fn put(&mut self, k: Kline)
        ensures
            final(self).klines@ == with_kline(old(self).klines@, k),
            final(self).remaining == old(self).remaining,
            final(self).end == old(self).end,
            final(self).burst == old(self).burst,
            final(self).stopped == old(self).stopped,
    {
        let n: usize = self.klines.len();
        let mut at: usize = 0;
        while at < n && self.klines[at].timestamp < k.timestamp
            invariant
                *self == *old(self),
                n == self.klines@.len(),
                0 <= at <= n,
                forall|j: int| 0 <= j < at ==> (#[trigger] self.klines@[j]).timestamp < k.timestamp,
            decreases n - at,
        {
            at += 1;
        }
        proof {
            lemma_slot_in_time(self.klines@, k.timestamp);
        }
        if at < n && self.klines[at].timestamp == k.timestamp {
            return;
        }
        self.klines.insert(at, k);
    }

    /// The candles, oldest first, one for each moment.
    pub fn finish(self) -> (r: Vec<Kline>)
        ensures
            r@ == self@.klines,
    {
        self.klines
    }
}

/// The closing prices of candles, in order.
pub fn closes(klines: &Vec<Kline>) -> (r: Vec<Num>)
    ensures
        r@ == klines@.map_values(|k: Kline| k.close),
{
    let ghost goal = klines@.map_values(|k: Kline| k.close);
    let mut out: Vec<Num> = Vec::new();
    let mut i: usize = 0;
    while i < klines.len()
        invariant
            0 <= i <= klines@.len(),
            goal == klines@.map_values(|k: Kline| k.close),
            out@ == goal.take(i as int),
        decreases klines@.len() - i,
    {
        out.push(klines[i].close);
        assert(out@ =~= goal.take(i + 1));
        i += 1;
    }
    assert(out@ =~= goal);
    out
}

proof fn lemma_slot_in_time(klines: Seq<Kline>, t: u64)
    ensures
        0 <= slot_in_time(klines, t) <= klines.len(),
        slot_in_time(klines, t) < klines.len() ==> klines[slot_in_time(klines, t)].timestamp >= t,
        forall|i: int| 0 <= i < slot_in_time(klines, t) ==> (#[trigger] klines[i]).timestamp < t,
    decreases klines.len(),
{
    if klines.len() > 0 {
        let head = klines.drop_last();
        lemma_slot_in_time(head, t);
        assert forall|i: int| 0 <= i < slot_in_time(klines, t) implies (#[trigger] klines[i]).timestamp < t by {
            if i < head.len() {
                assert(head[i] == klines[i]);
            }
        }
    }
}

/// Does some candle begin at the moment `t`?
pub open spec fn has_moment(klines: Seq<Kline>, t: u64) -> bool {
    exists|i: int| 0 <= i < klines.len() && (#[trigger] klines[i]).timestamp == t
}

/// One candle more keeps the candles in order. It is there afterwards, unless its moment was there
/// before, and no other candle comes or goes.
pub proof fn kline_joins_history(klines: Seq<Kline>, k: Kline)
    requires
        in_time_order(klines),
    ensures
        in_time_order(with_kline(klines, k)),
        has_moment(klines, k.timestamp) ==> with_kline(klines, k) == klines,
        !has_moment(klines, k.timestamp) ==> with_kline(klines, k).contains(k),
        forall|x: Kline|
            with_kline(klines, k).contains(x) <==> klines.contains(x) || (x == k && !has_moment(klines, k.timestamp)),
        forall|t: u64| has_moment(with_kline(klines, k), t) <==> has_moment(klines, t) || t == k.timestamp,
{
    lemma_slot_in_time(klines, k.timestamp);
    let at = slot_in_time(klines, k.timestamp);
    let next = with_kline(klines, k);
    if at < klines.len() && klines[at].timestamp == k.timestamp {
    } else {
        assert forall|i: int| 0 <= i < klines.len() implies (#[trigger] klines[i]).timestamp != k.timestamp by {
            if i >= at {
                assert(klines[at].timestamp > k.timestamp);
                if i > at {
                    assert(klines[at].timestamp < klines[i].timestamp);
                }
            }
        }
        assert forall|i: int, j: int| 0 <= i < j < next.len() implies (#[trigger] next[i]).timestamp < (
        #[trigger] next[j]).timestamp by {
            if j < at {
                assert(next[i] == klines[i] && next[j] == klines[j]);
            } else if j == at {
                assert(next[i] == klines[i]);
            } else if i == at {
                assert(next[j] == klines[j - 1]);
                if j - 1 > at {
                    assert(klines[at].timestamp < klines[j - 1].timestamp);
                }
            } else if i < at {
                assert(next[i] == klines[i] && next[j] == klines[j - 1]);
            } else {
                assert(next[i] == klines[i - 1] && next[j] == klines[j - 1]);
            }
        }
        assert(next[at] == k);
        assert forall|x: Kline| next.contains(x) <==> klines.contains(x) || x == k by {
            if klines.contains(x) {
                let i = choose|i: int| 0 <= i < klines.len() && klines[i] == x;
                if i < at {
                    assert(next[i] == x);
                } else {
                    assert(next[i + 1] == x);
                }
            }
            if next.contains(x) {
                let i = choose|i: int| 0 <= i < next.len() && next[i] == x;
                if i < at {
                    assert(klines[i] == x);
                } else if i > at {
                    assert(klines[i - 1] == x);
                }
            }
        }
        assert forall|t: u64| has_moment(next, t) <==> has_moment(klines, t) || t == k.timestamp by {
            if has_moment(klines, t) {
                let i = choose|i: int| 0 <= i < klines.len() && (#[trigger] klines[i]).timestamp == t;
                if i < at {
                    assert(next[i].timestamp == t);
                } else {
                    assert(next[i + 1].timestamp == t);
                }
            }
            if has_moment(next, t) {
                let i = choose|i: int| 0 <= i < next.len() && (#[trigger] next[i]).timestamp == t;
                if i < at {
                    assert(klines[i].timestamp == t);
                } else if i > at {
                    assert(klines[i - 1].timestamp == t);
                }
            }
        }
    }
}

/// Whatever pages come in, the candles are in order, no moment has two, and exactly the moments
/// that came in are there.
pub proof fn pages_join_history(klines: Seq<Kline>, page: Seq<Kline>)
    requires
        in_time_order(klines),
    ensures
        in_time_order(with_page(klines, page)),
        forall|t: u64| has_moment(with_page(klines, page), t) <==> has_moment(klines, t) || has_moment(page, t),
        forall|x: Kline| klines.contains(x) ==> with_page(klines, page).contains(x),
    decreases page.len(),
{
    if page.len() > 0 {
        let head = page.drop_last();
        pages_join_history(klines, head);
        kline_joins_history(with_page(klines, head), page.last());
        assert forall|t: u64| has_moment(page, t) <==> has_moment(head, t) || page.last().timestamp == t by {
            if has_moment(head, t) {
                let i = choose|i: int| 0 <= i < head.len() && (#[trigger] head[i]).timestamp == t;
                assert(page[i].timestamp == t);
            }
            if page.last().timestamp == t {
                assert(page[page.len() - 1].timestamp == t);
            }
            if has_moment(page, t) {
                let i = choose|i: int| 0 <= i < page.len() && (#[trigger] page[i]).timestamp == t;
                if i < head.len() {
                    assert(head[i].timestamp == t);
                }
            }
        }
    }
}

/// No moment of a page is before its oldest one, and one of them is.
pub proof fn oldest_is_least(page: Seq<Kline>)
    requires
        page.len() > 0,
    ensures
        forall|i: int| 0 <= i < page.len() ==> oldest(page) <= (#[trigger] page[i]).timestamp,
        exists|i: int| 0 <= i < page.len() && oldest(page) == (#[trigger] page[i]).timestamp,
    decreases page.len(),
{
    if page.len() > 1 {
        let head = page.drop_last();
        oldest_is_least(head);
        assert forall|i: int| 0 <= i < page.len() implies oldest(page) <= (#[trigger] page[i]).timestamp by {
            if i < head.len() {
                assert(head[i] == page[i]);
            }
        }
        if page.last().timestamp < oldest(head) {
            assert(page[page.len() - 1].timestamp == oldest(page));
        } else {
            let i = choose|i: int| 0 <= i < head.len() && oldest(head) == (#[trigger] head[i]).timestamp;
            assert(page[i].timestamp == oldest(page));
        }
    } else {
        assert(page[0].timestamp == oldest(page));
    }
}

/// Exactly every fifth request of a download waits.
pub proof fn every_fifth_request_pauses(n: nat)
    ensures
        burst_after(n) == n % (BURST as nat),
        pauses(burst_after(n)) <==> (n + 1) % (BURST as nat) == 0,
    decreases n,
{
    if n > 0 {
        every_fifth_request_pauses((n - 1) as nat);
    }
}

/// A download ends: every page that comes in leaves fewer candles to ask for, and the next page is
/// asked to end before everything in this one.
pub proof fn download_moves_back(p: Progress, page: Seq<Kline>)
    requires
        !finished(p),
        page.len() > 0,
        forall|i: int| 0 <= i < page.len() ==> (#[trigger] page[i]).timestamp > 0,
    ensures
        ({
            let next = after_page(p, Some(page));
            &&& 0 <= next.remaining < p.remaining
            &&& next.end matches Some(end) && forall|i: int|
                0 <= i < page.len() ==> end < (#[trigger] page[i]).timestamp
        }),
{
    oldest_is_least(page);
    let i = choose|i: int| 0 <= i < page.len() && oldest(page) == (#[trigger] page[i]).timestamp;
    assert(page[i].timestamp > 0);
}

} // verus!
