//! Each trade alert goes out once.

use std::collections::HashSet;
use vstd::prelude::*;

verus! {

broadcast use vstd::std_specs::hash::group_hash_axioms;

/// Remembers which positions have been announced, so that no alert is sent twice.
pub struct TradeDedup {
    alerted_opens: HashSet<u64>,
    alerted_closes: HashSet<u64>,
}

impl TradeDedup {
    /// The positions whose opening has been announced and whose closing has not.
    pub closed spec fn opens(&self) -> Set<u64> {
        self.alerted_opens@
    }

    /// The positions whose closing has been announced since the last cleanup.
    pub closed spec fn closes(&self) -> Set<u64> {
        self.alerted_closes@
    }

    /// What has been announced.
    pub open spec fn announced(&self) -> Announced {
        Announced { opens: self.opens(), closes: self.closes() }
    }

    /// Nothing has been announced.
    pub fn new() -> (r: Self)
        ensures
            r.announced() == (Announced { opens: Set::empty(), closes: Set::empty() }),
    {
        TradeDedup { alerted_opens: HashSet::new(), alerted_closes: HashSet::new() }
    }

    /// Should the opening of this position be announced?
    pub fn should_alert_open(&mut self, position_id: u64) -> (r: bool)
        ensures
            r == !old(self).opens().contains(position_id),
            final(self).announced() == after_event(old(self).announced(), Event::Opened(position_id)),
    {
        if self.alerted_opens.contains(&position_id) {
            assert(self.alerted_opens@ =~= self.alerted_opens@.insert(position_id));
            false
        } else {
            self.alerted_opens.insert(position_id);
            true
        }
    }

    /// Should the closing of this position be announced? Announcing it forgets the opening.
    pub fn should_alert_close(&mut self, position_id: u64) -> (r: bool)
        ensures
            r == !old(self).closes().contains(position_id),
            final(self).announced() == after_event(old(self).announced(), Event::Closed(position_id)),
    {
        if self.alerted_closes.contains(&position_id) {
            assert(self.alerted_closes@ =~= self.alerted_closes@.insert(position_id));
            false
        } else {
            self.alerted_closes.insert(position_id);
            self.alerted_opens.remove(&position_id);
            true
        }
    }

    /// Forgets the announced closings.
    pub fn cleanup(&mut self)
        ensures
            final(self).announced() == after_event(old(self).announced(), Event::Cleanup),
    {
        self.alerted_closes.clear();
    }
}

impl Default for TradeDedup {
    fn default() -> (r: Self)
        ensures
            r.announced() == (Announced { opens: Set::empty(), closes: Set::empty() }),
    {
        TradeDedup::new()
    }
}

/// What a dedup is asked.
pub enum Event {
    /// Should the opening of this position be announced?
    Opened(u64),
    /// Should the closing of this position be announced?
    Closed(u64),
    /// Forget the announced closings.
    Cleanup,
}

/// What has been announced.
#[verifier::ext_equal]
pub struct Announced {
    pub opens: Set<u64>,
    pub closes: Set<u64>,
}

/// What has been announced after one event more.
pub open spec fn after_event(a: Announced, e: Event) -> Announced {
    match e {
        Event::Opened(id) => Announced { opens: a.opens.insert(id), ..a },
        Event::Closed(id) => Announced {
            opens: if a.closes.contains(id) {
                a.opens
            } else {
                a.opens.remove(id)
            },
            closes: a.closes.insert(id),
        },
        Event::Cleanup => Announced { closes: Set::empty(), ..a },
    }
}

/// What has been announced before event number `n`.
pub open spec fn before(events: Seq<Event>, n: int) -> Announced
    decreases n,
{
    if n <= 0 {
        Announced { opens: Set::empty(), closes: Set::empty() }
    } else {
        after_event(before(events, n - 1), events[n - 1])
    }
}

/// Event number `n` is the opening of this position and is announced.
pub open spec fn announces_open(events: Seq<Event>, n: int, id: u64) -> bool {
    events[n] == Event::Opened(id) && !before(events, n).opens.contains(id)
}

/// Event number `n` is the closing of this position and is announced.
pub open spec fn announces_close(events: Seq<Event>, n: int, id: u64) -> bool {
    events[n] == Event::Closed(id) && !before(events, n).closes.contains(id)
}

/// An opening is not announced twice unless a closing of the position is announced in between.
pub proof fn open_is_announced_once(events: Seq<Event>, i: int, j: int, id: u64)
    requires
        0 <= i < j < events.len(),
        announces_open(events, i, id),
        announces_open(events, j, id),
    ensures
        exists|k: int| i < k < j && #[trigger] announces_close(events, k, id),
{
    if forall|k: int| i < k < j ==> !#[trigger] announces_close(events, k, id) {
        lemma_open_stays(events, i, j, id);
    }
}

proof fn lemma_open_stays(events: Seq<Event>, i: int, j: int, id: u64)
    requires
        0 <= i < j <= events.len(),
        events[i] == Event::Opened(id),
        forall|k: int| i < k < j ==> !#[trigger] announces_close(events, k, id),
    ensures
        before(events, j).opens.contains(id),
    decreases j,
{
    if j > i + 1 {
        lemma_open_stays(events, i, j - 1, id);
        assert(!announces_close(events, j - 1, id));
    }
}

/// A closing is not announced twice unless there is a cleanup in between.
pub proof fn close_is_announced_once(events: Seq<Event>, i: int, j: int, id: u64)
    requires
        0 <= i < j < events.len(),
        announces_close(events, i, id),
        announces_close(events, j, id),
    ensures
        exists|k: int| i < k < j && #[trigger] events[k] == Event::Cleanup,
{
    if forall|k: int| i < k < j ==> #[trigger] events[k] != Event::Cleanup {
        lemma_close_stays(events, i, j, id);
    }
}

proof fn lemma_close_stays(events: Seq<Event>, i: int, j: int, id: u64)
    requires
        0 <= i < j <= events.len(),
        events[i] == Event::Closed(id),
        forall|k: int| i < k < j ==> #[trigger] events[k] != Event::Cleanup,
    ensures
        before(events, j).closes.contains(id),
    decreases j,
{
    if j > i + 1 {
        lemma_close_stays(events, i, j - 1, id);
        assert(events[j - 1] != Event::Cleanup);
    }
}

} // verus!
