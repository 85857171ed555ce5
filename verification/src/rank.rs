//! Ranking by a number, largest first.

use vstd::prelude::*;

use crate::num::Num;

verus! {

/// Where a key goes among others: before the first smaller one.
pub open spec fn slot_of(keys: Seq<Num>, key: Num) -> int
    decreases keys.len(),
{
    if keys.len() == 0 {
        0
    } else {
        let before = slot_of(keys.drop_last(), key);
        if before < keys.len() - 1 || keys.last().less(key) {
            before
        } else {
            keys.len() as int
        }
    }
}

/// The items, each put before the first one with a smaller key, in the order in which they come.
pub open spec fn ranked<T>(items: Seq<T>, key: spec_fn(T) -> Num) -> Seq<T>
    decreases items.len(),
{
    if items.len() == 0 {
        Seq::empty()
    } else {
        let before = ranked(items.drop_last(), key);
        before.insert(slot_of(before.map_values(key), key(items.last())), items.last())
    }
}

/// Larger keys come first.
pub open spec fn descending<T>(items: Seq<T>, key: spec_fn(T) -> Num) -> bool {
    forall|i: int, j: int|
        0 <= i < j < items.len() ==> key(#[trigger] items[j]).at_most(key(#[trigger] items[i]))
}

/// All keys are numbers.
pub open spec fn comparable<T>(items: Seq<T>, key: spec_fn(T) -> Num) -> bool {
    forall|i: int| 0 <= i < items.len() ==> !key(#[trigger] items[i]).nan()
}

proof fn lemma_slot(keys: Seq<Num>, key: Num)
    ensures
        0 <= slot_of(keys, key) <= keys.len(),
        slot_of(keys, key) < keys.len() ==> keys[slot_of(keys, key)].less(key),
        forall|i: int| 0 <= i < slot_of(keys, key) ==> !(#[trigger] keys[i]).less(key),
    decreases keys.len(),
{
    if keys.len() > 0 {
        let head = keys.drop_last();
        lemma_slot(head, key);
        assert forall|i: int| 0 <= i < slot_of(keys, key) implies !(#[trigger] keys[i]).less(key) by {
            if i < head.len() {
                assert(head[i] == keys[i]);
            }
        }
    }
}

/// Puts an item into a ranking, whose keys stand beside it.
pub(crate) fn place<T>(ranking: &mut Vec<T>, keys: &mut Vec<Num>, item: T, key: Num)
    requires
        old(ranking)@.len() == old(keys)@.len(),
    ensures
        0 <= slot_of(old(keys)@, key) <= old(keys)@.len(),
        final(ranking)@ == old(ranking)@.insert(slot_of(old(keys)@, key), item),
        final(keys)@ == old(keys)@.insert(slot_of(old(keys)@, key), key),
{
    let ghost before = keys@;
    let n: usize = keys.len();
    let mut at: usize = 0;
    while at < n && !keys[at].lt(key)
        invariant
            n == keys@.len(),
            keys@ == before,
            0 <= at <= n,
            forall|j: int| 0 <= j < at ==> !(#[trigger] keys@[j]).less(key),
        decreases n - at,
    {
        at += 1;
    }
    proof {
        lemma_slot(before, key);
    }
    ranking.insert(at, item);
    keys.insert(at, key);
}

/// A ranking of one item more.
pub(crate) proof fn ranked_with_one_more<T>(items: Seq<T>, key: spec_fn(T) -> Num, x: T)
    ensures
        ({
            let before = ranked(items, key);
            let at = slot_of(before.map_values(key), key(x));
            &&& 0 <= at <= before.len()
            &&& ranked(items.push(x), key) == before.insert(at, x)
            &&& before.insert(at, x).map_values(key) == before.map_values(key).insert(at, key(x))
        }),
{
    let before = ranked(items, key);
    let at = slot_of(before.map_values(key), key(x));
    lemma_slot(before.map_values(key), key(x));
    assert(items.push(x).drop_last() =~= items);
    assert(before.insert(at, x).map_values(key) =~= before.map_values(key).insert(at, key(x)));
}

/// Ranking loses, adds and changes nothing.
pub proof fn ranking_is_a_permutation<T>(items: Seq<T>, key: spec_fn(T) -> Num)
    ensures
        ranked(items, key).to_multiset() == items.to_multiset(),
        ranked(items, key).len() == items.len(),
    decreases items.len(),
{
    broadcast use vstd::seq_lib::group_to_multiset_ensures;

    if items.len() > 0 {
        let head = items.drop_last();
        let x = items.last();
        ranking_is_a_permutation(head, key);
        ranked_with_one_more(head, key, x);
        assert(items =~= head.push(x));
        let before = ranked(head, key);
        let at = slot_of(before.map_values(key), key(x));
        vstd::seq_lib::to_multiset_insert(before, at, x);
        vstd::seq_lib::to_multiset_build(head, x);
    }
}

/// Where all keys are numbers, larger keys come first.
pub proof fn ranking_descends<T>(items: Seq<T>, key: spec_fn(T) -> Num)
    requires
        comparable(items, key),
    ensures
        descending(ranked(items, key), key),
        comparable(ranked(items, key), key),
    decreases items.len(),
{
    if items.len() > 0 {
        let head = items.drop_last();
        let x = items.last();
        assert forall|i: int| 0 <= i < head.len() implies !key(#[trigger] head[i]).nan() by {
            assert(head[i] == items[i]);
        }
        assert(!key(items[items.len() - 1]).nan());
        ranking_descends(head, key);
        let before = ranked(head, key);
        let keys = before.map_values(key);
        let at = slot_of(keys, key(x));
        lemma_slot(keys, key(x));
        let after = before.insert(at, x);
        assert(ranked(items, key) == after);
        assert forall|i: int| 0 <= i < after.len() implies !key(#[trigger] after[i]).nan() by {
            if i < at {
                assert(after[i] == before[i]);
            } else if i > at {
                assert(after[i] == before[i - 1]);
            }
        }
        assert forall|i: int, j: int| 0 <= i < j < after.len() implies key(#[trigger] after[j]).at_most(
            key(#[trigger] after[i]),
        ) by {
            if j < at {
                assert(after[i] == before[i] && after[j] == before[j]);
            } else if j == at {
                assert(after[i] == before[i]);
                assert(!keys[i].less(key(x)));
            } else if i == at {
                assert(after[j] == before[j - 1]);
                assert(keys[at].less(key(x)));
                assert(keys[at] == key(before[at]));
                if j - 1 > at {
                    assert(key(before[j - 1]).at_most(key(before[at])));
                }
            } else if i < at {
                assert(after[i] == before[i] && after[j] == before[j - 1]);
            } else {
                assert(after[i] == before[i - 1] && after[j] == before[j - 1]);
            }
        }
    }
}

/// The items whose key ranks like `r`, in order.
pub open spec fn tied<T>(items: Seq<T>, key: spec_fn(T) -> Num, r: int) -> Seq<T> {
    items.filter(|x: T| key(x).rank() == r)
}

/// Where all keys are numbers, items with equal keys stay in order.
pub proof fn ranking_is_stable<T>(items: Seq<T>, key: spec_fn(T) -> Num, r: int)
    requires
        comparable(items, key),
    ensures
        tied(ranked(items, key), key, r) == tied(items, key, r),
    decreases items.len(),
{
    reveal(Seq::filter);
    if items.len() > 0 {
        let pred = |x: T| key(x).rank() == r;
        let head = items.drop_last();
        let x = items.last();
        assert forall|i: int| 0 <= i < head.len() implies !key(#[trigger] head[i]).nan() by {
            assert(head[i] == items[i]);
        }
        assert(!key(items[items.len() - 1]).nan());
        ranking_is_stable(head, key, r);
        ranking_descends(head, key);
        let before = ranked(head, key);
        let keys = before.map_values(key);
        let at = slot_of(keys, key(x));
        lemma_slot(keys, key(x));
        let front = before.take(at);
        let back = before.skip(at);
        assert(before =~= front + back);
        assert(before.insert(at, x) =~= front.push(x) + back);
        Seq::filter_distributes_over_add(front, back, pred);
        Seq::filter_distributes_over_add(front.push(x), back, pred);
        assert(front.push(x).drop_last() =~= front);
        if pred(x) {
            assert forall|i: int| 0 <= i < back.len() implies !pred(#[trigger] back[i]) by {
                assert(back[i] == before[at + i]);
                assert(keys[at].less(key(x)));
                assert(keys[at] == key(before[at]));
                if i > 0 {
                    assert(key(before[at + i]).at_most(key(before[at])));
                }
            }
            lemma_none_pass(back, pred);
            assert(before.filter(pred) =~= front.filter(pred));
            assert(before.insert(at, x).filter(pred) =~= front.filter(pred).push(x));
        } else {
            assert(before.insert(at, x).filter(pred) =~= before.filter(pred));
        }
    }
}

proof fn lemma_none_pass<T>(items: Seq<T>, pred: spec_fn(T) -> bool)
    requires
        forall|i: int| 0 <= i < items.len() ==> !pred(#[trigger] items[i]),
    ensures
        items.filter(pred) == Seq::<T>::empty(),
    decreases items.len(),
{
    reveal(Seq::filter);
    if items.len() > 0 {
        let head = items.drop_last();
        assert forall|i: int| 0 <= i < head.len() implies !pred(#[trigger] head[i]) by {
            assert(head[i] == items[i]);
        }
        lemma_none_pass(head, pred);
        assert(!pred(items[items.len() - 1]));
    }
}

/// Exactly the items are in the ranking.
pub proof fn ranking_has_the_same_members<T>(items: Seq<T>, key: spec_fn(T) -> Num, x: T)
    ensures
        ranked(items, key).contains(x) <==> items.contains(x),
{
    ranking_is_a_permutation(items, key);
    vstd::seq_lib::to_multiset_contains(items, x);
    vstd::seq_lib::to_multiset_contains(ranked(items, key), x);
}

/// Every ranked item is one of the items.
pub proof fn ranking_keeps_members<T>(items: Seq<T>, key: spec_fn(T) -> Num)
    ensures
        forall|i: int| 0 <= i < ranked(items, key).len() ==> items.contains(#[trigger] ranked(items, key)[i]),
    decreases items.len(),
{
    if items.len() > 0 {
        let head = items.drop_last();
        let x = items.last();
        ranking_keeps_members(head, key);
        ranked_with_one_more(head, key, x);
        assert(items =~= head.push(x));
        let before = ranked(head, key);
        let at = slot_of(before.map_values(key), key(x));
        assert forall|i: int| 0 <= i < ranked(items, key).len() implies items.contains(
            #[trigger] ranked(items, key)[i],
        ) by {
            if i == at {
                assert(items[items.len() - 1] == x);
            } else {
                let y = if i < at { before[i] } else { before[i - 1] };
                assert(head.contains(y));
                let j = choose|j: int| 0 <= j < head.len() && head[j] == y;
                assert(items[j] == y);
            }
        }
    }
}

/// Items that are pairwise apart stay so when they are ranked.
pub proof fn ranking_keeps_apart<T>(items: Seq<T>, key: spec_fn(T) -> Num, apart: spec_fn(T, T) -> bool)
    requires
        forall|x: T, y: T| #[trigger] apart(x, y) == apart(y, x),
        forall|i: int, j: int| 0 <= i < j < items.len() ==> apart(#[trigger] items[i], #[trigger] items[j]),
    ensures
        forall|i: int, j: int|
            0 <= i < j < ranked(items, key).len() ==> apart(
                #[trigger] ranked(items, key)[i],
                #[trigger] ranked(items, key)[j],
            ),
    decreases items.len(),
{
    if items.len() > 0 {
        let head = items.drop_last();
        let x = items.last();
        assert forall|i: int, j: int| 0 <= i < j < head.len() implies apart(#[trigger] head[i], #[trigger] head[j]) by {
            assert(head[i] == items[i] && head[j] == items[j]);
        }
        ranking_keeps_apart(head, key, apart);
        ranking_keeps_members(head, key);
        ranked_with_one_more(head, key, x);
        assert(items =~= head.push(x));
        let before = ranked(head, key);
        let at = slot_of(before.map_values(key), key(x));
        assert forall|i: int| 0 <= i < before.len() implies apart(#[trigger] before[i], x) by {
            assert(head.contains(before[i]));
            let j = choose|j: int| 0 <= j < head.len() && head[j] == before[i];
            assert(apart(items[j], items[items.len() - 1]));
        }
        let after = before.insert(at, x);
        assert forall|i: int, j: int| 0 <= i < j < after.len() implies apart(
            #[trigger] after[i],
            #[trigger] after[j],
        ) by {
            if j < at {
                assert(after[i] == before[i] && after[j] == before[j]);
            } else if j == at {
                assert(after[i] == before[i]);
            } else if i == at {
                assert(after[j] == before[j - 1]);
                assert(apart(before[j - 1], x));
            } else if i < at {
                assert(after[i] == before[i] && after[j] == before[j - 1]);
            } else {
                assert(after[i] == before[i - 1] && after[j] == before[j - 1]);
            }
        }
    }
}

} // verus!
