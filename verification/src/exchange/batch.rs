//! Cutting lists of symbols into batches.

use vstd::prelude::*;

verus! {

/// How many batches of `size` it takes for `n` symbols.
pub open spec fn batch_count(n: int, size: int) -> int {
    (n + size - 1) / size
}

/// Where batch number `i` ends.
pub open spec fn batch_end(n: int, size: int, i: int) -> int {
    if (i + 1) * size <= n {
        (i + 1) * size
    } else {
        n
    }
}

/// Batch number `i`.
pub open spec fn batch_of(symbols: Seq<String>, size: int, i: int) -> Seq<String> {
    symbols.subrange(i * size, batch_end(symbols.len() as int, size, i))
}

/// The first `i` batches, one after the other.
pub open spec fn joined(batches: Seq<Vec<String>>, i: int) -> Seq<String>
    decreases i,
{
    if i <= 0 {
        Seq::empty()
    } else {
        joined(batches, i - 1) + batches[i - 1]@
    }
}

/// Cuts the symbols into batches of `size`. The last batch may be shorter.
pub fn batches(symbols: &Vec<String>, size: usize) -> (r: Vec<Vec<String>>)
    requires
        size > 0,
    ensures
        r@.len() == batch_count(symbols@.len() as int, size as int),
        forall|i: int| 0 <= i < r@.len() ==> (#[trigger] r@[i])@ == batch_of(symbols@, size as int, i),
        joined(r@, r@.len() as int) == symbols@,
{
    let n: usize = symbols.len();
    let mut out: Vec<Vec<String>> = Vec::new();
    let mut at: usize = 0;
    proof {
        assert(symbols@.take(0) =~= Seq::<String>::empty());
        assert(0 * size == 0);
        lemma_no_batch(size as int);
    }
    while at < n
        invariant
            size > 0,
            n == symbols@.len(),
            at <= n,
            at == n || at == out@.len() * size,
            at < n ==> out@.len() * size < n,
            at == n ==> out@.len() == batch_count(n as int, size as int),
            forall|i: int| 0 <= i < out@.len() ==> (#[trigger] out@[i])@ == batch_of(symbols@, size as int, i),
            joined(out@, out@.len() as int) == symbols@.take(at as int),
        decreases n - at,
    {
        let end: usize = if n - at > size { at + size } else { n };
        let ghost k = out@.len() as int;
        proof {
            lemma_next_batch(n as int, size as int, k);
        }
        let mut one: Vec<String> = Vec::new();
        let mut i: usize = at;
        while i < end
            invariant
                n == symbols@.len(),
                at <= i <= end <= n,
                one@ == symbols@.subrange(at as int, i as int),
            decreases end - i,
        {
            one.push(symbols[i].clone());
            assert(one@ =~= symbols@.subrange(at as int, i + 1));
            i += 1;
        }
        let ghost before = out@;
        out.push(one);
        proof {
            lemma_joined_prefix(before, out@, k);
            assert(symbols@.take(end as int) =~= symbols@.take(at as int) + symbols@.subrange(at as int, end as int));
        }
        at = end;
    }
    proof {
        assert(symbols@.take(n as int) =~= symbols@);
    }
    out
}

proof fn lemma_no_batch(size: int)
    requires
        size > 0,
    ensures
        batch_count(0, size) == 0,
{
    assert((size - 1) / size == 0) by (nonlinear_arith)
        requires
            size > 0,
    ;
}

proof fn lemma_next_batch(n: int, size: int, k: int)
    requires
        size > 0,
        k >= 0,
        k * size < n,
    ensures
        (k + 1) * size == k * size + size,
        n - k * size <= size ==> batch_count(n, size) == k + 1,
        batch_end(n, size, k) == if n - k * size > size {
            k * size + size
        } else {
            n
        },
{
    assert((k + 1) * size == k * size + size) by (nonlinear_arith);
    if n - k * size <= size {
        let q = n + size - 1;
        assert(q / size == k + 1) by (nonlinear_arith)
            requires
                size > 0,
                (k + 1) * size <= q,
                q < (k + 1) * size + size,
        ;
    }
}

proof fn lemma_joined_prefix(before: Seq<Vec<String>>, after: Seq<Vec<String>>, i: int)
    requires
        0 <= i <= before.len() <= after.len(),
        forall|j: int| 0 <= j < before.len() ==> before[j] == after[j],
    ensures
        joined(before, i) == joined(after, i),
    decreases i,
{
    if i > 0 {
        lemma_joined_prefix(before, after, i - 1);
    }
}

/// No batch is empty or larger than asked for.
pub proof fn batches_have_the_right_size(symbols: Seq<String>, size: int, i: int)
    requires
        size > 0,
        0 <= i < batch_count(symbols.len() as int, size),
    ensures
        1 <= batch_of(symbols, size, i).len() <= size,
{
    let n = symbols.len() as int;
    let q = n + size - 1;
    assert(i * size + size <= q) by (nonlinear_arith)
        requires
            size > 0,
            0 <= i < q / size,
    ;
    assert(i * size >= 0) by (nonlinear_arith)
        requires
            size > 0,
            0 <= i,
    ;
    assert((i + 1) * size == i * size + size) by (nonlinear_arith);
}

} // verus!
