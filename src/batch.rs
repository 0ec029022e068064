//! Splitting an ordered sequence of events into bounded batches.
use crate::model::Event;
use vstd::prelude::*;

verus! {

/// The number of batches of at most `size` items that `n` items fill.
pub open spec fn chunk_count(n: nat, size: nat) -> nat {
    if size == 0 {
        0
    } else if n % size == 0 {
        n / size
    } else {
        n / size + 1
    }
}

/// The `i`-th batch: items `i * size` up to `(i + 1) * size`, or to the end.
pub open spec fn chunk_of<T>(s: Seq<T>, size: nat, i: int) -> Seq<T> {
    let lo = i * size;
    let hi = if (i + 1) * size <= s.len() {
        (i + 1) * size
    } else {
        s.len() as int
    };
    s.subrange(lo, hi)
}

/// The concatenation of a sequence of sequences.
pub open spec fn concat_all<T>(ss: Seq<Seq<T>>) -> Seq<T>
    decreases ss.len(),
{
    if ss.len() == 0 {
        Seq::empty()
    } else {
        concat_all(ss.drop_last()) + ss.last()
    }
}

/// The batches of `s`, of at most `size` items each, in order.
pub open spec fn chunks<T>(s: Seq<T>, size: nat) -> Seq<Seq<T>> {
    Seq::new(chunk_count(s.len(), size), |i: int| chunk_of(s, size, i))
}

/// The views of a vector of vectors.
pub open spec fn views<T>(v: Seq<Vec<T>>) -> Seq<Seq<T>> {
    v.map_values(|c: Vec<T>| c@)
}

proof fn lemma_chunk_bounds(n: nat, size: nat, i: int)
    requires
        size > 0,
        0 <= i < chunk_count(n, size),
    ensures
        i * size < n,
        (i + 1) * size > n ==> i == chunk_count(n, size) - 1,
{
    let q = (n / size) as int;
    let r = (n % size) as int;
    vstd::arithmetic::div_mod::lemma_fundamental_div_mod(n as int, size as int);
    assert(i * size < n) by (nonlinear_arith)
        requires
            n == q * size + r,
            0 <= r < size,
            r == 0 ==> i < q,
            r != 0 ==> i <= q,
            0 <= i,
    ;
    if (i + 1) * size > n {
        assert(i >= q) by (nonlinear_arith)
            requires
                n == q * size + r,
                0 <= r,
                (i + 1) * size > n,
                size > 0,
        ;
        assert(r != 0) by (nonlinear_arith)
            requires
                n == q * size + r,
                i < q || r != 0,
                i >= q,
        ;
    }
}

/// Splits `events` into batches of at most `max_batch_size`, in order: every
/// batch but the last is full, the last holds the rest, and no items give no
/// batches.
pub fn batch(events: &Vec<Event>, max_batch_size: usize) -> (r: Vec<Vec<Event>>)
    requires
        max_batch_size > 0,
    ensures
        views(r@) == chunks(events@, max_batch_size as nat),
{
    let n = events.len();
    let count: usize = if n % max_batch_size == 0 {
        n / max_batch_size
    } else {
        proof {
            vstd::arithmetic::div_mod::lemma_fundamental_div_mod(n as int, max_batch_size as int);
            let q = n as int / max_batch_size as int;
            assert(q < usize::MAX) by (nonlinear_arith)
                requires
                    n == q * max_batch_size + n as int % max_batch_size as int,
                    n as int % max_batch_size as int >= 0,
                    max_batch_size >= 2,
                    n <= usize::MAX,
            ;
        }
        n / max_batch_size + 1
    };
    let ghost size = max_batch_size as nat;
    let mut r: Vec<Vec<Event>> = Vec::new();
    let mut k: usize = 0;
    while k < count
        invariant
            n == events@.len(),
            size == max_batch_size,
            size > 0,
            count == chunk_count(n as nat, size),
            k <= count,
            r@.len() == k,
            forall|i: int| 0 <= i < k ==> (#[trigger] r@[i])@ == chunk_of(events@, size, i),
        decreases count - k,
    {
        proof {
            lemma_chunk_bounds(n as nat, size, k as int);
        }
        let lo: usize = k * max_batch_size;
        let hi: usize = if n - lo > max_batch_size {
            lo + max_batch_size
        } else {
            n
        };
        let mut chunk: Vec<Event> = Vec::new();
        let mut j: usize = lo;
        while j < hi
            invariant
                lo <= j <= hi <= n,
                n == events@.len(),
                chunk@ == events@.subrange(lo as int, j as int),
            decreases hi - j,
        {
            chunk.push(events[j].duplicate());
            j = j + 1;
            assert(chunk@ =~= events@.subrange(lo as int, j as int));
        }
        proof {
            assert(lo + size == (k + 1) * size) by (nonlinear_arith)
                requires
                    lo == k * size,
            ;
        }
        r.push(chunk);
        k = k + 1;
    }
    assert(views(r@) =~= chunks(events@, size));
    r
}

proof fn lemma_chunk_count_covers(n: nat, size: nat)
    requires
        size > 0,
    ensures
        chunk_count(n, size) * size >= n,
        n == 0 ==> chunk_count(n, size) == 0,
{
    let q = (n / size) as int;
    let r = (n % size) as int;
    vstd::arithmetic::div_mod::lemma_fundamental_div_mod(n as int, size as int);
    assert(chunk_count(n, size) * size >= n) by (nonlinear_arith)
        requires
            n == q * size + r,
            0 <= r < size,
            r == 0 ==> chunk_count(n, size) == q,
            r != 0 ==> chunk_count(n, size) == q + 1,
    ;
    if n == 0 {
        vstd::arithmetic::div_mod::lemma_small_mod(0, size);
        vstd::arithmetic::div_mod::lemma_basic_div(0, size as int);
    }
}

proof fn lemma_concat_prefix<T>(s: Seq<T>, size: nat, k: int)
    requires
        size > 0,
        0 <= k <= chunk_count(s.len(), size),
    ensures
        concat_all(chunks(s, size).subrange(0, k)) == s.subrange(
            0,
            if k * size <= s.len() {
                k * size
            } else {
                s.len() as int
            },
        ),
    decreases k,
{
    let cs = chunks(s, size);
    if k == 0 {
        assert(cs.subrange(0, 0) =~= Seq::<Seq<T>>::empty());
        assert(s.subrange(0, 0) =~= Seq::<T>::empty());
    } else {
        lemma_concat_prefix(s, size, k - 1);
        lemma_chunk_bounds(s.len(), size, k - 1);
        assert(cs.subrange(0, k).drop_last() =~= cs.subrange(0, k - 1));
        assert(cs.subrange(0, k).last() == chunk_of(s, size, k - 1));
        assert((k - 1) * size + size == k * size) by (nonlinear_arith);
        let hi = if k * size <= s.len() {
            k * size
        } else {
            s.len() as int
        };
        assert(s.subrange(0, (k - 1) * size) + s.subrange((k - 1) * size, hi) =~= s.subrange(
            0,
            hi,
        ));
    }
}

/// Batching keeps every item, in order: the batches concatenate back to the
/// input, each holds between one and `size` items, and there are
/// `chunk_count(len, size)` of them (none for no items).
pub proof fn law_batches_concatenate<T>(s: Seq<T>, size: nat)
    requires
        size > 0,
    ensures
        concat_all(chunks(s, size)) == s,
        chunks(s, size).len() == chunk_count(s.len(), size),
        s.len() == 0 ==> chunks(s, size).len() == 0,
        forall|i: int|
            0 <= i < chunks(s, size).len() ==> 0 < (#[trigger] chunks(s, size)[i]).len() <= size,
{
    let c = chunk_count(s.len(), size) as int;
    lemma_chunk_count_covers(s.len(), size);
    lemma_concat_prefix(s, size, c);
    assert(chunks(s, size).subrange(0, c) =~= chunks(s, size));
    assert(s.subrange(0, s.len() as int) =~= s);
    assert forall|i: int| 0 <= i < chunks(s, size).len() implies 0 < (#[trigger] chunks(
        s,
        size,
    )[i]).len() <= size by {
        lemma_chunk_bounds(s.len(), size, i);
        assert(i * size + size == (i + 1) * size) by (nonlinear_arith);
    }
}

} // verus!
