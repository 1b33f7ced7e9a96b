//! Histograms of depths: entry `d` counts the positions of depth `d`.
use vstd::prelude::*;

use crate::signal::{depth_at, depth_count, valid_signal};
use crate::stats::cum;

verus! {

/// Sum of the first `n` entries of a histogram.
pub open spec fn hsum(h: Seq<u32>, n: int) -> int
    decreases n,
{
    if n <= 0 {
        0
    } else {
        hsum(h, n - 1) + h[n - 1] as int
    }
}

/// Histogram entry `d`, zero past the end.
pub open spec fn bucket(h: Seq<u32>, d: int) -> int {
    if 0 <= d < h.len() {
        h[d] as int
    } else {
        0
    }
}

/// `new` is `old` with the depths of positions `[lo, hi)` of `s` counted in, and
/// is no longer than it needs to be.
pub open spec fn histogram_added(old: Seq<u32>, new: Seq<u32>, s: Seq<i32>, lo: int, hi: int) -> bool {
    &&& new.len() >= old.len()
    &&& forall|d: int| 0 <= d < new.len() ==> #[trigger] new[d] == bucket(old, d) + depth_count(s, lo, hi, d)
    &&& forall|d: int| d >= new.len() ==> #[trigger] depth_count(s, lo, hi, d) == 0
    &&& new.len() == old.len() || depth_count(s, lo, hi, new.len() - 1) > 0
}

pub proof fn lemma_entry_le_hsum(h: Seq<u32>, n: int, j: int)
    requires
        0 <= j < n <= h.len(),
    ensures
        h[j] <= hsum(h, n),
    decreases n,
{
    if j < n - 1 {
        lemma_entry_le_hsum(h, n - 1, j);
    }
    lemma_hsum_nonneg(h, n - 1);
}

pub proof fn lemma_hsum_nonneg(h: Seq<u32>, n: int)
    requires
        n <= h.len(),
    ensures
        hsum(h, n) >= 0,
    decreases n,
{
    if n > 0 {
        lemma_hsum_nonneg(h, n - 1);
    }
}

pub proof fn lemma_hsum_mono(h: Seq<u32>, m: int, n: int)
    requires
        0 <= m <= n <= h.len(),
    ensures
        hsum(h, m) <= hsum(h, n),
    decreases n,
{
    if m < n {
        lemma_hsum_mono(h, m, n - 1);
    }
}

pub proof fn lemma_hsum_update(h: Seq<u32>, n: int, j: int, v: u32)
    requires
        0 <= j < h.len(),
        n <= h.len(),
    ensures
        hsum(h.update(j, v), n) == hsum(h, n) + if j < n { v - h[j] } else { 0int },
    decreases n,
{
    if n > 0 {
        lemma_hsum_update(h, n - 1, j, v);
    }
}

pub proof fn lemma_hsum_prefix(h: Seq<u32>, g: Seq<u32>, n: int)
    requires
        n <= h.len(),
        n <= g.len(),
        forall|j: int| 0 <= j < n ==> h[j] == g[j],
    ensures
        hsum(h, n) == hsum(g, n),
    decreases n,
{
    if n > 0 {
        lemma_hsum_prefix(h, g, n - 1);
    }
}

/// Extends `counts` with zeros to length `n`.
fn grow(counts: &mut Vec<u32>, n: usize)
    requires
        old(counts)@.len() <= n,
    ensures
        final(counts)@.len() == n,
        forall|j: int| 0 <= j < old(counts)@.len() ==> final(counts)@[j] == old(counts)@[j],
        forall|j: int| old(counts)@.len() <= j < n ==> final(counts)@[j] == 0,
{
    while counts.len() < n
        invariant
            old(counts)@.len() <= counts@.len() <= n,
            forall|j: int| 0 <= j < old(counts)@.len() ==> counts@[j] == old(counts)@[j],
            forall|j: int| old(counts)@.len() <= j < counts@.len() ==> counts@[j] == 0,
        decreases n - counts@.len(),
    {
        counts.push(0);
    }
}

/// Counts the depths of positions `[lo, hi)` into `counts`.
pub fn add_depths(counts: &mut Vec<u32>, depths: &Vec<i64>, lo: usize, hi: usize, Ghost(s): Ghost<Seq<i32>>)
    requires
        lo <= hi <= depths@.len(),
        depths@.len() == s.len(),
        forall|i: int| 0 <= i < depths@.len() ==> #[trigger] depths@[i] == depth_at(s, i),
        valid_signal(s),
        old(counts)@.len() <= 0x8000_0000,
        hsum(old(counts)@, old(counts)@.len() as int) + (hi - lo) <= u32::MAX,
    ensures
        histogram_added(old(counts)@, final(counts)@, s, lo as int, hi as int),
        final(counts)@.len() <= 0x8000_0000,
        hsum(final(counts)@, final(counts)@.len() as int) == hsum(old(counts)@, old(counts)@.len() as int) + (hi - lo),
{
    let mut i: usize = lo;
    while i < hi
        invariant
            lo <= i <= hi <= depths@.len(),
            depths@.len() == s.len(),
            forall|k: int| 0 <= k < depths@.len() ==> #[trigger] depths@[k] == depth_at(s, k),
            valid_signal(s),
            histogram_added(old(counts)@, counts@, s, lo as int, i as int),
            counts@.len() <= 0x8000_0000,
            hsum(counts@, counts@.len() as int) == hsum(old(counts)@, old(counts)@.len() as int) + (i - lo),
            hsum(old(counts)@, old(counts)@.len() as int) + (hi - lo) <= u32::MAX,
        decreases hi - i,
    {
        assert(0 <= depth_at(s, i as int) <= i32::MAX);
        let d = depths[i] as usize;
        let ghost before = counts@;
        if counts.len() <= d {
            grow(counts, d + 1);
            proof {
                assert forall|j: int| 0 <= j < counts@.len() implies #[trigger] counts@[j] == bucket(
                    old(counts)@,
                    j,
                ) + depth_count(s, lo as int, i as int, j) by {
                    if j >= before.len() {
                        assert(depth_count(s, lo as int, i as int, j) == 0);
                    }
                }
                lemma_hsum_prefix(counts@, before, before.len() as int);
                lemma_hsum_zeros(counts@, before.len() as int, counts@.len() as int);
            }
        }
        let ghost mid = counts@;
        proof {
            lemma_entry_le_hsum(mid, mid.len() as int, d as int);
            lemma_hsum_update(mid, mid.len() as int, d as int, (mid[d as int] + 1) as u32);
        }
        counts.set(d, counts[d] + 1);
        proof {
            assert forall|j: int| 0 <= j < counts@.len() implies #[trigger] counts@[j] == bucket(old(counts)@, j)
                + depth_count(s, lo as int, i + 1, j) by {
                assert(depth_count(s, lo as int, i + 1, j) == depth_count(s, lo as int, i as int, j)
                    + if depth_at(s, i as int) == j { 1int } else { 0int });
            }
            assert forall|j: int| j >= counts@.len() implies #[trigger] depth_count(s, lo as int, i + 1, j) == 0 by {
                assert(depth_count(s, lo as int, i + 1, j) == depth_count(s, lo as int, i as int, j)
                    + if depth_at(s, i as int) == j { 1int } else { 0int });
            }
            if counts@.len() != old(counts)@.len() {
                let t = counts@.len() - 1;
                assert(depth_count(s, lo as int, i + 1, t) == depth_count(s, lo as int, i as int, t)
                    + if depth_at(s, i as int) == t { 1int } else { 0int });
            }
        }
        i = i + 1;
    }
}

pub proof fn lemma_hsum_zeros(h: Seq<u32>, m: int, n: int)
    requires
        0 <= m <= n <= h.len(),
        forall|j: int| m <= j < n ==> h[j] == 0,
    ensures
        hsum(h, n) == hsum(h, m),
    decreases n,
{
    if m < n {
        lemma_hsum_zeros(h, m, n - 1);
    }
}

/// The histogram with `u` more positions of depth 0 (and at least one bucket).
pub open spec fn folded(h: Seq<u32>, u: int) -> Seq<int> {
    Seq::new(
        if h.len() == 0 { 1 } else { h.len() },
        |d: int| bucket(h, d) + if d == 0 { u } else { 0 },
    )
}

pub proof fn lemma_cum_folded(h: Seq<u32>, u: int, n: int)
    requires
        1 <= n <= folded(h, u).len(),
    ensures
        cum(folded(h, u), n) == hsum(h, if h.len() == 0 { 0 } else { n }) + u,
    decreases n,
{
    if n > 1 {
        lemma_cum_folded(h, u, n - 1);
    } else {
        assert(cum(folded(h, u), 0) == 0);
        if h.len() > 0 {
            assert(hsum(h, 1) == hsum(h, 0) + h[0]);
        }
    }
}

/// Adding the same depths to the same histogram gives one result.
pub proof fn lemma_histogram_added_unique(old: Seq<u32>, a: Seq<u32>, b: Seq<u32>, s: Seq<i32>, lo: int, hi: int)
    requires
        histogram_added(old, a, s, lo, hi),
        histogram_added(old, b, s, lo, hi),
    ensures
        a == b,
{
    if a.len() < b.len() {
        assert(depth_count(s, lo, hi, b.len() - 1) == 0);
    }
    if b.len() < a.len() {
        assert(depth_count(s, lo, hi, a.len() - 1) == 0);
    }
    assert(a.len() == b.len());
    assert forall|d: int| 0 <= d < a.len() implies a[d] == b[d] by {
        assert(a[d] == bucket(old, d) + depth_count(s, lo, hi, d));
        assert(b[d] == bucket(old, d) + depth_count(s, lo, hi, d));
    }
    assert(a =~= b);
}

} // verus!
