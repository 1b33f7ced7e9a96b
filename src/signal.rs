//! Delta-encoded coverage signals and the depths they describe.
use vstd::prelude::*;

verus! {

/// Sum of the first `n` entries of a delta-encoded signal.
pub open spec fn prefix_sum(s: Seq<i32>, n: int) -> int
    decreases n,
{
    if n <= 0 {
        0
    } else {
        prefix_sum(s, n - 1) + s[n - 1] as int
    }
}

/// Read depth at position `i`: the sum of all signal entries at indices `<= i`.
pub open spec fn depth_at(s: Seq<i32>, i: int) -> int {
    prefix_sum(s, i + 1)
}

/// Every depth of the signal fits in an `i64`.
pub open spec fn depths_fit(s: Seq<i32>) -> bool {
    forall|i: int| 0 <= i < s.len() ==> i64::MIN <= #[trigger] depth_at(s, i) <= i64::MAX
}

/// A signal as a pileup produces it: every depth is non-negative and fits in an `i32`.
pub open spec fn valid_signal(s: Seq<i32>) -> bool {
    forall|i: int| 0 <= i < s.len() ==> 0 <= #[trigger] depth_at(s, i) <= i32::MAX
}

/// Number of positions in `[lo, n)` whose depth is positive.
pub open spec fn covered_count(s: Seq<i32>, lo: int, n: int) -> int
    decreases n - lo,
{
    if n <= lo {
        0
    } else {
        covered_count(s, lo, n - 1) + if depth_at(s, n - 1) > 0 { 1int } else { 0int }
    }
}

/// Sum of the depths of the positions in `[lo, n)`.
pub open spec fn depth_total(s: Seq<i32>, lo: int, n: int) -> int
    decreases n - lo,
{
    if n <= lo {
        0
    } else {
        depth_total(s, lo, n - 1) + depth_at(s, n - 1)
    }
}

/// Number of positions in `[lo, n)` whose depth is exactly `d`.
pub open spec fn depth_count(s: Seq<i32>, lo: int, n: int, d: int) -> int
    decreases n - lo,
{
    if n <= lo {
        0
    } else {
        depth_count(s, lo, n - 1, d) + if depth_at(s, n - 1) == d { 1int } else { 0int }
    }
}

/// Prefix-sums a delta-encoded signal into per-position depths.
pub fn cumulative_depths(signal: &Vec<i32>) -> (r: Vec<i64>)
    requires
        depths_fit(signal@),
    ensures
        r@.len() == signal@.len(),
        forall|i: int| 0 <= i < r@.len() ==> r@[i] == depth_at(signal@, i),
{
    let mut r: Vec<i64> = Vec::with_capacity(signal.len());
    let mut sum: i64 = 0;
    let mut i: usize = 0;
    while i < signal.len()
        invariant
            i <= signal@.len(),
            depths_fit(signal@),
            r@.len() == i,
            sum == prefix_sum(signal@, i as int),
            forall|j: int| 0 <= j < i ==> r@[j] == depth_at(signal@, j),
        decreases signal@.len() - i,
    {
        assert(i64::MIN <= depth_at(signal@, i as int) <= i64::MAX);
        sum = sum + signal[i] as i64;
        r.push(sum);
        i = i + 1;
    }
    r
}

pub proof fn lemma_depth_total_mono(s: Seq<i32>, lo: int, m: int, n: int)
    requires
        lo <= m <= n <= s.len(),
        valid_signal(s),
    ensures
        0 <= depth_total(s, lo, m) <= depth_total(s, lo, n),
    decreases n - lo,
{
    if m < n {
        assert(0 <= depth_at(s, n - 1));
        lemma_depth_total_mono(s, lo, m, n - 1);
    } else if lo < m {
        assert(0 <= depth_at(s, m - 1));
        lemma_depth_total_mono(s, lo, m - 1, m - 1);
    }
}

/// Counts the positions of `[lo, hi)` with positive depth, and sums their depths.
pub fn scan_range(depths: &Vec<i64>, lo: usize, hi: usize, Ghost(s): Ghost<Seq<i32>>) -> (r: (u32, u64))
    requires
        lo <= hi <= depths@.len(),
        depths@.len() == s.len(),
        hi - lo <= u32::MAX,
        forall|i: int| 0 <= i < depths@.len() ==> #[trigger] depths@[i] == depth_at(s, i),
        valid_signal(s),
        depth_total(s, lo as int, hi as int) <= u64::MAX,
    ensures
        r.0 == covered_count(s, lo as int, hi as int),
        r.0 <= hi - lo,
        r.1 == depth_total(s, lo as int, hi as int),
{
    let mut covered: u32 = 0;
    let mut total: u64 = 0;
    let mut i: usize = lo;
    while i < hi
        invariant
            lo <= i <= hi <= depths@.len(),
            depths@.len() == s.len(),
            hi - lo <= u32::MAX,
            forall|k: int| 0 <= k < depths@.len() ==> #[trigger] depths@[k] == depth_at(s, k),
            valid_signal(s),
            depth_total(s, lo as int, hi as int) <= u64::MAX,
            covered == covered_count(s, lo as int, i as int),
            covered <= i - lo,
            total == depth_total(s, lo as int, i as int),
        decreases hi - i,
    {
        assert(0 <= depth_at(s, i as int) <= i32::MAX);
        proof {
            lemma_depth_total_mono(s, lo as int, i + 1, hi as int);
        }
        let d = depths[i];
        if d > 0 {
            covered = covered + 1;
        }
        total = total + d as u64;
        i = i + 1;
    }
    (covered, total)
}

pub proof fn lemma_depth_total_bound(s: Seq<i32>, lo: int, n: int)
    requires
        lo <= n <= s.len(),
        0 <= lo,
        valid_signal(s),
    ensures
        depth_total(s, lo, n) <= (n - lo) * 0x7fff_ffff,
    decreases n - lo,
{
    if lo < n {
        assert(depth_at(s, n - 1) <= i32::MAX);
        lemma_depth_total_bound(s, lo, n - 1);
    }
}

} // verus!
