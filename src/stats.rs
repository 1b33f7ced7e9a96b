//! Order statistics and moments of a depth histogram (entry `d` counts the
//! positions of depth `d`).
use vstd::prelude::*;

use crate::histogram::{folded, hsum, lemma_cum_folded, lemma_hsum_mono, lemma_hsum_nonneg};

verus! {

/// Sum of the first `n` entries.
pub open spec fn cum(h: Seq<int>, n: int) -> int
    decreases n,
{
    if n <= 0 {
        0
    } else {
        cum(h, n - 1) + h[n - 1]
    }
}

/// How many of the 0-based ranks `[p, c)` of a bucket fall in the kept range
/// `[lo, hi)`.
pub open spec fn rank_overlap(p: int, c: int, lo: int, hi: int) -> int {
    let a = if p > lo { p } else { lo };
    let b = if c < hi { c } else { hi };
    if b > a {
        b - a
    } else {
        0
    }
}

/// Sum of the depths at the 0-based ranks `[lo, hi)` of the sorted depths,
/// over the first `n` buckets: bucket `i` holds the ranks
/// `[cum(h, i), cum(h, i + 1))`, all of depth `i`.
pub open spec fn trimmed_total(h: Seq<int>, n: int, lo: int, hi: int) -> int
    decreases n,
{
    if n <= 0 {
        0
    } else {
        trimmed_total(h, n - 1, lo, hi) + (n - 1) * rank_overlap(cum(h, n - 1), cum(h, n), lo, hi)
    }
}

/// `sum (x - k) * h[x]` over the first `n` buckets.
pub open spec fn shifted_sum(h: Seq<int>, n: int, k: int) -> int
    decreases n,
{
    if n <= 0 {
        0
    } else {
        shifted_sum(h, n - 1, k) + (n - 1 - k) * h[n - 1]
    }
}

/// `sum (x - k)^2 * h[x]` over the first `n` buckets.
pub open spec fn shifted_sq_sum(h: Seq<int>, n: int, k: int) -> int
    decreases n,
{
    if n <= 0 {
        0
    } else {
        shifted_sq_sum(h, n - 1, k) + (n - 1 - k) * (n - 1 - k) * h[n - 1]
    }
}

/// The first bucket at or after `k` that is not empty; 0 if there is none.
pub open spec fn first_nonzero_from(h: Seq<int>, k: int) -> int
    decreases h.len() - k,
{
    if k < 0 || k >= h.len() {
        0
    } else if h[k] != 0 {
        k
    } else {
        first_nonzero_from(h, k + 1)
    }
}

/// `n * sum (x - k)^2 * h[x] - (sum (x - k) * h[x])^2`: `n * (n - 1)` times the
/// sample variance when `n` is the number of positions.
pub open spec fn variance_numerator(h: Seq<int>, n: int, k: int) -> int {
    n * shifted_sq_sum(h, h.len() as int, k) - shifted_sum(h, h.len() as int, k) * shifted_sum(
        h,
        h.len() as int,
        k,
    )
}

pub proof fn lemma_shifted_sums(h: Seq<int>, n: int, k: int)
    requires
        0 <= n <= h.len(),
    ensures
        shifted_sum(h, n, k) == shifted_sum(h, n, 0) - k * cum(h, n),
        shifted_sq_sum(h, n, k) == shifted_sq_sum(h, n, 0) - 2 * k * shifted_sum(h, n, 0) + k * k
            * cum(h, n),
    decreases n,
{
    if n > 0 {
        lemma_shifted_sums(h, n - 1, k);
        let x = n - 1;
        let v = h[n - 1];
        assert((x - k) * v == x * v - k * v) by (nonlinear_arith);
        assert((x - k) * (x - k) * v == x * x * v - 2 * k * (x * v) + k * k * v) by (nonlinear_arith);
        assert((x - 0) * v == x * v);
        assert((x - 0) * (x - 0) * v == x * x * v);
        assert(k * cum(h, n) == k * cum(h, n - 1) + k * v) by (nonlinear_arith)
            requires
                cum(h, n) == cum(h, n - 1) + v,
        ;
        assert(k * k * cum(h, n) == k * k * cum(h, n - 1) + k * k * v) by (nonlinear_arith)
            requires
                cum(h, n) == cum(h, n - 1) + v,
        ;
        assert(2 * k * shifted_sum(h, n, 0) == 2 * k * shifted_sum(h, n - 1, 0) + 2 * k * (x * v))
            by (nonlinear_arith)
            requires
                shifted_sum(h, n, 0) == shifted_sum(h, n - 1, 0) + (x - 0) * v,
                (x - 0) * v == x * v,
        ;
    }
}

/// Shifting every depth by the same amount leaves the sample variance unchanged:
/// over a histogram of `n` positions, the numerator computed with the sums shifted
/// by `k` equals the one computed with the plain sums (the textbook
/// `sum (x - mean)^2` form times `n`).
pub proof fn lemma_variance_shift_invariant(h: Seq<int>, k: int)
    ensures
        variance_numerator(h, cum(h, h.len() as int), k) == variance_numerator(
            h,
            cum(h, h.len() as int),
            0,
        ),
{
    let len = h.len() as int;
    lemma_shifted_sums(h, len, k);
    let n = cum(h, len);
    let s1 = shifted_sum(h, len, 0);
    let s2 = shifted_sq_sum(h, len, 0);
    assert(n * (s2 - 2 * k * s1 + k * k * n) - (s1 - k * n) * (s1 - k * n) == n * s2 - s1 * s1)
        by (nonlinear_arith);
}

pub proof fn lemma_cum_mono(h: Seq<int>, m: int, n: int)
    requires
        0 <= m <= n <= h.len(),
        forall|j: int| 0 <= j < h.len() ==> h[j] >= 0,
    ensures
        0 <= cum(h, m) <= cum(h, n),
    decreases n,
{
    if n > 0 {
        if m < n {
            lemma_cum_mono(h, m, n - 1);
        } else {
            lemma_cum_mono(h, n - 1, n - 1);
        }
    }
}

fn rank_weight(p: u64, c: u64, lo: u64, hi: u64) -> (w: u64)
    requires
        p <= c,
    ensures
        w == rank_overlap(p as int, c as int, lo as int, hi as int),
        w <= c - p,
{
    let a = if p > lo { p } else { lo };
    let b = if c < hi { c } else { hi };
    if b > a {
        b - a
    } else {
        0
    }
}

/// Sum of the depths at the 0-based ranks `[lo, hi)` of the sorted depths,
/// with `unobserved` more positions at depth 0.
pub fn trimmed_depth_total(counts: &Vec<u32>, unobserved: u32, lo: u64, hi: u64) -> (r: u128)
    requires
        lo <= hi,
        counts@.len() <= 0x8000_0000,
        hsum(counts@, counts@.len() as int) + unobserved <= u32::MAX,
    ensures
        r == trimmed_total(
            folded(counts@, unobserved as int),
            folded(counts@, unobserved as int).len() as int,
            lo as int,
            hi as int,
        ),
        r <= 0x8000_0000 * 0xffff_ffff,
{
    let ghost h = folded(counts@, unobserved as int);
    let ghost n = cum(h, h.len() as int);
    let len = counts.len();
    proof {
        lemma_cum_folded(counts@, unobserved as int, h.len() as int);
        lemma_cum_folded(counts@, unobserved as int, 1);
        lemma_hsum_nonneg(counts@, counts@.len() as int);
        if len > 0 {
            lemma_hsum_mono(counts@, 1, len as int);
        }
    }
    let mut p: u64 = if len == 0 { unobserved as u64 } else { counts[0] as u64 + unobserved as u64 };
    let mut total: u128 = 0;
    let mut i: usize = 1;
    proof {
        assert(trimmed_total(h, 0, lo as int, hi as int) == 0);
        assert(trimmed_total(h, 1, lo as int, hi as int) == 0);
        assert(cum(h, 1) == cum(h, 0) + h[0]);
        if len > 0 {
            assert(hsum(counts@, 1) == hsum(counts@, 0) + counts@[0]);
        }
    }
    while i < len
        invariant
            1 <= i,
            len == counts@.len(),
            len <= 0x8000_0000,
            h == folded(counts@, unobserved as int),
            n == cum(h, h.len() as int),
            n <= u32::MAX,
            i <= if len == 0 { 1 } else { len },
            p == cum(h, i as int),
            p <= n,
            total == trimmed_total(h, i as int, lo as int, hi as int),
            total <= i * p,
            lo <= hi,
        decreases len - i,
    {
        proof {
            lemma_cum_folded(counts@, unobserved as int, i + 1);
            lemma_cum_folded(counts@, unobserved as int, h.len() as int);
            lemma_hsum_mono(counts@, i + 1, len as int);
            assert(cum(h, i + 1) == cum(h, i as int) + h[i as int]);
        }
        let c = p + counts[i] as u64;
        let w = rank_weight(p, c, lo, hi);
        proof {
            assert(total + i * w <= (i + 1) * c) by (nonlinear_arith)
                requires
                    total <= i * p,
                    w <= c - p,
                    p <= c,
                    w >= 0,
                    i >= 1,
            ;
            assert(i * w <= i * n) by (nonlinear_arith)
                requires
                    w <= c - p,
                    p <= c,
                    c <= n,
                    i >= 1,
            ;
            assert((i + 1) * c <= 0x8000_0001 * 0xffff_ffff) by (nonlinear_arith)
                requires
                    i < 0x8000_0000,
                    c <= n,
                    n <= u32::MAX,
                    c >= 0,
            ;
        }
        total = total + (i as u128) * (w as u128);
        p = c;
        i = i + 1;
    }
    assert(h.len() == if len == 0 { 1 } else { len as int });
    assert(i == h.len());
    assert(total <= 0x8000_0000 * 0xffff_ffff) by (nonlinear_arith)
        requires
            total <= i * p,
            i <= 0x8000_0000,
            0 <= p <= 0xffff_ffff,
    ;
    total
}

pub proof fn lemma_shifted_sums_zero(h: Seq<int>, m: int, k: int)
    requires
        0 <= m <= h.len(),
        forall|j: int| 0 <= j < m ==> (j - k) * h[j] == 0,
    ensures
        shifted_sum(h, m, k) == 0,
        shifted_sq_sum(h, m, k) == 0,
    decreases m,
{
    if m > 0 {
        lemma_shifted_sums_zero(h, m - 1, k);
        let j = m - 1;
        assert((j - k) * (j - k) * h[j] == (j - k) * ((j - k) * h[j])) by (nonlinear_arith);
    }
}

pub proof fn lemma_first_nonzero_skip(h: Seq<int>, k: int)
    requires
        0 <= k <= h.len(),
        forall|j: int| 0 <= j < k ==> h[j] == 0,
    ensures
        first_nonzero_from(h, 0) == first_nonzero_from(h, k),
    decreases k,
{
    if k > 0 {
        lemma_first_nonzero_skip(h, k - 1);
    }
}

/// The shift `k` (the first non-empty bucket) and the shifted sums
/// `sum (x - k) * h[x]` and `sum (x - k)^2 * h[x]` of the histogram with
/// `unobserved` more positions at depth 0.
pub fn shifted_moments(counts: &Vec<u32>, unobserved: u32) -> (r: (usize, u128, u128))
    requires
        counts@.len() <= 0x8000_0000,
        hsum(counts@, counts@.len() as int) + unobserved <= u32::MAX,
    ensures
        ({
            let h = folded(counts@, unobserved as int);
            let n = cum(h, h.len() as int);
            &&& r.0 == first_nonzero_from(h, 0)
            &&& r.1 == shifted_sum(h, h.len() as int, r.0 as int)
            &&& r.2 == shifted_sq_sum(h, h.len() as int, r.0 as int)
            &&& r.1 <= 0x8000_0000 * n
            &&& r.2 <= 0x8000_0000 * 0x8000_0000 * n
            &&& n == hsum(counts@, counts@.len() as int) + unobserved
        }),
{
    let ghost h = folded(counts@, unobserved as int);
    let ghost n = cum(h, h.len() as int);
    let len = counts.len();
    proof {
        lemma_cum_folded(counts@, unobserved as int, h.len() as int);
        lemma_cum_folded(counts@, unobserved as int, 1);
        lemma_hsum_nonneg(counts@, counts@.len() as int);
        assert(cum(h, 1) == cum(h, 0) + h[0]);
        if len > 0 {
            assert(hsum(counts@, 1) == hsum(counts@, 0) + counts@[0]);
        }
        assert forall|j: int| 0 <= j < h.len() implies h[j] >= 0 by {}
    }
    assert(h.len() == if len == 0 { 1 } else { len as int });
    let first: u64 = if len == 0 { unobserved as u64 } else { counts[0] as u64 + unobserved as u64 };
    let mut k: usize = 0;
    if first == 0 && len > 0 {
        k = 1;
        while k < len && counts[k] == 0
            invariant
                1 <= k <= len,
                len == counts@.len(),
                h == folded(counts@, unobserved as int),
                h.len() == len,
                h[0] == 0,
                forall|j: int| 1 <= j < k ==> h[j] == 0,
            decreases len - k,
        {
            k = k + 1;
        }
        proof {
            lemma_first_nonzero_skip(h, k as int);
            assert(forall|j: int| 0 <= j < k ==> h[j] == 0);
            if k < len {
                assert(first_nonzero_from(h, k as int) == k);
            } else {
                assert(first_nonzero_from(h, k as int) == 0);
            }
        }
        if k == len {
            k = 0;
        }
    } else {
        proof {
            if first != 0 {
                assert(first_nonzero_from(h, 0) == 0);
            } else {
                assert(first_nonzero_from(h, 1) == 0);
                assert(first_nonzero_from(h, 0) == 0);
            }
        }
    }
    assert(k == first_nonzero_from(h, 0));
    assert(k > 0 ==> forall|j: int| 0 <= j < k ==> h[j] == 0);
    let start: usize = if k == 0 { 1 } else { k };
    proof {
        assert forall|j: int| 0 <= j < start implies (j - k) * h[j] == 0 by {
            if k > 0 {
                assert(h[j] == 0);
                assert((j - k) * 0 == 0);
            } else {
                assert(j == 0);
                assert((0 - 0) * h[j] == 0);
            }
        }
        lemma_shifted_sums_zero(h, start as int, k as int);
        lemma_cum_mono(h, start as int, h.len() as int);
    }
    let mut ex: u128 = 0;
    let mut ex2: u128 = 0;
    let mut x: usize = start;
    while x < len
        invariant
            1 <= start <= x,
            k <= start,
            len == counts@.len(),
            len <= 0x8000_0000,
            h == folded(counts@, unobserved as int),
            h.len() == if len == 0 { 1 } else { len as int },
            x <= h.len(),
            n == cum(h, h.len() as int),
            n <= u32::MAX,
            forall|j: int| 0 <= j < h.len() ==> h[j] >= 0,
            ex == shifted_sum(h, x as int, k as int),
            ex2 == shifted_sq_sum(h, x as int, k as int),
            ex <= x * cum(h, x as int),
            ex2 <= x * x * cum(h, x as int),
        decreases len - x,
    {
        let v = counts[x];
        proof {
            assert(h[x as int] == v);
            assert(cum(h, x + 1) == cum(h, x as int) + v);
            lemma_cum_mono(h, x + 1, h.len() as int);
            lemma_cum_mono(h, x as int, x + 1);
        }
        let dx = (x - k) as u128;
        proof {
            let c = cum(h, x + 1);
            assert(ex + dx * v <= (x + 1) * c) by (nonlinear_arith)
                requires
                    ex <= x * cum(h, x as int),
                    c == cum(h, x as int) + v,
                    0 <= dx <= x,
                    v >= 0,
                    cum(h, x as int) >= 0,
            ;
            assert(ex2 + dx * dx * v <= (x + 1) * (x + 1) * c) by (nonlinear_arith)
                requires
                    ex2 <= x * x * cum(h, x as int),
                    c == cum(h, x as int) + v,
                    0 <= dx <= x,
                    v >= 0,
                    cum(h, x as int) >= 0,
            ;
            assert((x + 1) * (x + 1) * c <= 0x8000_0000 * 0x8000_0000 * 0xffff_ffff) by (nonlinear_arith)
                requires
                    x + 1 <= 0x8000_0000,
                    0 <= c <= 0xffff_ffff,
            ;
            assert(dx * dx * v <= (x + 1) * (x + 1) * c) by (nonlinear_arith)
                requires
                    0 <= dx <= x,
                    0 <= v <= c,
            ;
            assert(dx * dx <= 0x8000_0000 * 0x8000_0000) by (nonlinear_arith)
                requires
                    0 <= dx <= x,
                    x + 1 <= 0x8000_0000,
            ;
            assert(dx * v <= (x + 1) * c) by (nonlinear_arith)
                requires
                    0 <= dx <= x,
                    0 <= v <= c,
            ;
            assert((x + 1) * c <= 0x8000_0000 * 0xffff_ffff) by (nonlinear_arith)
                requires
                    x + 1 <= 0x8000_0000,
                    0 <= c <= 0xffff_ffff,
            ;
        }
        ex = ex + dx * (v as u128);
        ex2 = ex2 + dx * dx * (v as u128);
        x = x + 1;
    }
    proof {
        let xe = if len == 0 { 1int } else { len as int };
        if len == 0 {
            assert(x == 1);
        }
        assert(x == xe);
        assert(x * cum(h, x as int) <= 0x8000_0000 * n) by (nonlinear_arith)
            requires
                x <= 0x8000_0000,
                cum(h, x as int) == n,
                n >= 0,
        ;
        assert(x * x * cum(h, x as int) <= 0x8000_0000 * 0x8000_0000 * n) by (nonlinear_arith)
            requires
                x <= 0x8000_0000,
                x >= 0,
                cum(h, x as int) == n,
                n >= 0,
        ;
    }
    (k, ex, ex2)
}


/// The histogram of the depths `h` describes, each raised by `c`.
pub open spec fn raised(h: Seq<int>, c: nat) -> Seq<int> {
    Seq::new(c, |i: int| 0int) + h
}

proof fn lemma_raised_sums(h: Seq<int>, c: nat, m: int, k: int)
    requires
        0 <= m <= h.len(),
    ensures
        shifted_sum(raised(h, c), c + m, k) == shifted_sum(h, m, k - c),
        shifted_sq_sum(raised(h, c), c + m, k) == shifted_sq_sum(h, m, k - c),
        cum(raised(h, c), c + m) == cum(h, m),
    decreases m,
{
    let r = raised(h, c);
    if m == 0 {
        assert forall|j: int| 0 <= j < c implies (j - k) * r[j] == 0 by {
            assert(r[j] == 0);
        }
        lemma_shifted_sums_zero(r, c as int, k);
        lemma_cum_zeros(r, c as int);
    } else {
        lemma_raised_sums(h, c, m - 1, k);
        assert(r[c + m - 1] == h[m - 1]);
        assert((c + m - 1 - k) == (m - 1 - (k - c)));
    }
}

proof fn lemma_cum_zeros(h: Seq<int>, n: int)
    requires
        0 <= n <= h.len(),
        forall|j: int| 0 <= j < n ==> h[j] == 0,
    ensures
        cum(h, n) == 0,
    decreases n,
{
    if n > 0 {
        lemma_cum_zeros(h, n - 1);
    }
}

/// Raising every depth by the same amount `c` leaves the sample variance
/// unchanged.
pub proof fn lemma_variance_raise_invariant(h: Seq<int>, c: nat)
    ensures
        cum(raised(h, c), raised(h, c).len() as int) == cum(h, h.len() as int),
        variance_numerator(raised(h, c), cum(h, h.len() as int), 0) == variance_numerator(
            h,
            cum(h, h.len() as int),
            0,
        ),
{
    let r = raised(h, c);
    lemma_raised_sums(h, c, h.len() as int, 0);
    assert(r.len() == c + h.len());
    lemma_variance_shift_invariant(h, -(c as int));
}

} // verus!
