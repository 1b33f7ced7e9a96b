//! Streaming per-contig coverage estimators.
use vstd::prelude::*;

use crate::taker::{zero_depth_count, zero_depth_count_of, CoverageEntry, CoverageTaker};

use crate::histogram::{add_depths, bucket, folded, histogram_added, hsum, lemma_histogram_added_unique};
use crate::stats::{
    cum, first_nonzero_from, shifted_moments, trimmed_depth_total, trimmed_total, variance_numerator,
};
use crate::signal::{
    covered_count, cumulative_depths, depth_at, depth_total, lemma_depth_total_bound, scan_range,
    valid_signal,
};

verus! {

/// A non-negative rational threshold `numer / denom`.
#[derive(Clone, Copy, Debug, PartialEq, Eq, Structural)]
pub struct Fraction {
    pub numer: u32,
    pub denom: u32,
}

impl Fraction {
    pub open spec fn wf(self) -> bool {
        self.denom > 0
    }

    /// `self <= other`, compared as rationals.
    pub open spec fn le(self, other: Fraction) -> bool {
        self.numer as int * other.denom as int <= other.numer as int * self.denom as int
    }

    /// At most one.
    pub open spec fn at_most_one(self) -> bool {
        self.numer <= self.denom
    }
}

/// An exact coverage value `numer / denom`.
#[derive(Clone, Copy, Debug, PartialEq, Eq, Structural)]
pub struct Estimate {
    pub numer: i128,
    pub denom: u128,
}

impl Estimate {
    pub open spec fn zero() -> Estimate {
        Estimate { numer: 0, denom: 1 }
    }

    pub open spec fn whole(n: int) -> Estimate {
        Estimate { numer: n as i128, denom: 1 }
    }

    pub open spec fn ratio(n: int, d: int) -> Estimate {
        Estimate { numer: n as i128, denom: d as u128 }
    }
}

/// The statistic an estimator computes.
#[derive(Clone, Copy, Debug, PartialEq, Eq, Structural)]
pub enum EstimatorKind {
    Mean,
    TrimmedMean,
    PileupCounts,
    CoverageFraction,
    NumCoveredBases,
    Variance,
    ReferenceLength,
    ReadCount,
    ReadsPerBase,
}

impl EstimatorKind {
    /// Kinds that skip a contig shorter than twice the end exclusion.
    pub open spec fn is_gated(self) -> bool {
        !(self is ReferenceLength || self is ReadCount || self is ReadsPerBase)
    }

    /// Kinds that keep a histogram of depths.
    pub open spec fn is_histogram(self) -> bool {
        self is TrimmedMean || self is PileupCounts || self is Variance
    }
}

/// An estimator: which statistic, its configuration, and what it has accumulated.
#[derive(Clone, Debug)]
pub struct CoverageEstimator {
    pub kind: EstimatorKind,
    pub min_fraction_covered_bases: Fraction,
    pub trim_min: Fraction,
    pub trim_max: Fraction,
    pub contig_end_exclusion: u32,
    pub exclude_mismatches: bool,
    /// Depth at each position of the last contig added.
    pub pileup_counts: Vec<i64>,
    /// Number of observed positions at each depth.
    pub counts: Vec<u32>,
    /// Sum of the depths of the observed positions.
    pub total_count: u32,
    /// Number of positions observed.
    pub observed_length: u32,
    pub num_covered_bases: u32,
    pub num_mapped_reads: u64,
    pub total_mismatches: u32,
}

impl CoverageEstimator {
    pub open spec fn wf(self) -> bool {
        &&& self.min_fraction_covered_bases.wf()
        &&& self.trim_min.wf()
        &&& self.trim_max.wf()
        &&& self.trim_min.le(self.trim_max)
        &&& self.trim_max.at_most_one()
        &&& self.counts@.len() <= 0x8000_0000
        &&& hsum(self.counts@, self.counts@.len() as int) <= self.observed_length
        &&& self.kind.is_histogram() ==> hsum(self.counts@, self.counts@.len() as int) == self.observed_length
        &&& self.num_covered_bases <= self.observed_length
    }

    /// Same kind and same configuration.
    pub open spec fn same_config(self, other: CoverageEstimator) -> bool {
        &&& self.kind == other.kind
        &&& self.min_fraction_covered_bases == other.min_fraction_covered_bases
        &&& self.trim_min == other.trim_min
        &&& self.trim_max == other.trim_max
        &&& self.contig_end_exclusion == other.contig_end_exclusion
        &&& self.exclude_mismatches == other.exclude_mismatches
    }

    /// Nothing accumulated.
    pub open spec fn is_reset(self) -> bool {
        &&& self.pileup_counts@.len() == 0
        &&& self.counts@.len() == 0
        &&& self.total_count == 0
        &&& self.observed_length == 0
        &&& self.num_covered_bases == 0
        &&& self.num_mapped_reads == 0
        &&& self.total_mismatches == 0
    }

    fn fresh(
        kind: EstimatorKind,
        min_fraction_covered_bases: Fraction,
        trim_min: Fraction,
        trim_max: Fraction,
        contig_end_exclusion: u32,
        exclude_mismatches: bool,
    ) -> (r: CoverageEstimator)
        ensures
            r.kind == kind,
            r.min_fraction_covered_bases == min_fraction_covered_bases,
            r.trim_min == trim_min,
            r.trim_max == trim_max,
            r.contig_end_exclusion == contig_end_exclusion,
            r.exclude_mismatches == exclude_mismatches,
            r.is_reset(),
    {
        CoverageEstimator {
            kind,
            min_fraction_covered_bases,
            trim_min,
            trim_max,
            contig_end_exclusion,
            exclude_mismatches,
            pileup_counts: Vec::new(),
            counts: Vec::new(),
            total_count: 0,
            observed_length: 0,
            num_covered_bases: 0,
            num_mapped_reads: 0,
            total_mismatches: 0,
        }
    }

    pub open spec fn no_trim() -> (Fraction, Fraction) {
        (Fraction { numer: 0, denom: 1 }, Fraction { numer: 1, denom: 1 })
    }

    fn gated(
        kind: EstimatorKind,
        min_fraction_covered_bases: Fraction,
        contig_end_exclusion: u32,
    ) -> (r: CoverageEstimator)
        requires
            min_fraction_covered_bases.wf(),
        ensures
            r.wf(),
            r.is_reset(),
            r.kind == kind,
            r.min_fraction_covered_bases == min_fraction_covered_bases,
            (r.trim_min, r.trim_max) == Self::no_trim(),
            r.contig_end_exclusion == contig_end_exclusion,
            !r.exclude_mismatches,
    {
        Self::fresh(
            kind,
            min_fraction_covered_bases,
            Fraction { numer: 0, denom: 1 },
            Fraction { numer: 1, denom: 1 },
            contig_end_exclusion,
            false,
        )
    }

    fn ungated(kind: EstimatorKind) -> (r: CoverageEstimator)
        ensures
            r.wf(),
            r.is_reset(),
            r.kind == kind,
            r.min_fraction_covered_bases == (Fraction { numer: 0, denom: 1 }),
            (r.trim_min, r.trim_max) == Self::no_trim(),
            r.contig_end_exclusion == 0,
            !r.exclude_mismatches,
    {
        Self::gated(kind, Fraction { numer: 0, denom: 1 }, 0)
    }

    /// Mean depth over the observed and unobserved length.
    pub fn new_estimator_mean(
        min_fraction_covered_bases: Fraction,
        contig_end_exclusion: u32,
        exclude_mismatches: bool,
    ) -> (r: CoverageEstimator)
        requires
            min_fraction_covered_bases.wf(),
        ensures
            r.wf(),
            r.is_reset(),
            r.kind == EstimatorKind::Mean,
            r.min_fraction_covered_bases == min_fraction_covered_bases,
            (r.trim_min, r.trim_max) == Self::no_trim(),
            r.contig_end_exclusion == contig_end_exclusion,
            r.exclude_mismatches == exclude_mismatches,
    {
        Self::fresh(
            EstimatorKind::Mean,
            min_fraction_covered_bases,
            Fraction { numer: 0, denom: 1 },
            Fraction { numer: 1, denom: 1 },
            contig_end_exclusion,
            exclude_mismatches,
        )
    }

    /// Mean of the sorted depths at the 0-based ranks from `floor(min * n)` up to,
    /// not including, `ceil(max * n)`, where `n` counts unobserved positions as depth 0.
    pub fn new_estimator_trimmed_mean(
        min: Fraction,
        max: Fraction,
        min_fraction_covered_bases: Fraction,
        contig_end_exclusion: u32,
    ) -> (r: CoverageEstimator)
        requires
            min.wf(),
            max.wf(),
            min.le(max),
            max.at_most_one(),
            min_fraction_covered_bases.wf(),
        ensures
            r.wf(),
            r.is_reset(),
            r.kind == EstimatorKind::TrimmedMean,
            r.min_fraction_covered_bases == min_fraction_covered_bases,
            r.trim_min == min,
            r.trim_max == max,
            r.contig_end_exclusion == contig_end_exclusion,
            !r.exclude_mismatches,
    {
        Self::fresh(
            EstimatorKind::TrimmedMean,
            min_fraction_covered_bases,
            min,
            max,
            contig_end_exclusion,
            false,
        )
    }

    /// Histogram of depths.
    pub fn new_estimator_pileup_counts(
        min_fraction_covered_bases: Fraction,
        contig_end_exclusion: u32,
    ) -> (r: CoverageEstimator)
        requires
            min_fraction_covered_bases.wf(),
        ensures
            r.wf(),
            r.is_reset(),
            r.kind == EstimatorKind::PileupCounts,
            r.min_fraction_covered_bases == min_fraction_covered_bases,
            (r.trim_min, r.trim_max) == Self::no_trim(),
            r.contig_end_exclusion == contig_end_exclusion,
            !r.exclude_mismatches,
    {
        Self::gated(EstimatorKind::PileupCounts, min_fraction_covered_bases, contig_end_exclusion)
    }

    /// Fraction of the length that is covered.
    pub fn new_estimator_covered_fraction(
        min_fraction_covered_bases: Fraction,
        contig_end_exclusion: u32,
    ) -> (r: CoverageEstimator)
        requires
            min_fraction_covered_bases.wf(),
        ensures
            r.wf(),
            r.is_reset(),
            r.kind == EstimatorKind::CoverageFraction,
            r.min_fraction_covered_bases == min_fraction_covered_bases,
            (r.trim_min, r.trim_max) == Self::no_trim(),
            r.contig_end_exclusion == contig_end_exclusion,
            !r.exclude_mismatches,
    {
        Self::gated(EstimatorKind::CoverageFraction, min_fraction_covered_bases, contig_end_exclusion)
    }

    /// Number of covered positions.
    pub fn new_estimator_covered_bases(
        min_fraction_covered_bases: Fraction,
        contig_end_exclusion: u32,
    ) -> (r: CoverageEstimator)
        requires
            min_fraction_covered_bases.wf(),
        ensures
            r.wf(),
            r.is_reset(),
            r.kind == EstimatorKind::NumCoveredBases,
            r.min_fraction_covered_bases == min_fraction_covered_bases,
            (r.trim_min, r.trim_max) == Self::no_trim(),
            r.contig_end_exclusion == contig_end_exclusion,
            !r.exclude_mismatches,
    {
        Self::gated(EstimatorKind::NumCoveredBases, min_fraction_covered_bases, contig_end_exclusion)
    }

    /// Sample variance of the depths.
    pub fn new_estimator_variance(
        min_fraction_covered_bases: Fraction,
        contig_end_exclusion: u32,
    ) -> (r: CoverageEstimator)
        requires
            min_fraction_covered_bases.wf(),
        ensures
            r.wf(),
            r.is_reset(),
            r.kind == EstimatorKind::Variance,
            r.min_fraction_covered_bases == min_fraction_covered_bases,
            (r.trim_min, r.trim_max) == Self::no_trim(),
            r.contig_end_exclusion == contig_end_exclusion,
            !r.exclude_mismatches,
    {
        Self::gated(EstimatorKind::Variance, min_fraction_covered_bases, contig_end_exclusion)
    }

    /// Length of the reference.
    pub fn new_estimator_length() -> (r: CoverageEstimator)
        ensures
            r.wf(),
            r.is_reset(),
            r.kind == EstimatorKind::ReferenceLength,
            r.contig_end_exclusion == 0,
    {
        Self::ungated(EstimatorKind::ReferenceLength)
    }

    /// Number of mapped reads.
    pub fn new_estimator_read_count() -> (r: CoverageEstimator)
        ensures
            r.wf(),
            r.is_reset(),
            r.kind == EstimatorKind::ReadCount,
            r.contig_end_exclusion == 0,
    {
        Self::ungated(EstimatorKind::ReadCount)
    }

    /// Mapped reads per reference position.
    pub fn new_estimator_reads_per_base() -> (r: CoverageEstimator)
        ensures
            r.wf(),
            r.is_reset(),
            r.kind == EstimatorKind::ReadsPerBase,
            r.contig_end_exclusion == 0,
    {
        Self::ungated(EstimatorKind::ReadsPerBase)
    }

    /// The column labels of each kind.
    pub open spec fn headers(kind: EstimatorKind) -> Seq<Seq<char>> {
        match kind {
            EstimatorKind::Mean => seq!["Mean"@],
            EstimatorKind::TrimmedMean => seq!["Trimmed Mean"@],
            EstimatorKind::PileupCounts => seq!["Coverage"@, "Bases"@],
            EstimatorKind::CoverageFraction => seq!["Covered Fraction"@],
            EstimatorKind::NumCoveredBases => seq!["Covered Bases"@],
            EstimatorKind::Variance => seq!["Variance"@],
            EstimatorKind::ReferenceLength => seq!["Length"@],
            EstimatorKind::ReadCount => seq!["Read Count"@],
            EstimatorKind::ReadsPerBase => seq!["Reads per base"@],
        }
    }

    /// Display labels of the columns this estimator fills.
    pub fn column_headers(&self) -> (r: Vec<&'static str>)
        ensures
            r@.len() == Self::headers(self.kind).len(),
            forall|i: int| 0 <= i < r@.len() ==> #[trigger] r@[i]@ == Self::headers(self.kind)[i],
    {
        let r = match self.kind {
            EstimatorKind::Mean => vec!["Mean"],
            EstimatorKind::TrimmedMean => vec!["Trimmed Mean"],
            EstimatorKind::PileupCounts => vec!["Coverage", "Bases"],
            EstimatorKind::CoverageFraction => vec!["Covered Fraction"],
            EstimatorKind::NumCoveredBases => vec!["Covered Bases"],
            EstimatorKind::Variance => vec!["Variance"],
            EstimatorKind::ReferenceLength => vec!["Length"],
            EstimatorKind::ReadCount => vec!["Read Count"],
            EstimatorKind::ReadsPerBase => vec!["Reads per base"],
        };
        r
    }

    /// The contig `s` can be added: its depths are those of a pileup where
    /// they are read, and the accumulators take it without overflowing.
    pub open spec fn add_fits(self, s: Seq<i32>, reads: u64, mismatches: u32) -> bool {
        let e = self.contig_end_exclusion as int;
        &&& self.kind.is_gated() ==> valid_signal(s)
        &&& self.num_mapped_reads + reads <= u64::MAX
        &&& self.kind is Mean ==> self.total_mismatches + mismatches <= u32::MAX
        &&& self.kind is Mean ==> self.total_count + depth_total(s, e, s.len() - e) <= u32::MAX
        &&& self.observed_length + s.len() <= u32::MAX
    }

    /// `new` is `self` after adding the contig with signal `s`, `reads` mapped reads
    /// and `mismatches` mismatches.
    pub open spec fn added(self, new: CoverageEstimator, s: Seq<i32>, reads: u64, mismatches: u32) -> bool {
        let n = s.len() as int;
        let e = self.contig_end_exclusion as int;
        &&& new.same_config(self)
        &&& if !self.kind.is_gated() {
            &&& new.pileup_counts == self.pileup_counts
            &&& new.counts == self.counts
            &&& new.total_count == self.total_count
            &&& new.num_covered_bases == self.num_covered_bases
            &&& new.total_mismatches == self.total_mismatches
            &&& new.num_mapped_reads == self.num_mapped_reads + reads
            &&& new.observed_length == if self.kind is ReadCount {
                self.observed_length as int
            } else {
                self.observed_length + n
            }
        } else if 2 * e >= n {
            new == self
        } else {
            &&& new.pileup_counts@.len() == n
            &&& forall|i: int| 0 <= i < n ==> #[trigger] new.pileup_counts@[i] == depth_at(s, i)
            &&& new.observed_length == self.observed_length + (n - 2 * e)
            &&& new.num_covered_bases == self.num_covered_bases + covered_count(s, e, n - e)
            &&& if self.kind.is_histogram() {
                &&& histogram_added(self.counts@, new.counts@, s, e, n - e)
                &&& new.total_count == self.total_count
                &&& new.total_mismatches == self.total_mismatches
                &&& new.num_mapped_reads == self.num_mapped_reads + reads
            } else {
                &&& new.counts == self.counts
                &&& new.num_mapped_reads == self.num_mapped_reads + reads
                &&& if self.kind is Mean {
                    &&& new.total_count == self.total_count + depth_total(s, e, n - e)
                    &&& new.total_mismatches == self.total_mismatches + mismatches
                } else {
                    &&& new.total_count == self.total_count
                    &&& new.total_mismatches == self.total_mismatches
                }
            }
        }
    }

    /// Observed plus unobserved length.
    pub open spec fn total_length(self, unobserved: int) -> int {
        self.observed_length + unobserved
    }

    /// The covered fraction of the total length is below the configured minimum.
    pub open spec fn below_min_fraction(self, unobserved: int) -> bool {
        self.num_covered_bases * self.min_fraction_covered_bases.denom
            < self.min_fraction_covered_bases.numer * self.total_length(unobserved)
    }

    /// The ranks `floor(min * n)` and `ceil(max * n)` that bound the trimmed range.
    pub open spec fn trim_bounds(self, n: int) -> (int, int) {
        (
            (self.trim_min.numer * n) / self.trim_min.denom as int,
            (self.trim_max.numer * n + self.trim_max.denom - 1) / self.trim_max.denom as int,
        )
    }

    /// The statistic over what has been accumulated plus `unobserved` positions
    /// of depth 0.
    pub open spec fn coverage(self, unobserved: int) -> Estimate {
        let n = self.total_length(unobserved);
        let h = folded(self.counts@, unobserved);
        let skip = n == 0 || self.below_min_fraction(unobserved);
        match self.kind {
            EstimatorKind::Mean => if skip {
                Estimate::zero()
            } else {
                Estimate::ratio(
                    self.total_count - if self.exclude_mismatches { self.total_mismatches as int } else { 0 },
                    n,
                )
            },
            EstimatorKind::TrimmedMean => if skip || self.num_covered_bases == 0 {
                Estimate::zero()
            } else {
                let (lo, hi) = self.trim_bounds(n);
                if hi == lo {
                    Estimate::zero()
                } else {
                    Estimate::ratio(trimmed_total(h, h.len() as int, lo, hi), hi - lo)
                }
            },
            EstimatorKind::PileupCounts => if self.observed_length == 0 || self.below_min_fraction(unobserved) {
                Estimate::zero()
            } else {
                Estimate::whole(n - self.num_covered_bases + 1)
            },
            EstimatorKind::CoverageFraction => if skip {
                Estimate::zero()
            } else {
                Estimate::ratio(self.num_covered_bases as int, n)
            },
            EstimatorKind::NumCoveredBases => if skip {
                Estimate::zero()
            } else {
                Estimate::whole(self.num_covered_bases as int)
            },
            EstimatorKind::Variance => if skip || n < 3 {
                Estimate::zero()
            } else {
                Estimate::ratio(variance_numerator(h, n, first_nonzero_from(h, 0)), n * (n - 1))
            },
            EstimatorKind::ReferenceLength => Estimate::whole(n),
            EstimatorKind::ReadCount => Estimate::whole(self.num_mapped_reads as int),
            EstimatorKind::ReadsPerBase => Estimate::ratio(self.num_mapped_reads as int, n),
        }
    }

    proof fn lemma_trim_bounds_ordered(self, n: int)
        requires
            self.wf(),
            n >= 0,
        ensures
            0 <= self.trim_bounds(n).0 <= self.trim_bounds(n).1,
    {
        let mn = self.trim_min.numer as int;
        let md = self.trim_min.denom as int;
        let xn = self.trim_max.numer as int;
        let xd = self.trim_max.denom as int;
        let lo = (mn * n) / md;
        let hi = (xn * n + xd - 1) / xd;
        assert(mn * n >= 0) by (nonlinear_arith)
            requires
                mn >= 0,
                n >= 0,
        ;
        assert(lo >= 0) by (nonlinear_arith)
            requires
                mn * n >= 0,
                md > 0,
                lo == (mn * n) / md,
        ;
        assert(lo * md <= mn * n) by (nonlinear_arith)
            requires
                md > 0,
                lo == (mn * n) / md,
        ;
        assert(hi * xd >= xn * n) by (nonlinear_arith)
            requires
                xd > 0,
                hi == (xn * n + xd - 1) / xd,
        ;
        assert(lo * md * xd <= hi * xd * md) by (nonlinear_arith)
            requires
                lo * md <= mn * n,
                hi * xd >= xn * n,
                mn * xd <= xn * md,
                md > 0,
                xd > 0,
                n >= 0,
        ;
        assert(lo <= hi) by (nonlinear_arith)
            requires
                lo * md * xd <= hi * xd * md,
                md > 0,
                xd > 0,
        ;
    }

}

/// A contig no longer than twice the end exclusion leaves every accumulator as
/// it was (for the kinds without an exclusion, that is an empty contig with no
/// mapped reads).
pub proof fn lemma_short_contig_skipped(
    est: CoverageEstimator,
    after: CoverageEstimator,
    ups_and_downs: Seq<i32>,
    num_mapped_reads: u64,
    total_mismatches: u32,
)
    requires
        est.added(after, ups_and_downs, num_mapped_reads, total_mismatches),
        2 * est.contig_end_exclusion >= ups_and_downs.len(),
        est.kind.is_gated() || num_mapped_reads == 0,
        !est.kind.is_gated() ==> est.contig_end_exclusion == 0,
    ensures
        after == est,
{
}

/// Two estimators of the same configuration with nothing accumulated (a fresh
/// one, a `copy`, or either after `setup`) give the same statistic after adding
/// the same contig.
pub proof fn lemma_same_config_same_coverage(
    a: CoverageEstimator,
    b: CoverageEstimator,
    a_after: CoverageEstimator,
    b_after: CoverageEstimator,
    ups_and_downs: Seq<i32>,
    num_mapped_reads: u64,
    total_mismatches: u32,
    unobserved: int,
)
    requires
        a.is_reset(),
        b.is_reset(),
        a.same_config(b),
        a.added(a_after, ups_and_downs, num_mapped_reads, total_mismatches),
        b.added(b_after, ups_and_downs, num_mapped_reads, total_mismatches),
    ensures
        a_after.coverage(unobserved) == b_after.coverage(unobserved),
{
    let n = ups_and_downs.len() as int;
    let e = a.contig_end_exclusion as int;
    assert(a.counts@ =~= b.counts@);
    if a.kind.is_gated() && 2 * e < n && a.kind.is_histogram() {
        lemma_histogram_added_unique(a.counts@, a_after.counts@, b_after.counts@, ups_and_downs, e, n - e);
    } else {
        assert(a_after.counts@ =~= b_after.counts@);
    }
}

/// For a variance estimator, the statistic is the textbook sample variance of
/// the depths (observed positions plus `unobserved` positions of depth 0): the
/// shifted sums it is computed from give the same value as the plain sums.
pub proof fn lemma_variance_is_plain_sample_variance(est: CoverageEstimator, unobserved: int)
    requires
        est.wf(),
        est.kind is Variance,
        unobserved >= 0,
        est.total_length(unobserved) >= 3,
        !est.below_min_fraction(unobserved),
    ensures
        ({
            let h = folded(est.counts@, unobserved);
            let n = est.total_length(unobserved);
            &&& n == cum(h, h.len() as int)
            &&& est.coverage(unobserved) == Estimate::ratio(variance_numerator(h, n, 0), n * (n - 1))
        }),
{
    let h = folded(est.counts@, unobserved);
    crate::histogram::lemma_cum_folded(est.counts@, unobserved, h.len() as int);
    if est.counts@.len() == 0 {
        assert(hsum(est.counts@, 0) == 0);
    }
    crate::stats::lemma_variance_shift_invariant(h, first_nonzero_from(h, 0));
}

/// An estimator that takes one contig per round: `setup` (or `copy`), then
/// `add_contig`, then `calculate_coverage` and the `print_` methods.
pub trait MosdepthGenomeCoverageEstimator: Sized {
    /// The state is well formed.
    spec fn ready(&self) -> bool;

    /// Nothing has been accumulated.
    spec fn nothing_accumulated(&self) -> bool;

    /// The same kind and configuration as `other`.
    spec fn configured_as(&self, other: Self) -> bool;

    /// The accumulators can take the contig without overflowing.
    spec fn can_add(&self, ups_and_downs: Seq<i32>, reads: u64, mismatches: u32) -> bool;

    /// `new` is this state after adding the contig.
    spec fn after_adding(&self, new: Self, ups_and_downs: Seq<i32>, reads: u64, mismatches: u32) -> bool;

    /// The statistic can be finished with `unobserved` more positions.
    spec fn can_finish(&self, unobserved: int) -> bool;

    /// The finished statistic.
    spec fn statistic(&self, unobserved: int) -> Estimate;

    /// Mapped reads accumulated.
    spec fn mapped_reads(&self) -> u64;

    /// What `print_coverage` hands over for a value.
    spec fn printed(&self, coverage: Estimate) -> Seq<CoverageEntry>;

    /// What `print_zero_coverage` hands over for a contig of `length` positions.
    spec fn printed_for_zero(&self, length: u32) -> Seq<CoverageEntry>;

    /// Zeroes everything accumulated; the configuration stays.
    fn setup(&mut self)
        requires
            old(self).ready(),
        ensures
            final(self).ready(),
            final(self).nothing_accumulated(),
            final(self).configured_as(*old(self)),
    ;

    /// Adds one contig: its delta-encoded depth signal, its mapped reads and
    /// mismatches. A contig no longer than twice the end exclusion is skipped.
    fn add_contig(&mut self, ups_and_downs: &Vec<i32>, num_mapped_reads_in_contig: u64, total_mismatches_in_contig: u32)
        requires
            old(self).ready(),
            old(self).can_add(ups_and_downs@, num_mapped_reads_in_contig, total_mismatches_in_contig),
        ensures
            final(self).ready(),
            old(self).after_adding(*final(self), ups_and_downs@, num_mapped_reads_in_contig, total_mismatches_in_contig),
    ;

    /// Finalises the statistic, counting `unobserved_contig_length` more
    /// positions of depth 0.
    fn calculate_coverage(&self, unobserved_contig_length: u32) -> (r: Estimate)
        requires
            self.ready(),
            self.can_finish(unobserved_contig_length as int),
        ensures
            r == self.statistic(unobserved_contig_length as int),
    ;

    /// Hands the finished value to the taker.
    fn print_coverage<T: CoverageTaker>(&self, coverage: &Estimate, coverage_taker: &mut T)
        ensures
            final(coverage_taker).taken() == old(coverage_taker).taken() + self.printed(*coverage),
    ;

    /// Hands the taker the value of a contig that nothing mapped to.
    fn print_zero_coverage<T: CoverageTaker>(&self, coverage_taker: &mut T, entry_length: u32)
        ensures
            final(coverage_taker).taken() == old(coverage_taker).taken() + self.printed_for_zero(entry_length),
    ;

    /// A new estimator of the same kind and configuration with nothing accumulated.
    fn copy(&self) -> (r: Self)
        requires
            self.ready(),
        ensures
            r.ready(),
            r.nothing_accumulated(),
            r.configured_as(*self),
    ;

    /// Number of mapped reads accumulated.
    fn num_mapped_reads(&self) -> (r: u64)
        ensures
            r == self.mapped_reads(),
    ;
}

impl MosdepthGenomeCoverageEstimator for CoverageEstimator {
    open spec fn ready(&self) -> bool {
        self.wf()
    }

    open spec fn nothing_accumulated(&self) -> bool {
        self.is_reset()
    }

    open spec fn configured_as(&self, other: CoverageEstimator) -> bool {
        self.same_config(other)
    }

    open spec fn can_add(&self, ups_and_downs: Seq<i32>, reads: u64, mismatches: u32) -> bool {
        self.add_fits(ups_and_downs, reads, mismatches)
    }

    open spec fn after_adding(
        &self,
        new: CoverageEstimator,
        ups_and_downs: Seq<i32>,
        reads: u64,
        mismatches: u32,
    ) -> bool {
        self.added(new, ups_and_downs, reads, mismatches)
    }

    open spec fn can_finish(&self, unobserved: int) -> bool {
        unobserved >= 0 && (!(self.kind is ReadCount) ==> self.observed_length + unobserved <= u32::MAX)
    }

    open spec fn statistic(&self, unobserved: int) -> Estimate {
        self.coverage(unobserved)
    }

    open spec fn mapped_reads(&self) -> u64 {
        self.num_mapped_reads
    }

    open spec fn printed(&self, coverage: Estimate) -> Seq<CoverageEntry> {
        self.coverage_entries(coverage)
    }

    open spec fn printed_for_zero(&self, length: u32) -> Seq<CoverageEntry> {
        self.zero_coverage_entries(length)
    }

    fn setup(&mut self)
    {
        self.pileup_counts = Vec::new();
        self.counts = Vec::new();
        self.total_count = 0;
        self.observed_length = 0;
        self.num_covered_bases = 0;
        self.num_mapped_reads = 0;
        self.total_mismatches = 0;
    }

    fn add_contig(&mut self, ups_and_downs: &Vec<i32>, num_mapped_reads_in_contig: u64, total_mismatches_in_contig: u32)
    {
        let len = ups_and_downs.len();
        match self.kind {
            EstimatorKind::ReadCount => {
                self.num_mapped_reads = self.num_mapped_reads + num_mapped_reads_in_contig;
                return;
            },
            EstimatorKind::ReferenceLength | EstimatorKind::ReadsPerBase => {
                self.observed_length = self.observed_length + len as u32;
                self.num_mapped_reads = self.num_mapped_reads + num_mapped_reads_in_contig;
                return;
            },
            _ => {},
        }
        let e = self.contig_end_exclusion as usize;
        if 2 * (self.contig_end_exclusion as u64) >= len as u64 {
            return;
        }
        let ghost s = ups_and_downs@;
        let end = len - e;
        let depths = cumulative_depths(ups_and_downs);
        proof {
            lemma_depth_total_bound(s, e as int, end as int);
        }
        let (covered, total) = scan_range(&depths, e, end, Ghost(s));
        if self.kind == EstimatorKind::TrimmedMean || self.kind == EstimatorKind::PileupCounts
            || self.kind == EstimatorKind::Variance {
            add_depths(&mut self.counts, &depths, e, end, Ghost(s));
            self.num_mapped_reads = self.num_mapped_reads + num_mapped_reads_in_contig;
        } else {
            self.num_mapped_reads = self.num_mapped_reads + num_mapped_reads_in_contig;
            if self.kind == EstimatorKind::Mean {
                self.total_count = self.total_count + total as u32;
                self.total_mismatches = self.total_mismatches + total_mismatches_in_contig;
            }
        }
        self.observed_length = self.observed_length + (end - e) as u32;
        self.num_covered_bases = self.num_covered_bases + covered;
        self.pileup_counts = depths;
    }

    fn calculate_coverage(&self, unobserved_contig_length: u32) -> (r: Estimate)
    {
        let u = unobserved_contig_length;
        if self.kind == EstimatorKind::ReadCount {
            return Estimate { numer: self.num_mapped_reads as i128, denom: 1 };
        }
        let n: u64 = self.observed_length as u64 + u as u64;
        let mf = self.min_fraction_covered_bases;
        proof {
            let c = self.num_covered_bases as int;
            assert(c * mf.denom <= 0xffff_ffff * 0xffff_ffff) by (nonlinear_arith)
                requires
                    0 <= c <= 0xffff_ffff,
                    0 <= mf.denom <= 0xffff_ffff,
            ;
            assert(mf.numer * n <= 0xffff_ffff * 0xffff_ffff) by (nonlinear_arith)
                requires
                    0 <= n <= 0xffff_ffff,
                    0 <= mf.numer <= 0xffff_ffff,
            ;
            assert(self.trim_min.numer * n <= 0xffff_ffff * 0xffff_ffff) by (nonlinear_arith)
                requires
                    0 <= n <= 0xffff_ffff,
                    0 <= self.trim_min.numer <= 0xffff_ffff,
            ;
            assert(self.trim_max.numer * n <= 0xffff_ffff * 0xffff_ffff) by (nonlinear_arith)
                requires
                    0 <= n <= 0xffff_ffff,
                    0 <= self.trim_max.numer <= 0xffff_ffff,
            ;
        }
        let below = (self.num_covered_bases as u64) * (mf.denom as u64) < (mf.numer as u64) * n;
        let skip = n == 0 || below;
        let zero = Estimate { numer: 0, denom: 1 };
        match self.kind {
            EstimatorKind::Mean => {
                if skip {
                    zero
                } else {
                    let excluded: i128 = if self.exclude_mismatches { self.total_mismatches as i128 } else { 0 };
                    Estimate { numer: self.total_count as i128 - excluded, denom: n as u128 }
                }
            },
            EstimatorKind::TrimmedMean => {
                if skip || self.num_covered_bases == 0 {
                    zero
                } else {
                    let lo = (self.trim_min.numer as u64 * n) / self.trim_min.denom as u64;
                    let hi = (self.trim_max.numer as u64 * n + self.trim_max.denom as u64 - 1)
                        / self.trim_max.denom as u64;
                    proof {
                        self.lemma_trim_bounds_ordered(n as int);
                    }
                    if hi == lo {
                        return zero;
                    }
                    let total = trimmed_depth_total(&self.counts, u, lo, hi);
                    Estimate { numer: total as i128, denom: (hi - lo) as u128 }
                }
            },
            EstimatorKind::PileupCounts => {
                if self.observed_length == 0 || below {
                    zero
                } else {
                    Estimate { numer: n as i128 - self.num_covered_bases as i128 + 1, denom: 1 }
                }
            },
            EstimatorKind::CoverageFraction => {
                if skip {
                    zero
                } else {
                    Estimate { numer: self.num_covered_bases as i128, denom: n as u128 }
                }
            },
            EstimatorKind::NumCoveredBases => {
                if skip {
                    zero
                } else {
                    Estimate { numer: self.num_covered_bases as i128, denom: 1 }
                }
            },
            EstimatorKind::Variance => {
                if skip || n < 3 {
                    zero
                } else {
                    let (k, ex, ex2) = shifted_moments(&self.counts, u);
                    proof {
                        let h = folded(self.counts@, u as int);
                        assert(cum(h, h.len() as int) == n);
                        assert(ex <= 0x8000_0000 * n);
                        assert(ex2 <= 0x8000_0000 * 0x8000_0000 * n);
                        assert(n * ex2 <= 0x4000_0000_0000_0000_0000_0000_0000_0000) by (nonlinear_arith)
                            requires
                                0 <= n <= 0xffff_ffff,
                                0 <= ex2 <= 0x4000_0000_0000_0000 * n,
                        ;
                        assert(ex * ex <= 0x4000_0000_0000_0000_0000_0000_0000_0000) by (nonlinear_arith)
                            requires
                                0 <= n <= 0xffff_ffff,
                                0 <= ex <= 0x8000_0000 * n,
                        ;
                        assert(n * (n - 1) <= 0xffff_ffff * 0xffff_ffff) by (nonlinear_arith)
                            requires
                                3 <= n <= 0xffff_ffff,
                        ;
                    }
                    Estimate {
                        numer: (n as i128) * (ex2 as i128) - (ex as i128) * (ex as i128),
                        denom: (n as u128) * ((n - 1) as u128),
                    }
                }
            },
            EstimatorKind::ReferenceLength => Estimate { numer: n as i128, denom: 1 },
            EstimatorKind::ReadCount => Estimate { numer: self.num_mapped_reads as i128, denom: 1 },
            EstimatorKind::ReadsPerBase => Estimate { numer: self.num_mapped_reads as i128, denom: n as u128 },
        }
    }

    fn print_coverage<T: CoverageTaker>(&self, coverage: &Estimate, coverage_taker: &mut T)
    {
        if self.kind != EstimatorKind::PileupCounts {
            coverage_taker.add_single_coverage(*coverage);
            return;
        }
        let zero_count = zero_depth_count_of(coverage);
        let mut d: usize = 0;
        while d < self.counts.len()
            invariant
                self.kind is PileupCounts,
                zero_count == zero_depth_count(*coverage),
                d <= self.counts@.len(),
                coverage_taker.taken() == old(coverage_taker).taken() + self.coverage_entries(
                    *coverage,
                ).take(d as int),
            decreases self.counts@.len() - d,
        {
            let count: u64 = if d == 0 { zero_count } else { self.counts[d] as u64 };
            coverage_taker.add_coverage_entry(d, count);
            proof {
                assert(self.coverage_entries(*coverage)[d as int] == CoverageEntry::Row { depth: d, count });
                assert(self.coverage_entries(*coverage).take(d + 1) =~= self.coverage_entries(
                    *coverage,
                ).take(d as int).push(CoverageEntry::Row { depth: d, count }));
            }
            d = d + 1;
        }
        assert(self.coverage_entries(*coverage).take(d as int) =~= self.coverage_entries(*coverage));
    }

    fn print_zero_coverage<T: CoverageTaker>(&self, coverage_taker: &mut T, entry_length: u32)
    {
        match self.kind {
            EstimatorKind::PileupCounts => {
                assert(old(coverage_taker).taken() + Seq::<CoverageEntry>::empty() =~= old(coverage_taker).taken());
            },
            EstimatorKind::ReferenceLength => {
                coverage_taker.add_single_coverage(Estimate { numer: entry_length as i128, denom: 1 });
                assert(old(coverage_taker).taken() + self.zero_coverage_entries(entry_length)
                    =~= old(coverage_taker).taken().push(CoverageEntry::Single(Estimate::whole(entry_length as int))));
            },
            _ => {
                coverage_taker.add_single_coverage(Estimate { numer: 0, denom: 1 });
                assert(old(coverage_taker).taken() + self.zero_coverage_entries(entry_length)
                    =~= old(coverage_taker).taken().push(CoverageEntry::Single(Estimate::zero())));
            },
        }
    }

    fn copy(&self) -> (r: CoverageEstimator)
    {
        Self::fresh(
            self.kind,
            self.min_fraction_covered_bases,
            self.trim_min,
            self.trim_max,
            self.contig_end_exclusion,
            self.exclude_mismatches,
        )
    }

    fn num_mapped_reads(&self) -> (r: u64)
    {
        self.num_mapped_reads
    }
}

} // verus!
