//! Where finished coverage values go.
use vstd::prelude::*;

use crate::estimator::{CoverageEstimator, Estimate, EstimatorKind};

verus! {

/// One value handed to a coverage taker.
#[derive(Clone, Copy, Debug, PartialEq, Eq, Structural)]
pub enum CoverageEntry {
    /// The statistic of one estimator for one contig or genome.
    Single(Estimate),
    /// One histogram row: `count` positions have depth `depth`.
    Row { depth: usize, count: u64 },
}

/// A consumer of coverage values.
pub trait CoverageTaker {
    /// Everything taken so far, in order.
    spec fn taken(&self) -> Seq<CoverageEntry>;

    fn add_single_coverage(&mut self, coverage: Estimate)
        ensures
            final(self).taken() == old(self).taken().push(CoverageEntry::Single(coverage)),
    ;

    fn add_coverage_entry(&mut self, depth: usize, count: u64)
        ensures
            final(self).taken() == old(self).taken().push(CoverageEntry::Row { depth, count }),
    ;
}

/// A coverage taker that keeps what it is given.
#[derive(Clone, Debug)]
pub struct CoverageEntries {
    pub entries: Vec<CoverageEntry>,
}

impl CoverageEntries {
    pub fn new() -> (r: CoverageEntries)
        ensures
            r.entries@ == Seq::<CoverageEntry>::empty(),
    {
        CoverageEntries { entries: Vec::new() }
    }
}

impl CoverageTaker for CoverageEntries {
    open spec fn taken(&self) -> Seq<CoverageEntry> {
        self.entries@
    }

    fn add_single_coverage(&mut self, coverage: Estimate) {
        self.entries.push(CoverageEntry::Single(coverage));
    }

    fn add_coverage_entry(&mut self, depth: usize, count: u64) {
        self.entries.push(CoverageEntry::Row { depth, count });
    }
}

/// The zero-depth row that a pileup-counts value stands for: the value is the
/// number of uncovered positions plus one (so a zero value means no row count).
pub open spec fn zero_depth_count(coverage: Estimate) -> u64 {
    let whole = if coverage.denom == 0 { 0 } else { coverage.numer as int / coverage.denom as int };
    if whole <= 1 {
        0
    } else if whole - 1 > u64::MAX {
        u64::MAX
    } else {
        (whole - 1) as u64
    }
}

pub(crate) fn zero_depth_count_of(coverage: &Estimate) -> (r: u64)
    ensures
        r == zero_depth_count(*coverage),
{
    if coverage.denom == 0 || coverage.numer <= 0 {
        proof {
            if coverage.denom != 0 {
                assert(coverage.numer as int / coverage.denom as int <= 0) by (nonlinear_arith)
                    requires
                        coverage.numer <= 0,
                        coverage.denom > 0,
                ;
            }
        }
        return 0;
    }
    let whole: u128 = (coverage.numer as u128) / coverage.denom;
    if whole <= 1 {
        0
    } else if whole - 1 > u64::MAX as u128 {
        u64::MAX
    } else {
        (whole - 1) as u64
    }
}

impl CoverageEstimator {
    /// What `print_coverage` hands to the taker for the value `coverage`.
    pub open spec fn coverage_entries(self, coverage: Estimate) -> Seq<CoverageEntry> {
        if self.kind is PileupCounts {
            Seq::new(
                self.counts@.len(),
                |d: int|
                    CoverageEntry::Row {
                        depth: d as usize,
                        count: if d == 0 { zero_depth_count(coverage) } else { self.counts@[d] as u64 },
                    },
            )
        } else {
            seq![CoverageEntry::Single(coverage)]
        }
    }

    /// What `print_zero_coverage` hands to the taker for a contig of `length`
    /// positions that nothing mapped to.
    pub open spec fn zero_coverage_entries(self, length: u32) -> Seq<CoverageEntry> {
        match self.kind {
            EstimatorKind::PileupCounts => Seq::empty(),
            EstimatorKind::ReferenceLength => seq![CoverageEntry::Single(Estimate::whole(length as int))],
            _ => seq![CoverageEntry::Single(Estimate::zero())],
        }
    }

}

} // verus!
