use pileup_stats::estimator::{CoverageEstimator, Estimate, EstimatorKind, Fraction, MosdepthGenomeCoverageEstimator};
use pileup_stats::signal::cumulative_depths;
use pileup_stats::taker::{CoverageEntries, CoverageEntry};

fn frac(numer: u32, denom: u32) -> Fraction {
    Fraction { numer, denom }
}

fn est(numer: i128, denom: u128) -> Estimate {
    Estimate { numer, denom }
}

fn all_kinds(exclusion: u32) -> Vec<CoverageEstimator> {
    vec![
        CoverageEstimator::new_estimator_mean(frac(0, 1), exclusion, false),
        CoverageEstimator::new_estimator_trimmed_mean(frac(1, 10), frac(9, 10), frac(0, 1), exclusion),
        CoverageEstimator::new_estimator_pileup_counts(frac(0, 1), exclusion),
        CoverageEstimator::new_estimator_covered_fraction(frac(0, 1), exclusion),
        CoverageEstimator::new_estimator_covered_bases(frac(0, 1), exclusion),
        CoverageEstimator::new_estimator_variance(frac(0, 1), exclusion),
    ]
}

fn same_state(a: &CoverageEstimator, b: &CoverageEstimator) -> bool {
    a.kind == b.kind
        && a.pileup_counts == b.pileup_counts
        && a.counts == b.counts
        && a.total_count == b.total_count
        && a.observed_length == b.observed_length
        && a.num_covered_bases == b.num_covered_bases
        && a.num_mapped_reads == b.num_mapped_reads
        && a.total_mismatches == b.total_mismatches
}

#[test]
fn prefix_sums_give_depths() {
    assert_eq!(cumulative_depths(&vec![2, 0, 0, -2]), vec![2, 2, 2, 0]);
    assert_eq!(cumulative_depths(&vec![3, -1, 4, -6, 1]), vec![3, 2, 6, 0, 1]);
    assert_eq!(cumulative_depths(&vec![]), Vec::<i64>::new());
}

#[test]
fn prefix_sums_with_end_exclusion() {
    let mut e = CoverageEstimator::new_estimator_mean(frac(0, 1), 1, false);
    e.add_contig(&vec![1, 2, 0, -1, -2], 4, 0);
    assert_eq!(e.pileup_counts, vec![1, 3, 3, 2, 0]);
    assert_eq!(e.total_count, 8);
    assert_eq!(e.observed_length, 3);
    assert_eq!(e.num_covered_bases, 3);
}

#[test]
fn mean_of_one_read() {
    let mut e = CoverageEstimator::new_estimator_mean(frac(0, 1), 0, false);
    e.add_contig(&vec![2, 0, 0, -2], 1, 0);
    assert_eq!(e.pileup_counts, vec![2, 2, 2, 0]);
    assert_eq!(e.total_count, 6);
    assert_eq!(e.observed_length, 4);
    assert_eq!(e.num_covered_bases, 3);
    assert_eq!(e.calculate_coverage(0), est(6, 4));
}

#[test]
fn mean_excluding_mismatches_and_unobserved() {
    let mut e = CoverageEstimator::new_estimator_mean(frac(0, 1), 0, true);
    e.add_contig(&vec![2, 0, 0, -2], 1, 2);
    assert_eq!(e.calculate_coverage(4), est(4, 8));
}

#[test]
fn mean_below_min_fraction_is_zero() {
    let mut e = CoverageEstimator::new_estimator_mean(frac(9, 10), 0, false);
    e.add_contig(&vec![2, 0, 0, -2], 1, 0);
    assert_eq!(e.calculate_coverage(0), est(0, 1));
}

#[test]
fn empty_length_is_zero() {
    let e = CoverageEstimator::new_estimator_mean(frac(0, 1), 0, false);
    assert_eq!(e.calculate_coverage(0), est(0, 1));
    let f = CoverageEstimator::new_estimator_covered_fraction(frac(0, 1), 0);
    assert_eq!(f.calculate_coverage(0), est(0, 1));
}

#[test]
fn short_contig_changes_nothing() {
    for mut e in all_kinds(2) {
        e.add_contig(&vec![1, 0, 0, -1, 0, 0], 3, 1);
        let before = e.copy();
        let mut snapshot = e.copy();
        snapshot.pileup_counts = e.pileup_counts.clone();
        snapshot.counts = e.counts.clone();
        snapshot.total_count = e.total_count;
        snapshot.observed_length = e.observed_length;
        snapshot.num_covered_bases = e.num_covered_bases;
        snapshot.num_mapped_reads = e.num_mapped_reads;
        snapshot.total_mismatches = e.total_mismatches;
        e.add_contig(&vec![5, -1, 0, -4], 7, 3);
        assert!(same_state(&e, &snapshot));
        assert_eq!(before.kind, e.kind);
    }
}

#[test]
fn trimmed_mean_five_depths() {
    let mut e = CoverageEstimator::new_estimator_trimmed_mean(frac(1, 10), frac(9, 10), frac(0, 1), 0);
    e.add_contig(&vec![1, 1, 1, 1, 1], 5, 0);
    assert_eq!(e.counts, vec![0, 1, 1, 1, 1, 1]);
    assert_eq!(e.calculate_coverage(0), est(15, 5));
}

#[test]
fn trimmed_mean_ten_depths() {
    let mut e = CoverageEstimator::new_estimator_trimmed_mean(frac(1, 10), frac(9, 10), frac(0, 1), 0);
    e.add_contig(&vec![1; 10], 10, 0);
    // ranks 1..8 of depths 1..10: depths 2..9
    assert_eq!(e.calculate_coverage(0), est(44, 8));
}

#[test]
fn trimmed_mean_empty_rank_range_is_zero() {
    let mut e = CoverageEstimator::new_estimator_trimmed_mean(frac(0, 1), frac(0, 1), frac(0, 1), 0);
    e.add_contig(&vec![1, 1, 1], 3, 0);
    assert_eq!(e.calculate_coverage(0), est(0, 1));
}

#[test]
fn trimmed_mean_counts_unobserved_as_zero_depth() {
    let mut e = CoverageEstimator::new_estimator_trimmed_mean(frac(1, 4), frac(3, 4), frac(0, 1), 0);
    e.add_contig(&vec![4, 0, 0, 0, 0, 0], 3, 0);
    // six positions of depth 4 and two unobserved of depth 0: ranks 2..5 all depth 4
    assert_eq!(e.calculate_coverage(2), est(16, 4));
}

#[test]
fn histogram_kinds_accumulate_mapped_reads() {
    let mut e = CoverageEstimator::new_estimator_variance(frac(0, 1), 0);
    e.add_contig(&vec![1, -1], 3, 0);
    e.add_contig(&vec![2, -2], 4, 0);
    assert_eq!(e.num_mapped_reads(), 7);
}

#[test]
fn trimmed_mean_without_coverage_is_zero() {
    let mut e = CoverageEstimator::new_estimator_trimmed_mean(frac(1, 10), frac(9, 10), frac(0, 1), 0);
    e.add_contig(&vec![0, 0, 0], 0, 0);
    assert_eq!(e.calculate_coverage(0), est(0, 1));
}

#[test]
fn variance_with_large_depths() {
    let mut e = CoverageEstimator::new_estimator_variance(frac(0, 1), 0);
    e.add_contig(&vec![10000, 1, 1, 1], 4, 0);
    let v = e.calculate_coverage(0);
    assert_eq!(v, est(20, 12));
    let depths = [10000.0f64, 10001.0, 10002.0, 10003.0];
    let mean = depths.iter().sum::<f64>() / 4.0;
    let naive = depths.iter().map(|x| (x - mean) * (x - mean)).sum::<f64>() / 3.0;
    assert!((v.numer as f64 / v.denom as f64 - naive).abs() < 1e-9);
}

#[test]
fn variance_counts_unobserved_as_zero_depth() {
    let mut e = CoverageEstimator::new_estimator_variance(frac(0, 1), 0);
    e.add_contig(&vec![2, 0, -2], 1, 0);
    // depths 2, 2, 0 and one unobserved 0: sum 4, sum of squares 8
    assert_eq!(e.calculate_coverage(1), est(4 * 8 - 16, 12));
}

#[test]
fn variance_needs_three_positions() {
    let mut e = CoverageEstimator::new_estimator_variance(frac(0, 1), 0);
    e.add_contig(&vec![2, 0], 1, 0);
    assert_eq!(e.calculate_coverage(0), est(0, 1));
}

#[test]
fn pileup_counts_sentinel_and_rows() {
    let mut e = CoverageEstimator::new_estimator_pileup_counts(frac(0, 1), 0);
    e.add_contig(&vec![1, 1, -2, 0], 2, 0);
    let c = e.calculate_coverage(2);
    // 6 positions, 2 covered
    assert_eq!(c, est(5, 1));
    let mut taker = CoverageEntries::new();
    e.print_coverage(&c, &mut taker);
    assert_eq!(
        taker.entries,
        vec![
            CoverageEntry::Row { depth: 0, count: 4 },
            CoverageEntry::Row { depth: 1, count: 1 },
            CoverageEntry::Row { depth: 2, count: 1 },
        ]
    );
}

#[test]
fn covered_fraction_and_bases() {
    let mut f = CoverageEstimator::new_estimator_covered_fraction(frac(0, 1), 0);
    f.add_contig(&vec![2, 0, 0, -2], 1, 0);
    assert_eq!(f.calculate_coverage(4), est(3, 8));
    let mut b = CoverageEstimator::new_estimator_covered_bases(frac(0, 1), 0);
    b.add_contig(&vec![2, 0, 0, -2], 1, 0);
    assert_eq!(b.calculate_coverage(4), est(3, 1));
}

#[test]
fn length_and_read_counts() {
    let mut l = CoverageEstimator::new_estimator_length();
    l.add_contig(&vec![1, 0, -1], 7, 0);
    assert_eq!(l.calculate_coverage(5), est(8, 1));
    let mut r = CoverageEstimator::new_estimator_read_count();
    r.add_contig(&vec![1, 0, -1], 7, 0);
    r.add_contig(&vec![1, -1], 3, 0);
    assert_eq!(r.calculate_coverage(0), est(10, 1));
    assert_eq!(r.num_mapped_reads(), 10);
    let mut p = CoverageEstimator::new_estimator_reads_per_base();
    p.add_contig(&vec![1, 0, -1], 6, 0);
    assert_eq!(p.calculate_coverage(1), est(6, 4));
}

#[test]
fn copy_then_setup_gives_same_coverage() {
    let input = vec![3, 0, 1, -2, 0, -2, 1, -1];
    for mut first in all_kinds(1) {
        first.setup();
        let mut copied = first.copy();
        copied.setup();
        first.add_contig(&input, 5, 1);
        copied.add_contig(&input, 5, 1);
        assert!(same_state(&first, &copied));
        assert_eq!(first.calculate_coverage(3), copied.calculate_coverage(3));
    }
}

#[test]
fn setup_clears_accumulators() {
    let mut e = CoverageEstimator::new_estimator_variance(frac(1, 2), 1);
    e.add_contig(&vec![1, 1, 0, -2], 9, 0);
    e.setup();
    assert!(e.counts.is_empty());
    assert_eq!(e.observed_length, 0);
    assert_eq!(e.num_mapped_reads(), 0);
    assert_eq!(e.min_fraction_covered_bases, frac(1, 2));
    assert_eq!(e.contig_end_exclusion, 1);
}

#[test]
fn zero_coverage_entries() {
    let mut taker = CoverageEntries::new();
    CoverageEstimator::new_estimator_length().print_zero_coverage(&mut taker, 42);
    CoverageEstimator::new_estimator_mean(frac(0, 1), 0, false).print_zero_coverage(&mut taker, 42);
    CoverageEstimator::new_estimator_pileup_counts(frac(0, 1), 0).print_zero_coverage(&mut taker, 42);
    assert_eq!(taker.entries, vec![CoverageEntry::Single(est(42, 1)), CoverageEntry::Single(est(0, 1))]);
}

#[test]
fn single_value_printed_as_is() {
    let e = CoverageEstimator::new_estimator_mean(frac(0, 1), 0, false);
    let mut taker = CoverageEntries::new();
    e.print_coverage(&est(3, 2), &mut taker);
    assert_eq!(taker.entries, vec![CoverageEntry::Single(est(3, 2))]);
}

#[test]
fn headers_per_kind() {
    assert_eq!(CoverageEstimator::new_estimator_pileup_counts(frac(0, 1), 0).column_headers(), vec!["Coverage", "Bases"]);
    assert_eq!(CoverageEstimator::new_estimator_read_count().column_headers(), vec!["Read Count"]);
    assert_eq!(CoverageEstimator::new_estimator_read_count().kind, EstimatorKind::ReadCount);
}
