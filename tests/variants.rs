use std::collections::HashMap;

use pileup_stats::estimator::{Estimate, Fraction};
use pileup_stats::genes::{gene_label, read_frame, GeneAnnotation, GeneError, Strand};
use pileup_stats::polish::fasta_record;
use pileup_stats::variants::{variants_distinct_in, variants_for_ani, Base, Variant, VariantStats};

fn frac(numer: u32, denom: u32) -> Fraction {
    Fraction { numer, denom }
}

fn base(variant: Variant, depth: u32, total: u32) -> Base {
    Base { variant, depth: vec![depth], freq: vec![frac(depth, total)] }
}

fn stats_with(name: &str, variants: HashMap<i64, Vec<Base>>, len: usize) -> VariantStats {
    let mut stats = VariantStats::new_contig_stats(frac(1, 10), frac(9, 10), 0);
    let zero = Estimate { numer: 0, denom: 1 };
    stats.add_contig(
        Some(variants),
        0,
        0,
        name.as_bytes().to_vec(),
        len,
        0,
        vec![zero, zero, zero],
        vec![1; len.min(1)].into_iter().chain(vec![0; len.saturating_sub(1)]).collect(),
    );
    stats
}

fn consensus_of(reference: &str, variants: HashMap<i64, Vec<Base>>) -> String {
    let stats = stats_with("c", variants, reference.len());
    String::from_utf8(stats.consensus(&reference.as_bytes().to_vec())).unwrap()
}

#[test]
fn majority_substitution_applied() {
    let mut m = HashMap::new();
    m.insert(1, vec![base(Variant::Snv(b'T'), 6, 10)]);
    assert_eq!(consensus_of("ACGT", m), "ATGT");
}

#[test]
fn minority_substitution_ignored() {
    let mut m = HashMap::new();
    m.insert(1, vec![base(Variant::Snv(b'T'), 4, 10)]);
    assert_eq!(consensus_of("ACGT", m), "ACGT");
}

#[test]
fn deletion_skips_following_base() {
    let mut m = HashMap::new();
    m.insert(1, vec![base(Variant::Deletion(2), 7, 10)]);
    assert_eq!(consensus_of("ACGTT", m), "ATT");
}

#[test]
fn insertion_drops_anchor_byte() {
    let mut m = HashMap::new();
    m.insert(2, vec![base(Variant::Insertion(b"GAA".to_vec()), 5, 10)]);
    assert_eq!(consensus_of("ACGT", m), "ACAAT");
}

#[test]
fn most_frequent_variant_wins() {
    let mut m = HashMap::new();
    m.insert(
        0,
        vec![base(Variant::Snv(b'G'), 3, 10), base(Variant::Snv(b'T'), 6, 10), base(Variant::Reference, 1, 10)],
    );
    m.insert(3, vec![base(Variant::Reference, 8, 10)]);
    assert_eq!(consensus_of("ACGT", m), "TCGT");
}

#[test]
fn fasta_lines_of_sixty() {
    let seq: Vec<u8> = vec![b'A'; 61];
    let record = fasta_record(&b"contig_1".to_vec(), &seq);
    let expected = format!(">contig_1\n{}\nA\n", "A".repeat(60));
    assert_eq!(String::from_utf8(record).unwrap(), expected);
    let empty = fasta_record(&b"x".to_vec(), &vec![]);
    assert_eq!(empty, b">x\n".to_vec());
}

#[test]
fn polished_record_has_header_and_consensus() {
    let mut m = HashMap::new();
    m.insert(1, vec![base(Variant::Snv(b'T'), 6, 10)]);
    let stats = stats_with("ctg", m, 4);
    assert_eq!(stats.polished_record(&b"ACGT".to_vec()), b">ctg\nATGT\n".to_vec());
}

#[test]
fn variant_counts_per_position() {
    let mut m = HashMap::new();
    m.insert(
        1,
        vec![
            Base { variant: Variant::Snv(b'T'), depth: vec![2, 3], freq: vec![frac(2, 4), frac(3, 5)] },
            Base { variant: Variant::Reference, depth: vec![5, 5], freq: vec![frac(5, 10), frac(5, 10)] },
            Base { variant: Variant::Deletion(1), depth: vec![1, 0], freq: vec![frac(1, 4), frac(0, 5)] },
        ],
    );
    let zero = Estimate { numer: 0, denom: 1 };
    let cov = Estimate { numer: 3, denom: 2 };
    let mut stats = VariantStats::new_contig_stats(frac(0, 1), frac(1, 1), 0);
    stats.add_contig(Some(m), 4, 2, b"c".to_vec(), 3, 0, vec![zero, cov, zero], vec![4, 1, -5]);
    assert_eq!(stats.depth, vec![4, 5, 0]);
    assert_eq!(stats.variant_count, vec![0, 6, 0]);
    assert_eq!(stats.coverage, cov);
    assert_eq!(stats.tid, 4);
    assert_eq!(stats.len(), 1);
    stats.setup();
    assert_eq!(stats.len(), 0);
    assert!(stats.depth.is_empty());
}

#[test]
fn ani_tolerance_of_hundred_bases() {
    assert_eq!(variants_for_ani(100, frac(99, 100)), 1);
    assert_eq!(variants_for_ani(1000, frac(95, 100)), 50);
    assert_eq!(variants_for_ani(100, frac(1, 1)), 0);
}

#[test]
fn ani_cutoff_is_second_highest() {
    let mut stats = VariantStats::new_contig_stats(frac(0, 1), frac(1, 1), 0);
    stats.target_len = 100;
    stats.variant_count = vec![9, 7, 5, 3];
    assert_eq!(stats.ani_cutoff(frac(99, 100)), 7);
    assert_eq!(stats.variant_count, vec![9, 7, 5, 3]);
    stats.variant_count = vec![2, 9, 3, 7];
    assert_eq!(stats.ani_cutoff(frac(99, 100)), 7);
    assert_eq!(stats.variant_count, vec![9, 7, 3, 2]);
}

#[test]
fn ani_cutoff_clamps_and_zero_ani() {
    let mut stats = VariantStats::new_contig_stats(frac(0, 1), frac(1, 1), 0);
    stats.target_len = 100;
    stats.variant_count = vec![4, 8];
    assert_eq!(stats.ani_cutoff(frac(0, 1)), 0);
    assert_eq!(stats.ani_cutoff(frac(9, 10)), 4);
    assert_eq!(stats.variant_count, vec![8, 4]);
}

#[test]
fn duplicate_variants_detected() {
    let distinct = vec![base(Variant::Snv(b'T'), 1, 4), base(Variant::Insertion(b"AT".to_vec()), 1, 4)];
    assert!(variants_distinct_in(&distinct));
    let repeated = vec![
        base(Variant::Insertion(b"AT".to_vec()), 1, 4),
        base(Variant::Snv(b'T'), 1, 4),
        base(Variant::Insertion(b"AT".to_vec()), 2, 4),
    ];
    assert!(!variants_distinct_in(&repeated));
    assert!(variants_distinct_in(&vec![]));
}

#[test]
fn new_stats_start_empty() {
    let stats = VariantStats::new_contig_stats(frac(1, 10), frac(9, 10), 5);
    assert_eq!((stats.tid, stats.total_indels, stats.target_len), (0, 0, 0));
    assert_eq!(stats.coverage, Estimate { numer: 0, denom: 1 });
    assert_eq!(stats.contig_end_exclusion, 5);
}

fn annotation(strand: Option<Strand>, frame: &str, start: u64, id: Option<&str>) -> GeneAnnotation {
    GeneAnnotation {
        seqname: b"contig".to_vec(),
        start,
        end: 300,
        strand,
        frame: frame.as_bytes().to_vec(),
        id: id.map(|s| s.as_bytes().to_vec()),
    }
}

#[test]
fn gene_labels_from_record() {
    let l = gene_label(&annotation(Some(Strand::Reverse), "2", 10, Some("contig_17_x"))).unwrap();
    assert_eq!(l.gene_id, b"17".to_vec());
    assert_eq!(l.contig, b"contig_".to_vec());
    assert_eq!((l.start, l.end, l.frame, l.strand_symbol), (9, 300, 2, b'-'));
    let u = gene_label(&annotation(Some(Strand::Unknown), "+0", 1, Some("g_5"))).unwrap();
    assert_eq!((u.gene_id, u.frame, u.strand_symbol), (b"5".to_vec(), 0, b'+'));
}

#[test]
fn gene_label_errors() {
    assert_eq!(gene_label(&annotation(None, "0", 1, Some("g_1"))).err(), Some(GeneError::MissingStrand));
    assert_eq!(gene_label(&annotation(Some(Strand::Forward), ".", 1, Some("g_1"))).err(), Some(GeneError::BadFrame));
    assert_eq!(gene_label(&annotation(Some(Strand::Forward), "0", 0, Some("g_1"))).err(), Some(GeneError::BadStart));
    assert_eq!(gene_label(&annotation(Some(Strand::Forward), "0", 1, Some("g1"))).err(), Some(GeneError::MissingId));
    assert_eq!(gene_label(&annotation(Some(Strand::Forward), "0", 1, None)).err(), Some(GeneError::MissingId));
}

#[test]
fn frame_numbers() {
    assert_eq!(read_frame(&b"1".to_vec()), Some(1));
    assert_eq!(read_frame(&b"+12".to_vec()), Some(12));
    assert_eq!(read_frame(&b"".to_vec()), None);
    assert_eq!(read_frame(&b"+".to_vec()), None);
    assert_eq!(read_frame(&b"-1".to_vec()), None);
    assert_eq!(read_frame(&b"99999999999999999999999".to_vec()), None);
}
