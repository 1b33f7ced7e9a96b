//! Per-contig variant statistics: observed variants by position, the depth of
//! variant-supporting reads at each position, and the ANI-driven cutoff.
use std::collections::HashMap;

use vstd::prelude::*;

use crate::estimator::{Estimate, Fraction};
use crate::signal::{cumulative_depths, depth_at, depths_fit};

verus! {

broadcast use vstd::std_specs::hash::group_hash_axioms;

/// A sequence variant observed at one position.
#[derive(Clone, Debug, PartialEq, Eq, Hash)]
pub enum Variant {
    /// Reads that agree with the reference.
    Reference,
    /// A substitution by the given base.
    Snv(u8),
    /// An inserted sequence; its first byte is the reference base it follows.
    Insertion(Vec<u8>),
    /// A deletion of the given number of bases, counted from this position.
    Deletion(u32),
    /// A multi-base substitution.
    Mnv(Vec<u8>),
    /// An inverted sequence.
    Inversion(Vec<u8>),
}

/// The support for one variant at one position, per sample.
#[derive(Clone, Debug)]
pub struct Base {
    pub variant: Variant,
    /// Reads supporting the variant, per sample.
    pub depth: Vec<u32>,
    /// Supporting reads over all reads at the position, per sample.
    pub freq: Vec<Fraction>,
}

/// Sum of the first `n` per-sample depths.
pub open spec fn sample_total(d: Seq<u32>, n: int) -> int
    decreases n,
{
    if n <= 0 {
        0
    } else {
        sample_total(d, n - 1) + d[n - 1] as int
    }
}

/// Reads that support a variant other than the reference among the first `n`
/// entries at a position.
pub open spec fn variant_depth(bases: Seq<Base>, n: int) -> int
    decreases n,
{
    if n <= 0 {
        0
    } else {
        variant_depth(bases, n - 1) + if bases[n - 1].variant is Reference {
            0
        } else {
            sample_total(bases[n - 1].depth@, bases[n - 1].depth@.len() as int)
        }
    }
}

/// The variants observed at `pos`, empty where none were.
pub open spec fn bases_at(variants: Map<i64, Vec<Base>>, pos: int) -> Seq<Base> {
    if variants.contains_key(pos as i64) {
        variants[pos as i64]@
    } else {
        Seq::empty()
    }
}

/// Variant-supporting reads at `pos`.
pub open spec fn position_variant_depth(variants: Map<i64, Vec<Base>>, pos: int) -> int {
    variant_depth(bases_at(variants, pos), bases_at(variants, pos).len() as int)
}

/// Every per-position sum of variant-supporting reads fits in a `u64`.
pub open spec fn variant_depths_fit(variants: Map<i64, Vec<Base>>, len: int) -> bool {
    forall|pos: int| 0 <= pos < len ==> #[trigger] position_variant_depth(variants, pos) <= u64::MAX
}

/// The two variants are the same.
pub open spec fn same_variant(a: Variant, b: Variant) -> bool {
    match (a, b) {
        (Variant::Reference, Variant::Reference) => true,
        (Variant::Snv(x), Variant::Snv(y)) => x == y,
        (Variant::Insertion(x), Variant::Insertion(y)) => x@ == y@,
        (Variant::Deletion(x), Variant::Deletion(y)) => x == y,
        (Variant::Mnv(x), Variant::Mnv(y)) => x@ == y@,
        (Variant::Inversion(x), Variant::Inversion(y)) => x@ == y@,
        _ => false,
    }
}

/// No variant appears twice among the entries of one position.
pub open spec fn distinct_variants(bases: Seq<Base>) -> bool {
    forall|i: int, j: int|
        0 <= i < j < bases.len() ==> !same_variant(#[trigger] bases[i].variant, #[trigger] bases[j].variant)
}

/// At every position, each variant has one entry.
pub open spec fn variants_unique(variants: Map<i64, Vec<Base>>) -> bool {
    forall|k: i64| variants.contains_key(k) ==> distinct_variants(#[trigger] variants[k]@)
}

fn same_bytes(a: &Vec<u8>, b: &Vec<u8>) -> (r: bool)
    ensures
        r == (a@ == b@),
{
    if a.len() != b.len() {
        return false;
    }
    let mut i: usize = 0;
    while i < a.len()
        invariant
            i <= a@.len() == b@.len(),
            forall|j: int| 0 <= j < i ==> a@[j] == b@[j],
        decreases a@.len() - i,
    {
        if a[i] != b[i] {
            return false;
        }
        i = i + 1;
    }
    assert(a@ =~= b@);
    true
}

fn same_variant_of(a: &Variant, b: &Variant) -> (r: bool)
    ensures
        r == same_variant(*a, *b),
{
    match (a, b) {
        (Variant::Reference, Variant::Reference) => true,
        (Variant::Snv(x), Variant::Snv(y)) => *x == *y,
        (Variant::Insertion(x), Variant::Insertion(y)) => same_bytes(x, y),
        (Variant::Deletion(x), Variant::Deletion(y)) => *x == *y,
        (Variant::Mnv(x), Variant::Mnv(y)) => same_bytes(x, y),
        (Variant::Inversion(x), Variant::Inversion(y)) => same_bytes(x, y),
        _ => false,
    }
}

/// Whether no variant appears twice among the entries of one position, as
/// `add_contig` needs of every position.
pub fn variants_distinct_in(bases: &Vec<Base>) -> (r: bool)
    ensures
        r == distinct_variants(bases@),
{
    let mut j: usize = 1;
    while j < bases.len()
        invariant
            1 <= j,
            j <= bases@.len() || bases@.len() == 0,
            forall|a: int, b: int| 0 <= a < b < j && b < bases@.len() ==> !same_variant(
                #[trigger] bases@[a].variant,
                #[trigger] bases@[b].variant,
            ),
        decreases bases@.len() - j,
    {
        let mut i: usize = 0;
        while i < j
            invariant
                i <= j < bases@.len(),
                forall|a: int, b: int| 0 <= a < b < j ==> !same_variant(
                    #[trigger] bases@[a].variant,
                    #[trigger] bases@[b].variant,
                ),
                forall|a: int| 0 <= a < i ==> !same_variant(#[trigger] bases@[a].variant, bases@[j as int].variant),
            decreases j - i,
        {
            if same_variant_of(&bases[i].variant, &bases[j].variant) {
                return false;
            }
            i = i + 1;
        }
        j = j + 1;
    }
    true
}

/// Statistics of the contig last added.
#[derive(Debug)]
pub struct VariantStats {
    pub variants: HashMap<i64, Vec<Base>>,
    /// Variant-supporting reads at each position.
    pub variant_count: Vec<u64>,
    /// Read depth at each position.
    pub depth: Vec<i64>,
    pub tid: i32,
    pub total_indels: usize,
    pub target_name: Vec<u8>,
    pub target_len: u64,
    pub coverage: Estimate,
    pub variance: Estimate,
    pub observed_contig_length: u32,
    pub num_covered_bases: i32,
    pub num_mapped_reads: u64,
    pub total_mismatches: u64,
    pub contig_end_exclusion: u64,
    pub min: Fraction,
    pub max: Fraction,
}

impl VariantStats {
    /// Each position holds one entry per variant.
    pub open spec fn wf(self) -> bool {
        variants_unique(self.variants@)
    }

    /// Statistics with nothing added yet.
    pub fn new_contig_stats(min: Fraction, max: Fraction, contig_end_exclusion: u64) -> (r: VariantStats)
        ensures
            r.wf(),
            r.variants@ == Map::<i64, Vec<Base>>::empty(),
            r.variant_count@.len() == 0,
            r.depth@.len() == 0,
            r.target_name@.len() == 0,
            r.target_len == 0,
            r.tid == 0,
            r.total_indels == 0,
            r.coverage == Estimate::zero(),
            r.variance == Estimate::zero(),
            r.observed_contig_length == 0,
            r.num_covered_bases == 0,
            r.num_mapped_reads == 0,
            r.total_mismatches == 0,
            r.min == min,
            r.max == max,
            r.contig_end_exclusion == contig_end_exclusion,
    {
        VariantStats {
            variants: HashMap::new(),
            variant_count: Vec::new(),
            depth: Vec::new(),
            tid: 0,
            total_indels: 0,
            target_name: Vec::new(),
            target_len: 0,
            coverage: Estimate { numer: 0, denom: 1 },
            variance: Estimate { numer: 0, denom: 1 },
            observed_contig_length: 0,
            num_covered_bases: 0,
            num_mapped_reads: 0,
            total_mismatches: 0,
            contig_end_exclusion,
            min,
            max,
        }
    }

    /// Forgets the contig last added.
    pub fn setup(&mut self)
        ensures
            final(self).wf(),
            final(self).variants@ == Map::<i64, Vec<Base>>::empty(),
            final(self).variant_count@.len() == 0,
            final(self).depth@.len() == 0,
            final(self).tid == 0,
            final(self).total_indels == 0,
            final(self).target_name@.len() == 0,
            final(self).target_len == 0,
            final(self).coverage == Estimate::zero(),
            final(self).num_covered_bases == 0,
            final(self).num_mapped_reads == 0,
            final(self).variance == old(self).variance,
            final(self).min == old(self).min,
            final(self).max == old(self).max,
            final(self).contig_end_exclusion == old(self).contig_end_exclusion,
    {
        self.variants = HashMap::new();
        self.variant_count = Vec::new();
        self.depth = Vec::new();
        self.tid = 0;
        self.total_indels = 0;
        self.target_name = Vec::new();
        self.target_len = 0;
        self.coverage = Estimate { numer: 0, denom: 1 };
        self.num_covered_bases = 0;
        self.num_mapped_reads = 0;
    }

    /// Number of positions with observed variants.
    pub fn len(&self) -> (r: usize)
        ensures
            r == self.variants@.len(),
    {
        self.variants.len()
    }
}

/// The variant map that `add_contig` keeps for `variant_map`.
pub open spec fn given_variants(variant_map: Option<HashMap<i64, Vec<Base>>>) -> Map<i64, Vec<Base>> {
    match variant_map {
        Some(m) => m@,
        Option::None => Map::empty(),
    }
}

proof fn lemma_sample_total_mono(d: Seq<u32>, m: int, n: int)
    requires
        0 <= m <= n <= d.len(),
    ensures
        0 <= sample_total(d, m) <= sample_total(d, n),
    decreases n,
{
    if n > 0 {
        if m < n {
            lemma_sample_total_mono(d, m, n - 1);
        } else {
            lemma_sample_total_mono(d, n - 1, n - 1);
        }
    }
}

proof fn lemma_variant_depth_mono(bases: Seq<Base>, m: int, n: int)
    requires
        0 <= m <= n <= bases.len(),
    ensures
        0 <= variant_depth(bases, m) <= variant_depth(bases, n),
    decreases n,
{
    if n > 0 {
        let b = bases[n - 1];
        lemma_sample_total_mono(b.depth@, 0, b.depth@.len() as int);
        if m < n {
            lemma_variant_depth_mono(bases, m, n - 1);
        } else {
            lemma_variant_depth_mono(bases, n - 1, n - 1);
        }
    }
}

/// Reads supporting a variant other than the reference among `bases`; `None`
/// where the sum does not fit in a `u64`.
fn checked_variant_depth(bases: &Vec<Base>) -> (r: Option<u64>)
    ensures
        match r {
            Some(t) => t == variant_depth(bases@, bases@.len() as int),
            Option::None => variant_depth(bases@, bases@.len() as int) > u64::MAX,
        },
{
    let mut total: u64 = 0;
    let mut i: usize = 0;
    while i < bases.len()
        invariant
            i <= bases@.len(),
            total == variant_depth(bases@, i as int),
        decreases bases@.len() - i,
    {
        let b = &bases[i];
        proof {
            lemma_variant_depth_mono(bases@, i + 1, bases@.len() as int);
        }
        if !matches!(b.variant, Variant::Reference) {
            let mut j: usize = 0;
            while j < b.depth.len()
                invariant
                    j <= b.depth@.len(),
                    b == bases@[i as int],
                    !(b.variant is Reference),
                    variant_depth(bases@, i + 1) == variant_depth(bases@, i as int) + sample_total(
                        b.depth@,
                        b.depth@.len() as int,
                    ),
                    variant_depth(bases@, i + 1) <= variant_depth(bases@, bases@.len() as int),
                    total == variant_depth(bases@, i as int) + sample_total(b.depth@, j as int),
                decreases b.depth@.len() - j,
            {
                proof {
                    lemma_sample_total_mono(b.depth@, j + 1, b.depth@.len() as int);
                }
                let d = b.depth[j] as u64;
                if total > u64::MAX - d {
                    return None;
                }
                total = total + d;
                j = j + 1;
            }
        }
        i = i + 1;
    }
    Some(total)
}

/// Reads supporting a variant other than the reference among `bases`.
fn variant_depth_of(bases: &Vec<Base>) -> (r: u64)
    requires
        variant_depth(bases@, bases@.len() as int) <= u64::MAX,
    ensures
        r == variant_depth(bases@, bases@.len() as int),
{
    match checked_variant_depth(bases) {
        Some(t) => t,
        Option::None => 0,
    }
}

/// Whether the variant-supporting reads at every position before `len` fit in
/// a `u64`, as `add_contig` needs.
pub fn variant_depths_fit_in(variants: &HashMap<i64, Vec<Base>>, len: usize) -> (r: bool)
    ensures
        r == variant_depths_fit(variants@, len as int),
{
    let mut pos: usize = 0;
    while pos < len
        invariant
            pos <= len,
            forall|p: int| 0 <= p < pos ==> #[trigger] position_variant_depth(variants@, p) <= u64::MAX,
        decreases len - pos,
    {
        let key: i64 = pos as i64;
        match variants.get(&key) {
            Some(bases) => {
                if checked_variant_depth(bases).is_none() {
                    assert(position_variant_depth(variants@, pos as int) > u64::MAX);
                    return false;
                }
            },
            Option::None => {
                assert(bases_at(variants@, pos as int) == Seq::<Base>::empty());
                assert(position_variant_depth(variants@, pos as int) == 0);
            },
        }
        pos = pos + 1;
    }
    true
}

impl VariantStats {
    /// Takes over the contig `contig_name` (index `target_id`, `contig_len`
    /// bases): its variants, its coverage and variance (`coverages[1]` and
    /// `coverages[2]`), the depth at each position from the delta-encoded
    /// signal, and the reads supporting a variant at each position.
    pub fn add_contig(
        &mut self,
        variant_map: Option<HashMap<i64, Vec<Base>>>,
        target_id: i32,
        total_indels_in_contig: usize,
        contig_name: Vec<u8>,
        contig_len: usize,
        sample_idx: usize,
        coverages: Vec<Estimate>,
        ups_and_downs: Vec<i32>,
    )
        requires
            coverages@.len() >= 3,
            variants_unique(given_variants(variant_map)),
            depths_fit(ups_and_downs@),
            variant_depths_fit(given_variants(variant_map), ups_and_downs@.len() as int),
        ensures
            final(self).wf(),
            final(self).variants@ == given_variants(variant_map),
            final(self).tid == target_id,
            final(self).total_indels == total_indels_in_contig,
            final(self).target_name == contig_name,
            final(self).target_len == contig_len,
            final(self).coverage == coverages@[1],
            final(self).variance == coverages@[2],
            final(self).depth@.len() == ups_and_downs@.len(),
            forall|i: int| 0 <= i < ups_and_downs@.len() ==> #[trigger] final(self).depth@[i] == depth_at(ups_and_downs@, i),
            final(self).variant_count@.len() == ups_and_downs@.len(),
            forall|i: int|
                0 <= i < ups_and_downs@.len() ==> #[trigger] final(self).variant_count@[i]
                    == position_variant_depth(given_variants(variant_map), i),
            final(self).min == old(self).min,
            final(self).max == old(self).max,
            final(self).contig_end_exclusion == old(self).contig_end_exclusion,
    {
        let ghost given = given_variants(variant_map);
        let variants = match variant_map {
            Some(m) => m,
            Option::None => HashMap::new(),
        };
        assert(variants@ == given);
        let depth = cumulative_depths(&ups_and_downs);
        let mut variant_count: Vec<u64> = Vec::with_capacity(depth.len());
        let mut pos: usize = 0;
        while pos < depth.len()
            invariant
                pos <= depth@.len(),
                depth@.len() == ups_and_downs@.len(),
                variants@ == given,
                variant_depths_fit(given, ups_and_downs@.len() as int),
                variant_count@.len() == pos,
                forall|i: int| 0 <= i < pos ==> #[trigger] variant_count@[i] == position_variant_depth(given, i),
            decreases depth@.len() - pos,
        {
            assert(position_variant_depth(given, pos as int) <= u64::MAX);
            let key: i64 = pos as i64;
            let count = match variants.get(&key) {
                Some(bases) => variant_depth_of(bases),
                Option::None => 0,
            };
            variant_count.push(count);
            pos = pos + 1;
        }
        self.tid = target_id;
        self.total_indels = total_indels_in_contig;
        self.target_name = contig_name;
        self.target_len = contig_len as u64;
        self.coverage = coverages[1];
        self.variance = coverages[2];
        self.variants = variants;
        self.depth = depth;
        self.variant_count = variant_count;
    }
}

/// Relies on `slice::sort_unstable`: the same elements, in ascending order.
#[verifier::external_body]
fn sort_ascending(v: &mut Vec<u64>)
    ensures
        final(v)@.len() == old(v)@.len(),
        final(v)@.to_multiset() == old(v)@.to_multiset(),
        forall|i: int, j: int| 0 <= i <= j < final(v)@.len() ==> final(v)@[i] <= final(v)@[j],
{
    v.sort_unstable();
}

/// The number of variant sites that a contig of `target_len` bases tolerates
/// at identity `ani`: `floor(target_len * (1 - ani))`.
pub open spec fn ani_tolerance(target_len: int, ani: Fraction) -> int {
    (target_len * (ani.denom - ani.numer)) / ani.denom as int
}

/// Entry `k` of a descending sequence (its `k`-th largest, from 0); the last
/// (smallest) entry where `k` runs past the end, and 0 for an empty sequence.
pub open spec fn kth_of_descending(s: Seq<u64>, k: int) -> u64 {
    if s.len() == 0 {
        0
    } else if k < s.len() {
        s[k]
    } else {
        s[s.len() - 1]
    }
}

/// The same entries in reverse order.
fn reversed(v: &Vec<u64>) -> (r: Vec<u64>)
    ensures
        r@ == v@.reverse(),
{
    let mut r: Vec<u64> = Vec::with_capacity(v.len());
    let mut j: usize = 0;
    while j < v.len()
        invariant
            j <= v@.len(),
            r@.len() == j,
            forall|i: int| 0 <= i < j ==> #[trigger] r@[i] == v@[v@.len() - 1 - i],
        decreases v@.len() - j,
    {
        r.push(v[v.len() - 1 - j]);
        j = j + 1;
    }
    assert(r@ =~= v@.reverse());
    r
}

/// Computes `floor(target_len * (1 - ani))`.
pub fn variants_for_ani(target_len: u64, ani: Fraction) -> (r: u64)
    requires
        ani.wf(),
        ani.at_most_one(),
    ensures
        r == ani_tolerance(target_len as int, ani),
{
    let gap = (ani.denom - ani.numer) as u128;
    proof {
        let t = target_len as int;
        let d = ani.denom as int;
        let g = gap as int;
        assert(t * g <= 0xffff_ffff_ffff_ffff * 0xffff_ffff) by (nonlinear_arith)
            requires
                0 <= t <= 0xffff_ffff_ffff_ffff,
                0 <= g <= 0xffff_ffff,
        ;
        assert((t * g) / d <= t) by (nonlinear_arith)
            requires
                0 <= t,
                0 <= g <= d,
                d > 0,
        ;
        assert((t * g) / d >= 0) by (nonlinear_arith)
            requires
                0 <= t,
                0 <= g,
                d > 0,
        ;
    }
    ((target_len as u128 * gap) / ani.denom as u128) as u64
}

impl VariantStats {
    /// The minimum variant-supporting depth that a real variant call must
    /// exceed at identity `ani`: with `k` the number of variant sites tolerated,
    /// entry `k` of the variant counts sorted in descending order (the last
    /// entry where there are no more than `k` positions). Leaves the variant
    /// counts sorted in descending order. Zero when `ani` is zero.
    pub fn ani_cutoff(&mut self, ani: Fraction) -> (r: u64)
        requires
            ani.wf(),
            ani.at_most_one(),
        ensures
            ani.numer == 0 ==> r == 0 && final(self).variant_count == old(self).variant_count,
            ani.numer > 0 ==> {
                &&& final(self).variant_count@.to_multiset() == old(self).variant_count@.to_multiset()
                &&& forall|i: int, j: int|
                    0 <= i <= j < final(self).variant_count@.len() ==> final(self).variant_count@[i]
                        >= final(self).variant_count@[j]
                &&& r == kth_of_descending(
                    final(self).variant_count@,
                    ani_tolerance(old(self).target_len as int, ani),
                )
            },
            final(self).variant_count@.len() == old(self).variant_count@.len(),
            final(self).variants == old(self).variants,
            final(self).depth == old(self).depth,
            final(self).target_name == old(self).target_name,
            final(self).target_len == old(self).target_len,
    {
        if ani.numer == 0 {
            return 0;
        }
        let k = variants_for_ani(self.target_len, ani);
        let ghost before = self.variant_count@;
        sort_ascending(&mut self.variant_count);
        let descending = reversed(&self.variant_count);
        proof {
            self.variant_count@.lemma_reverse_to_multiset();
        }
        self.variant_count = descending;
        let len = self.variant_count.len();
        if len == 0 {
            return 0;
        }
        if (k as u128) < (len as u128) {
            self.variant_count[k as usize]
        } else {
            self.variant_count[len - 1]
        }
    }
}

} // verus!
