//! Majority-vote consensus of a contig and its FASTA record.
use vstd::prelude::*;

use crate::estimator::Fraction;
use crate::variants::{bases_at, Base, Variant, VariantStats};

verus! {

broadcast use vstd::std_specs::hash::group_hash_axioms;

/// Frequency of a variant in the first sample.
pub open spec fn first_freq(b: Base) -> Fraction {
    b.freq@[0]
}

/// `a > b`, compared as rationals.
pub open spec fn freq_gt(a: Fraction, b: Fraction) -> bool {
    a.numer as int * b.denom as int > b.numer as int * a.denom as int
}

/// Every entry has a first-sample frequency with a positive denominator.
pub open spec fn freqs_present(bases: Seq<Base>) -> bool {
    forall|i: int| 0 <= i < bases.len() ==> #[trigger] bases[i].freq@.len() > 0 && bases[i].freq@[0].denom > 0
}

/// Every variant at a position before `len` has a first-sample frequency with
/// a positive denominator.
pub open spec fn bases_well_formed(variants: Map<i64, Vec<Base>>, len: int) -> bool {
    forall|pos: int| 0 <= pos < len ==> freqs_present(#[trigger] bases_at(variants, pos))
}

/// Index of the first entry among the first `n` with the highest first-sample
/// frequency above zero; -1 where every frequency is zero.
pub open spec fn best_base(bases: Seq<Base>, n: int) -> int
    decreases n,
{
    if n <= 0 {
        -1
    } else {
        let prev = best_base(bases, n - 1);
        let f = first_freq(bases[n - 1]);
        if (prev < 0 && f.numer > 0) || (prev >= 0 && freq_gt(f, first_freq(bases[prev]))) {
            n - 1
        } else {
            prev
        }
    }
}

/// The variant that at least half of the first sample's reads support, if the
/// most frequent variant has that support.
pub open spec fn majority_variant(bases: Seq<Base>) -> Option<Variant> {
    let b = best_base(bases, bases.len() as int);
    if b >= 0 && 2 * first_freq(bases[b]).numer >= first_freq(bases[b]).denom {
        Some(bases[b].variant)
    } else {
        None
    }
}

/// Consensus of `reference` from position `pos` on, with `skip` positions still
/// deleted.
pub open spec fn polish_from(variants: Map<i64, Vec<Base>>, reference: Seq<u8>, pos: int, skip: int) -> Seq<u8>
    decreases reference.len() - pos,
{
    if pos < 0 || pos >= reference.len() {
        Seq::empty()
    } else if skip > 0 {
        polish_from(variants, reference, pos + 1, skip - 1)
    } else {
        match majority_variant(bases_at(variants, pos)) {
            Some(Variant::Deletion(n)) => polish_from(
                variants,
                reference,
                pos + 1,
                if n >= 1 { n - 1 } else { 0 },
            ),
            Some(Variant::Insertion(alt)) => (if alt@.len() == 0 {
                Seq::empty()
            } else {
                alt@.skip(1)
            }) + polish_from(variants, reference, pos + 1, 0),
            Some(Variant::Snv(b)) => seq![b] + polish_from(variants, reference, pos + 1, 0),
            _ => seq![reference[pos]] + polish_from(variants, reference, pos + 1, 0),
        }
    }
}

/// The consensus sequence: the reference with every majority variant applied.
pub open spec fn consensus_of(variants: Map<i64, Vec<Base>>, reference: Seq<u8>) -> Seq<u8> {
    polish_from(variants, reference, 0, 0)
}

fn freq_greater(a: Fraction, b: Fraction) -> (r: bool)
    ensures
        r == freq_gt(a, b),
{
    proof {
        assert(a.numer as int * b.denom as int <= 0xffff_ffff * 0xffff_ffff) by (nonlinear_arith)
            requires
                0 <= a.numer <= 0xffff_ffff,
                0 <= b.denom <= 0xffff_ffff,
        ;
        assert(b.numer as int * a.denom as int <= 0xffff_ffff * 0xffff_ffff) by (nonlinear_arith)
            requires
                0 <= b.numer <= 0xffff_ffff,
                0 <= a.denom <= 0xffff_ffff,
        ;
    }
    (a.numer as u64) * (b.denom as u64) > (b.numer as u64) * (a.denom as u64)
}

/// Index of the variant with the majority of the first sample's reads.
fn majority_index(bases: &Vec<Base>) -> (r: Option<usize>)
    requires
        freqs_present(bases@),
    ensures
        match r {
            Some(i) => i < bases@.len() && majority_variant(bases@) == Some(bases@[i as int].variant),
            Option::None => majority_variant(bases@) is None,
        },
{
    let mut best: Option<usize> = None;
    let mut i: usize = 0;
    while i < bases.len()
        invariant
            i <= bases@.len(),
            forall|j: int| 0 <= j < bases@.len() ==> #[trigger] bases@[j].freq@.len() > 0 && bases@[j].freq@[0].denom > 0,
            match best {
                Some(b) => b < i && best_base(bases@, i as int) == b,
                Option::None => best_base(bases@, i as int) == -1,
            },
        decreases bases@.len() - i,
    {
        let f = bases[i].freq[0];
        let better = match best {
            Some(b) => {
                let g = bases[b].freq[0];
                freq_greater(f, g)
            },
            Option::None => f.numer > 0,
        };
        if better {
            best = Some(i);
        }
        i = i + 1;
    }
    match best {
        Some(b) => {
            let f = bases[b].freq[0];
            if 2 * (f.numer as u64) >= f.denom as u64 {
                Some(b)
            } else {
                None
            }
        },
        Option::None => None,
    }
}

impl VariantStats {
    /// The consensus of `original_contig`: at each position not deleted by an
    /// earlier deletion, the variant with the most first-sample support is
    /// applied when at least half the reads support it. A deletion of `n`
    /// drops this base and the next `n - 1`; an insertion replaces the base
    /// with its inserted bytes after the first; a substitution replaces the
    /// base; anything else keeps it.
    pub fn consensus(&self, original_contig: &Vec<u8>) -> (r: Vec<u8>)
        requires
            bases_well_formed(self.variants@, original_contig@.len() as int),
        ensures
            r@ == consensus_of(self.variants@, original_contig@),
    {
        let ghost m = self.variants@;
        let ghost reference = original_contig@;
        let mut out: Vec<u8> = Vec::new();
        let mut skip: u64 = 0;
        let mut pos: usize = 0;
        while pos < original_contig.len()
            invariant
                m == self.variants@,
                reference == original_contig@,
                bases_well_formed(m, reference.len() as int),
                pos <= reference.len(),
                out@ + polish_from(m, reference, pos as int, skip as int) == consensus_of(m, reference),
            decreases reference.len() - pos,
        {
            if skip > 0 {
                skip = skip - 1;
            } else {
                let key: i64 = pos as i64;
                let choice = match self.variants.get(&key) {
                    Some(bases) => {
                        proof {
                            assert(bases@ == bases_at(m, pos as int));
                            assert(freqs_present(bases_at(m, pos as int)));
                        }
                        match majority_index(bases) {
                            Some(i) => Some(&bases[i].variant),
                            Option::None => None,
                        }
                    },
                    Option::None => {
                        assert(bases_at(m, pos as int) == Seq::<Base>::empty());
                        assert(majority_variant(bases_at(m, pos as int)) is None);
                        None
                    },
                };
                assert(match choice {
                    Some(v) => majority_variant(bases_at(m, pos as int)) == Some(*v),
                    Option::None => majority_variant(bases_at(m, pos as int)) is None,
                });
                let ghost before = out@;
                match choice {
                    Some(Variant::Deletion(n)) => {
                        skip = if *n >= 1 { (*n - 1) as u64 } else { 0 };
                    },
                    Some(Variant::Insertion(alt)) => {
                        if alt.len() > 0 {
                            let mut j: usize = 1;
                            while j < alt.len()
                                invariant
                                    1 <= j <= alt@.len(),
                                    out@ == before + alt@.subrange(1, j as int),
                                decreases alt@.len() - j,
                            {
                                out.push(alt[j]);
                                assert(alt@.subrange(1, j + 1) =~= alt@.subrange(1, j as int).push(alt@[j as int]));
                                j = j + 1;
                            }
                            assert(alt@.subrange(1, j as int) =~= alt@.skip(1));
                        } else {
                            assert(out@ =~= before + Seq::<u8>::empty());
                        }
                    },
                    Some(Variant::Snv(b)) => {
                        out.push(*b);
                    },
                    _ => {
                        out.push(original_contig[pos]);
                    },
                }
                proof {
                    let rest = polish_from(m, reference, pos + 1, skip as int);
                    let emitted = out@.subrange(before.len() as int, out@.len() as int);
                    assert(out@ =~= before + emitted);
                    assert(polish_from(m, reference, pos as int, 0) =~= emitted + rest);
                    assert(out@ + rest =~= before + (emitted + rest));
                }
            }
            pos = pos + 1;
        }
        assert(out@ + Seq::<u8>::empty() =~= out@);
        out
    }
}

/// `s` in lines of at most 60 bytes, each ended by a newline.
pub open spec fn wrap_lines(s: Seq<u8>) -> Seq<u8>
    decreases s.len(),
{
    if s.len() == 0 {
        Seq::empty()
    } else if s.len() <= 60 {
        s.push(10u8)
    } else {
        s.take(60).push(10u8) + wrap_lines(s.skip(60))
    }
}

/// A FASTA record: `>` and the name on the header line, then the sequence in
/// lines of 60.
pub open spec fn fasta_record_of(name: Seq<u8>, sequence: Seq<u8>) -> Seq<u8> {
    seq![62u8] + name + seq![10u8] + wrap_lines(sequence)
}

/// Builds the FASTA record of `sequence` under `name`.
pub fn fasta_record(name: &Vec<u8>, sequence: &Vec<u8>) -> (r: Vec<u8>)
    ensures
        r@ == fasta_record_of(name@, sequence@),
{
    let mut out: Vec<u8> = Vec::new();
    out.push(62u8);
    let mut k: usize = 0;
    while k < name.len()
        invariant
            k <= name@.len(),
            out@ == seq![62u8] + name@.subrange(0, k as int),
        decreases name@.len() - k,
    {
        out.push(name[k]);
        assert(name@.subrange(0, k + 1) =~= name@.subrange(0, k as int).push(name@[k as int]));
        k = k + 1;
    }
    out.push(10u8);
    assert(name@.subrange(0, k as int) =~= name@);
    let ghost header = out@;
    let len = sequence.len();
    assert(sequence@.subrange(0, len as int) =~= sequence@);
    let mut i: usize = 0;
    while i < len
        invariant
            i <= len == sequence@.len(),
            out@ + wrap_lines(sequence@.subrange(i as int, len as int)) == header + wrap_lines(sequence@),
            header == seq![62u8] + name@ + seq![10u8],
        decreases len - i,
    {
        let end: usize = if len - i > 60 { i + 60 } else { len };
        let ghost before = out@;
        let mut j: usize = i;
        while j < end
            invariant
                i <= j <= end <= len == sequence@.len(),
                out@ == before + sequence@.subrange(i as int, j as int),
            decreases end - j,
        {
            out.push(sequence[j]);
            assert(sequence@.subrange(i as int, j + 1) =~= sequence@.subrange(i as int, j as int).push(
                sequence@[j as int],
            ));
            j = j + 1;
        }
        out.push(10u8);
        proof {
            let rest = sequence@.subrange(i as int, len as int);
            let line = sequence@.subrange(i as int, end as int);
            if rest.len() > 60 {
                assert(rest.take(60) =~= line);
                assert(rest.skip(60) =~= sequence@.subrange(end as int, len as int));
            } else {
                assert(rest =~= line);
                assert(sequence@.subrange(end as int, len as int) =~= Seq::<u8>::empty());
            }
            assert(wrap_lines(rest) =~= line.push(10u8) + wrap_lines(sequence@.subrange(end as int, len as int)));
            assert(out@ =~= before + line.push(10u8));
        }
        i = end;
    }
    assert(sequence@.subrange(len as int, len as int) =~= Seq::<u8>::empty());
    assert(out@ + Seq::<u8>::empty() =~= out@);
    assert(sequence@.subrange(0, len as int) =~= sequence@);
    out
}

impl VariantStats {
    /// The FASTA record of this contig's consensus, under its name.
    pub fn polished_record(&self, original_contig: &Vec<u8>) -> (r: Vec<u8>)
        requires
            bases_well_formed(self.variants@, original_contig@.len() as int),
        ensures
            r@ == fasta_record_of(self.target_name@, consensus_of(self.variants@, original_contig@)),
    {
        let sequence = self.consensus(original_contig);
        fasta_record(&self.target_name, &sequence)
    }
}

impl VariantStats {
    /// Whether every variant at a position before `len` has a first-sample
    /// frequency with a positive denominator, as `consensus` needs.
    pub fn frequencies_present(&self, len: usize) -> (r: bool)
        ensures
            r == bases_well_formed(self.variants@, len as int),
    {
        let mut pos: usize = 0;
        while pos < len
            invariant
                pos <= len,
                forall|p: int| 0 <= p < pos ==> freqs_present(#[trigger] bases_at(self.variants@, p)),
            decreases len - pos,
        {
            let key: i64 = pos as i64;
            match self.variants.get(&key) {
                Some(bases) => {
                    assert(bases@ == bases_at(self.variants@, pos as int));
                    let mut i: usize = 0;
                    while i < bases.len()
                        invariant
                            i <= bases@.len(),
                            pos < len,
                            bases@ == bases_at(self.variants@, pos as int),
                            forall|j: int| 0 <= j < i ==> #[trigger] bases@[j].freq@.len() > 0 && bases@[j].freq@[0].denom > 0,
                        decreases bases@.len() - i,
                    {
                        if bases[i].freq.len() == 0 || bases[i].freq[0].denom == 0 {
                            let ghost b = bases@[i as int];
                            assert(!(b.freq@.len() > 0 && b.freq@[0].denom > 0));
                            assert(!freqs_present(bases_at(self.variants@, pos as int)));
                            assert(!bases_well_formed(self.variants@, len as int));
                            return false;
                        }
                        i = i + 1;
                    }
                },
                Option::None => {
                    assert(bases_at(self.variants@, pos as int) == Seq::<Base>::empty());
                },
            }
            pos = pos + 1;
        }
        true
    }
}

} // verus!
