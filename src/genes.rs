//! Labels of the genes of a contig, from their annotation records.
use vstd::prelude::*;

verus! {

/// Strand of an annotated gene.
#[derive(Clone, Copy, Debug, PartialEq, Eq, Structural)]
pub enum Strand {
    Forward,
    Reverse,
    Unknown,
}

/// What the labels are taken from in one gene annotation record.
#[derive(Clone, Debug)]
pub struct GeneAnnotation {
    pub seqname: Vec<u8>,
    /// First base, counted from 1.
    pub start: u64,
    /// Last base, counted from 1.
    pub end: u64,
    pub strand: Option<Strand>,
    /// Reading frame as written in the record.
    pub frame: Vec<u8>,
    /// The `ID` attribute, if the record has one.
    pub id: Option<Vec<u8>>,
}

/// The labels of one gene.
#[derive(Clone, Debug)]
pub struct GeneLabel {
    /// The sequence name followed by `_`.
    pub contig: Vec<u8>,
    /// The part of the `ID` attribute between its first and second `_`.
    pub gene_id: Vec<u8>,
    /// First base, counted from 0.
    pub start: u64,
    /// One past the last base, counted from 0.
    pub end: u64,
    pub frame: usize,
    /// `+` for the forward or an unknown strand, `-` for the reverse strand.
    pub strand_symbol: u8,
}

/// Why a gene record cannot be labelled.
#[derive(Clone, Copy, Debug, PartialEq, Eq, Structural)]
pub enum GeneError {
    MissingStrand,
    BadFrame,
    BadStart,
    MissingId,
}

pub open spec fn is_digit(c: u8) -> bool {
    48 <= c <= 57
}

/// Value of a string of decimal digits.
pub open spec fn digits_value(s: Seq<u8>) -> int
    decreases s.len(),
{
    if s.len() == 0 {
        0
    } else {
        digits_value(s.drop_last()) * 10 + (s.last() - 48)
    }
}

/// The digits of a frame field, after an optional `+`.
pub open spec fn frame_digits(s: Seq<u8>) -> Seq<u8> {
    if s.len() > 0 && s[0] == 43u8 {
        s.skip(1)
    } else {
        s
    }
}

/// A frame field read as an unsigned decimal number that fits in a `usize`.
pub open spec fn parse_frame(s: Seq<u8>) -> Option<usize> {
    let d = frame_digits(s);
    if d.len() > 0 && (forall|i: int| 0 <= i < d.len() ==> is_digit(#[trigger] d[i])) && digits_value(d)
        <= usize::MAX {
        Some(digits_value(d) as usize)
    } else {
        None
    }
}

/// Index of the first `c` in `s` at or after `from`; `s.len()` if there is none.
pub open spec fn find_from(s: Seq<u8>, c: u8, from: int) -> int
    decreases s.len() - from,
{
    if from < 0 || from >= s.len() {
        s.len() as int
    } else if s[from] == c {
        from
    } else {
        find_from(s, c, from + 1)
    }
}

/// The second `_`-separated field of an `ID` attribute, if it has one.
pub open spec fn gene_id_of(id: Seq<u8>) -> Option<Seq<u8>> {
    let i = find_from(id, 95u8, 0);
    if i >= id.len() {
        None
    } else {
        Some(id.subrange(i + 1, find_from(id, 95u8, i + 1)))
    }
}

/// The labels of a gene annotation, or why there are none.
pub open spec fn gene_label_of(a: GeneAnnotation) -> Result<(Seq<u8>, Seq<u8>, u64, u64, usize, u8), GeneError> {
    if a.strand is None {
        Err(GeneError::MissingStrand)
    } else if parse_frame(a.frame@) is None {
        Err(GeneError::BadFrame)
    } else if a.start == 0 {
        Err(GeneError::BadStart)
    } else if a.id is None || gene_id_of(a.id->0@) is None {
        Err(GeneError::MissingId)
    } else {
        Ok((
            a.seqname@.push(95u8),
            gene_id_of(a.id->0@)->0,
            (a.start - 1) as u64,
            a.end,
            parse_frame(a.frame@)->0,
            if a.strand == Some(Strand::Reverse) { 45u8 } else { 43u8 },
        ))
    }
}

proof fn lemma_find_from_range(s: Seq<u8>, c: u8, from: int)
    requires
        0 <= from,
    ensures
        from <= find_from(s, c, from) <= s.len() || (from > s.len() && find_from(s, c, from) == s.len()),
        find_from(s, c, from) < s.len() ==> s[find_from(s, c, from)] == c,
        forall|k: int| from <= k < find_from(s, c, from) ==> s[k] != c,
    decreases s.len() - from,
{
    if from < s.len() && s[from] != c {
        lemma_find_from_range(s, c, from + 1);
    }
}

proof fn lemma_digits_value_mono(s: Seq<u8>, j: int)
    requires
        0 <= j <= s.len(),
        forall|i: int| 0 <= i < s.len() ==> is_digit(#[trigger] s[i]),
    ensures
        0 <= digits_value(s.take(j)) <= digits_value(s),
    decreases s.len(),
{
    if s.len() > 0 {
        let t = s.drop_last();
        assert forall|i: int| 0 <= i < t.len() implies is_digit(#[trigger] t[i]) by {
            assert(t[i] == s[i]);
        }
        if j < s.len() {
            lemma_digits_value_mono(t, j);
            assert(t.take(j) =~= s.take(j));
        } else {
            assert(s.take(j) =~= s);
            lemma_digits_value_mono(t, t.len() as int);
            assert(t.take(t.len() as int) =~= t);
        }
    } else {
        assert(s.take(j) =~= s);
    }
}

fn index_of(s: &Vec<u8>, c: u8, from: usize) -> (r: usize)
    requires
        from <= s@.len(),
    ensures
        r == find_from(s@, c, from as int),
{
    let mut k: usize = from;
    while k < s.len() && s[k] != c
        invariant
            from <= k <= s@.len(),
            find_from(s@, c, from as int) == find_from(s@, c, k as int),
        decreases s@.len() - k,
    {
        k = k + 1;
    }
    k
}

/// Reads a frame field as an unsigned decimal number.
pub fn read_frame(s: &Vec<u8>) -> (r: Option<usize>)
    ensures
        r == parse_frame(s@),
{
    let start: usize = if s.len() > 0 && s[0] == 43u8 { 1 } else { 0 };
    let ghost d = frame_digits(s@);
    assert(d =~= s@.skip(start as int));
    if start >= s.len() {
        return None;
    }
    let mut value: usize = 0;
    let mut k: usize = start;
    while k < s.len()
        invariant
            start <= k <= s@.len(),
            d == s@.skip(start as int),
            d == frame_digits(s@),
            forall|i: int| 0 <= i < k - start ==> is_digit(#[trigger] d[i]),
            value == digits_value(d.take(k - start)),
        decreases s@.len() - k,
    {
        let c = s[k];
        if c < 48u8 || c > 57u8 {
            assert(d[k - start] == c);
            assert(!is_digit(d[k - start]));
            assert(!(forall|i: int| 0 <= i < d.len() ==> is_digit(#[trigger] d[i])));
            assert(parse_frame(s@) is None);
            return None;
        }
        let digit = (c - 48u8) as usize;
        let ghost t = d.take(k - start + 1);
        assert(t.drop_last() =~= d.take(k - start));
        assert(t.last() == c);
        if value > (usize::MAX - digit) / 10 {
            proof {
                assert forall|i: int| 0 <= i < t.len() implies is_digit(#[trigger] t[i]) by {
                    assert(t[i] == d[i]);
                }
                assert(digits_value(t) == value * 10 + digit);
                assert(value * 10 + digit > usize::MAX) by (nonlinear_arith)
                    requires
                        value > (usize::MAX - digit) / 10,
                        0 <= digit <= 9,
                ;
                if forall|i: int| 0 <= i < d.len() ==> is_digit(#[trigger] d[i]) {
                    lemma_digits_value_mono(d, k - start + 1);
                    assert(digits_value(d) > usize::MAX);
                }
                assert(parse_frame(s@) is None);
            }
            return None;
        }
        value = value * 10 + digit;
        k = k + 1;
    }
    assert(d.take(k - start) =~= d);
    Some(value)
}

/// The labels of one gene, or the first thing missing from its record: the
/// strand, a readable frame, a start of at least 1, an `ID` with a second
/// `_`-separated field.
pub fn gene_label(annotation: &GeneAnnotation) -> (r: Result<GeneLabel, GeneError>)
    ensures
        match (r, gene_label_of(*annotation)) {
            (Ok(l), Ok(t)) => (l.contig@, l.gene_id@, l.start, l.end, l.frame, l.strand_symbol) == t,
            (Err(e), Err(f)) => e == f,
            _ => false,
        },
{
    let symbol = match annotation.strand {
        Some(Strand::Reverse) => 45u8,
        Some(_) => 43u8,
        Option::None => {
            return Err(GeneError::MissingStrand);
        },
    };
    let frame = match read_frame(&annotation.frame) {
        Some(f) => f,
        Option::None => {
            return Err(GeneError::BadFrame);
        },
    };
    if annotation.start == 0 {
        return Err(GeneError::BadStart);
    }
    let id = match &annotation.id {
        Some(id) => id,
        Option::None => {
            return Err(GeneError::MissingId);
        },
    };
    let first = index_of(id, 95u8, 0);
    if first >= id.len() {
        return Err(GeneError::MissingId);
    }
    let second = index_of(id, 95u8, first + 1);
    proof {
        lemma_find_from_range(id@, 95u8, first + 1);
    }
    let mut gene_id: Vec<u8> = Vec::new();
    let mut k: usize = first + 1;
    while k < second
        invariant
            first + 1 <= k <= second <= id@.len(),
            gene_id@ == id@.subrange(first + 1, k as int),
        decreases second - k,
    {
        gene_id.push(id[k]);
        assert(id@.subrange(first + 1, k + 1) =~= id@.subrange(first + 1, k as int).push(id@[k as int]));
        k = k + 1;
    }
    let mut contig: Vec<u8> = Vec::new();
    let mut j: usize = 0;
    while j < annotation.seqname.len()
        invariant
            j <= annotation.seqname@.len(),
            contig@ == annotation.seqname@.subrange(0, j as int),
        decreases annotation.seqname@.len() - j,
    {
        contig.push(annotation.seqname[j]);
        assert(annotation.seqname@.subrange(0, j + 1) =~= annotation.seqname@.subrange(0, j as int).push(
            annotation.seqname@[j as int],
        ));
        j = j + 1;
    }
    assert(annotation.seqname@.subrange(0, j as int) =~= annotation.seqname@);
    contig.push(95u8);
    Ok(GeneLabel {
        contig,
        gene_id,
        start: annotation.start - 1,
        end: annotation.end,
        frame,
        strand_symbol: symbol,
    })
}

} // verus!
