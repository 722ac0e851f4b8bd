//! Genotype records and their output order by chromosome, start and end.
use vstd::prelude::*;
use vstd::multiset::Multiset;
use vstd::seq_lib::{group_to_multiset_ensures, to_multiset_insert};
use vstd::utf8::encode_utf8;
use crate::bytes::{
    bytes_eq,
    bytes_le_exec,
    bytes_lt,
    lemma_bytes_le_antisymmetric,
    lemma_bytes_le_total,
    lemma_bytes_lt_transitive,
};
use crate::consensus::Consensus;

verus! {

/// The genotype of one locus: a call per haplotype and, where asked for, the raw
/// per-read insertions.
#[derive(Clone, Debug)]
pub struct GenotypeRecord {
    pub chrom: String,
    pub start: u32,
    pub end: u32,
    pub hap1: Option<Consensus>,
    pub hap2: Option<Consensus>,
    pub somatic: Option<Vec<u8>>,
}

/// The bytes of a record's chromosome name, which order records first.
pub open spec fn chrom_bytes(r: GenotypeRecord) -> Seq<u8> {
    encode_utf8(r.chrom@)
}

/// Two records are of the same locus.
pub open spec fn same_key(a: GenotypeRecord, b: GenotypeRecord) -> bool {
    chrom_bytes(a) == chrom_bytes(b) && a.start == b.start && a.end == b.end
}

/// `a` comes no later than `b` in output order: by chromosome name, then start, then end.
pub open spec fn record_le(a: GenotypeRecord, b: GenotypeRecord) -> bool {
    ||| bytes_lt(chrom_bytes(a), chrom_bytes(b))
    ||| chrom_bytes(a) == chrom_bytes(b) && a.start < b.start
    ||| chrom_bytes(a) == chrom_bytes(b) && a.start == b.start && a.end <= b.end
}

pub open spec fn records_sorted(s: Seq<GenotypeRecord>) -> bool {
    forall|i: int, j: int| 0 <= i < j < s.len() ==> record_le(#[trigger] s[i], #[trigger] s[j])
}

/// Records of the same locus are the same record.
pub open spec fn key_determines(s: Seq<GenotypeRecord>) -> bool {
    forall|i: int, j: int|
        0 <= i < s.len() && 0 <= j < s.len() && same_key(#[trigger] s[i], #[trigger] s[j]) ==> s[i]
            == s[j]
}

proof fn lemma_record_le_total(a: GenotypeRecord, b: GenotypeRecord)
    ensures
        record_le(a, b) || record_le(b, a),
{
    lemma_bytes_le_total(chrom_bytes(a), chrom_bytes(b));
}

proof fn lemma_record_le_transitive(a: GenotypeRecord, b: GenotypeRecord, c: GenotypeRecord)
    requires
        record_le(a, b),
        record_le(b, c),
    ensures
        record_le(a, c),
{
    if bytes_lt(chrom_bytes(a), chrom_bytes(b)) && bytes_lt(chrom_bytes(b), chrom_bytes(c)) {
        lemma_bytes_lt_transitive(chrom_bytes(a), chrom_bytes(b), chrom_bytes(c));
    }
}

proof fn lemma_record_le_antisymmetric(a: GenotypeRecord, b: GenotypeRecord)
    requires
        record_le(a, b),
        record_le(b, a),
    ensures
        same_key(a, b),
{
    if bytes_lt(chrom_bytes(a), chrom_bytes(b)) && bytes_lt(chrom_bytes(b), chrom_bytes(a)) {
        lemma_bytes_le_antisymmetric(chrom_bytes(a), chrom_bytes(b));
    }
}

/// Whether `a` comes no later than `b` in output order.
pub fn record_le_exec(a: &GenotypeRecord, b: &GenotypeRecord) -> (r: bool)
    ensures
        r == record_le(*a, *b),
{
    let ca = a.chrom.as_str().as_bytes();
    let cb = b.chrom.as_str().as_bytes();
    if bytes_eq(ca, cb) {
        a.start < b.start || (a.start == b.start && a.end <= b.end)
    } else {
        bytes_le_exec(ca, cb)
    }
}

/// Puts records in output order: by chromosome name, then start, then end.
pub fn sort_records(records: Vec<GenotypeRecord>) -> (r: Vec<GenotypeRecord>)
    ensures
        records_sorted(r@),
        r@.to_multiset() == records@.to_multiset(),
{
    broadcast use group_to_multiset_ensures, vstd::multiset::group_multiset_axioms;

    let mut rest = records;
    let mut out: Vec<GenotypeRecord> = Vec::new();
    while rest.len() > 0
        invariant
            records_sorted(out@),
            out@.to_multiset().add(rest@.to_multiset()) == records@.to_multiset(),
        decreases rest@.len(),
    {
        let ghost before = rest@;
        let x = rest.pop().unwrap();
        assert(before =~= rest@.push(x));
        proof {
            vstd::seq_lib::to_multiset_build(rest@, x);
        }
        let mut p: usize = 0;
        while p < out.len() && record_le_exec(&out[p], &x)
            invariant
                p <= out@.len(),
                forall|k: int| 0 <= k < p ==> record_le(#[trigger] out@[k], x),
            decreases out@.len() - p,
        {
            p = p + 1;
        }
        let ghost old_out = out@;
        proof {
            if p < out@.len() {
                lemma_record_le_total(out@[p as int], x);
                assert forall|k: int| p <= k < out@.len() implies record_le(x, #[trigger] out@[k]) by {
                    if k > p {
                        lemma_record_le_transitive(x, out@[p as int], out@[k]);
                    }
                }
            }
            to_multiset_insert(old_out, p as int, x);
        }
        out.insert(p, x);
        proof {
            assert forall|i: int, j: int| 0 <= i < j < out@.len() implies record_le(
                #[trigger] out@[i],
                #[trigger] out@[j],
            ) by {
                if j < p {
                    assert(record_le(old_out[i], old_out[j]));
                } else if j == p {
                } else if i < p {
                    assert(record_le(old_out[i], x));
                    assert(record_le(x, old_out[j - 1]));
                    lemma_record_le_transitive(old_out[i], x, old_out[j - 1]);
                } else if i == p {
                } else {
                    assert(record_le(old_out[i - 1], old_out[j - 1]));
                }
            }
            assert(out@.to_multiset().add(rest@.to_multiset()) =~= records@.to_multiset());
        }
    }
    assert(rest@.to_multiset() =~= Multiset::<GenotypeRecord>::empty());
    assert(out@.to_multiset().add(rest@.to_multiset()) =~= out@.to_multiset());
    out
}

/// Output order is fully determined by the records: two sorted sequences that hold
/// the same records, where records of the same locus are the same record, are equal.
/// So however the records were produced, in whatever order workers finished, the
/// sorted output is the same.
pub proof fn lemma_sorted_records_unique(x: Seq<GenotypeRecord>, y: Seq<GenotypeRecord>)
    requires
        records_sorted(x),
        records_sorted(y),
        x.to_multiset() == y.to_multiset(),
        key_determines(x),
    ensures
        x == y,
    decreases x.len(),
{
    broadcast use group_to_multiset_ensures, vstd::multiset::group_multiset_axioms;

    if x.len() == 0 || y.len() == 0 {
        assert(x.to_multiset().len() == y.to_multiset().len());
        assert(x =~= y);
    } else {
        assert(y.to_multiset().contains(y[0]));
        assert(x.contains(y[0]));
        let i = choose|i: int| 0 <= i < x.len() && x[i] == y[0];
        assert(x.to_multiset().contains(x[0]));
        assert(y.contains(x[0]));
        let j = choose|j: int| 0 <= j < y.len() && y[j] == x[0];
        if i > 0 {
            assert(record_le(x[0], x[i]));
        }
        if j > 0 {
            assert(record_le(y[0], y[j]));
        }
        lemma_record_le_antisymmetric(x[0], y[0]);
        assert(x[0] == x[i]);
        assert(x.remove(0) =~= x.drop_first());
        assert(y.remove(0) =~= y.drop_first());
        assert(x.drop_first().to_multiset() =~= x.to_multiset().remove(x[0]));
        assert(y.drop_first().to_multiset() =~= y.to_multiset().remove(y[0]));
        assert forall|a: int, b: int| 0 <= a < x.drop_first().len() && 0 <= b < x.drop_first().len()
            && same_key(#[trigger] x.drop_first()[a], #[trigger] x.drop_first()[b]) implies x.drop_first()[a]
            == x.drop_first()[b] by {
            assert(same_key(x[a + 1], x[b + 1]));
        }
        lemma_sorted_records_unique(x.drop_first(), y.drop_first());
        assert(x =~= seq![x[0]] + x.drop_first());
        assert(y =~= seq![y[0]] + y.drop_first());
    }
}

} // verus!
