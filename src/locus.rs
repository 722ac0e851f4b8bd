//! Genotyping of one locus: reads split by haplotype, each read's alignment reduced
//! to a candidate, each haplotype's candidates reduced to a call.
use vstd::prelude::*;
use crate::consensus::{build_consensus, call_meets, views};
use crate::record::GenotypeRecord;
use crate::tag::{parse_alignment_tag, tag_candidate, AlignmentPath, InsertionWindow, MalformedAlignmentTag};

verus! {

/// Separator between the candidates of one haplotype in the somatic field.
pub const CANDIDATE_SEPARATOR: u8 = 44;

/// Separator between the two haplotypes in the somatic field.
pub const HAPLOTYPE_SEPARATOR: u8 = 124;

/// A repeat locus, `[start, end)` on chromosome `chrom`.
#[derive(Clone, Debug)]
pub struct RepeatInterval {
    pub chrom: String,
    pub start: u32,
    pub end: u32,
}

/// The bases of one aligned read and its haplotype phase: 1 or 2, 0 where unphased.
#[derive(Clone, Debug)]
pub struct PhasedRead {
    pub bases: Vec<u8>,
    pub phase: u8,
}

/// The reads of a locus by haplotype; unphased reads are left out.
#[derive(Clone, Debug)]
pub struct HaplotypeReadSet {
    pub hap1: Vec<Vec<u8>>,
    pub hap2: Vec<Vec<u8>>,
}

/// Settings of the per-locus calling.
#[derive(Clone, Copy, Debug)]
pub struct CallConfig {
    /// Insertions must be longer than this to count.
    pub minlen: usize,
    /// Reads with a candidate needed for a call.
    pub support: usize,
    /// Whether to keep every read's candidate in the record.
    pub somatic: bool,
    /// Where on the compressed reference an insertion counts.
    pub window: InsertionWindow,
}

/// The bases of the reads of phase `phase`, in order.
pub open spec fn reads_of_phase(reads: Seq<PhasedRead>, phase: u8) -> Seq<Seq<u8>>
    decreases reads.len(),
{
    if reads.len() == 0 {
        Seq::empty()
    } else if reads.last().phase == phase {
        reads_of_phase(reads.drop_last(), phase).push(reads.last().bases@)
    } else {
        reads_of_phase(reads.drop_last(), phase)
    }
}

/// Splits the reads of a locus by haplotype phase, dropping unphased reads.
pub fn partition_reads(reads: &Vec<PhasedRead>) -> (r: HaplotypeReadSet)
    ensures
        views(r.hap1@) == reads_of_phase(reads@, 1),
        views(r.hap2@) == reads_of_phase(reads@, 2),
{
    let mut hap1: Vec<Vec<u8>> = Vec::new();
    let mut hap2: Vec<Vec<u8>> = Vec::new();
    let mut i: usize = 0;
    assert(reads@.subrange(0, 0) =~= Seq::<PhasedRead>::empty());
    assert(views(hap1@) =~= Seq::<Seq<u8>>::empty());
    assert(views(hap2@) =~= Seq::<Seq<u8>>::empty());
    while i < reads.len()
        invariant
            i <= reads@.len(),
            views(hap1@) == reads_of_phase(reads@.subrange(0, i as int), 1),
            views(hap2@) == reads_of_phase(reads@.subrange(0, i as int), 2),
        decreases reads@.len() - i,
    {
        assert(reads@.subrange(0, i + 1).drop_last() =~= reads@.subrange(0, i as int));
        let read = &reads[i];
        if read.phase == 1 {
            hap1.push(read.bases.clone());
            assert(views(hap1@) =~= reads_of_phase(reads@.subrange(0, i + 1), 1));
        } else if read.phase == 2 {
            hap2.push(read.bases.clone());
            assert(views(hap2@) =~= reads_of_phase(reads@.subrange(0, i + 1), 2));
        }
        i = i + 1;
    }
    assert(reads@.subrange(0, i as int) =~= reads@);
    HaplotypeReadSet { hap1, hap2 }
}

/// The candidates of a haplotype's reads, in read order, leaving out reads without
/// one; `None` where some read's tag is malformed.
pub open spec fn candidates_of(paths: Seq<AlignmentPath>, window: InsertionWindow, minlen: int) -> Option<
    Seq<Seq<u8>>,
>
    decreases paths.len(),
{
    if paths.len() == 0 {
        Some(Seq::empty())
    } else {
        match candidates_of(paths.drop_last(), window, minlen) {
            None => None,
            Some(c) => match tag_candidate(
                paths.last().tag@,
                paths.last().ref_start as int,
                window.low as int,
                window.high as int,
                minlen,
            ) {
                Err(_) => None,
                Ok(None) => Some(c),
                Ok(Some(s)) => Some(c.push(s)),
            },
        }
    }
}

/// Reads the alignment of each read of a haplotype and returns the candidates, in
/// read order. A malformed tag anywhere is an error.
pub fn haplotype_candidates(paths: &Vec<AlignmentPath>, window: InsertionWindow, minlen: usize) -> (r:
    Result<Vec<Vec<u8>>, MalformedAlignmentTag>)
    ensures
        r.is_ok() <==> candidates_of(paths@, window, minlen as int).is_some(),
        r.is_ok() ==> views(r.unwrap()@) == candidates_of(paths@, window, minlen as int).unwrap(),
{
    let mut out: Vec<Vec<u8>> = Vec::new();
    let mut i: usize = 0;
    assert(paths@.subrange(0, 0) =~= Seq::<AlignmentPath>::empty());
    assert(views(out@) =~= Seq::<Seq<u8>>::empty());
    while i < paths.len()
        invariant
            i <= paths@.len(),
            candidates_of(paths@.subrange(0, i as int), window, minlen as int) == Some(views(out@)),
        decreases paths@.len() - i,
    {
        assert(paths@.subrange(0, i + 1).drop_last() =~= paths@.subrange(0, i as int));
        let path = &paths[i];
        match parse_alignment_tag(path.tag.as_slice(), path.ref_start, window, minlen) {
            Err(e) => {
                proof {
                    lemma_candidates_error_sticks(paths@, window, minlen as int, i as int + 1);
                }
                return Err(e);
            },
            Ok(None) => {},
            Ok(Some(s)) => {
                out.push(s);
                assert(views(out@) =~= candidates_of(
                    paths@.subrange(0, i + 1),
                    window,
                    minlen as int,
                ).unwrap());
            },
        }
        i = i + 1;
    }
    assert(paths@.subrange(0, i as int) =~= paths@);
    Ok(out)
}

proof fn lemma_candidates_error_sticks(
    paths: Seq<AlignmentPath>,
    window: InsertionWindow,
    minlen: int,
    k: int,
)
    requires
        0 <= k <= paths.len(),
        candidates_of(paths.subrange(0, k), window, minlen).is_none(),
    ensures
        candidates_of(paths, window, minlen).is_none(),
    decreases paths.len() - k,
{
    if k < paths.len() {
        assert(paths.subrange(0, k + 1).drop_last() =~= paths.subrange(0, k));
        lemma_candidates_error_sticks(paths, window, minlen, k + 1);
    } else {
        assert(paths.subrange(0, k) =~= paths);
    }
}

/// The candidates joined by `sep`.
pub open spec fn joined(c: Seq<Seq<u8>>, sep: u8) -> Seq<u8>
    decreases c.len(),
{
    if c.len() == 0 {
        Seq::empty()
    } else if c.len() == 1 {
        c[0]
    } else {
        joined(c.drop_last(), sep).push(sep) + c.last()
    }
}

/// The somatic field: each haplotype's candidates joined by commas, the two lists
/// joined by a bar.
pub open spec fn somatic_field(hap1: Seq<Seq<u8>>, hap2: Seq<Seq<u8>>) -> Seq<u8> {
    joined(hap1, CANDIDATE_SEPARATOR).push(HAPLOTYPE_SEPARATOR) + joined(hap2, CANDIDATE_SEPARATOR)
}

/// Appends the candidates joined by `sep` to `out`.
fn append_joined(out: &mut Vec<u8>, c: &Vec<Vec<u8>>, sep: u8)
    ensures
        final(out)@ == old(out)@ + joined(views(c@), sep),
{
    let ghost start = out@;
    let mut i: usize = 0;
    assert(views(c@).subrange(0, 0) =~= Seq::<Seq<u8>>::empty());
    assert(out@ =~= start + joined(views(c@).subrange(0, 0), sep));
    while i < c.len()
        invariant
            i <= c@.len(),
            out@ == start + joined(views(c@).subrange(0, i as int), sep),
        decreases c@.len() - i,
    {
        let ghost sub = views(c@).subrange(0, i + 1);
        assert(sub.drop_last() =~= views(c@).subrange(0, i as int));
        if i > 0 {
            out.push(sep);
        }
        let mut k: usize = 0;
        let ghost mid = out@;
        while k < c[i].len()
            invariant
                i < c@.len(),
                k <= c@[i as int]@.len(),
                out@ == mid + c@[i as int]@.subrange(0, k as int),
            decreases c@[i as int]@.len() - k,
        {
            out.push(c[i][k]);
            k = k + 1;
            assert(out@ =~= mid + c@[i as int]@.subrange(0, k as int));
        }
        assert(c@[i as int]@.subrange(0, k as int) =~= c@[i as int]@);
        if i == 0 {
            assert(out@ =~= start + joined(sub, sep));
        } else {
            assert(out@ =~= start + joined(sub, sep));
        }
        i = i + 1;
    }
    assert(views(c@).subrange(0, i as int) =~= views(c@));
}

/// Builds the somatic field of a locus from both haplotypes' candidates.
pub fn build_somatic_field(hap1: &Vec<Vec<u8>>, hap2: &Vec<Vec<u8>>) -> (r: Vec<u8>)
    ensures
        r@ == somatic_field(views(hap1@), views(hap2@)),
{
    let mut out: Vec<u8> = Vec::new();
    append_joined(&mut out, hap1, CANDIDATE_SEPARATOR);
    out.push(HAPLOTYPE_SEPARATOR);
    append_joined(&mut out, hap2, CANDIDATE_SEPARATOR);
    assert(out@ =~= somatic_field(views(hap1@), views(hap2@)));
    out
}

/// Genotypes one locus from the alignments of its reads against the compressed
/// reference, one list per haplotype. A malformed tag is an error.
pub fn genotype_locus(
    interval: &RepeatInterval,
    hap1: &Vec<AlignmentPath>,
    hap2: &Vec<AlignmentPath>,
    cfg: CallConfig,
) -> (r: Result<GenotypeRecord, MalformedAlignmentTag>)
    ensures
        r.is_ok() <==> candidates_of(hap1@, cfg.window, cfg.minlen as int).is_some()
            && candidates_of(hap2@, cfg.window, cfg.minlen as int).is_some(),
        r.is_ok() ==> {
            let rec = r.unwrap();
            let c1 = candidates_of(hap1@, cfg.window, cfg.minlen as int).unwrap();
            let c2 = candidates_of(hap2@, cfg.window, cfg.minlen as int).unwrap();
            &&& rec.chrom@ == interval.chrom@
            &&& rec.start == interval.start
            &&& rec.end == interval.end
            &&& call_meets(c1, cfg.support as int, rec.hap1)
            &&& call_meets(c2, cfg.support as int, rec.hap2)
            &&& rec.somatic.is_some() == cfg.somatic
            &&& cfg.somatic ==> rec.somatic.unwrap()@ == somatic_field(c1, c2)
        },
{
    let c1 = match haplotype_candidates(hap1, cfg.window, cfg.minlen) {
        Err(e) => return Err(e),
        Ok(c) => c,
    };
    let c2 = match haplotype_candidates(hap2, cfg.window, cfg.minlen) {
        Err(e) => return Err(e),
        Ok(c) => c,
    };
    let call1 = build_consensus(&c1, cfg.support);
    let call2 = build_consensus(&c2, cfg.support);
    let somatic = if cfg.somatic {
        Some(build_somatic_field(&c1, &c2))
    } else {
        None
    };
    Ok(
        GenotypeRecord {
            chrom: interval.chrom.clone(),
            start: interval.start,
            end: interval.end,
            hap1: call1,
            hap2: call2,
            somatic,
        },
    )
}

} // verus!
