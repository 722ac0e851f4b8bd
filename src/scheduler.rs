//! Decisions of a genotyping run over many loci: what to do with each locus's
//! outcome, and the order of the output.
//!
//! With one worker, records are written as soon as they are made, in the order the
//! loci came. With more, workers finish in any order, so records are held back and
//! sorted by chromosome, start and end at the end of the run. A chromosome missing
//! from the alignment store is reported once however many loci name it.
use vstd::prelude::*;
use crate::record::{key_determines, lemma_sorted_records_unique, records_sorted, same_key, sort_records, GenotypeRecord};

verus! {

/// The chromosomes already reported as missing from the alignment store.
pub struct ReportedContigErrors {
    names: Vec<String>,
}

impl ReportedContigErrors {
    pub closed spec fn view(&self) -> Set<Seq<char>> {
        Set::new(|s: Seq<char>| exists|i: int| 0 <= i < self.names@.len() && (#[trigger] self.names@[i])@ == s)
    }

    /// An empty set.
    pub fn new() -> (r: ReportedContigErrors)
        ensures
            r@ == Set::<Seq<char>>::empty(),
    {
        let r = ReportedContigErrors { names: Vec::new() };
        assert(r@ =~= Set::<Seq<char>>::empty());
        r
    }

    /// Whether `chrom` was reported already.
    pub fn contains(&self, chrom: &String) -> (r: bool)
        ensures
            r == self@.contains(chrom@),
    {
        let mut i: usize = 0;
        while i < self.names.len()
            invariant
                i <= self.names@.len(),
                forall|k: int| 0 <= k < i ==> (#[trigger] self.names@[k])@ != chrom@,
            decreases self.names@.len() - i,
        {
            if self.names[i] == *chrom {
                assert(self.names@[i as int]@ == chrom@);
                return true;
            }
            i = i + 1;
        }
        false
    }

    /// Records that `chrom` is missing; true where it had not been reported before,
    /// that is where it is to be reported now.
    pub fn report(&mut self, chrom: &String) -> (first: bool)
        ensures
            first == !old(self)@.contains(chrom@),
            final(self)@ == old(self)@.insert(chrom@),
    {
        if self.contains(chrom) {
            assert(self@ =~= old(self)@.insert(chrom@));
            false
        } else {
            let ghost before = self.names@;
            self.names.push(chrom.clone());
            assert(self@ =~= old(self)@.insert(chrom@)) by {
                assert forall|s: Seq<char>| self@.contains(s) <==> old(self)@.insert(chrom@).contains(s) by {
                    if old(self)@.contains(s) {
                        let i = choose|i: int| 0 <= i < before.len() && (#[trigger] before[i])@ == s;
                        assert(self.names@[i] == before[i]);
                    }
                    if s == chrom@ {
                        assert(self.names@[before.len() as int]@ == s);
                    }
                }
            }
            true
        }
    }
}

/// What happened to one locus.
#[derive(Clone, Debug)]
pub enum LocusOutcome {
    /// The locus was genotyped.
    Genotyped(GenotypeRecord),
    /// The locus's chromosome is not in the alignment store.
    ContigNotFound(String),
}

/// What the run is to do next.
#[derive(Clone, Debug)]
pub enum Action {
    /// Write this record now.
    Write(GenotypeRecord),
    /// Report this chromosome as missing from the alignment store.
    ReportMissingContig(String),
    /// Nothing for now.
    Nothing,
}

/// The state of a run.
pub struct Scheduler {
    streaming: bool,
    reported: ReportedContigErrors,
    pending: Vec<GenotypeRecord>,
}

impl Scheduler {
    /// Whether records are written as they come.
    pub closed spec fn streaming(&self) -> bool {
        self.streaming
    }

    /// The chromosomes reported as missing so far.
    pub closed spec fn reported(&self) -> Set<Seq<char>> {
        self.reported@
    }

    /// The records held back for the final sort.
    pub closed spec fn pending(&self) -> Seq<GenotypeRecord> {
        self.pending@
    }

    /// A run with `threads` workers: one streams, more sort at the end.
    pub fn new(threads: usize) -> (s: Scheduler)
        ensures
            s.streaming() == (threads == 1),
            s.reported() == Set::<Seq<char>>::empty(),
            s.pending() == Seq::<GenotypeRecord>::empty(),
    {
        Scheduler { streaming: threads == 1, reported: ReportedContigErrors::new(), pending: Vec::new() }
    }

    /// Whether records are written as they come.
    pub fn is_streaming(&self) -> (r: bool)
        ensures
            r == self.streaming(),
    {
        self.streaming
    }

    /// Takes the outcome of one locus and says what to do. A record is written at
    /// once when streaming and held back otherwise; a missing chromosome is reported
    /// the first time only.
    pub fn on_outcome(&mut self, outcome: LocusOutcome) -> (a: Action)
        ensures
            final(self).streaming() == old(self).streaming(),
            match outcome {
                LocusOutcome::Genotyped(rec) => {
                    &&& final(self).reported() == old(self).reported()
                    &&& if old(self).streaming() {
                        &&& a == Action::Write(rec)
                        &&& final(self).pending() == old(self).pending()
                    } else {
                        &&& a == Action::Nothing
                        &&& final(self).pending() == old(self).pending().push(rec)
                    }
                },
                LocusOutcome::ContigNotFound(chrom) => {
                    &&& final(self).pending() == old(self).pending()
                    &&& final(self).reported() == old(self).reported().insert(chrom@)
                    &&& if old(self).reported().contains(chrom@) {
                        a == Action::Nothing
                    } else {
                        a == Action::ReportMissingContig(chrom)
                    }
                },
            },
    {
        match outcome {
            LocusOutcome::Genotyped(rec) => {
                if self.streaming {
                    Action::Write(rec)
                } else {
                    self.pending.push(rec);
                    Action::Nothing
                }
            },
            LocusOutcome::ContigNotFound(chrom) => {
                if self.reported.report(&chrom) {
                    Action::ReportMissingContig(chrom)
                } else {
                    Action::Nothing
                }
            },
        }
    }

    /// Ends the run: the records held back, sorted by chromosome, start and end.
    pub fn finish(self) -> (r: Vec<GenotypeRecord>)
        ensures
            records_sorted(r@),
            r@.to_multiset() == self.pending().to_multiset(),
    {
        sort_records(self.pending)
    }
}

/// The sorted output of a run depends on its records alone. Two runs that made the
/// same records, in any order (one worker streaming, or many finishing in any order),
/// where a locus always gives the same record, have the same sorted output.
pub proof fn lemma_sorted_output_deterministic(
    made_a: Seq<GenotypeRecord>,
    made_b: Seq<GenotypeRecord>,
    out_a: Seq<GenotypeRecord>,
    out_b: Seq<GenotypeRecord>,
)
    requires
        made_a.to_multiset() == made_b.to_multiset(),
        key_determines(made_a),
        records_sorted(out_a),
        records_sorted(out_b),
        out_a.to_multiset() == made_a.to_multiset(),
        out_b.to_multiset() == made_b.to_multiset(),
    ensures
        out_a == out_b,
{
    broadcast use vstd::seq_lib::group_to_multiset_ensures;

    assert forall|i: int, j: int|
        0 <= i < out_a.len() && 0 <= j < out_a.len() && same_key(
            #[trigger] out_a[i],
            #[trigger] out_a[j],
        ) implies out_a[i] == out_a[j] by {
        assert(out_a.to_multiset().contains(out_a[i]));
        assert(out_a.to_multiset().contains(out_a[j]));
        assert(made_a.contains(out_a[i]));
        assert(made_a.contains(out_a[j]));
        let p = choose|p: int| 0 <= p < made_a.len() && made_a[p] == out_a[i];
        let q = choose|q: int| 0 <= q < made_a.len() && made_a[q] == out_a[j];
        assert(same_key(made_a[p], made_a[q]));
    }
    lemma_sorted_records_unique(out_a, out_b);
}

} // verus!
