//! Reduction of one haplotype's per-read insertion candidates to a single call.
//!
//! Candidates are grouped by exact sequence. The group with the most reads wins;
//! between groups of equal size the longer sequence wins, then the one that comes
//! first in byte order, so that the call does not depend on the order of the reads.
use vstd::prelude::*;
use crate::bytes::{bytes_eq, bytes_le, bytes_le_exec, bytes_lt, lemma_bytes_lt_connected, lemma_bytes_lt_transitive};

verus! {

/// The call for one haplotype: the representative inserted sequence and its length.
#[derive(Clone, Debug)]
pub struct Consensus {
    pub length: usize,
    pub sequence: Vec<u8>,
}

impl Consensus {
    pub open spec fn wf(&self) -> bool {
        self.length == self.sequence@.len()
    }
}

pub open spec fn views(c: Seq<Vec<u8>>) -> Seq<Seq<u8>> {
    c.map_values(|v: Vec<u8>| v@)
}

/// How many candidates equal `s`.
pub open spec fn count_of(c: Seq<Seq<u8>>, s: Seq<u8>) -> nat
    decreases c.len(),
{
    if c.len() == 0 {
        0
    } else {
        count_of(c.drop_last(), s) + if c.last() == s { 1nat } else { 0nat }
    }
}

/// How many candidates are usable, that is not empty.
pub open spec fn usable_count(c: Seq<Seq<u8>>) -> nat
    decreases c.len(),
{
    if c.len() == 0 {
        0
    } else {
        usable_count(c.drop_last()) + if c.last().len() > 0 { 1nat } else { 0nat }
    }
}

/// Candidate `a` is preferred to candidate `b`: more reads, then longer, then
/// first in byte order.
pub open spec fn preferred(c: Seq<Seq<u8>>, a: Seq<u8>, b: Seq<u8>) -> bool {
    ||| count_of(c, a) > count_of(c, b)
    ||| count_of(c, a) == count_of(c, b) && a.len() > b.len()
    ||| count_of(c, a) == count_of(c, b) && a.len() == b.len() && bytes_lt(a, b)
}

/// `s` is a usable candidate that no usable candidate is preferred to.
pub open spec fn is_best(c: Seq<Seq<u8>>, s: Seq<u8>) -> bool {
    &&& s.len() > 0
    &&& c.contains(s)
    &&& forall|i: int| 0 <= i < c.len() && c[i].len() > 0 ==> !preferred(c, #[trigger] c[i], s)
}

/// `call` is what is owed for candidates `c`: none without support, else a best candidate.
pub open spec fn call_meets(c: Seq<Seq<u8>>, support: int, call: Option<Consensus>) -> bool {
    &&& call.is_some() <==> has_support(c, support)
    &&& call.is_some() ==> call.unwrap().wf() && is_best(c, call.unwrap().sequence@)
}

/// Whether there is enough support for a call.
pub open spec fn has_support(c: Seq<Seq<u8>>, support: int) -> bool {
    usable_count(c) >= support && usable_count(c) > 0
}

proof fn lemma_preferred_transitive(c: Seq<Seq<u8>>, a: Seq<u8>, b: Seq<u8>, d: Seq<u8>)
    requires
        preferred(c, a, b),
        preferred(c, b, d),
    ensures
        preferred(c, a, d),
{
    if count_of(c, a) == count_of(c, b) && count_of(c, b) == count_of(c, d) && a.len() == b.len()
        && b.len() == d.len() {
        lemma_bytes_lt_transitive(a, b, d);
    }
}

proof fn lemma_preferred_connected(c: Seq<Seq<u8>>, a: Seq<u8>, b: Seq<u8>)
    requires
        a != b,
    ensures
        preferred(c, a, b) || preferred(c, b, a),
{
    lemma_bytes_lt_connected(a, b);
}

/// The best call of a set of candidates is unique: whatever order the reads came
/// in, two calls that meet the contract of `build_consensus` are the same sequence.
pub proof fn lemma_best_unique(c: Seq<Seq<u8>>, s: Seq<u8>, t: Seq<u8>)
    requires
        is_best(c, s),
        is_best(c, t),
    ensures
        s == t,
{
    if s != t {
        lemma_preferred_connected(c, s, t);
        let i = choose|i: int| 0 <= i < c.len() && c[i] == s;
        let j = choose|j: int| 0 <= j < c.len() && c[j] == t;
        assert(!preferred(c, c[i], t));
        assert(!preferred(c, c[j], s));
    }
}

proof fn lemma_count_le_usable(c: Seq<Seq<u8>>, s: Seq<u8>)
    requires
        s.len() > 0,
    ensures
        count_of(c, s) <= usable_count(c),
    decreases c.len(),
{
    if c.len() > 0 {
        lemma_count_le_usable(c.drop_last(), s);
    }
}

proof fn lemma_count_pair(c: Seq<Seq<u8>>, s: Seq<u8>, t: Seq<u8>)
    requires
        s.len() > 0,
        t.len() > 0,
        s != t,
    ensures
        count_of(c, s) + count_of(c, t) <= usable_count(c),
    decreases c.len(),
{
    if c.len() > 0 {
        lemma_count_pair(c.drop_last(), s, t);
    }
}

proof fn lemma_counted_is_contained(c: Seq<Seq<u8>>, s: Seq<u8>)
    requires
        count_of(c, s) > 0,
    ensures
        c.contains(s),
    decreases c.len(),
{
    if c.last() != s {
        lemma_counted_is_contained(c.drop_last(), s);
        let i = choose|i: int| 0 <= i < c.drop_last().len() && c.drop_last()[i] == s;
        assert(c[i] == s);
    } else {
        assert(c[c.len() - 1] == s);
    }
}

/// Fewer usable candidates than the support asks for give no call.
pub proof fn lemma_no_call_without_support(c: Seq<Seq<u8>>, support: int, call: Option<Consensus>)
    requires
        usable_count(c) < support,
        call_meets(c, support, call),
    ensures
        call.is_none(),
{
}

/// A sequence that more than half of the usable candidates agree on, with at least
/// `support` of them, is the call.
pub proof fn lemma_majority_is_called(
    c: Seq<Seq<u8>>,
    support: int,
    s: Seq<u8>,
    call: Option<Consensus>,
)
    requires
        s.len() > 0,
        2 * count_of(c, s) > usable_count(c),
        count_of(c, s) >= support,
        call_meets(c, support, call),
    ensures
        call.is_some(),
        call.unwrap().sequence@ == s,
        call.unwrap().length == s.len(),
{
    lemma_count_le_usable(c, s);
    lemma_counted_is_contained(c, s);
    let t = call.unwrap().sequence@;
    if t != s {
        lemma_count_pair(c, s, t);
        let i = choose|i: int| 0 <= i < c.len() && c[i] == s;
        assert(!preferred(c, c[i], t));
    }
}

/// Counts the candidates equal to `s`.
fn count_equal(cands: &Vec<Vec<u8>>, s: &[u8]) -> (n: usize)
    ensures
        n == count_of(views(cands@), s@),
{
    let mut n: usize = 0;
    let mut j: usize = 0;
    assert(views(cands@).subrange(0, 0) =~= Seq::<Seq<u8>>::empty());
    while j < cands.len()
        invariant
            j <= cands@.len(),
            n == count_of(views(cands@).subrange(0, j as int), s@),
            n <= j,
        decreases cands@.len() - j,
    {
        assert(views(cands@).subrange(0, j + 1).drop_last() =~= views(cands@).subrange(
            0,
            j as int,
        ));
        if bytes_eq(cands[j].as_slice(), s) {
            n = n + 1;
        }
        j = j + 1;
    }
    assert(views(cands@).subrange(0, j as int) =~= views(cands@));
    n
}

/// Reduces the candidates of one haplotype to a call. There is none where fewer
/// than `support` candidates (or none at all) are usable; otherwise the call is the
/// most frequent candidate, ties going to the longer, then to the first in byte order.
pub fn build_consensus(cands: &Vec<Vec<u8>>, support: usize) -> (r: Option<Consensus>)
    ensures
        call_meets(views(cands@), support as int, r),
{
    let ghost c = views(cands@);
    let mut usable: usize = 0;
    let mut best: Option<usize> = None;
    let mut best_count: usize = 0;
    let mut i: usize = 0;
    assert(c.subrange(0, 0) =~= Seq::<Seq<u8>>::empty());
    while i < cands.len()
        invariant
            i <= cands@.len(),
            c == views(cands@),
            usable == usable_count(c.subrange(0, i as int)),
            usable <= i,
            best.is_none() ==> usable == 0 && forall|j: int| 0 <= j < i ==> (#[trigger] c[j]).len() == 0,
            best.is_some() ==> {
                let b = best.unwrap() as int;
                &&& 0 <= b < i
                &&& usable > 0
                &&& c[b].len() > 0
                &&& best_count == count_of(c, c[b])
                &&& forall|j: int| 0 <= j < i && c[j].len() > 0 ==> !preferred(c, #[trigger] c[j], c[b])
            },
        decreases cands@.len() - i,
    {
        assert(c.subrange(0, i + 1).drop_last() =~= c.subrange(0, i as int));
        assert(c[i as int] == cands@[i as int]@);
        if cands[i].len() > 0 {
            usable = usable + 1;
            let n = count_equal(cands, cands[i].as_slice());
            match best {
                None => {
                    best = Some(i);
                    best_count = n;
                },
                Some(b) => {
                    let better = n > best_count || (n == best_count && (cands[i].len()
                        > cands[b].len() || (cands[i].len() == cands[b].len() && !bytes_le_exec(
                        cands[b].as_slice(),
                        cands[i].as_slice(),
                    ))));
                    proof {
                        if n == best_count && c[i as int].len() == c[b as int].len() {
                            crate::bytes::lemma_bytes_le_total(c[i as int], c[b as int]);
                        }
                    }
                    if better {
                        proof {
                            assert(preferred(c, c[i as int], c[b as int]));
                            assert forall|j: int| 0 <= j < i + 1 && c[j].len() > 0 implies !preferred(
                                c,
                                #[trigger] c[j],
                                c[i as int],
                            ) by {
                                if preferred(c, c[j], c[i as int]) {
                                    lemma_preferred_transitive(c, c[j], c[i as int], c[b as int]);
                                }
                            }
                        }
                        best = Some(i);
                        best_count = n;
                    } else {
                        proof {
                            if bytes_le(c[b as int], c[i as int]) && bytes_le(c[i as int], c[b as int]) {
                                crate::bytes::lemma_bytes_le_antisymmetric(c[i as int], c[b as int]);
                            }
                            assert(!preferred(c, c[i as int], c[b as int]));
                        }
                    }
                },
            }
        }
        i = i + 1;
    }
    assert(c.subrange(0, i as int) =~= c);
    match best {
        None => {
            assert(usable_count(c) == 0);
            None
        },
        Some(b) => {
            if usable < support {
                None
            } else {
                assert(c.contains(c[b as int]));
                let seq = cands[b].clone();
                Some(Consensus { length: seq.len(), sequence: seq })
            }
        },
    }
}

} // verus!
