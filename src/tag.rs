//! Decoding of the aligner's compact edit-operation tag.
//!
//! A tag is a concatenation of operations:
//! `:n` a match of `n` bases, `*xy` a mismatch of one base (reference `x`, read `y`),
//! `-bases` a deletion from the reference, `+bases` an insertion into the read.
//! A reference cursor starts at the path's start offset; matches, mismatches and
//! deletions move it, insertions do not. Insertions longer than the minimum length
//! whose cursor lies inside the window round the junction are kept, concatenated
//! in the order they appear.
use vstd::prelude::*;

verus! {

pub const OP_MATCH: u8 = 58;

pub const OP_MISMATCH: u8 = 42;

pub const OP_DELETION: u8 = 45;

pub const OP_INSERTION: u8 = 43;

/// Reference positions, both ends included, where an insertion counts as a
/// change of the excised repeat.
#[derive(Clone, Copy, Debug)]
pub struct InsertionWindow {
    pub low: usize,
    pub high: usize,
}

/// One read aligned against the compressed reference.
#[derive(Clone, Debug)]
pub struct AlignmentPath {
    /// Offset on the reference where the alignment starts.
    pub ref_start: usize,
    /// The edit-operation tag.
    pub tag: Vec<u8>,
}

/// The tag holds an operation symbol outside the four known ones, or an
/// operation without the bases or digits it needs.
#[derive(Clone, Copy, Debug, PartialEq, Eq)]
pub struct MalformedAlignmentTag;

pub open spec fn is_digit(b: u8) -> bool {
    48 <= b <= 57
}

pub open spec fn is_letter(b: u8) -> bool {
    (65 <= b <= 90) || (97 <= b <= 122)
}

/// The characters that may follow operation symbol `op`: digits after a match,
/// bases otherwise.
pub open spec fn is_body(op: u8, b: u8) -> bool {
    if op == OP_MATCH {
        is_digit(b)
    } else {
        is_letter(b)
    }
}

/// The index where the run of body characters of `op` that begins at `i` ends.
pub open spec fn body_end(tag: Seq<u8>, op: u8, i: int) -> int
    decreases tag.len() - i,
{
    if 0 <= i < tag.len() && is_body(op, tag[i]) {
        body_end(tag, op, i + 1)
    } else {
        i
    }
}

/// The number written by a run of decimal digits.
pub open spec fn digits_value(d: Seq<u8>) -> int
    decreases d.len(),
{
    if d.len() == 0 {
        0
    } else {
        digits_value(d.drop_last()) * 10 + (d.last() - 48)
    }
}

/// Whether an insertion of `len` bases at reference position `cursor` is kept.
pub open spec fn qualifies(len: int, cursor: int, low: int, high: int, minlen: int) -> bool {
    len > minlen && low <= cursor <= high
}

/// The kept insertions, concatenated, of the operations from index `i` on, with the
/// cursor at `cursor`; `None` where the tag is malformed from there on.
pub open spec fn scan(
    tag: Seq<u8>,
    i: int,
    cursor: int,
    low: int,
    high: int,
    minlen: int,
) -> Option<Seq<u8>>
    decreases tag.len() - i,
    via scan_decreases
{
    if i < 0 || i >= tag.len() {
        Some(Seq::empty())
    } else {
        let op = tag[i];
        let j = body_end(tag, op, i + 1);
        let body = tag.subrange(i + 1, j);
        if op == OP_MATCH {
            if j == i + 1 {
                None
            } else {
                scan(tag, j, cursor + digits_value(body), low, high, minlen)
            }
        } else if op == OP_MISMATCH {
            if j != i + 3 {
                None
            } else {
                scan(tag, j, cursor + 1, low, high, minlen)
            }
        } else if op == OP_DELETION {
            if j == i + 1 {
                None
            } else {
                scan(tag, j, cursor + body.len(), low, high, minlen)
            }
        } else if op == OP_INSERTION {
            if j == i + 1 {
                None
            } else {
                match scan(tag, j, cursor, low, high, minlen) {
                    None => None,
                    Some(rest) => if qualifies(body.len() as int, cursor, low, high, minlen) {
                        Some(body + rest)
                    } else {
                        Some(rest)
                    },
                }
            }
        } else {
            None
        }
    }
}

proof fn lemma_body_end_bounds(tag: Seq<u8>, op: u8, i: int)
    requires
        0 <= i <= tag.len(),
    ensures
        i <= body_end(tag, op, i) <= tag.len(),
    decreases tag.len() - i,
{
    if 0 <= i < tag.len() && is_body(op, tag[i]) {
        lemma_body_end_bounds(tag, op, i + 1);
    }
}

#[via_fn]
proof fn scan_decreases(tag: Seq<u8>, i: int, cursor: int, low: int, high: int, minlen: int) {
    if 0 <= i < tag.len() {
        lemma_body_end_bounds(tag, tag[i], i + 1);
    }
}

proof fn lemma_body_end_stops(tag: Seq<u8>, op: u8, i: int)
    requires
        0 <= i <= tag.len(),
    ensures
        body_end(tag, op, i) == tag.len() || !is_body(op, tag[body_end(tag, op, i)]),
    decreases tag.len() - i,
{
    if 0 <= i < tag.len() && is_body(op, tag[i]) {
        lemma_body_end_stops(tag, op, i + 1);
    }
}

proof fn lemma_body_end_full(tag: Seq<u8>, op: u8, i: int)
    requires
        0 <= i <= tag.len(),
        forall|k: int| i <= k < tag.len() ==> is_body(op, #[trigger] tag[k]),
    ensures
        body_end(tag, op, i) == tag.len(),
    decreases tag.len() - i,
{
    if i < tag.len() {
        lemma_body_end_full(tag, op, i + 1);
    }
}

/// A tag made of match operations only: every byte a ':' or a digit, the first a
/// ':', and every ':' followed by a digit.
pub open spec fn only_matches(tag: Seq<u8>) -> bool {
    &&& forall|k: int| 0 <= k < tag.len() ==> #[trigger] tag[k] == OP_MATCH || is_digit(tag[k])
    &&& tag.len() > 0 ==> tag[0] == OP_MATCH
    &&& forall|k: int|
        0 <= k < tag.len() && #[trigger] tag[k] == OP_MATCH ==> k + 1 < tag.len() && is_digit(
            tag[k + 1],
        )
}

proof fn lemma_matches_scan_empty(
    tag: Seq<u8>,
    i: int,
    cursor: int,
    low: int,
    high: int,
    minlen: int,
)
    requires
        only_matches(tag),
        0 <= i <= tag.len(),
        i == tag.len() || tag[i] == OP_MATCH,
    ensures
        scan(tag, i, cursor, low, high, minlen) == Some(Seq::<u8>::empty()),
    decreases tag.len() - i,
{
    if i < tag.len() {
        let j = body_end(tag, OP_MATCH, i + 1);
        lemma_body_end_bounds(tag, OP_MATCH, i + 2);
        lemma_body_end_stops(tag, OP_MATCH, i + 1);
        assert(j == body_end(tag, OP_MATCH, i + 2));
        let body = tag.subrange(i + 1, j);
        lemma_matches_scan_empty(tag, j, cursor + digits_value(body), low, high, minlen);
    }
}

/// A tag of match operations only yields no candidate.
pub proof fn lemma_matches_yield_nothing(tag: Seq<u8>, start: int, low: int, high: int, minlen: int)
    requires
        only_matches(tag),
    ensures
        tag_candidate(tag, start, low, high, minlen) == Ok::<Option<Seq<u8>>, MalformedAlignmentTag>(
            None,
        ),
{
    lemma_matches_scan_empty(tag, 0, start, low, high, minlen);
}

/// One insertion of `ins` at the path's start: where it is longer than `minlen`
/// and the start lies in the window, the candidate is exactly `ins`; outside the
/// window there is none.
pub proof fn lemma_single_insertion(
    ins: Seq<u8>,
    start: int,
    low: int,
    high: int,
    minlen: int,
)
    requires
        ins.len() > minlen,
        minlen >= 0,
        forall|k: int| 0 <= k < ins.len() ==> is_letter(#[trigger] ins[k]),
    ensures
        low <= start <= high ==> tag_candidate(seq![OP_INSERTION] + ins, start, low, high, minlen)
            == Ok::<Option<Seq<u8>>, MalformedAlignmentTag>(Some(ins)),
        !(low <= start <= high) ==> tag_candidate(seq![OP_INSERTION] + ins, start, low, high, minlen)
            == Ok::<Option<Seq<u8>>, MalformedAlignmentTag>(None),
{
    let tag = seq![OP_INSERTION] + ins;
    assert forall|k: int| 1 <= k < tag.len() implies is_body(OP_INSERTION, #[trigger] tag[k]) by {
        assert(tag[k] == ins[k - 1]);
    }
    lemma_body_end_full(tag, OP_INSERTION, 1);
    assert(tag.subrange(1, tag.len() as int) =~= ins);
    assert(ins + Seq::<u8>::empty() =~= ins);
    assert(tag[0] == OP_INSERTION);
    assert(scan(tag, tag.len() as int, start, low, high, minlen) == Some(Seq::<u8>::empty()));
    if low <= start <= high {
        assert(scan(tag, 0, start, low, high, minlen) == Some(ins));
    } else {
        assert(scan(tag, 0, start, low, high, minlen) == Some(Seq::<u8>::empty()));
    }
}

/// What a tag yields for one read: the kept insertions joined, `None` where
/// none was kept, or the tag is malformed.
pub open spec fn tag_candidate(
    tag: Seq<u8>,
    start: int,
    low: int,
    high: int,
    minlen: int,
) -> Result<Option<Seq<u8>>, MalformedAlignmentTag> {
    match scan(tag, 0, start, low, high, minlen) {
        None => Err(MalformedAlignmentTag),
        Some(s) => Ok(if s.len() == 0 { None } else { Some(s) }),
    }
}

spec fn prepend(acc: Seq<u8>, r: Option<Seq<u8>>) -> Option<Seq<u8>> {
    match r {
        None => None,
        Some(s) => Some(acc + s),
    }
}

fn is_body_exec(op: u8, b: u8) -> (r: bool)
    ensures
        r == is_body(op, b),
{
    if op == OP_MATCH {
        48 <= b && b <= 57
    } else {
        (65 <= b && b <= 90) || (97 <= b && b <= 122)
    }
}

/// Finds where the body of the operation at `i` ends.
fn find_body_end(tag: &[u8], op: u8, i: usize) -> (j: usize)
    requires
        i < tag@.len(),
    ensures
        j == body_end(tag@, op, i + 1),
        i + 1 <= j <= tag@.len(),
{
    let n = tag.len();
    let mut k: usize = i + 1;
    while k < n && is_body_exec(op, tag[k])
        invariant
            i + 1 <= k <= tag@.len(),
            n == tag@.len(),
            body_end(tag@, op, i + 1) == body_end(tag@, op, k as int),
        decreases tag@.len() - k,
    {
        k = k + 1;
    }
    k
}

/// The number written by the digits `tag[from..to]`, capped at `cap`.
fn capped_digits(tag: &[u8], from: usize, to: usize, cap: u128) -> (v: u128)
    requires
        from <= to <= tag@.len(),
        cap <= u64::MAX as u128 + 1,
        forall|k: int| from <= k < to ==> is_digit(#[trigger] tag@[k]),
    ensures
        v as int == if digits_value(tag@.subrange(from as int, to as int)) < cap {
            digits_value(tag@.subrange(from as int, to as int))
        } else {
            cap as int
        },
{
    let mut v: u128 = 0;
    let mut k: usize = from;
    let ghost mut d: int = 0;
    assert(tag@.subrange(from as int, from as int) =~= Seq::<u8>::empty());
    while k < to
        invariant
            from <= k <= to <= tag@.len(),
            cap <= u64::MAX as u128 + 1,
            forall|m: int| from <= m < to ==> is_digit(#[trigger] tag@[m]),
            d == digits_value(tag@.subrange(from as int, k as int)),
            d >= 0,
            v as int == if d < cap { d } else { cap as int },
        decreases to - k,
    {
        let b = tag[k];
        assert(tag@.subrange(from as int, k + 1).drop_last() =~= tag@.subrange(from as int, k as int));
        proof {
            d = d * 10 + (b - 48);
        }
        let w: u128 = v * 10 + (b - 48) as u128;
        v = if w < cap { w } else { cap };
        k = k + 1;
    }
    v
}

/// Copies `tag[from..to]`.
fn copy_range(tag: &[u8], from: usize, to: usize) -> (r: Vec<u8>)
    requires
        from <= to <= tag@.len(),
    ensures
        r@ == tag@.subrange(from as int, to as int),
{
    let mut r: Vec<u8> = Vec::new();
    let mut k: usize = from;
    while k < to
        invariant
            from <= k <= to <= tag@.len(),
            r@ == tag@.subrange(from as int, k as int),
        decreases to - k,
    {
        r.push(tag[k]);
        k = k + 1;
        assert(r@ =~= tag@.subrange(from as int, k as int));
    }
    r
}

/// Reads one alignment tag and returns its insertion candidate: the insertions
/// longer than `minlen` whose reference position lies in `window`, joined in
/// order; `None` where there is none. An unknown operation symbol, or an
/// operation without its digits or bases, is an error.
pub fn parse_alignment_tag(
    tag: &[u8],
    ref_start: usize,
    window: InsertionWindow,
    minlen: usize,
) -> (r: Result<Option<Vec<u8>>, MalformedAlignmentTag>)
    ensures
        match tag_candidate(
            tag@,
            ref_start as int,
            window.low as int,
            window.high as int,
            minlen as int,
        ) {
            Err(e) => r == Err::<Option<Vec<u8>>, MalformedAlignmentTag>(e),
            Ok(None) => r == Ok::<Option<Vec<u8>>, MalformedAlignmentTag>(None),
            Ok(Some(s)) => r.is_ok() && r.unwrap().is_some() && r.unwrap().unwrap()@ == s,
        },
{
    let ghost low = window.low as int;
    let ghost high = window.high as int;
    let ghost full = scan(tag@, 0, ref_start as int, low, high, minlen as int);
    let cap: u128 = window.high as u128 + 1;
    let mut cur: u128 = if (ref_start as u128) < cap {
        ref_start as u128
    } else {
        cap
    };
    let ghost mut c: int = ref_start as int;
    let mut acc: Vec<u8> = Vec::new();
    let mut i: usize = 0;
    assert(acc@ + Seq::<u8>::empty() =~= acc@);
    while i < tag.len()
        invariant
            i <= tag@.len(),
            cap == high + 1,
            cap <= u64::MAX as u128 + 1,
            c >= 0,
            cur as int == if c < cap { c } else { cap as int },
            full == prepend(acc@, scan(tag@, i as int, c, low, high, minlen as int)),
            low == window.low,
            high == window.high,
            full == scan(tag@, 0, ref_start as int, low, high, minlen as int),
        decreases tag@.len() - i,
    {
        let op = tag[i];
        if op != OP_MATCH && op != OP_MISMATCH && op != OP_DELETION && op != OP_INSERTION {
            return Err(MalformedAlignmentTag);
        }
        let j = find_body_end(tag, op, i);
        if j == i + 1 {
            return Err(MalformedAlignmentTag);
        }
        if op == OP_MATCH {
            proof {
                assert forall|k: int| i + 1 <= k < j implies is_digit(#[trigger] tag@[k]) by {
                    lemma_body_run(tag@, op, i + 1, k);
                }
            }
            let n = capped_digits(tag, i + 1, j, cap);
            cur = if n >= cap - cur { cap } else { cur + n };
            proof {
                c = c + digits_value(tag@.subrange(i + 1, j as int));
            }
        } else if op == OP_MISMATCH {
            if j - i != 3 {
                return Err(MalformedAlignmentTag);
            }
            cur = if cur < cap { cur + 1 } else { cap };
            proof {
                c = c + 1;
            }
        } else if op == OP_DELETION {
            let n: u128 = (j - i - 1) as u128;
            cur = if n >= cap - cur { cap } else { cur + n };
            proof {
                c = c + (j - i - 1);
            }
        } else {
            let len: usize = j - i - 1;
            if len > minlen && window.low as u128 <= cur && cur <= window.high as u128 {
                let ins = copy_range(tag, i + 1, j);
                proof {
                    let rest = scan(tag@, j as int, c, low, high, minlen as int);
                    if rest.is_some() {
                        assert(acc@ + (ins@ + rest.unwrap()) =~= (acc@ + ins@) + rest.unwrap());
                    }
                }
                let mut ins = ins;
                acc.append(&mut ins);
            }
        }
        i = j;
    }
    assert(acc@ + Seq::<u8>::empty() =~= acc@);
    if acc.len() == 0 {
        Ok(None)
    } else {
        Ok(Some(acc))
    }
}

proof fn lemma_body_run(tag: Seq<u8>, op: u8, i: int, k: int)
    requires
        0 <= i <= k < body_end(tag, op, i),
        body_end(tag, op, i) <= tag.len(),
    ensures
        is_body(op, tag[k]),
    decreases k - i,
{
    if i < k {
        lemma_body_run(tag, op, i + 1, k);
    }
}

} // verus!
