//! The locus-local reference with the repeat cut out: a left flank that ends two
//! bases before the repeat's start, followed by a right flank that begins at its end.
use vstd::prelude::*;
use crate::tag::InsertionWindow;

verus! {

/// Flank size taken on each side of a repeat by default.
pub const DEFAULT_FLANK: usize = 10000;

/// Bases skipped between the left flank and the repeat's start.
pub const LEFT_GAP: usize = 2;

/// Half-width of the insertion window round the junction by default.
pub const DEFAULT_WINDOW_RADIUS: usize = 10;

/// The number of reference bases taken on each side of a repeat.
#[derive(Clone, Copy, Debug)]
pub struct FlankConfig {
    pub left: usize,
    pub right: usize,
}

/// A flank would reach outside the chromosome, or the interval ends before it starts.
#[derive(Clone, Copy, Debug, PartialEq, Eq)]
pub struct ReferenceBoundsError;

/// Whether both flanks of `[start, end)` lie inside a chromosome of `chrom_len` bases.
pub open spec fn flanks_in_bounds(chrom_len: int, start: int, end: int, left: int, right: int) -> bool {
    &&& left + LEFT_GAP <= start
    &&& start <= end
    &&& end + right <= chrom_len
}

/// The chromosome position that base `i` of the compressed reference comes from.
pub open spec fn source_position(i: int, start: int, end: int, left: int) -> int {
    if i < left {
        start - LEFT_GAP - left + i
    } else {
        end + (i - left)
    }
}

/// The compressed reference: the left flank followed by the right flank.
pub open spec fn compressed(chrom: Seq<u8>, start: int, end: int, left: int, right: int) -> Seq<u8> {
    chrom.subrange(start - LEFT_GAP - left, start - LEFT_GAP) + chrom.subrange(end, end + right)
}

/// Builds the compressed reference of the repeat `[start, end)` from the sequence of
/// its chromosome. Fails where a flank would leave the chromosome rather than clamp.
pub fn compress_reference(chrom: &[u8], start: usize, end: usize, flanks: FlankConfig) -> (r: Result<
    Vec<u8>,
    ReferenceBoundsError,
>)
    ensures
        r.is_ok() <==> flanks_in_bounds(
            chrom@.len() as int,
            start as int,
            end as int,
            flanks.left as int,
            flanks.right as int,
        ),
        r.is_ok() ==> r.unwrap()@ == compressed(
            chrom@,
            start as int,
            end as int,
            flanks.left as int,
            flanks.right as int,
        ),
{
    let n = chrom.len();
    if start < LEFT_GAP || start - LEFT_GAP < flanks.left || end < start || n < end || n - end
        < flanks.right {
        return Err(ReferenceBoundsError);
    }
    let from = start - LEFT_GAP - flanks.left;
    let mut out: Vec<u8> = Vec::new();
    append_range(&mut out, chrom, from, start - LEFT_GAP);
    append_range(&mut out, chrom, end, end + flanks.right);
    assert(out@ =~= compressed(chrom@, start as int, end as int, flanks.left as int, flanks.right as int));
    Ok(out)
}

/// Appends `src[from..to]` to `out`.
fn append_range(out: &mut Vec<u8>, src: &[u8], from: usize, to: usize)
    requires
        from <= to <= src@.len(),
    ensures
        final(out)@ == old(out)@ + src@.subrange(from as int, to as int),
{
    let mut k: usize = from;
    while k < to
        invariant
            from <= k <= to <= src@.len(),
            out@ == old(out)@ + src@.subrange(from as int, k as int),
        decreases to - k,
    {
        out.push(src[k]);
        k = k + 1;
        assert(out@ =~= old(out)@ + src@.subrange(from as int, k as int));
    }
}

/// A compressed reference built with flank size `flank` on both sides is `2 * flank`
/// bases long, and each of its bases is the chromosome's base at a position outside
/// the repeat `[start, end)`.
pub proof fn lemma_compressed_excludes_repeat(chrom: Seq<u8>, start: int, end: int, flank: int)
    requires
        flank >= 0,
        flanks_in_bounds(chrom.len() as int, start, end, flank, flank),
    ensures
        compressed(chrom, start, end, flank, flank).len() == 2 * flank,
        forall|i: int|
            0 <= i < 2 * flank ==> {
                let p = #[trigger] source_position(i, start, end, flank);
                &&& 0 <= p < chrom.len()
                &&& (p < start || p >= end)
                &&& compressed(chrom, start, end, flank, flank)[i] == chrom[p]
            },
{
}

/// The position in a compressed reference where the repeat was cut out: the first
/// base of the right flank.
pub open spec fn junction(flanks: FlankConfig) -> int {
    flanks.left as int
}

/// The insertion window `[junction - radius, junction + radius]`, clipped to the
/// machine's range.
pub fn junction_window(flanks: FlankConfig, radius: usize) -> (w: InsertionWindow)
    ensures
        w.low == if junction(flanks) >= radius { junction(flanks) - radius } else { 0 },
        w.high == if junction(flanks) + radius <= usize::MAX {
            junction(flanks) + radius
        } else {
            usize::MAX as int
        },
{
    let low = if flanks.left >= radius {
        flanks.left - radius
    } else {
        0
    };
    let high = if flanks.left <= usize::MAX - radius {
        flanks.left + radius
    } else {
        usize::MAX
    };
    InsertionWindow { low, high }
}

} // verus!
