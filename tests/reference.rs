use strdust::reference::{
    compress_reference, junction_window, FlankConfig, ReferenceBoundsError, DEFAULT_FLANK,
    DEFAULT_WINDOW_RADIUS,
};

#[test]
fn locus_on_chr7_gives_twice_the_flank() {
    let start: usize = 154654404;
    let end: usize = 154654432;
    let mut chrom = vec![b'A'; end + DEFAULT_FLANK];
    for b in chrom[start..end].iter_mut() {
        *b = b'N';
    }
    let flanks = FlankConfig { left: DEFAULT_FLANK, right: DEFAULT_FLANK };
    let r = compress_reference(&chrom, start, end, flanks).unwrap();
    assert_eq!(r.len(), 20000);
    assert!(!r.contains(&b'N'));
}

#[test]
fn compressed_reference_takes_the_right_bases() {
    let chrom = b"0123456789abcdefghij".to_vec();
    let flanks = FlankConfig { left: 3, right: 4 };
    // left flank ends two bases before start 8: positions 3..6
    let r = compress_reference(&chrom, 8, 12, flanks).unwrap();
    assert_eq!(r, b"345cdef".to_vec());
}

#[test]
fn flank_outside_chromosome_fails() {
    let chrom = vec![b'C'; 100];
    let flanks = FlankConfig { left: 10, right: 10 };
    assert_eq!(compress_reference(&chrom, 11, 50, flanks), Err(ReferenceBoundsError));
    assert!(compress_reference(&chrom, 12, 50, flanks).is_ok());
    assert_eq!(compress_reference(&chrom, 50, 91, flanks), Err(ReferenceBoundsError));
    assert!(compress_reference(&chrom, 50, 90, flanks).is_ok());
    assert_eq!(compress_reference(&chrom, 60, 50, flanks), Err(ReferenceBoundsError));
}

#[test]
fn window_is_centred_on_the_junction() {
    let w = junction_window(FlankConfig { left: DEFAULT_FLANK, right: DEFAULT_FLANK }, DEFAULT_WINDOW_RADIUS);
    assert_eq!((w.low, w.high), (9990, 10010));
    let w = junction_window(FlankConfig { left: 4, right: 4 }, 10);
    assert_eq!((w.low, w.high), (0, 14));
}
