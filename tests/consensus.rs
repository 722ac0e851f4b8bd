use strdust::consensus::build_consensus;
use strdust::locus::{
    build_somatic_field, genotype_locus, haplotype_candidates, partition_reads, CallConfig, PhasedRead,
    RepeatInterval,
};
use strdust::tag::{AlignmentPath, InsertionWindow, MalformedAlignmentTag};

fn v(s: &str) -> Vec<u8> {
    s.as_bytes().to_vec()
}

fn path(start: usize, tag: &str) -> AlignmentPath {
    AlignmentPath { ref_start: start, tag: v(tag) }
}

fn config(somatic: bool) -> CallConfig {
    CallConfig { minlen: 5, support: 3, somatic, window: InsertionWindow { low: 9990, high: 10010 } }
}

#[test]
fn five_reads_with_same_insertion_give_the_call() {
    let interval = RepeatInterval { chrom: "chr4".to_string(), start: 3074876, end: 3074933 };
    let hap1: Vec<AlignmentPath> = (0..5).map(|_| path(9000, ":1000+CAGCAGCAGCAG:9000")).collect();
    let hap2: Vec<AlignmentPath> = (0..4).map(|_| path(9000, ":11000")).collect();
    let rec = genotype_locus(&interval, &hap1, &hap2, config(false)).unwrap();
    let call1 = rec.hap1.unwrap();
    assert_eq!(call1.length, 12);
    assert_eq!(call1.sequence, v("CAGCAGCAGCAG"));
    assert!(rec.hap2.is_none());
    assert_eq!(rec.chrom, "chr4");
    assert_eq!((rec.start, rec.end), (3074876, 3074933));
    assert!(rec.somatic.is_none());
}

#[test]
fn fewer_than_support_gives_no_call() {
    let c = vec![v("ACGTAC"), v("ACGTAC")];
    assert!(build_consensus(&c, 3).is_none());
    let c = vec![v("ACGTAC"), v("ACGTAC"), v("")];
    assert!(build_consensus(&c, 3).is_none());
    assert!(build_consensus(&Vec::new(), 0).is_none());
}

#[test]
fn majority_group_wins() {
    let c = vec![v("CAGCAG"), v("CAGCAGCAG"), v("CAGCAG"), v("CTGCTG"), v("CAGCAG")];
    let call = build_consensus(&c, 3).unwrap();
    assert_eq!(call.sequence, v("CAGCAG"));
    assert_eq!(call.length, 6);
}

#[test]
fn support_counts_all_usable_reads() {
    // three usable reads, no two alike: the longest wins
    let c = vec![v("AAAAAA"), v("CCCCCCC"), v("GGGGGG")];
    let call = build_consensus(&c, 3).unwrap();
    assert_eq!(call.sequence, v("CCCCCCC"));
}

#[test]
fn ties_are_broken_by_length_then_byte_order() {
    let c = vec![v("TTTTTT"), v("GGGGGG"), v("TTTTTT"), v("GGGGGG")];
    assert_eq!(build_consensus(&c, 2).unwrap().sequence, v("GGGGGG"));
    let c = vec![v("GGGGGG"), v("TTTTTT"), v("GGGGGG"), v("TTTTTT")];
    assert_eq!(build_consensus(&c, 2).unwrap().sequence, v("GGGGGG"));
    let c = vec![v("TTTTTTT"), v("GGGGGG"), v("GGGGGG"), v("TTTTTTT")];
    assert_eq!(build_consensus(&c, 2).unwrap().sequence, v("TTTTTTT"));
}

#[test]
fn repeated_runs_give_the_same_call() {
    let c = vec![v("CAG"), v("CTG"), v("CAGG"), v("CTG"), v("CAG")];
    let a = build_consensus(&c, 1).unwrap();
    let b = build_consensus(&c, 1).unwrap();
    assert_eq!(a.sequence, b.sequence);
    assert_eq!(a.sequence, v("CAG"));
}

#[test]
fn reads_are_split_by_phase() {
    let reads = vec![
        PhasedRead { bases: v("AAA"), phase: 1 },
        PhasedRead { bases: v("CCC"), phase: 0 },
        PhasedRead { bases: v("GGG"), phase: 2 },
        PhasedRead { bases: v("TTT"), phase: 1 },
    ];
    let set = partition_reads(&reads);
    assert_eq!(set.hap1, vec![v("AAA"), v("TTT")]);
    assert_eq!(set.hap2, vec![v("GGG")]);
    let set = partition_reads(&Vec::new());
    assert!(set.hap1.is_empty() && set.hap2.is_empty());
}

#[test]
fn candidates_skip_reads_without_insertion() {
    let paths = vec![path(10000, "+ACGTACG"), path(0, ":50"), path(9995, ":5+TTTTTTTT")];
    let c = haplotype_candidates(&paths, config(false).window, 5).unwrap();
    assert_eq!(c, vec![v("ACGTACG"), v("TTTTTTTT")]);
    let paths = vec![path(10000, "+ACGTACG"), path(0, ":5?")];
    assert_eq!(haplotype_candidates(&paths, config(false).window, 5), Err(MalformedAlignmentTag));
}

#[test]
fn somatic_field_lists_every_candidate() {
    let f = build_somatic_field(&vec![v("AAAAAA"), v("CCCCCC")], &vec![v("GGGGGGG")]);
    assert_eq!(f, v("AAAAAA,CCCCCC|GGGGGGG"));
    assert_eq!(build_somatic_field(&Vec::new(), &Vec::new()), v("|"));
}

#[test]
fn somatic_field_in_record() {
    let interval = RepeatInterval { chrom: "chrX".to_string(), start: 10, end: 20 };
    let hap1 = vec![path(10000, "+AAAAAA"), path(10000, "+AAAAAAA")];
    let hap2 = vec![path(10000, "+CCCCCC")];
    let rec = genotype_locus(&interval, &hap1, &hap2, config(true)).unwrap();
    assert_eq!(rec.somatic, Some(v("AAAAAA,AAAAAAA|CCCCCC")));
    assert!(rec.hap1.is_none() && rec.hap2.is_none());
}

#[test]
fn malformed_tag_fails_the_locus() {
    let interval = RepeatInterval { chrom: "chr1".to_string(), start: 10, end: 20 };
    let hap1 = vec![path(10000, "+AAAAAA")];
    let hap2 = vec![path(10000, "%AAAAAA")];
    assert!(genotype_locus(&interval, &hap1, &hap2, config(false)).is_err());
}
