use strdust::consensus::Consensus;
use strdust::record::{record_le_exec, sort_records, GenotypeRecord};
use strdust::scheduler::{Action, LocusOutcome, ReportedContigErrors, Scheduler};

fn rec(chrom: &str, start: u32, end: u32) -> GenotypeRecord {
    GenotypeRecord {
        chrom: chrom.to_string(),
        start,
        end,
        hap1: Some(Consensus { length: 3, sequence: b"CAG".to_vec() }),
        hap2: None,
        somatic: None,
    }
}

fn keys(v: &[GenotypeRecord]) -> Vec<(String, u32, u32)> {
    v.iter().map(|r| (r.chrom.clone(), r.start, r.end)).collect()
}

#[test]
fn missing_contig_is_reported_once() {
    let mut s = Scheduler::new(8);
    let mut reports = 0;
    for _ in 0..50 {
        if let Action::ReportMissingContig(c) = s.on_outcome(LocusOutcome::ContigNotFound("chrUn".to_string())) {
            assert_eq!(c, "chrUn");
            reports += 1;
        }
    }
    assert_eq!(reports, 1);
    assert!(matches!(
        s.on_outcome(LocusOutcome::ContigNotFound("chrM".to_string())),
        Action::ReportMissingContig(_)
    ));
}

#[test]
fn reported_set_remembers_names() {
    let mut r = ReportedContigErrors::new();
    let a = "chr1".to_string();
    let b = "chr2".to_string();
    assert!(!r.contains(&a));
    assert!(r.report(&a));
    assert!(r.contains(&a));
    assert!(!r.contains(&b));
    assert!(!r.report(&a));
    assert!(r.report(&b));
}

#[test]
fn streaming_writes_at_once() {
    let mut s = Scheduler::new(1);
    assert!(s.is_streaming());
    match s.on_outcome(LocusOutcome::Genotyped(rec("chr2", 5, 9))) {
        Action::Write(r) => assert_eq!(r.chrom, "chr2"),
        _ => panic!("expected a write"),
    }
    assert!(s.finish().is_empty());
}

#[test]
fn batch_output_is_sorted() {
    let mut s = Scheduler::new(4);
    assert!(!s.is_streaming());
    for r in [rec("chr2", 100, 120), rec("chr10", 5, 9), rec("chr1", 300, 310), rec("chr1", 300, 305), rec("chr1", 20, 30)] {
        assert!(matches!(s.on_outcome(LocusOutcome::Genotyped(r)), Action::Nothing));
    }
    let out = s.finish();
    assert_eq!(
        keys(&out),
        vec![
            ("chr1".to_string(), 20, 30),
            ("chr1".to_string(), 300, 305),
            ("chr1".to_string(), 300, 310),
            ("chr10".to_string(), 5, 9),
            ("chr2".to_string(), 100, 120),
        ]
    );
}

#[test]
fn sorted_output_does_not_depend_on_arrival_order() {
    let a = vec![rec("chrX", 1, 2), rec("chr3", 7, 8), rec("chr3", 1, 9), rec("chr21", 4, 4)];
    let mut b = a.clone();
    b.reverse();
    let mut c = a.clone();
    c.swap(0, 2);
    let sa = keys(&sort_records(a.clone()));
    assert_eq!(sa, keys(&sort_records(b)));
    assert_eq!(sa, keys(&sort_records(c)));
    assert_eq!(sa, keys(&sort_records(sort_records(a))));
}

#[test]
fn record_order_follows_chrom_start_end() {
    assert!(record_le_exec(&rec("chr1", 5, 9), &rec("chr1", 5, 9)));
    assert!(record_le_exec(&rec("chr1", 5, 9), &rec("chr1", 6, 7)));
    assert!(!record_le_exec(&rec("chr1", 5, 9), &rec("chr1", 5, 8)));
    assert!(record_le_exec(&rec("chr1", 900, 901), &rec("chr2", 1, 2)));
    assert!(record_le_exec(&rec("chr1", 1, 2), &rec("chr10", 1, 2)));
    assert!(!record_le_exec(&rec("chr2", 1, 2), &rec("chr10", 1, 2)));
}
