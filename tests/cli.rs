use strdust::cli::{get_targets, is_file, Cli, TargetSelectionError, TargetSource};

fn args(region: Option<&str>, region_file: Option<&str>, pathogenic: bool) -> Cli {
    Cli {
        fasta: "ref.fa".to_string(),
        bam: "reads.bam".to_string(),
        region: region.map(|s| s.to_string()),
        region_file: region_file.map(|s| s.to_string()),
        minlen: 5,
        support: 3,
        pathogenic,
        threads: 8,
        sample: None,
        somatic: false,
        unphased: false,
        find_outliers: false,
    }
}

#[test]
fn existing_file_or_url_is_accepted() {
    assert_eq!(is_file("/data/reads.bam", true), Ok(()));
    assert_eq!(is_file("https://example.org/reads.bam", false), Ok(()));
    assert_eq!(is_file("http", false), Ok(()));
}

#[test]
fn missing_file_is_rejected_with_message() {
    assert_eq!(is_file("/data/missing.bam", false), Err("Input file /data/missing.bam is invalid".to_string()));
    assert_eq!(is_file("htt", false), Err("Input file htt is invalid".to_string()));
}

#[test]
fn exactly_one_target_source() {
    match get_targets(&args(Some("chr7:154654404-154654432"), None, false)) {
        Ok(TargetSource::Region(r)) => assert_eq!(r, "chr7:154654404-154654432"),
        _ => panic!("expected a region"),
    }
    match get_targets(&args(None, Some("loci.bed"), false)) {
        Ok(TargetSource::RegionFile(f)) => assert_eq!(f, "loci.bed"),
        _ => panic!("expected a region file"),
    }
    assert!(matches!(get_targets(&args(None, None, true)), Ok(TargetSource::Pathogenic)));
    assert_eq!(get_targets(&args(None, None, false)).unwrap_err(), TargetSelectionError);
    assert_eq!(get_targets(&args(Some("chr1:1-2"), Some("loci.bed"), false)).unwrap_err(), TargetSelectionError);
    assert_eq!(get_targets(&args(Some("chr1:1-2"), None, true)).unwrap_err(), TargetSelectionError);
}

#[test]
fn outlier_flag_needs_unphased() {
    let mut a = args(None, None, true);
    a.find_outliers = true;
    assert!(a.find_outliers_ignored());
    a.unphased = true;
    assert!(!a.find_outliers_ignored());
}
