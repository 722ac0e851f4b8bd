//! The run's settings, and the checks made on them before any locus is processed.
use vstd::prelude::*;
use vstd::string::StringExecFns;

verus! {

/// Settings of a genotyping run.
#[derive(Clone, Debug)]
pub struct Cli {
    /// Reference genome.
    pub fasta: String,
    /// Alignments to call repeats in.
    pub bam: String,
    /// A region to genotype.
    pub region: Option<String>,
    /// A BED file of regions to genotype.
    pub region_file: Option<String>,
    /// Insertions must be longer than this to count.
    pub minlen: usize,
    /// Supporting reads needed per haplotype.
    pub support: usize,
    /// Whether to genotype the built-in list of pathogenic loci.
    pub pathogenic: bool,
    /// Number of workers.
    pub threads: usize,
    /// Sample name; the alignment file's name where absent.
    pub sample: Option<String>,
    /// Whether to report every read's insertion.
    pub somatic: bool,
    /// Whether the reads are unphased.
    pub unphased: bool,
    /// Whether to look for poorly supported outlier expansions.
    pub find_outliers: bool,
}

/// Where the loci of a run come from.
#[derive(Clone, Debug)]
pub enum TargetSource {
    /// One region string.
    Region(String),
    /// A BED file of regions.
    RegionFile(String),
    /// The built-in list of pathogenic loci.
    Pathogenic,
}

/// Not exactly one source of loci was given.
#[derive(Clone, Copy, Debug, PartialEq, Eq)]
pub struct TargetSelectionError;

pub open spec fn prefix_of(p: Seq<char>, s: Seq<char>) -> bool {
    p.len() <= s.len() && s.subrange(0, p.len() as int) == p
}

/// Relies on `str::starts_with`: whether `prefix` begins `s`.
#[verifier::external_body]
fn starts_with(s: &str, prefix: &str) -> (r: bool)
    ensures
        r == prefix_of(prefix@, s@),
{
    s.starts_with(prefix)
}

/// The message given for an input path that is neither a file nor a URL.
pub open spec fn invalid_input_message(pathname: Seq<char>) -> Seq<char> {
    "Input file "@ + pathname + " is invalid"@
}

/// Accepts an input path that names a regular file (`is_regular_file`, as the
/// file system says) or starts with "http".
pub fn is_file(pathname: &str, is_regular_file: bool) -> (r: Result<(), String>)
    ensures
        r.is_ok() <==> is_regular_file || prefix_of("http"@, pathname@),
        r.is_err() ==> r->Err_0@ == invalid_input_message(pathname@),
{
    proof {
        reveal_strlit("http");
        reveal_strlit("Input file ");
        reveal_strlit(" is invalid");
    }
    if is_regular_file || starts_with(pathname, "http") {
        Ok(())
    } else {
        let msg = String::from_str("Input file ").concat(pathname).concat(" is invalid");
        Err(msg)
    }
}

/// The source of loci: exactly one of a region, a region file or the pathogenic list
/// must be asked for.
pub fn get_targets(args: &Cli) -> (r: Result<TargetSource, TargetSelectionError>)
    ensures
        match r {
            Ok(TargetSource::Region(s)) => args.region.is_some() && s@ == args.region.unwrap()@
                && args.region_file.is_none() && !args.pathogenic,
            Ok(TargetSource::RegionFile(s)) => args.region.is_none() && args.region_file.is_some()
                && s@ == args.region_file.unwrap()@ && !args.pathogenic,
            Ok(TargetSource::Pathogenic) => args.region.is_none() && args.region_file.is_none()
                && args.pathogenic,
            Err(_) => !(args.region.is_some() && args.region_file.is_none() && !args.pathogenic)
                && !(args.region.is_none() && args.region_file.is_some() && !args.pathogenic)
                && !(args.region.is_none() && args.region_file.is_none() && args.pathogenic),
        },
{
    match (&args.region, &args.region_file, args.pathogenic) {
        (Some(region), None, false) => Ok(TargetSource::Region(region.clone())),
        (None, Some(region_file), false) => Ok(TargetSource::RegionFile(region_file.clone())),
        (None, None, true) => Ok(TargetSource::Pathogenic),
        _ => Err(TargetSelectionError),
    }
}

impl Cli {
    /// Outlier search was asked for on phased reads, where it has no effect.
    pub fn find_outliers_ignored(&self) -> (r: bool)
        ensures
            r == (self.find_outliers && !self.unphased),
    {
        self.find_outliers && !self.unphased
    }
}

} // verus!
