//! Genotyping of short tandem repeats from phased long-read alignments.
pub mod bytes;
pub mod cli;
pub mod consensus;
pub mod locus;
pub mod record;
pub mod reference;
pub mod scheduler;
pub mod tag;
