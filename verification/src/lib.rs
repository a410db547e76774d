//! Diversity statistics for variant-call data.
//!
//! The library reads the lines of a variant file into variants with an
//! account of their missing calls, counts segregating sites and pairwise
//! differences, restricts variants to the haplotypes of a group, and reads
//! the configuration table of the batch mode. Every function states what
//! it returns over the mathematical view of its arguments.
//!
//! - `text`, `genotype`, `line`, `header`, `region`: the readers.
//! - `variant`, `ingest`: variants, the account of missing calls, and
//!   ingestion.
//! - `diversity`, `estimators`: the counts, and Watterson's theta and the
//!   nucleotide diversity as exact fractions.
//! - `haplotype`, `config`, `batch`, `files`: the batch mode.
//! - `synthetic`: lines written from known values are read back.

pub mod batch;
pub mod config;
pub mod diversity;
pub mod error;
pub mod estimators;
pub mod files;
pub mod genotype;
pub mod haplotype;
pub mod header;
pub mod ingest;
pub mod line;
pub mod region;
pub mod synthetic;
pub mod text;
pub mod variant;
