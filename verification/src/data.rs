//! Typed domain model of the remote file listings: chromosomes, VCF file
//! keys and their grouping into blocks, and bed/bim/fam bundles.

pub mod beds;
pub mod chromosome;
pub mod vcfs;
