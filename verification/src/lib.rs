//! Staging and grouping engine for remote genomic data files: parses remote
//! listings into typed keys, partitions them into size-bounded blocks, matches
//! bed/bim/fam triples into bundles, reconciles candidate jobs against a remote
//! job-history snapshot, and plans the submission steps.

pub mod apps;
pub mod conf;
pub mod data;
pub mod error;
pub mod job;
pub mod monitor;
pub mod selection;
pub mod text;
pub mod usage;
