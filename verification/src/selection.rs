//! What the operator asked for: the chosen command and its parameters.

use vstd::prelude::*;

verus! {

/// A full invocation: the chosen command and the shared parameters.
pub struct Selection {
    pub choice: Choice,
    pub params: Params,
}

/// Parameters shared by all commands.
pub struct Params {
    pub conf_file: String,
}

/// Which remote data set a data command works on.
pub enum DataSet {
    Vcfs,
    Beds,
}

/// The chosen command.
pub enum Choice {
    Data { data_set: DataSet, data_choice: DataChoice },
    Vcfs2Bed(AppChoice),
    BedMerge(AppChoice),
    Config(Config),
}

/// What to do with a data set.
pub enum DataChoice {
    List,
    Survey,
}

/// What to do with an app: submit its jobs or watch them.
pub enum AppChoice {
    Run(RunChoice),
    Monitor,
}

/// Options of a run: an optional cap on the number of jobs, dry-run mode,
/// and an optional name-substring filter.
pub struct RunChoice {
    pub num: Option<usize>,
    pub dry: bool,
    pub pat: Option<String>,
}

/// Configuration maintenance commands.
pub enum Config {
    Download,
}

} // verus!
