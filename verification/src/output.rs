//! The paths of the files that a run writes.

use vstd::prelude::*;
use vstd::string::StringExecFns;

verus! {

/// What follows the output prefix in the path of the score table.
pub const SCORE_SUFFIX: &'static str = ".score.csv";

/// What follows the output prefix in the path of the counts of the match.
pub const CHECK_SUFFIX: &'static str = ".check.json";

/// What follows the output prefix in the path of the correlations.
pub const COR_SUFFIX: &'static str = ".cor.csv";

/// What follows the output prefix in the path of the percentiles.
pub const PERCENTILE_SUFFIX: &'static str = ".percentile.csv";

/// What follows the output prefix in the path of the ranks.
pub const RANK_SUFFIX: &'static str = ".rank.csv";

/// What follows the output prefix in the path of the matched markers.
pub const BETA_SUFFIX: &'static str = ".beta.tsv";

/// The path of an output file: the output prefix and then the suffix of
/// the file.
pub fn out_path(out_prefix: &str, suffix: &str) -> (path: String)
    ensures
        path@ == out_prefix@ + suffix@,
{
    let mut path: String = String::from_str(out_prefix);
    path.append(suffix);
    path
}

/// Whether the matched markers of a batch are appended to the file of
/// matched markers: those of the first batch start the file, those of
/// every later batch are appended.
pub fn appends_beta(batches_written: usize) -> (append_flag: bool)
    ensures
        append_flag == (batches_written != 0),
{
    batches_written != 0
}

} // verus!
