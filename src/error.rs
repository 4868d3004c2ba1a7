use vstd::prelude::*;

verus! {

/// Every failure that the engine reports to its caller.
#[derive(Debug)]
pub enum GitsError {
    /// Missing or malformed configuration or inventory data.
    ConfigError(String),
    /// A malformed clone URL or timestamp; holds the offending input.
    ParseError(String),
    /// None of the trunk candidates has a local branch.
    NoTrunkFound,
    /// The commit gate refused: the merge base is not the remote trunk tip.
    Divergence { merge_base: String, remote_tip: String },
    /// An external command could not be run or exited with failure; holds its
    /// standard error.
    CommandFailed(String),
}

} // verus!
