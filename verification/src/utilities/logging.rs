use vstd::prelude::*;

verus! {

/// How much the application logs.
#[derive(Debug, Clone, Copy, PartialEq, Eq, Structural)]
pub enum Verbosity {
    /// Everything down to debugging detail.
    Debug,
    /// Progress and problems only.
    Info,
}

/// Debugging detail when the user asked for verbose output, else progress and problems.
pub fn determine_verbosity(verbose: bool) -> (verbosity: Verbosity)
    ensures
        verbosity == if verbose {
            Verbosity::Debug
        } else {
            Verbosity::Info
        },
{
    if verbose {
        Verbosity::Debug
    } else {
        Verbosity::Info
    }
}

} // verus!
