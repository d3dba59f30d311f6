//! The outcome of a site build.

use vstd::prelude::*;

verus! {

/// What a run of Hugo gave: whether it exited with success, and what it
/// wrote to its standard output and standard error.
#[derive(Debug, Clone)]
pub struct BuildResult {
    pub success: bool,
    pub stdout: String,
    pub stderr: String,
}

} // verus!
