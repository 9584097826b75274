//! Counts that describe how a search narrowed its results.
use vstd::prelude::*;

verus! {

#[derive(Debug, PartialEq, Eq, Structural)]
pub struct RetrievalDiagnostics {
    pub candidates: usize,
    pub results_before_min_score: usize,
    pub results_after_min_score: usize,
}

} // verus!
