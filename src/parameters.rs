//! The choice of algorithm and the integer defaults of a run description.

use vstd::prelude::*;

verus! {

/// The variants of the colony that a run can use.
#[derive(Debug, Clone, Copy, PartialEq, Eq, Structural)]
pub enum Algorithm {
    MMAS,
    MMASPar,
    ACS,
    ACSParMasterUpdate,
    ACSParSync,
}

impl Default for Algorithm {
    fn default() -> (r: Algorithm)
        ensures
            r == Algorithm::ACS,
    {
        Algorithm::ACS
    }
}

/// Ants per iteration when the run does not say.
pub fn default_num_ants() -> (r: usize)
    ensures
        r == 280,
{
    280
}

/// No cap on iterations when the run does not give one.
pub fn default_max_iterations() -> (r: usize)
    ensures
        r == usize::MAX,
{
    usize::MAX
}

/// No cap on seconds when the run does not give one.
pub fn default_time_limit() -> (r: usize)
    ensures
        r == usize::MAX,
{
    usize::MAX
}

/// One run of each description when it does not say.
pub fn default_num_runs() -> (r: usize)
    ensures
        r == 1,
{
    1
}

} // verus!
