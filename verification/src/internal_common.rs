//! Records shared with the consensus layer.
use vstd::prelude::*;

verus! {

/// Debug record of the state changes made while computing an epoch.
#[derive(Debug)]
pub struct ComputeEpochDebugRecord;

} // verus!
