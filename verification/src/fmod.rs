//! The version of the FMOD Studio integration.

use vstd::prelude::*;

verus! {

/// The version of the FMOD Studio integration.
#[derive(Copy, Clone, Debug, PartialEq, Eq)]
pub struct FmodStudioIntegrationVersion {
    pub major: usize,
    pub minor: usize,
    pub patch: usize,
}

} // verus!
