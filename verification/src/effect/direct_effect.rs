use vstd::prelude::*;

verus! {

/// Settings used to create a direct effect (`usize` channel count).
#[derive(Debug, Copy, Clone, PartialEq, Eq)]
pub struct DirectEffectSettings {
    /// Number of channels that will be used by input and output buffers.
    pub num_channels: usize,
}

} // verus!
