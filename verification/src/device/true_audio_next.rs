use vstd::prelude::*;

verus! {

/// Settings used to create a TrueAudio Next device.
#[derive(Debug, Copy, Clone, PartialEq, Eq)]
pub struct TrueAudioNextDeviceSettings {
    /// The number of samples in an audio frame.
    pub frame_size: u32,
    /// The number of samples in the impulse responses that will be used for convolution.
    pub impulse_response_size: u32,
    /// The Ambisonic order of the impulse responses that will be used for convolution.
    pub order: u32,
    /// The maximum number of sources that will use TrueAudio Next for convolution.
    pub max_sources: u32,
}

} // verus!
