use vstd::prelude::*;

verus! {

/// Settings used to create a reflection effect, one variant per algorithm (`i32` sizes).
#[derive(Copy, Clone, Debug, PartialEq, Eq, Structural)]
pub enum ReflectionEffectSettings {
    /// Multi-channel convolution reverb.
    Convolution { impulse_reponse_size: i32, num_channels: i32 },
    /// Parametric (or artificial) reverb, using feedback delay networks.
    Parametric { impulse_reponse_size: i32, num_channels: i32 },
    /// A hybrid of convolution and parametric reverb.
    Hybrid { impulse_reponse_size: i32, num_channels: i32 },
    /// Multi-channel convolution reverb, using AMD TrueAudio Next for GPU acceleration.
    TrueAudioNext { impulse_reponse_size: i32, num_channels: i32 },
}

} // verus!
