use vstd::prelude::*;

verus! {

/// Type of reflection effect algorithm to use.
#[derive(Copy, Clone, Debug, PartialEq, Eq, Structural)]
pub enum ReflectionEffectType {
    /// Multi-channel convolution reverb.
    Convolution,
    /// Parametric (or artificial) reverb, using feedback delay networks.
    Parametric,
    /// A hybrid of convolution and parametric reverb.
    Hybrid,
    /// Multi-channel convolution reverb, using AMD TrueAudio Next for GPU acceleration.
    TrueAudioNext,
}

/// Settings used to create a reflection effect, one variant per algorithm.
#[derive(Copy, Clone, Debug, PartialEq, Eq, Structural)]
pub enum ReflectionEffectSettings {
    /// Multi-channel convolution reverb.
    Convolution { impulse_response_size: usize, num_channels: usize },
    /// Parametric (or artificial) reverb, using feedback delay networks.
    Parametric { impulse_response_size: usize, num_channels: usize },
    /// A hybrid of convolution and parametric reverb.
    Hybrid { impulse_response_size: usize, num_channels: usize },
    /// Multi-channel convolution reverb, using AMD TrueAudio Next for GPU acceleration.
    TrueAudioNext { impulse_response_size: usize, num_channels: usize },
}

impl ReflectionEffectSettings {
    /// The algorithm, IR size and channel count that these settings hold.
    pub open spec fn spec_parts(self) -> (ReflectionEffectType, usize, usize) {
        match self {
            ReflectionEffectSettings::Convolution { impulse_response_size, num_channels } => (
                ReflectionEffectType::Convolution,
                impulse_response_size,
                num_channels,
            ),
            ReflectionEffectSettings::Parametric { impulse_response_size, num_channels } => (
                ReflectionEffectType::Parametric,
                impulse_response_size,
                num_channels,
            ),
            ReflectionEffectSettings::Hybrid { impulse_response_size, num_channels } => (
                ReflectionEffectType::Hybrid,
                impulse_response_size,
                num_channels,
            ),
            ReflectionEffectSettings::TrueAudioNext { impulse_response_size, num_channels } => (
                ReflectionEffectType::TrueAudioNext,
                impulse_response_size,
                num_channels,
            ),
        }
    }

    /// Returns the algorithm, IR size and channel count that these settings hold, as
    /// passed to Steam Audio when the effect is created.
    pub fn parts(&self) -> (r: (ReflectionEffectType, usize, usize))
        ensures
            r == self.spec_parts(),
    {
        match *self {
            ReflectionEffectSettings::Convolution { impulse_response_size, num_channels } => (
                ReflectionEffectType::Convolution,
                impulse_response_size,
                num_channels,
            ),
            ReflectionEffectSettings::Parametric { impulse_response_size, num_channels } => (
                ReflectionEffectType::Parametric,
                impulse_response_size,
                num_channels,
            ),
            ReflectionEffectSettings::Hybrid { impulse_response_size, num_channels } => (
                ReflectionEffectType::Hybrid,
                impulse_response_size,
                num_channels,
            ),
            ReflectionEffectSettings::TrueAudioNext { impulse_response_size, num_channels } => (
                ReflectionEffectType::TrueAudioNext,
                impulse_response_size,
                num_channels,
            ),
        }
    }
}

/// The parts of reflection settings name the variant's effect type and carry its
/// impulse response size and channel count unchanged, so that distinct settings have
/// distinct parts.
pub proof fn lemma_reflection_parts_faithful(a: ReflectionEffectSettings, b: ReflectionEffectSettings)
    ensures
        a matches ReflectionEffectSettings::Convolution { impulse_response_size, num_channels } ==> a.spec_parts()
            == (ReflectionEffectType::Convolution, impulse_response_size, num_channels),
        a matches ReflectionEffectSettings::Parametric { impulse_response_size, num_channels } ==> a.spec_parts()
            == (ReflectionEffectType::Parametric, impulse_response_size, num_channels),
        a matches ReflectionEffectSettings::Hybrid { impulse_response_size, num_channels } ==> a.spec_parts()
            == (ReflectionEffectType::Hybrid, impulse_response_size, num_channels),
        a matches ReflectionEffectSettings::TrueAudioNext { impulse_response_size, num_channels } ==> a.spec_parts()
            == (ReflectionEffectType::TrueAudioNext, impulse_response_size, num_channels),
        a.spec_parts() == b.spec_parts() ==> a == b,
{
}

} // verus!
