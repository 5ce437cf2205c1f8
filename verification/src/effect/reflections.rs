use vstd::prelude::*;

use crate::channels::ChannelRequirement;
use crate::effect::error::{
    check_input_channels, check_output_channels, input_channel_check, output_channel_check,
    then_check, EffectError,
};
use crate::sealed::Sealed;

verus! {

/// Multi-channel convolution reverb.
#[derive(Debug)]
pub struct Convolution;

/// Parametric (or artificial) reverb, using feedback delay networks.
#[derive(Debug)]
pub struct Parametric;

/// A hybrid of convolution and parametric reverb.
#[derive(Debug)]
pub struct Hybrid;

/// Multi-channel convolution reverb, using AMD TrueAudio Next for GPU acceleration.
#[derive(Debug)]
pub struct TrueAudioNext;

impl Sealed for Convolution {}

impl Sealed for Parametric {}

impl Sealed for Hybrid {}

impl Sealed for TrueAudioNext {}

/// Marker trait for effects that can use `apply()`.
pub trait CanApplyDirectly: Sealed {}

impl CanApplyDirectly for Convolution {}

impl CanApplyDirectly for Parametric {}

impl CanApplyDirectly for Hybrid {}

/// Marker trait for effects that can use `apply_into_mixer()` and `tail_into_mixer()`.
pub trait CanUseReflectionMixer: Sealed {}

impl CanUseReflectionMixer for Convolution {}

impl CanUseReflectionMixer for TrueAudioNext {}

/// Settings used to create a reflection effect.
#[derive(Copy, Clone, Debug, PartialEq, Eq)]
pub struct ReflectionEffectSettings {
    /// Number of samples per channel in the IR.
    pub impulse_response_size: u32,
    /// Number of channels in the IR.
    pub num_channels: u32,
}

/// Reflection effect type: convolution, parametric, hybrid or TrueAudio Next.
pub trait ReflectionEffectType: Sealed {
    /// The output channel requirement of effects of this type.
    spec fn spec_num_output_channels(settings: ReflectionEffectSettings) -> ChannelRequirement;

    /// Returns the number of output channels required for this effect type.
    fn num_output_channels(settings: &ReflectionEffectSettings) -> (r: ChannelRequirement)
        ensures
            r == Self::spec_num_output_channels(*settings),
    ;
}

impl ReflectionEffectType for Convolution {
    open spec fn spec_num_output_channels(settings: ReflectionEffectSettings) -> ChannelRequirement {
        ChannelRequirement::Exactly(settings.num_channels)
    }

    fn num_output_channels(settings: &ReflectionEffectSettings) -> (r: ChannelRequirement)
        ensures
            r == ChannelRequirement::Exactly(settings.num_channels),
    {
        ChannelRequirement::Exactly(settings.num_channels)
    }
}

impl ReflectionEffectType for Parametric {
    open spec fn spec_num_output_channels(settings: ReflectionEffectSettings) -> ChannelRequirement {
        ChannelRequirement::AtLeast(1)
    }

    fn num_output_channels(settings: &ReflectionEffectSettings) -> (r: ChannelRequirement)
        ensures
            r == ChannelRequirement::AtLeast(1),
    {
        ChannelRequirement::AtLeast(1)
    }
}

impl ReflectionEffectType for Hybrid {
    open spec fn spec_num_output_channels(settings: ReflectionEffectSettings) -> ChannelRequirement {
        ChannelRequirement::Exactly(settings.num_channels)
    }

    fn num_output_channels(settings: &ReflectionEffectSettings) -> (r: ChannelRequirement)
        ensures
            r == ChannelRequirement::Exactly(settings.num_channels),
    {
        ChannelRequirement::Exactly(settings.num_channels)
    }
}

impl ReflectionEffectType for TrueAudioNext {
    open spec fn spec_num_output_channels(settings: ReflectionEffectSettings) -> ChannelRequirement {
        ChannelRequirement::Exactly(settings.num_channels)
    }

    fn num_output_channels(settings: &ReflectionEffectSettings) -> (r: ChannelRequirement)
        ensures
            r == ChannelRequirement::Exactly(settings.num_channels),
    {
        ChannelRequirement::Exactly(settings.num_channels)
    }
}

/// The output channel requirement that a reflection effect or mixer keeps from its
/// creation.
#[derive(Debug, Copy, Clone, PartialEq, Eq)]
pub struct ReflectionEffectChannels {
    /// The channel requirement of output buffers.
    pub num_output_channels: ChannelRequirement,
}

impl ReflectionEffectChannels {
    /// Derives the output requirement of effect type `T` from the settings.
    pub fn new<T: ReflectionEffectType>(settings: &ReflectionEffectSettings) -> (r: Self)
        ensures
            r.num_output_channels == T::spec_num_output_channels(*settings),
    {
        Self { num_output_channels: T::num_output_channels(settings) }
    }

    /// Checks the buffers of `apply` and `apply_into_mixer`: one input channel, and an
    /// output channel count that meets the requirement.
    pub fn check_apply(&self, num_input_channels: u32, num_output_channels: u32) -> (r: Result<
        (),
        EffectError,
    >)
        ensures
            r is Ok <==> num_input_channels == 1 && match self.num_output_channels {
                ChannelRequirement::Exactly(n) => num_output_channels == n,
                ChannelRequirement::AtLeast(n) => num_output_channels >= n,
            },
            num_input_channels != 1 ==> r == Err::<(), EffectError>(EffectError::InvalidInputChannels { expected: ChannelRequirement::Exactly(1), actual: num_input_channels }),
            r is Err && num_input_channels == 1 ==> r == Err::<(), EffectError>(EffectError::InvalidOutputChannels { expected: self.num_output_channels, actual: num_output_channels }),
            r == then_check(
                input_channel_check(ChannelRequirement::Exactly(1), num_input_channels),
                output_channel_check(self.num_output_channels, num_output_channels),
            ),
    {
        check_input_channels(ChannelRequirement::Exactly(1), num_input_channels)?;
        check_output_channels(self.num_output_channels, num_output_channels)
    }

    /// Checks the output buffer of `tail`, `tail_into_mixer` and of a mixer's `apply`
    /// against the requirement.
    pub fn check_tail(&self, num_output_channels: u32) -> (r: Result<(), EffectError>)
        ensures
            r is Ok <==> match self.num_output_channels {
                ChannelRequirement::Exactly(n) => num_output_channels == n,
                ChannelRequirement::AtLeast(n) => num_output_channels >= n,
            },
            r is Err ==> r == Err::<(), EffectError>(EffectError::InvalidOutputChannels { expected: self.num_output_channels, actual: num_output_channels }),
            r == output_channel_check(self.num_output_channels, num_output_channels),
    {
        check_output_channels(self.num_output_channels, num_output_channels)
    }
}

/// The output requirement of each reflection effect type: parametric reverb renders
/// into any buffer with at least one channel, every other type into exactly the
/// impulse response's channel count.
pub proof fn lemma_reflection_output_requirements(settings: ReflectionEffectSettings)
    ensures
        <Convolution as ReflectionEffectType>::spec_num_output_channels(settings)
            == ChannelRequirement::Exactly(settings.num_channels),
        <Parametric as ReflectionEffectType>::spec_num_output_channels(settings)
            == ChannelRequirement::AtLeast(1),
        <Hybrid as ReflectionEffectType>::spec_num_output_channels(settings)
            == ChannelRequirement::Exactly(settings.num_channels),
        <TrueAudioNext as ReflectionEffectType>::spec_num_output_channels(settings)
            == ChannelRequirement::Exactly(settings.num_channels),
{
}

} // verus!
