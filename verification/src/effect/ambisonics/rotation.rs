use vstd::prelude::*;

use crate::channels::{num_ambisonics_channels, spec_num_ambisonics_channels, ChannelRequirement};
use crate::effect::error::{
    check_input_channels, check_output_channels, input_channel_check, output_channel_check,
    then_check, EffectError,
};

verus! {

/// Settings used to create an Ambisonics rotation effect.
#[derive(Debug, Copy, Clone, PartialEq, Eq)]
pub struct AmbisonicsRotationEffectSettings {
    /// The maximum ambisonics order that will be used by input audio buffers.
    pub max_order: u32,
}

/// The channel layout an Ambisonics rotation effect keeps from its creation.
#[derive(Debug, Copy, Clone, PartialEq, Eq)]
pub struct AmbisonicsRotationEffectChannels {
    /// The number of channels of the maximum order, for input and output alike.
    pub num_channels: u32,
}

impl AmbisonicsRotationEffectChannels {
    /// Derives the channel count from the maximum order of the settings.
    pub fn new(settings: &AmbisonicsRotationEffectSettings) -> (r: Self)
        requires
            spec_num_ambisonics_channels(settings.max_order) <= u32::MAX,
        ensures
            r.num_channels == spec_num_ambisonics_channels(settings.max_order),
    {
        Self { num_channels: num_ambisonics_channels(settings.max_order) }
    }

    /// Checks the buffers of `apply`: both with the effect's channel count.
    pub fn check_apply(&self, num_input_channels: u32, num_output_channels: u32) -> (r: Result<
        (),
        EffectError,
    >)
        ensures
            r is Ok <==> num_input_channels == self.num_channels && num_output_channels == self.num_channels,
            num_input_channels != self.num_channels ==> r == Err::<(), EffectError>(EffectError::InvalidInputChannels { expected: ChannelRequirement::Exactly(self.num_channels), actual: num_input_channels }),
            num_input_channels == self.num_channels && num_output_channels != self.num_channels ==> r == Err::<(), EffectError>(EffectError::InvalidOutputChannels { expected: ChannelRequirement::Exactly(self.num_channels), actual: num_output_channels }),
            r == then_check(
                input_channel_check(ChannelRequirement::Exactly(self.num_channels), num_input_channels),
                output_channel_check(
                    ChannelRequirement::Exactly(self.num_channels),
                    num_output_channels,
                ),
            ),
    {
        check_input_channels(ChannelRequirement::Exactly(self.num_channels), num_input_channels)?;
        check_output_channels(ChannelRequirement::Exactly(self.num_channels), num_output_channels)
    }

    /// Checks the output buffer of `tail` against the effect's channel count.
    pub fn check_tail(&self, num_output_channels: u32) -> (r: Result<(), EffectError>)
        ensures
            r is Ok <==> num_output_channels == self.num_channels,
            num_output_channels != self.num_channels ==> r == Err::<(), EffectError>(EffectError::InvalidOutputChannels { expected: ChannelRequirement::Exactly(self.num_channels), actual: num_output_channels }),
            r == output_channel_check(ChannelRequirement::Exactly(self.num_channels), num_output_channels),
    {
        check_output_channels(ChannelRequirement::Exactly(self.num_channels), num_output_channels)
    }
}

} // verus!
