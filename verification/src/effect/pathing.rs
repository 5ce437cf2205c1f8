use vstd::prelude::*;

use crate::channels::{num_ambisonics_channels, spec_num_ambisonics_channels, ChannelRequirement};
use crate::effect::error::{
    check_input_channels, check_output_channels, input_channel_check, output_channel_check,
    then_check, EffectError,
};

verus! {

/// The channel layout a path effect keeps from its creation.
#[derive(Debug, Copy, Clone, PartialEq, Eq)]
pub struct PathEffectChannels {
    /// Number of output channels: those of the maximum Ambisonic order.
    pub num_output_channels: u32,
}

impl PathEffectChannels {
    /// Derives the output channel count from the maximum Ambisonic order.
    pub fn new(max_order: u32) -> (r: Self)
        requires
            spec_num_ambisonics_channels(max_order) <= u32::MAX,
        ensures
            r.num_output_channels == spec_num_ambisonics_channels(max_order),
    {
        Self { num_output_channels: num_ambisonics_channels(max_order) }
    }

    /// Checks the buffers of `apply`: one input channel, and the effect's output count.
    pub fn check_apply(&self, num_input_channels: u32, num_output_channels: u32) -> (r: Result<
        (),
        EffectError,
    >)
        ensures
            r is Ok <==> num_input_channels == 1u32 && num_output_channels == self.num_output_channels,
            num_input_channels != 1u32 ==> r == Err::<(), EffectError>(EffectError::InvalidInputChannels { expected: ChannelRequirement::Exactly(1u32), actual: num_input_channels }),
            num_input_channels == 1u32 && num_output_channels != self.num_output_channels ==> r == Err::<(), EffectError>(EffectError::InvalidOutputChannels { expected: ChannelRequirement::Exactly(self.num_output_channels), actual: num_output_channels }),
            r == then_check(
                input_channel_check(ChannelRequirement::Exactly(1), num_input_channels),
                output_channel_check(
                    ChannelRequirement::Exactly(self.num_output_channels),
                    num_output_channels,
                ),
            ),
    {
        check_input_channels(ChannelRequirement::Exactly(1), num_input_channels)?;
        check_output_channels(ChannelRequirement::Exactly(self.num_output_channels), num_output_channels)
    }

    /// Checks the output buffer of `tail` against the effect's output count.
    pub fn check_tail(&self, num_output_channels: u32) -> (r: Result<(), EffectError>)
        ensures
            r is Ok <==> num_output_channels == self.num_output_channels,
            num_output_channels != self.num_output_channels ==> r == Err::<(), EffectError>(EffectError::InvalidOutputChannels { expected: ChannelRequirement::Exactly(self.num_output_channels), actual: num_output_channels }),
            r == output_channel_check(
                ChannelRequirement::Exactly(self.num_output_channels),
                num_output_channels,
            ),
    {
        check_output_channels(ChannelRequirement::Exactly(self.num_output_channels), num_output_channels)
    }
}

} // verus!
