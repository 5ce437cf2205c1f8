use vstd::prelude::*;

use crate::channels::ChannelRequirement;
use crate::effect::ambisonics::speaker_layout::SpeakerLayout;
use crate::effect::error::{
    check_input_channels, check_output_channels, input_channel_check, output_channel_check,
    then_check, EffectError,
};

verus! {

/// The channel layout a virtual surround effect keeps from its creation.
#[derive(Debug, Copy, Clone, PartialEq, Eq)]
pub struct VirtualSurroundEffectChannels {
    /// Number of input channels needed for the speaker layout.
    pub num_input_channels: u32,
}

impl VirtualSurroundEffectChannels {
    /// Derives the input channel count from the speaker layout.
    pub fn new<D>(speaker_layout: &SpeakerLayout<D>) -> (r: Self)
        ensures
            r.num_input_channels == speaker_layout.spec_num_channels(),
    {
        Self { num_input_channels: speaker_layout.num_channels() }
    }

    /// Checks the buffers of `apply`: one input channel per speaker, two output channels.
    pub fn check_apply(&self, num_input_channels: u32, num_output_channels: u32) -> (r: Result<
        (),
        EffectError,
    >)
        ensures
            r is Ok <==> num_input_channels == self.num_input_channels && num_output_channels == 2u32,
            num_input_channels != self.num_input_channels ==> r == Err::<(), EffectError>(EffectError::InvalidInputChannels { expected: ChannelRequirement::Exactly(self.num_input_channels), actual: num_input_channels }),
            num_input_channels == self.num_input_channels && num_output_channels != 2u32 ==> r == Err::<(), EffectError>(EffectError::InvalidOutputChannels { expected: ChannelRequirement::Exactly(2u32), actual: num_output_channels }),
            r == then_check(
                input_channel_check(
                    ChannelRequirement::Exactly(self.num_input_channels),
                    num_input_channels,
                ),
                output_channel_check(ChannelRequirement::Exactly(2), num_output_channels),
            ),
    {
        check_input_channels(ChannelRequirement::Exactly(self.num_input_channels), num_input_channels)?;
        check_output_channels(ChannelRequirement::Exactly(2), num_output_channels)
    }

    /// Checks the output buffer of `tail`: two channels.
    pub fn check_tail(&self, num_output_channels: u32) -> (r: Result<(), EffectError>)
        ensures
            r is Ok <==> num_output_channels == 2u32,
            num_output_channels != 2u32 ==> r == Err::<(), EffectError>(EffectError::InvalidOutputChannels { expected: ChannelRequirement::Exactly(2u32), actual: num_output_channels }),
            r == output_channel_check(ChannelRequirement::Exactly(2), num_output_channels),
    {
        check_output_channels(ChannelRequirement::Exactly(2), num_output_channels)
    }
}

} // verus!
