use vstd::prelude::*;

use crate::channels::ChannelRequirement;
use crate::effect::ambisonics::speaker_layout::SpeakerLayout;
use crate::effect::error::{
    check_input_channels, check_output_channels, input_channel_check, output_channel_check,
    then_check, EffectError,
};

verus! {

/// Settings used to create a panning effect.
#[derive(Debug, Clone, PartialEq)]
pub struct PanningEffectSettings<D> {
    /// The speaker layout to pan input audio to.
    pub speaker_layout: SpeakerLayout<D>,
}

/// Parameters for applying a panning effect; `D` is the direction type.
#[derive(Debug, Copy, Clone, PartialEq)]
pub struct PanningEffectParams<D> {
    /// Unit vector pointing from the listener towards the source.
    pub direction: D,
}

/// The channel layout a panning effect keeps from its creation.
#[derive(Debug, Copy, Clone, PartialEq, Eq)]
pub struct PanningEffectChannels {
    /// Number of output channels needed for the speaker layout.
    pub num_output_channels: u32,
}

impl PanningEffectChannels {
    /// Derives the output channel count from the speaker layout of the settings.
    pub fn new<D>(settings: &PanningEffectSettings<D>) -> (r: Self)
        ensures
            r.num_output_channels == settings.speaker_layout.spec_num_channels(),
    {
        Self { num_output_channels: settings.speaker_layout.num_channels() }
    }

    /// Checks the buffers of `apply`: one input channel, one output channel per speaker.
    pub fn check_apply(&self, num_input_channels: u32, num_output_channels: u32) -> (r: Result<
        (),
        EffectError,
    >)
        ensures
            r is Ok <==> num_input_channels == 1u32 && num_output_channels == self.num_output_channels,
            num_input_channels != 1u32 ==> r == Err::<(), EffectError>(EffectError::InvalidInputChannels { expected: ChannelRequirement::Exactly(1u32), actual: num_input_channels }),
            num_input_channels == 1u32 && num_output_channels != self.num_output_channels ==> r == Err::<(), EffectError>(EffectError::InvalidOutputChannels { expected: ChannelRequirement::Exactly(self.num_output_channels), actual: num_output_channels }),
            r == then_check(
                input_channel_check(ChannelRequirement::Exactly(1), num_input_channels),
                output_channel_check(
                    ChannelRequirement::Exactly(self.num_output_channels),
                    num_output_channels,
                ),
            ),
    {
        check_input_channels(ChannelRequirement::Exactly(1), num_input_channels)?;
        check_output_channels(ChannelRequirement::Exactly(self.num_output_channels), num_output_channels)
    }

    /// Checks the output buffer of `tail`: one channel per speaker.
    pub fn check_tail(&self, num_output_channels: u32) -> (r: Result<(), EffectError>)
        ensures
            r is Ok <==> num_output_channels == self.num_output_channels,
            num_output_channels != self.num_output_channels ==> r == Err::<(), EffectError>(EffectError::InvalidOutputChannels { expected: ChannelRequirement::Exactly(self.num_output_channels), actual: num_output_channels }),
            r == output_channel_check(
                ChannelRequirement::Exactly(self.num_output_channels),
                num_output_channels,
            ),
    {
        check_output_channels(ChannelRequirement::Exactly(self.num_output_channels), num_output_channels)
    }
}

} // verus!
