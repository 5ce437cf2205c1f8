use vstd::prelude::*;

use crate::channels::{num_ambisonics_channels, spec_num_ambisonics_channels, ChannelRequirement};
use crate::effect::ambisonics::speaker_layout::SpeakerLayout;
use crate::effect::error::{
    check_input_channels, check_output_channels, input_channel_check, output_channel_check,
    then_check, EffectError,
};

verus! {

/// Settings used to create an Ambisonics panning effect.
#[derive(Debug, Clone, PartialEq)]
pub struct AmbisonicsPanningEffectSettings<D> {
    /// The speaker layout that will be used by output audio buffers.
    pub speaker_layout: SpeakerLayout<D>,
    /// The maximum ambisonics order that will be used by input audio buffers.
    pub max_order: u32,
}

/// Parameters for applying an Ambisonics panning effect.
#[derive(Debug, Copy, Clone, PartialEq, Eq)]
pub struct AmbisonicsPanningEffectParams {
    /// Ambisonic order of the input buffer.
    pub order: u32,
}

/// The channel layout an Ambisonics panning effect keeps from its creation.
#[derive(Debug, Copy, Clone, PartialEq, Eq)]
pub struct AmbisonicsPanningEffectChannels {
    /// The number of speakers of the layout.
    pub num_output_channels: u32,
}

impl AmbisonicsPanningEffectChannels {
    /// Derives the channel layout from the creation settings.
    pub fn new<D>(settings: &AmbisonicsPanningEffectSettings<D>) -> (r: Self)
        ensures
            r.num_output_channels == settings.speaker_layout.spec_num_channels(),
    {
        Self { num_output_channels: settings.speaker_layout.num_channels() }
    }

    /// Checks the buffers of `apply`: as many input channels as the order of the
    /// parameters requires, and one output channel per speaker.
    pub fn check_apply(
        &self,
        params: &AmbisonicsPanningEffectParams,
        num_input_channels: u32,
        num_output_channels: u32,
    ) -> (r: Result<(), EffectError>)
        requires
            spec_num_ambisonics_channels(params.order) <= u32::MAX,
        ensures
            r is Ok <==> num_input_channels == (((params.order + 1) * (params.order + 1)) as u32) && num_output_channels == self.num_output_channels,
            num_input_channels != (((params.order + 1) * (params.order + 1)) as u32) ==> r == Err::<(), EffectError>(EffectError::InvalidInputChannels { expected: ChannelRequirement::Exactly((((params.order + 1) * (params.order + 1)) as u32)), actual: num_input_channels }),
            num_input_channels == (((params.order + 1) * (params.order + 1)) as u32) && num_output_channels != self.num_output_channels ==> r == Err::<(), EffectError>(EffectError::InvalidOutputChannels { expected: ChannelRequirement::Exactly(self.num_output_channels), actual: num_output_channels }),
            r == then_check(
                input_channel_check(
                    ChannelRequirement::Exactly(spec_num_ambisonics_channels(params.order) as u32),
                    num_input_channels,
                ),
                output_channel_check(
                    ChannelRequirement::Exactly(self.num_output_channels),
                    num_output_channels,
                ),
            ),
    {
        let required = num_ambisonics_channels(params.order);
        check_input_channels(ChannelRequirement::Exactly(required), num_input_channels)?;
        check_output_channels(ChannelRequirement::Exactly(self.num_output_channels), num_output_channels)
    }

    /// Checks the output buffer of `tail`: one channel per speaker.
    pub fn check_tail(&self, num_output_channels: u32) -> (r: Result<(), EffectError>)
        ensures
            r is Ok <==> num_output_channels == self.num_output_channels,
            num_output_channels != self.num_output_channels ==> r == Err::<(), EffectError>(EffectError::InvalidOutputChannels { expected: ChannelRequirement::Exactly(self.num_output_channels), actual: num_output_channels }),
            r == output_channel_check(
                ChannelRequirement::Exactly(self.num_output_channels),
                num_output_channels,
            ),
    {
        check_output_channels(ChannelRequirement::Exactly(self.num_output_channels), num_output_channels)
    }
}

} // verus!
