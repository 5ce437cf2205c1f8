use vstd::prelude::*;

use crate::channels::{num_ambisonics_channels, spec_num_ambisonics_channels, ChannelRequirement};
use crate::effect::ambisonics::speaker_layout::SpeakerLayout;
use crate::effect::error::{
    ambisonic_order_check, check_ambisonic_order, check_output_channels, output_channel_check,
    then_check, EffectError,
};

verus! {

/// Techniques for decoding an Ambisonics sound field.
#[derive(Debug, Copy, Clone, PartialEq, Eq, Structural)]
pub enum Rendering {
    /// Binaural rendering.
    Binaural,
    /// Panning.
    Panning,
}

/// The number of output channels of a decode effect: two for binaural rendering, the
/// speaker count of the layout for panning.
pub open spec fn decode_output_channels<D>(speaker_layout: SpeakerLayout<D>, rendering: Rendering) -> u32 {
    match rendering {
        Rendering::Binaural => 2,
        Rendering::Panning => speaker_layout.spec_num_channels(),
    }
}

/// The channel layout an Ambisonics decode effect keeps from its creation.
#[derive(Debug, Copy, Clone, PartialEq, Eq)]
pub struct AmbisonicsDecodeEffectChannels {
    /// The maximum Ambisonics order of input buffers.
    pub max_order: u32,
    /// The number of output channels.
    pub num_output_channels: u32,
    /// How the sound field is rendered.
    pub rendering: Rendering,
}

impl AmbisonicsDecodeEffectChannels {
    /// Whether the channel count of the maximum order fits in a `u32`.
    pub open spec fn well_formed(&self) -> bool {
        spec_num_ambisonics_channels(self.max_order) <= u32::MAX
    }

    /// Derives the channel layout from the creation settings.
    pub fn new<D>(speaker_layout: &SpeakerLayout<D>, max_order: u32, rendering: Rendering) -> (r: Self)
        ensures
            r.num_output_channels == (if rendering is Binaural { 2u32 } else { speaker_layout.spec_num_channels() }),
            r.max_order == max_order,
            r.rendering == rendering,
            r.num_output_channels == decode_output_channels(*speaker_layout, rendering),
    {
        let num_output_channels = match rendering {
            Rendering::Binaural => 2,
            Rendering::Panning => speaker_layout.num_channels(),
        };
        Self { max_order, num_output_channels, rendering }
    }

    /// Checks the buffers of `apply` with parameters of Ambisonic order `order`: as many
    /// input channels as the maximum order requires, and the effect's output channel count.
    pub fn check_apply(&self, order: u32, num_input_channels: u32, num_output_channels: u32) -> (r: Result<
        (),
        EffectError,
    >)
        requires
            self.well_formed(),
        ensures
            r is Ok <==> num_input_channels == (((self.max_order + 1) * (self.max_order + 1)) as u32) && num_output_channels == self.num_output_channels,
            num_input_channels != (((self.max_order + 1) * (self.max_order + 1)) as u32) ==> r == Err::<(), EffectError>(EffectError::InvalidAmbisonicOrder { order, buffer_channels: num_input_channels, required_channels: (((self.max_order + 1) * (self.max_order + 1)) as u32) }),
            num_input_channels == (((self.max_order + 1) * (self.max_order + 1)) as u32) && num_output_channels != self.num_output_channels ==> r == Err::<(), EffectError>(EffectError::InvalidOutputChannels { expected: ChannelRequirement::Exactly(self.num_output_channels), actual: num_output_channels }),
            r == then_check(
                ambisonic_order_check(
                    order,
                    num_input_channels,
                    spec_num_ambisonics_channels(self.max_order) as u32,
                ),
                output_channel_check(
                    ChannelRequirement::Exactly(self.num_output_channels),
                    num_output_channels,
                ),
            ),
    {
        let required = num_ambisonics_channels(self.max_order);
        check_ambisonic_order(order, num_input_channels, required)?;
        check_output_channels(ChannelRequirement::Exactly(self.num_output_channels), num_output_channels)
    }

    /// Checks the output buffer of `tail` against the effect's output channel count.
    pub fn check_tail(&self, num_output_channels: u32) -> (r: Result<(), EffectError>)
        ensures
            r is Ok <==> num_output_channels == self.num_output_channels,
            num_output_channels != self.num_output_channels ==> r == Err::<(), EffectError>(EffectError::InvalidOutputChannels { expected: ChannelRequirement::Exactly(self.num_output_channels), actual: num_output_channels }),
            r == output_channel_check(
                ChannelRequirement::Exactly(self.num_output_channels),
                num_output_channels,
            ),
    {
        check_output_channels(ChannelRequirement::Exactly(self.num_output_channels), num_output_channels)
    }
}

/// A decoder renders to two channels binaurally, and to one channel per speaker of its
/// layout when panning, whatever its maximum order: for 5.1 that is six channels, as
/// many as an Ambisonics panning effect for the same layout writes.
pub proof fn lemma_decode_output_channels<D>(speaker_layout: SpeakerLayout<D>)
    ensures
        decode_output_channels(speaker_layout, Rendering::Binaural) == 2,
        decode_output_channels(speaker_layout, Rendering::Panning) == speaker_layout.spec_num_channels(),
        speaker_layout is Surround5_1 ==> decode_output_channels(speaker_layout, Rendering::Panning) == 6,
        speaker_layout is Surround7_1 ==> decode_output_channels(speaker_layout, Rendering::Panning) == 8,
{
}

/// A decoder created from a layout, a maximum order and a rendering accepts exactly the
/// buffers with `(max_order + 1)^2` input channels and as many output channels as the
/// rendering writes; a wrong input count is reported as an Ambisonic order mismatch
/// before the output is looked at.
pub proof fn lemma_decode_accepts<D>(
    speaker_layout: SpeakerLayout<D>,
    max_order: u32,
    rendering: Rendering,
    order: u32,
    num_input_channels: u32,
    num_output_channels: u32,
)
    requires
        (max_order + 1) * (max_order + 1) <= u32::MAX,
    ensures
        ({
            let outcome = then_check(
                ambisonic_order_check(
                    order,
                    num_input_channels,
                    spec_num_ambisonics_channels(max_order) as u32,
                ),
                output_channel_check(
                    ChannelRequirement::Exactly(decode_output_channels(speaker_layout, rendering)),
                    num_output_channels,
                ),
            );
            &&& outcome is Ok <==> num_input_channels == (max_order + 1) * (max_order + 1)
                && num_output_channels == (if rendering is Binaural {
                2
            } else {
                speaker_layout.spec_num_channels()
            })
            &&& num_input_channels != (max_order + 1) * (max_order + 1) ==> outcome == Err::<
                (),
                EffectError,
            >(
                EffectError::InvalidAmbisonicOrder {
                    order,
                    buffer_channels: num_input_channels,
                    required_channels: ((max_order + 1) * (max_order + 1)) as u32,
                },
            )
        }),
{
}

} // verus!
