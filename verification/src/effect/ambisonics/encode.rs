use vstd::prelude::*;

use crate::channels::{num_ambisonics_channels, spec_num_ambisonics_channels, ChannelRequirement};
use crate::effect::error::{
    ambisonic_order_check, check_ambisonic_order, check_input_channels, input_channel_check,
    then_check, EffectError,
};

verus! {

/// Settings used to create an Ambisonics encode effect.
#[derive(Debug, Copy, Clone, PartialEq, Eq)]
pub struct AmbisonicsEncodeEffectSettings {
    /// Maximum Ambisonics order to encode audio buffers to.
    pub max_order: u32,
}

/// Parameters for applying an Ambisonics encode effect; `D` is the direction type.
#[derive(Debug, Copy, Clone, PartialEq)]
pub struct AmbisonicsEncodeEffectParams<D> {
    /// Vector pointing from the listener towards the source.
    pub direction: D,
    /// Ambisonic order of the output buffer.
    pub order: u32,
}

/// The channel layout an Ambisonics encode effect keeps from its creation.
#[derive(Debug, Copy, Clone, PartialEq, Eq)]
pub struct AmbisonicsEncodeEffectChannels {
    /// The maximum Ambisonics order the effect was created with.
    pub max_order: u32,
}

impl AmbisonicsEncodeEffectChannels {
    /// Whether the channel count of the maximum order fits in a `u32`.
    pub open spec fn well_formed(&self) -> bool {
        spec_num_ambisonics_channels(self.max_order) <= u32::MAX
    }

    /// Records the maximum order of the settings.
    pub fn new(settings: &AmbisonicsEncodeEffectSettings) -> (r: Self)
        ensures
            r.max_order == settings.max_order,
    {
        Self { max_order: settings.max_order }
    }

    /// Checks the buffers of `apply`: one input channel, and as many output channels as
    /// the maximum order requires.
    pub fn check_apply(&self, num_input_channels: u32, num_output_channels: u32) -> (r: Result<
        (),
        EffectError,
    >)
        requires
            self.well_formed(),
        ensures
            r is Ok <==> num_input_channels == 1 && num_output_channels == (((self.max_order + 1) * (self.max_order + 1)) as u32),
            num_input_channels != 1 ==> r == Err::<(), EffectError>(EffectError::InvalidInputChannels { expected: ChannelRequirement::Exactly(1u32), actual: num_input_channels }),
            num_input_channels == 1 && num_output_channels != (((self.max_order + 1) * (self.max_order + 1)) as u32) ==> r == Err::<(), EffectError>(EffectError::InvalidAmbisonicOrder { order: self.max_order, buffer_channels: num_output_channels, required_channels: (((self.max_order + 1) * (self.max_order + 1)) as u32) }),
            r == then_check(
                input_channel_check(ChannelRequirement::Exactly(1), num_input_channels),
                ambisonic_order_check(
                    self.max_order,
                    num_output_channels,
                    spec_num_ambisonics_channels(self.max_order) as u32,
                ),
            ),
    {
        check_input_channels(ChannelRequirement::Exactly(1), num_input_channels)?;
        let required = num_ambisonics_channels(self.max_order);
        check_ambisonic_order(self.max_order, num_output_channels, required)
    }

    /// Checks the output buffer of `tail`: as many channels as the maximum order requires.
    pub fn check_tail(&self, num_output_channels: u32) -> (r: Result<(), EffectError>)
        requires
            self.well_formed(),
        ensures
            r is Ok <==> num_output_channels == (((self.max_order + 1) * (self.max_order + 1)) as u32),
            num_output_channels != (((self.max_order + 1) * (self.max_order + 1)) as u32) ==> r == Err::<(), EffectError>(EffectError::InvalidAmbisonicOrder { order: self.max_order, buffer_channels: num_output_channels, required_channels: (((self.max_order + 1) * (self.max_order + 1)) as u32) }),
            r == ambisonic_order_check(
                self.max_order,
                num_output_channels,
                spec_num_ambisonics_channels(self.max_order) as u32,
            ),
    {
        let required = num_ambisonics_channels(self.max_order);
        check_ambisonic_order(self.max_order, num_output_channels, required)
    }
}

/// An encoder of maximum order `max_order` accepts exactly a mono input and an output of
/// `(max_order + 1)^2` channels; with a mono input, any other output count, larger or
/// smaller, is reported as an Ambisonic order mismatch.
pub proof fn lemma_encode_accepts(max_order: u32, num_input_channels: u32, num_output_channels: u32)
    requires
        (max_order + 1) * (max_order + 1) <= u32::MAX,
    ensures
        ({
            let outcome = then_check(
                input_channel_check(ChannelRequirement::Exactly(1), num_input_channels),
                ambisonic_order_check(
                    max_order,
                    num_output_channels,
                    spec_num_ambisonics_channels(max_order) as u32,
                ),
            );
            &&& outcome is Ok <==> num_input_channels == 1 && num_output_channels == (max_order + 1) * (
            max_order + 1)
            &&& num_input_channels == 1 && num_output_channels != (max_order + 1) * (max_order + 1)
                ==> outcome == Err::<(), EffectError>(
                EffectError::InvalidAmbisonicOrder {
                    order: max_order,
                    buffer_channels: num_output_channels,
                    required_channels: ((max_order + 1) * (max_order + 1)) as u32,
                },
            )
        }),
{
}

} // verus!
