use vstd::prelude::*;

use crate::channels::{num_ambisonics_channels, spec_num_ambisonics_channels, ChannelRequirement};
use crate::effect::error::{
    check_input_channels, check_output_channels, input_channel_check, output_channel_check,
    then_check, EffectError,
};

verus! {

/// Checks the buffers of an Ambisonics binaural effect's `apply` with parameters of
/// Ambisonic order `order`: as many input channels as the order requires, and two
/// output channels.
pub fn check_ambisonics_binaural_apply(order: u32, num_input_channels: u32, num_output_channels: u32) -> (r: Result<
    (),
    EffectError,
>)
    requires
        spec_num_ambisonics_channels(order) <= u32::MAX,
    ensures
        r is Ok <==> num_input_channels == (((order + 1) * (order + 1)) as u32) && num_output_channels == 2u32,
        num_input_channels != (((order + 1) * (order + 1)) as u32) ==> r == Err::<(), EffectError>(EffectError::InvalidInputChannels { expected: ChannelRequirement::Exactly((((order + 1) * (order + 1)) as u32)), actual: num_input_channels }),
        num_input_channels == (((order + 1) * (order + 1)) as u32) && num_output_channels != 2u32 ==> r == Err::<(), EffectError>(EffectError::InvalidOutputChannels { expected: ChannelRequirement::Exactly(2u32), actual: num_output_channels }),
        r == then_check(
            input_channel_check(
                ChannelRequirement::Exactly(spec_num_ambisonics_channels(order) as u32),
                num_input_channels,
            ),
            output_channel_check(ChannelRequirement::Exactly(2), num_output_channels),
        ),
{
    let required = num_ambisonics_channels(order);
    check_input_channels(ChannelRequirement::Exactly(required), num_input_channels)?;
    check_output_channels(ChannelRequirement::Exactly(2), num_output_channels)
}

/// Checks the output buffer of an Ambisonics binaural effect's `tail`: two channels.
pub fn check_ambisonics_binaural_tail(num_output_channels: u32) -> (r: Result<(), EffectError>)
    ensures
        r is Ok <==> num_output_channels == 2u32,
        num_output_channels != 2u32 ==> r == Err::<(), EffectError>(EffectError::InvalidOutputChannels { expected: ChannelRequirement::Exactly(2u32), actual: num_output_channels }),
        r == output_channel_check(ChannelRequirement::Exactly(2), num_output_channels),
{
    check_output_channels(ChannelRequirement::Exactly(2), num_output_channels)
}

} // verus!
