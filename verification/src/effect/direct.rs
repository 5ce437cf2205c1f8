use vstd::prelude::*;

use crate::channels::ChannelRequirement;
use crate::effect::error::{
    check_input_channels, check_output_channels, input_channel_check, output_channel_check,
    then_check, EffectError,
};

verus! {

/// Settings used to create a direct effect.
#[derive(Debug, Copy, Clone, PartialEq, Eq)]
pub struct DirectEffectSettings {
    /// Number of channels that will be used by input and output buffers.
    pub num_channels: u32,
}

/// The channel layout a direct effect keeps from its creation.
#[derive(Debug, Copy, Clone, PartialEq, Eq)]
pub struct DirectEffectChannels {
    /// Number of channels of input and output buffers.
    pub num_channels: u32,
}

impl DirectEffectChannels {
    /// Records the channel count of the settings.
    pub fn new(settings: &DirectEffectSettings) -> (r: Self)
        ensures
            r.num_channels == settings.num_channels,
    {
        Self { num_channels: settings.num_channels }
    }

    /// Checks the buffers of `apply`: both with the effect's channel count.
    pub fn check_apply(&self, num_input_channels: u32, num_output_channels: u32) -> (r: Result<
        (),
        EffectError,
    >)
        ensures
            r is Ok <==> num_input_channels == self.num_channels && num_output_channels == self.num_channels,
            num_input_channels != self.num_channels ==> r == Err::<(), EffectError>(EffectError::InvalidInputChannels { expected: ChannelRequirement::Exactly(self.num_channels), actual: num_input_channels }),
            num_input_channels == self.num_channels && num_output_channels != self.num_channels ==> r == Err::<(), EffectError>(EffectError::InvalidOutputChannels { expected: ChannelRequirement::Exactly(self.num_channels), actual: num_output_channels }),
            r == then_check(
                input_channel_check(ChannelRequirement::Exactly(self.num_channels), num_input_channels),
                output_channel_check(
                    ChannelRequirement::Exactly(self.num_channels),
                    num_output_channels,
                ),
            ),
    {
        check_input_channels(ChannelRequirement::Exactly(self.num_channels), num_input_channels)?;
        check_output_channels(ChannelRequirement::Exactly(self.num_channels), num_output_channels)
    }

    /// Checks the output buffer of `tail` against the effect's channel count.
    pub fn check_tail(&self, num_output_channels: u32) -> (r: Result<(), EffectError>)
        ensures
            r is Ok <==> num_output_channels == self.num_channels,
            num_output_channels != self.num_channels ==> r == Err::<(), EffectError>(EffectError::InvalidOutputChannels { expected: ChannelRequirement::Exactly(self.num_channels), actual: num_output_channels }),
            r == output_channel_check(ChannelRequirement::Exactly(self.num_channels), num_output_channels),
    {
        check_output_channels(ChannelRequirement::Exactly(self.num_channels), num_output_channels)
    }
}

/// Flag of the direct effect parameters: apply distance attenuation.
pub const APPLY_DISTANCE_ATTENUATION: u32 = 1;

/// Flag of the direct effect parameters: apply air absorption.
pub const APPLY_AIR_ABSORPTION: u32 = 2;

/// Flag of the direct effect parameters: apply directivity.
pub const APPLY_DIRECTIVITY: u32 = 4;

/// Flag of the direct effect parameters: apply occlusion.
pub const APPLY_OCCLUSION: u32 = 8;

/// Flag of the direct effect parameters: apply transmission.
pub const APPLY_TRANSMISSION: u32 = 16;

/// How transmission through occluders is applied.
#[derive(Debug, Copy, Clone, PartialEq, Eq, Structural)]
pub enum TransmissionType {
    /// One transmission coefficient for all frequencies.
    FrequencyIndependent,
    /// One transmission coefficient per frequency band.
    FrequencyDependent,
}

/// Which parts of a direct effect's parameters are given: a `true` (or a `Some`) stands
/// for a parameter that holds a value and is to be applied.
#[derive(Debug, Copy, Clone, PartialEq, Eq, Structural)]
pub struct DirectEffectParts {
    pub distance_attenuation: bool,
    pub air_absorption: bool,
    pub directivity: bool,
    pub occlusion: bool,
    pub transmission: Option<TransmissionType>,
}

/// The flags that enable each given part, summed (they are distinct bits).
pub open spec fn spec_direct_effect_flags(parts: DirectEffectParts) -> int {
    (if parts.distance_attenuation { APPLY_DISTANCE_ATTENUATION as int } else { 0 })
        + (if parts.air_absorption { APPLY_AIR_ABSORPTION as int } else { 0 })
        + (if parts.directivity { APPLY_DIRECTIVITY as int } else { 0 })
        + (if parts.occlusion { APPLY_OCCLUSION as int } else { 0 })
        + (if parts.transmission is Some { APPLY_TRANSMISSION as int } else { 0 })
}

/// Returns the flags that enable the given parts, and the transmission type to declare:
/// the given one, or frequency-independent when no transmission is given.
pub fn direct_effect_flags(parts: &DirectEffectParts) -> (r: (u32, TransmissionType))
    ensures
        r.0 == spec_direct_effect_flags(*parts),
        r.1 == match parts.transmission {
            Some(t) => t,
            None => TransmissionType::FrequencyIndependent,
        },
{
    let mut flags: u32 = 0;
    if parts.distance_attenuation {
        flags = flags + APPLY_DISTANCE_ATTENUATION;
    }
    if parts.air_absorption {
        flags = flags + APPLY_AIR_ABSORPTION;
    }
    if parts.directivity {
        flags = flags + APPLY_DIRECTIVITY;
    }
    if parts.occlusion {
        flags = flags + APPLY_OCCLUSION;
    }
    let transmission_type = match parts.transmission {
        Some(t) => {
            flags = flags + APPLY_TRANSMISSION;
            t
        },
        None => TransmissionType::FrequencyIndependent,
    };
    (flags, transmission_type)
}

/// Each part is given exactly when its flag is set.
pub proof fn lemma_direct_effect_flags_decode(parts: DirectEffectParts)
    ensures
        ({
            let f = spec_direct_effect_flags(parts) as u32;
            &&& parts.distance_attenuation <==> f & APPLY_DISTANCE_ATTENUATION != 0
            &&& parts.air_absorption <==> f & APPLY_AIR_ABSORPTION != 0
            &&& parts.directivity <==> f & APPLY_DIRECTIVITY != 0
            &&& parts.occlusion <==> f & APPLY_OCCLUSION != 0
            &&& parts.transmission is Some <==> f & APPLY_TRANSMISSION != 0
        }),
{
    let a: u32 = if parts.distance_attenuation { 1 } else { 0 };
    let b: u32 = if parts.air_absorption { 1 } else { 0 };
    let c: u32 = if parts.directivity { 1 } else { 0 };
    let d: u32 = if parts.occlusion { 1 } else { 0 };
    let e: u32 = if parts.transmission is Some { 1 } else { 0 };
    let f: u32 = (a + 2 * b + 4 * c + 8 * d + 16 * e) as u32;
    assert(f as int == spec_direct_effect_flags(parts));
    assert(a <= 1 && b <= 1 && c <= 1 && d <= 1 && e <= 1 && f == a + 2 * b + 4 * c + 8 * d + 16 * e
        ==> ((f & 1 != 0) == (a == 1) && (f & 2 != 0) == (b == 1) && (f & 4 != 0) == (c == 1) && (f
        & 8 != 0) == (d == 1) && (f & 16 != 0) == (e == 1))) by (bit_vector);
}


/// The parts that the given flags enable; a transmission is given with the declared type.
pub open spec fn spec_direct_effect_parts(flags: u32, transmission_type: TransmissionType) -> DirectEffectParts {
    DirectEffectParts {
        distance_attenuation: flags & APPLY_DISTANCE_ATTENUATION != 0,
        air_absorption: flags & APPLY_AIR_ABSORPTION != 0,
        directivity: flags & APPLY_DIRECTIVITY != 0,
        occlusion: flags & APPLY_OCCLUSION != 0,
        transmission: if flags & APPLY_TRANSMISSION != 0 {
            Some(transmission_type)
        } else {
            None
        },
    }
}

/// Reads which parts of a direct effect's parameters the given flags enable: a part is
/// given exactly when its flag is set, and a transmission comes with the declared type.
/// Bits that name no part are ignored.
pub fn direct_effect_parts(flags: u32, transmission_type: TransmissionType) -> (r: DirectEffectParts)
    ensures
        r.distance_attenuation == (flags & APPLY_DISTANCE_ATTENUATION != 0),
        r.air_absorption == (flags & APPLY_AIR_ABSORPTION != 0),
        r.directivity == (flags & APPLY_DIRECTIVITY != 0),
        r.occlusion == (flags & APPLY_OCCLUSION != 0),
        r.transmission == (if flags & APPLY_TRANSMISSION != 0 {
            Some(transmission_type)
        } else {
            None
        }),
        r == spec_direct_effect_parts(flags, transmission_type),
{
    DirectEffectParts {
        distance_attenuation: flags & APPLY_DISTANCE_ATTENUATION != 0,
        air_absorption: flags & APPLY_AIR_ABSORPTION != 0,
        directivity: flags & APPLY_DIRECTIVITY != 0,
        occlusion: flags & APPLY_OCCLUSION != 0,
        transmission: if flags & APPLY_TRANSMISSION != 0 {
            Some(transmission_type)
        } else {
            None
        },
    }
}

/// Reading the flags and transmission type that `direct_effect_flags` gives for some parts
/// gives those parts back.
pub proof fn lemma_direct_effect_parts_of_flags(parts: DirectEffectParts)
    ensures
        spec_direct_effect_parts(
            spec_direct_effect_flags(parts) as u32,
            match parts.transmission {
                Some(t) => t,
                None => TransmissionType::FrequencyIndependent,
            },
        ) == parts,
{
    lemma_direct_effect_flags_decode(parts);
}

/// Building the flags of the parts that some flags enable gives those flags back, when
/// they hold no bit that names no part.
pub proof fn lemma_direct_effect_flags_of_parts(flags: u32, transmission_type: TransmissionType)
    requires
        flags & !31u32 == 0,
    ensures
        spec_direct_effect_flags(spec_direct_effect_parts(flags, transmission_type)) == flags,
{
    let parts = spec_direct_effect_parts(flags, transmission_type);
    let a: u32 = if flags & 1 != 0 { 1 } else { 0 };
    let b: u32 = if flags & 2 != 0 { 1 } else { 0 };
    let c: u32 = if flags & 4 != 0 { 1 } else { 0 };
    let d: u32 = if flags & 8 != 0 { 1 } else { 0 };
    let e: u32 = if flags & 16 != 0 { 1 } else { 0 };
    assert(spec_direct_effect_flags(parts) == a + 2 * b + 4 * c + 8 * d + 16 * e);
    assert(flags & !31u32 == 0 && a == (if flags & 1 != 0 { 1u32 } else { 0u32 }) && b == (
    if flags & 2 != 0 { 1u32 } else { 0u32 }) && c == (if flags & 4 != 0 { 1u32 } else { 0u32 })
        && d == (if flags & 8 != 0 { 1u32 } else { 0u32 }) && e == (if flags & 16 != 0 { 1u32 } else { 0u32 })
        ==> flags == a + 2 * b + 4 * c + 8 * d + 16 * e) by (bit_vector);
}

} // verus!
