//! Index checks and sizes of energy fields.
//!
//! An energy field is a histogram of sound energy stored as a 3D array of size
//! #channels * #bands * #bins, in row-major order.

use vstd::prelude::*;

use crate::text::{decimal, push_decimal};

verus! {

/// The number of frequency bands that Steam Audio uses.
pub const NUM_BANDS: u32 = 3;

/// Energy field errors.
#[derive(Debug, PartialEq, Eq, Copy, Clone, Structural)]
pub enum EnergyFieldError {
    /// Channel index is out of bounds.
    ChannelIndexOutOfBounds { channel_index: u32, num_channels: u32 },
    /// Band index is out of bounds.
    BandIndexOutOfBounds { band_index: u32, max_bands: u32 },
}

/// The outcome of looking up a channel of a field with `num_channels` channels.
pub open spec fn channel_lookup(channel_index: u32, num_channels: u32) -> Result<(), EnergyFieldError> {
    if channel_index >= num_channels {
        Err(EnergyFieldError::ChannelIndexOutOfBounds { channel_index, num_channels })
    } else {
        Ok(())
    }
}

/// The outcome of looking up a band of a channel: the channel is checked first.
pub open spec fn band_lookup(channel_index: u32, band_index: u32, num_channels: u32) -> Result<
    (),
    EnergyFieldError,
> {
    if channel_index >= num_channels {
        Err(EnergyFieldError::ChannelIndexOutOfBounds { channel_index, num_channels })
    } else if band_index >= NUM_BANDS {
        Err(EnergyFieldError::BandIndexOutOfBounds { band_index, max_bands: NUM_BANDS })
    } else {
        Ok(())
    }
}

/// Checks a channel index, as `EnergyField::channel` does before reading the channel.
pub fn check_channel_index(channel_index: u32, num_channels: u32) -> (r: Result<(), EnergyFieldError>)
    ensures
        r == channel_lookup(channel_index, num_channels),
        r is Ok <==> channel_index < num_channels,
        r is Err ==> r == Err::<(), EnergyFieldError>(
            EnergyFieldError::ChannelIndexOutOfBounds { channel_index, num_channels },
        ),
{
    if channel_index >= num_channels {
        return Err(EnergyFieldError::ChannelIndexOutOfBounds { channel_index, num_channels });
    }
    Ok(())
}

/// Checks a channel and a band index, as `EnergyField::band` does before reading the band.
pub fn check_band_index(channel_index: u32, band_index: u32, num_channels: u32) -> (r: Result<
    (),
    EnergyFieldError,
>)
    ensures
        r == band_lookup(channel_index, band_index, num_channels),
        r is Ok <==> channel_index < num_channels && band_index < 3,
        channel_index >= num_channels ==> r == Err::<(), EnergyFieldError>(
            EnergyFieldError::ChannelIndexOutOfBounds { channel_index, num_channels },
        ),
        channel_index < num_channels && band_index >= 3 ==> r == Err::<(), EnergyFieldError>(
            EnergyFieldError::BandIndexOutOfBounds { band_index, max_bands: 3 },
        ),
{
    if channel_index >= num_channels {
        return Err(EnergyFieldError::ChannelIndexOutOfBounds { channel_index, num_channels });
    }
    if band_index >= NUM_BANDS {
        return Err(EnergyFieldError::BandIndexOutOfBounds { band_index, max_bands: NUM_BANDS });
    }
    Ok(())
}

/// The number of samples of a whole energy field: #channels * #bands * #bins.
pub fn data_len(num_channels: u32, num_bins: u32) -> (r: u32)
    requires
        num_channels * NUM_BANDS <= u32::MAX,
        num_channels * NUM_BANDS * num_bins <= u32::MAX,
    ensures
        r == num_channels * NUM_BANDS * num_bins,
{
    num_channels * NUM_BANDS * num_bins
}

/// The number of samples of one channel of an energy field: #bands * #bins.
pub fn channel_len(num_bins: u32) -> (r: u32)
    requires
        NUM_BANDS * num_bins <= u32::MAX,
    ensures
        r == NUM_BANDS * num_bins,
{
    NUM_BANDS * num_bins
}

impl EnergyFieldError {
    /// The message that describes the error.
    pub open spec fn spec_message(self) -> Seq<char> {
        match self {
            EnergyFieldError::ChannelIndexOutOfBounds { channel_index, num_channels } =>
                "channel index "@ + decimal(channel_index as nat) + " out of bounds (num_channels: "@
                + decimal(num_channels as nat) + ")"@,
            EnergyFieldError::BandIndexOutOfBounds { band_index, max_bands } => "band index "@
                + decimal(band_index as nat) + " out of bounds (max_bands: "@ + decimal(
                max_bands as nat,
            ) + ")"@,
        }
    }

    /// Returns the message that describes the error.
    pub fn message(&self) -> (r: String)
        ensures
            r@ == self.spec_message(),
    {
        match self {
            EnergyFieldError::ChannelIndexOutOfBounds { channel_index, num_channels } => {
                let mut s = String::from_str("channel index ");
                push_decimal(&mut s, *channel_index as u64);
                s.append(" out of bounds (num_channels: ");
                push_decimal(&mut s, *num_channels as u64);
                s.append(")");
                s
            },
            EnergyFieldError::BandIndexOutOfBounds { band_index, max_bands } => {
                let mut s = String::from_str("band index ");
                push_decimal(&mut s, *band_index as u64);
                s.append(" out of bounds (max_bands: ");
                push_decimal(&mut s, *max_bands as u64);
                s.append(")");
                s
            },
        }
    }
}


/// A channel index is accepted exactly when it designates a channel of the field, that
/// is, when it is below the channel count; any other index is refused with itself and
/// the channel count.
pub proof fn lemma_channel_lookup_accepts_existing_channels(channel_index: u32, num_channels: u32)
    ensures
        channel_lookup(channel_index, num_channels) is Ok <==> channel_index < num_channels,
        channel_index >= num_channels ==> channel_lookup(channel_index, num_channels) == Err::<
            (),
            EnergyFieldError,
        >(EnergyFieldError::ChannelIndexOutOfBounds { channel_index, num_channels }),
        channel_lookup(num_channels, num_channels) is Err,
{
}

/// A band is reached exactly when its channel exists and the band is one of the three
/// bands; a missing channel is reported before a missing band, and a band lookup
/// accepts only what the channel lookup accepts.
pub proof fn lemma_band_lookup_accepts_existing_bands(channel_index: u32, band_index: u32, num_channels: u32)
    ensures
        band_lookup(channel_index, band_index, num_channels) is Ok <==> channel_index < num_channels
            && band_index < 3,
        channel_index >= num_channels ==> band_lookup(channel_index, band_index, num_channels)
            == Err::<(), EnergyFieldError>(
            EnergyFieldError::ChannelIndexOutOfBounds { channel_index, num_channels },
        ),
        channel_index < num_channels && band_index >= 3 ==> band_lookup(
            channel_index,
            band_index,
            num_channels,
        ) == Err::<(), EnergyFieldError>(
            EnergyFieldError::BandIndexOutOfBounds { band_index, max_bands: 3 },
        ),
        band_lookup(channel_index, band_index, num_channels) is Ok ==> channel_lookup(
            channel_index,
            num_channels,
        ) is Ok,
{
}

} // verus!
