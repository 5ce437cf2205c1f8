//! Index checks and sizes of impulse responses.

use vstd::prelude::*;

use crate::text::{decimal, push_decimal};

verus! {

/// Impulse response errors.
#[derive(Debug, PartialEq, Eq, Copy, Clone, Structural)]
pub enum ImpulseResponseError {
    /// Channel index is out of bounds.
    ChannelIndexOutOfBounds { channel_index: u32, num_channels: u32 },
}

/// The outcome of looking up a channel of an impulse response with `num_channels` channels.
pub open spec fn channel_lookup(channel_index: u32, num_channels: u32) -> Result<(), ImpulseResponseError> {
    if channel_index >= num_channels {
        Err(ImpulseResponseError::ChannelIndexOutOfBounds { channel_index, num_channels })
    } else {
        Ok(())
    }
}

/// Checks a channel index, as `ImpulseResponse::channel` does before reading the channel.
pub fn check_channel_index(channel_index: u32, num_channels: u32) -> (r: Result<
    (),
    ImpulseResponseError,
>)
    ensures
        r == channel_lookup(channel_index, num_channels),
        r is Ok <==> channel_index < num_channels,
        r is Err ==> r == Err::<(), ImpulseResponseError>(
            ImpulseResponseError::ChannelIndexOutOfBounds { channel_index, num_channels },
        ),
{
    if channel_index >= num_channels {
        return Err(ImpulseResponseError::ChannelIndexOutOfBounds { channel_index, num_channels });
    }
    Ok(())
}

/// The number of samples of a whole impulse response: #channels * #samples.
pub fn data_len(num_channels: u32, num_samples: u32) -> (r: u32)
    requires
        num_channels * num_samples <= u32::MAX,
    ensures
        r == num_channels * num_samples,
{
    num_channels * num_samples
}

impl ImpulseResponseError {
    /// The message that describes the error.
    pub open spec fn spec_message(self) -> Seq<char> {
        match self {
            ImpulseResponseError::ChannelIndexOutOfBounds { channel_index, num_channels } =>
                "channel index "@ + decimal(channel_index as nat) + " out of bounds (num_channels: "@
                + decimal(num_channels as nat) + ")"@,
        }
    }

    /// Returns the message that describes the error.
    pub fn message(&self) -> (r: String)
        ensures
            r@ == self.spec_message(),
    {
        match self {
            ImpulseResponseError::ChannelIndexOutOfBounds { channel_index, num_channels } => {
                let mut s = String::from_str("channel index ");
                push_decimal(&mut s, *channel_index as u64);
                s.append(" out of bounds (num_channels: ");
                push_decimal(&mut s, *num_channels as u64);
                s.append(")");
                s
            },
        }
    }
}


/// A channel index is accepted exactly when it designates a channel of the impulse
/// response, that is, when it is below the channel count; any other index is refused
/// with itself and the channel count.
pub proof fn lemma_channel_lookup_accepts_existing_channels(channel_index: u32, num_channels: u32)
    ensures
        channel_lookup(channel_index, num_channels) is Ok <==> channel_index < num_channels,
        channel_index >= num_channels ==> channel_lookup(channel_index, num_channels) == Err::<
            (),
            ImpulseResponseError,
        >(ImpulseResponseError::ChannelIndexOutOfBounds { channel_index, num_channels }),
        channel_lookup(num_channels, num_channels) is Err,
{
}

} // verus!
