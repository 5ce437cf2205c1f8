use vstd::prelude::*;

use crate::text::{decimal, push_decimal};

use crate::channels::ChannelRequirement;

verus! {

/// Errors that can occur when applying audio effects.
#[derive(Debug, PartialEq, Eq, Copy, Clone, Structural)]
pub enum EffectError {
    /// Input buffer has wrong number of channels.
    InvalidInputChannels { expected: ChannelRequirement, actual: u32 },
    /// Output buffer has wrong number of channels.
    InvalidOutputChannels { expected: ChannelRequirement, actual: u32 },
    /// A buffer's channel count does not match the Ambisonic order.
    InvalidAmbisonicOrder { order: u32, buffer_channels: u32, required_channels: u32 },
}

/// Error returned when the requested number of channels exceeds the maximum set during
/// effect creation.
#[derive(Debug, Clone, PartialEq)]
pub struct NumChannelsExceedsMaxError {
    pub requested: u32,
    pub max: u32,
}

/// Error returned when the requested impulse response size exceeds the maximum set
/// during effect creation.
#[derive(Debug, Clone, PartialEq)]
pub struct ImpulseResponseSizeExceedsMaxError {
    pub requested: u32,
    pub max: u32,
}

/// The outcome of checking an input buffer's channel count against a requirement.
pub open spec fn input_channel_check(expected: ChannelRequirement, actual: u32) -> Result<
    (),
    EffectError,
> {
    if expected.spec_is_satisfied_by(actual) {
        Ok(())
    } else {
        Err(EffectError::InvalidInputChannels { expected, actual })
    }
}

/// The outcome of checking an output buffer's channel count against a requirement.
pub open spec fn output_channel_check(expected: ChannelRequirement, actual: u32) -> Result<
    (),
    EffectError,
> {
    if expected.spec_is_satisfied_by(actual) {
        Ok(())
    } else {
        Err(EffectError::InvalidOutputChannels { expected, actual })
    }
}

/// The outcome of checking a buffer's channel count against the channel count that an
/// Ambisonic order requires.
pub open spec fn ambisonic_order_check(order: u32, buffer_channels: u32, required_channels: u32) -> Result<
    (),
    EffectError,
> {
    if buffer_channels == required_channels {
        Ok(())
    } else {
        Err(EffectError::InvalidAmbisonicOrder { order, buffer_channels, required_channels })
    }
}

/// The first failure of two checks made in turn, or success if both pass.
pub open spec fn then_check(first: Result<(), EffectError>, second: Result<(), EffectError>) -> Result<
    (),
    EffectError,
> {
    if first is Err {
        first
    } else {
        second
    }
}

/// Checks an input buffer's channel count against a requirement.
pub fn check_input_channels(expected: ChannelRequirement, actual: u32) -> (r: Result<(), EffectError>)
    ensures
        r == input_channel_check(expected, actual),
        r is Ok <==> match expected {
            ChannelRequirement::Exactly(n) => actual == n,
            ChannelRequirement::AtLeast(n) => actual >= n,
        },
        r is Err ==> r == Err::<(), EffectError>(EffectError::InvalidInputChannels { expected, actual }),
{
    if expected.is_satisfied_by(actual) {
        Ok(())
    } else {
        Err(EffectError::InvalidInputChannels { expected, actual })
    }
}

/// Checks an output buffer's channel count against a requirement.
pub fn check_output_channels(expected: ChannelRequirement, actual: u32) -> (r: Result<(), EffectError>)
    ensures
        r == output_channel_check(expected, actual),
        r is Ok <==> match expected {
            ChannelRequirement::Exactly(n) => actual == n,
            ChannelRequirement::AtLeast(n) => actual >= n,
        },
        r is Err ==> r == Err::<(), EffectError>(EffectError::InvalidOutputChannels { expected, actual }),
{
    if expected.is_satisfied_by(actual) {
        Ok(())
    } else {
        Err(EffectError::InvalidOutputChannels { expected, actual })
    }
}

/// Checks a buffer's channel count against the channel count an Ambisonic order requires.
pub fn check_ambisonic_order(order: u32, buffer_channels: u32, required_channels: u32) -> (r: Result<
    (),
    EffectError,
>)
    ensures
        r == ambisonic_order_check(order, buffer_channels, required_channels),
        r is Ok <==> buffer_channels == required_channels,
        r is Err ==> r == Err::<(), EffectError>(
            EffectError::InvalidAmbisonicOrder { order, buffer_channels, required_channels },
        ),
{
    if buffer_channels == required_channels {
        Ok(())
    } else {
        Err(EffectError::InvalidAmbisonicOrder { order, buffer_channels, required_channels })
    }
}

/// How a channel requirement reads in a message: the count itself for an exact
/// requirement, "at least" and the count for a lower bound.
pub open spec fn requirement_text(requirement: ChannelRequirement) -> Seq<char> {
    match requirement {
        ChannelRequirement::Exactly(n) => decimal(n as nat),
        ChannelRequirement::AtLeast(n) => "at least "@ + decimal(n as nat),
    }
}

/// Appends how a channel requirement reads in a message to `s`.
fn push_requirement(s: &mut String, requirement: ChannelRequirement)
    ensures
        final(s)@ == old(s)@ + requirement_text(requirement),
{
    match requirement {
        ChannelRequirement::Exactly(n) => {
            push_decimal(s, n as u64);
        },
        ChannelRequirement::AtLeast(n) => {
            s.append("at least ");
            push_decimal(s, n as u64);
            proof {
                assert(s@ =~= old(s)@ + ("at least "@ + decimal(n as nat)));
            }
        },
    }
}

impl EffectError {
    /// The message that describes the error.
    pub open spec fn spec_message(self) -> Seq<char> {
        match self {
            EffectError::InvalidInputChannels { expected, actual } => "invalid number of input channels: expected "@
                + requirement_text(expected) + ", got "@ + decimal(actual as nat),
            EffectError::InvalidOutputChannels { expected, actual } => "invalid number of output channels: expected "@
                + requirement_text(expected) + ", got "@ + decimal(actual as nat),
            EffectError::InvalidAmbisonicOrder { order, buffer_channels, required_channels } =>
                "invalid Ambisonic order "@ + decimal(order as nat) + ": the buffer has "@ + decimal(
                buffer_channels as nat,
            ) + " channels, the order requires "@ + decimal(required_channels as nat),
        }
    }

    /// Returns the message that describes the error.
    pub fn message(&self) -> (r: String)
        ensures
            r@ == self.spec_message(),
    {
        match *self {
            EffectError::InvalidInputChannels { expected, actual } => {
                let mut s = String::from_str("invalid number of input channels: expected ");
                push_requirement(&mut s, expected);
                s.append(", got ");
                push_decimal(&mut s, actual as u64);
                s
            },
            EffectError::InvalidOutputChannels { expected, actual } => {
                let mut s = String::from_str("invalid number of output channels: expected ");
                push_requirement(&mut s, expected);
                s.append(", got ");
                push_decimal(&mut s, actual as u64);
                s
            },
            EffectError::InvalidAmbisonicOrder { order, buffer_channels, required_channels } => {
                let mut s = String::from_str("invalid Ambisonic order ");
                push_decimal(&mut s, order as u64);
                s.append(": the buffer has ");
                push_decimal(&mut s, buffer_channels as u64);
                s.append(" channels, the order requires ");
                push_decimal(&mut s, required_channels as u64);
                s
            },
        }
    }
}

impl NumChannelsExceedsMaxError {
    /// The message that describes the error.
    pub open spec fn spec_message(self) -> Seq<char> {
        "requested "@ + decimal(self.requested as nat) + " channels, but maximum is "@ + decimal(
            self.max as nat,
        ) + " (set during effect creation)"@
    }

    /// Returns the message that describes the error.
    pub fn message(&self) -> (r: String)
        ensures
            r@ == self.spec_message(),
    {
        let mut s = String::from_str("requested ");
        push_decimal(&mut s, self.requested as u64);
        s.append(" channels, but maximum is ");
        push_decimal(&mut s, self.max as u64);
        s.append(" (set during effect creation)");
        s
    }
}

impl ImpulseResponseSizeExceedsMaxError {
    /// The message that describes the error.
    pub open spec fn spec_message(self) -> Seq<char> {
        "requested impulse response size of "@ + decimal(self.requested as nat)
            + ", but maximum is "@ + decimal(self.max as nat) + " (set during effect creation)"@
    }

    /// Returns the message that describes the error.
    pub fn message(&self) -> (r: String)
        ensures
            r@ == self.spec_message(),
    {
        let mut s = String::from_str("requested impulse response size of ");
        push_decimal(&mut s, self.requested as u64);
        s.append(", but maximum is ");
        push_decimal(&mut s, self.max as u64);
        s.append(" (set during effect creation)");
        s
    }
}


/// An input buffer passes its check exactly when its channel count meets the requirement:
/// equal to an exact count, or no smaller than a lower bound. A failing buffer is reported
/// as an input error carrying the requirement and the buffer's count.
pub proof fn lemma_input_channel_check_meets_requirement(expected: ChannelRequirement, actual: u32)
    ensures
        input_channel_check(expected, actual) is Ok <==> match expected {
            ChannelRequirement::Exactly(n) => actual == n,
            ChannelRequirement::AtLeast(n) => actual >= n,
        },
        input_channel_check(expected, actual) is Err ==> input_channel_check(expected, actual)
            == Err::<(), EffectError>(EffectError::InvalidInputChannels { expected, actual }),
{
}

/// An output buffer passes its check exactly when its channel count meets the
/// requirement; a failing buffer is reported as an output error carrying the
/// requirement and the buffer's count.
pub proof fn lemma_output_channel_check_meets_requirement(expected: ChannelRequirement, actual: u32)
    ensures
        output_channel_check(expected, actual) is Ok <==> match expected {
            ChannelRequirement::Exactly(n) => actual == n,
            ChannelRequirement::AtLeast(n) => actual >= n,
        },
        output_channel_check(expected, actual) is Err ==> output_channel_check(expected, actual)
            == Err::<(), EffectError>(EffectError::InvalidOutputChannels { expected, actual }),
{
}

/// The Ambisonic order check passes exactly when the buffer has the required channel
/// count, neither fewer nor more; otherwise it reports the order and both counts.
pub proof fn lemma_ambisonic_order_check_exact(order: u32, buffer_channels: u32, required_channels: u32)
    ensures
        ambisonic_order_check(order, buffer_channels, required_channels) is Ok <==> buffer_channels
            == required_channels,
        buffer_channels != required_channels ==> ambisonic_order_check(
            order,
            buffer_channels,
            required_channels,
        ) == Err::<(), EffectError>(
            EffectError::InvalidAmbisonicOrder { order, buffer_channels, required_channels },
        ),
{
}

/// Two checks made in turn pass exactly when both pass; when the first fails its error
/// is the one reported, and when it passes the second decides.
pub proof fn lemma_then_check_first_failure(first: Result<(), EffectError>, second: Result<(), EffectError>)
    ensures
        then_check(first, second) is Ok <==> first is Ok && second is Ok,
        first is Err ==> then_check(first, second) == first,
        first is Ok ==> then_check(first, second) == second,
{
}

} // verus!
