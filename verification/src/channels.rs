use vstd::prelude::*;

verus! {

/// The number of channels an audio buffer must have.
#[derive(Debug, PartialEq, Eq, Copy, Clone, Structural)]
pub enum ChannelRequirement {
    /// Exactly this many channels.
    Exactly(u32),
    /// At least this many channels.
    AtLeast(u32),
}

impl ChannelRequirement {
    /// Whether `num_channels` meets this requirement.
    pub open spec fn spec_is_satisfied_by(self, num_channels: u32) -> bool {
        match self {
            ChannelRequirement::Exactly(n) => num_channels == n,
            ChannelRequirement::AtLeast(n) => num_channels >= n,
        }
    }

    /// Returns whether `num_channels` meets this requirement.
    pub fn is_satisfied_by(&self, num_channels: u32) -> (r: bool)
        ensures
            r == self.spec_is_satisfied_by(num_channels),
            r == match *self {
                ChannelRequirement::Exactly(n) => num_channels == n,
                ChannelRequirement::AtLeast(n) => num_channels >= n,
            },
    {
        match self {
            ChannelRequirement::Exactly(n) => num_channels == *n,
            ChannelRequirement::AtLeast(n) => num_channels >= *n,
        }
    }
}

/// The number of channels of an Ambisonic signal of the given order: `(order + 1)^2`.
pub open spec fn spec_num_ambisonics_channels(order: u32) -> int {
    (order + 1) * (order + 1)
}

/// Returns the number of channels of an Ambisonic signal of the given order, `(order + 1)^2`.
pub fn num_ambisonics_channels(order: u32) -> (r: u32)
    requires
        spec_num_ambisonics_channels(order) <= u32::MAX,
    ensures
        r == spec_num_ambisonics_channels(order),
        r == (order + 1) * (order + 1),
{
    assert(order + 1 <= u32::MAX) by (nonlinear_arith)
        requires
            (order + 1) * (order + 1) <= u32::MAX,
    ;
    let n: u32 = order + 1;
    n * n
}

/// An exact requirement is met by its count alone; a lower bound is met by its count
/// and by every larger count, and by no smaller one.
pub proof fn lemma_requirement_met_by(requirement: ChannelRequirement, num_channels: u32)
    ensures
        ChannelRequirement::Exactly(num_channels).spec_is_satisfied_by(num_channels),
        ChannelRequirement::AtLeast(num_channels).spec_is_satisfied_by(num_channels),
        requirement matches ChannelRequirement::Exactly(n) ==> (requirement.spec_is_satisfied_by(
            num_channels,
        ) <==> num_channels == n),
        requirement matches ChannelRequirement::AtLeast(n) ==> (requirement.spec_is_satisfied_by(
            num_channels,
        ) <==> num_channels >= n),
{
}

/// An Ambisonic signal of order zero has one channel, and each further order adds
/// `2 * order + 3` channels: the channels of order `o` are those of all spherical
/// harmonics of degree at most `o`.
pub proof fn lemma_ambisonics_channels_by_order(order: u32)
    requires
        order < u32::MAX,
    ensures
        spec_num_ambisonics_channels(0) == 1,
        spec_num_ambisonics_channels((order + 1) as u32) == spec_num_ambisonics_channels(order) + 2 * order + 3,
        spec_num_ambisonics_channels(order) >= order + 1,
{
    assert((order + 2) * (order + 2) == (order + 1) * (order + 1) + 2 * order + 3) by (nonlinear_arith);
    assert((order + 1) * (order + 1) >= order + 1) by (nonlinear_arith);
}

} // verus!
