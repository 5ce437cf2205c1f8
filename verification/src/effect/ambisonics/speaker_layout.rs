use vstd::prelude::*;

use crate::text::{decimal, push_decimal};

verus! {

/// Describes a standard or custom speaker layout.
///
/// `D` is the type of a speaker direction.
#[derive(Debug, PartialEq, Clone)]
pub enum SpeakerLayout<D> {
    /// Mono.
    Mono,
    /// Stereo (left, right).
    Stereo,
    /// Front left, front right, rear left, rear right.
    Quadraphonic,
    /// Front left, front right, front center, LFE, rear left, rear right.
    Surround5_1,
    /// Front left, front right, front center, LFE, rear left, rear right, side left, side right.
    Surround7_1,
    /// User-defined speaker layout.
    Custom {
        /// Unit-length direction for each speaker.
        speaker_directions: Vec<D>,
    },
}

impl<D> SpeakerLayout<D> {
    /// The number of channels (speakers) of this layout, as a `u32`.
    pub open spec fn spec_num_channels(&self) -> u32 {
        match self {
            SpeakerLayout::Mono => 1,
            SpeakerLayout::Stereo => 2,
            SpeakerLayout::Quadraphonic => 4,
            SpeakerLayout::Surround5_1 => 6,
            SpeakerLayout::Surround7_1 => 8,
            SpeakerLayout::Custom { speaker_directions } => speaker_directions@.len() as u32,
        }
    }

    /// Returns the number of channels (speakers) of this layout, as a `u32`.
    pub fn num_channels(&self) -> (r: u32)
        ensures
            r == self.spec_num_channels(),
            r == match self {
                SpeakerLayout::Mono => 1u32,
                SpeakerLayout::Stereo => 2u32,
                SpeakerLayout::Quadraphonic => 4u32,
                SpeakerLayout::Surround5_1 => 6u32,
                SpeakerLayout::Surround7_1 => 8u32,
                SpeakerLayout::Custom { speaker_directions } => speaker_directions@.len() as u32,
            },
    {
        match self {
            SpeakerLayout::Mono => 1,
            SpeakerLayout::Stereo => 2,
            SpeakerLayout::Quadraphonic => 4,
            SpeakerLayout::Surround5_1 => 6,
            SpeakerLayout::Surround7_1 => 8,
            SpeakerLayout::Custom { speaker_directions } => speaker_directions.len() as u32,
        }
    }

    /// The name of this speaker layout.
    pub open spec fn spec_name(&self) -> Seq<char> {
        match self {
            SpeakerLayout::Mono => "mono"@,
            SpeakerLayout::Stereo => "stereo"@,
            SpeakerLayout::Quadraphonic => "quadraphonic"@,
            SpeakerLayout::Surround5_1 => "5.1"@,
            SpeakerLayout::Surround7_1 => "7.1"@,
            SpeakerLayout::Custom { .. } => "custom"@,
        }
    }

    /// Returns the name of this speaker layout.
    pub fn name(&self) -> (r: &'static str)
        ensures
            r@ == self.spec_name(),
    {
        match self {
            SpeakerLayout::Mono => "mono",
            SpeakerLayout::Stereo => "stereo",
            SpeakerLayout::Quadraphonic => "quadraphonic",
            SpeakerLayout::Surround5_1 => "5.1",
            SpeakerLayout::Surround7_1 => "7.1",
            SpeakerLayout::Custom { .. } => "custom",
        }
    }

    /// How the layout is displayed: its name, followed for a custom layout by its
    /// channel count.
    pub open spec fn spec_display(&self) -> Seq<char> {
        match self {
            SpeakerLayout::Custom { speaker_directions } => self.spec_name() + " ("@ + decimal(
                speaker_directions@.len(),
            ) + " channels)"@,
            _ => self.spec_name(),
        }
    }

    /// Returns how the layout is displayed: its name, followed for a custom layout by its
    /// channel count.
    pub fn display_string(&self) -> (r: String)
        ensures
            r@ == self.spec_display(),
    {
        let mut s = String::from_str(self.name());
        match self {
            SpeakerLayout::Custom { speaker_directions } => {
                s.append(" (");
                push_decimal(&mut s, speaker_directions.len() as u64);
                s.append(" channels)");
            },
            _ => {},
        }
        s
    }
}

/// A layout has one channel per speaker: one for mono, two for stereo (left, right),
/// four for quadraphonic, six for 5.1 (five speakers and the LFE), eight for 7.1, and one
/// per direction for a custom layout.
pub proof fn lemma_speaker_layout_one_channel_per_speaker<D>(layout: SpeakerLayout<D>)
    ensures
        layout is Mono ==> layout.spec_num_channels() == 1,
        layout is Stereo ==> layout.spec_num_channels() == 2,
        layout is Quadraphonic ==> layout.spec_num_channels() == 4,
        layout is Surround5_1 ==> layout.spec_num_channels() == 6,
        layout is Surround7_1 ==> layout.spec_num_channels() == 8,
        layout matches SpeakerLayout::Custom { speaker_directions } ==> layout.spec_num_channels()
            == speaker_directions@.len() as u32,
{
}

} // verus!
