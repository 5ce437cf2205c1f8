use vstd::prelude::*;

verus! {

/// States that an audio effect can be left in after processing a frame of audio.
///
/// Many effects keep producing output (the "tail") after their input stops; `tail()` must
/// then be called until it reports [`AudioEffectState::TailComplete`].
#[derive(Eq, PartialEq, Debug, Copy, Clone, Structural)]
pub enum AudioEffectState {
    /// One or more samples of tail remain in the effect's internal buffers.
    TailRemaining,
    /// No tail remains in the effect's internal buffers.
    TailComplete,
}

} // verus!
