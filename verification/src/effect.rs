//! Audio effects: the channel-count checks that guard each effect, and the plain
//! settings and state types that those checks read.

pub mod ambisonics;
pub mod audio_effect_state;
pub mod direct;
pub mod direct_effect;
pub mod error;
pub mod panning;
pub mod pathing;
pub mod reflection;
pub mod reflection_effect;
pub mod reflections;
pub mod virtual_surround;

pub use ambisonics::{AmbisonicsType, Rendering, SpeakerLayout};
pub use panning::{PanningEffectChannels, PanningEffectParams, PanningEffectSettings};
pub use audio_effect_state::AudioEffectState;
pub use error::{EffectError, ImpulseResponseSizeExceedsMaxError, NumChannelsExceedsMaxError};
