//! Ambisonics encoding, decoding, panning, binaural rendering and rotation.

pub mod ambisonics_encode_effect;
pub mod ambisonics_type;
pub mod binaural;
pub mod decode;
pub mod encode;
pub mod panning;
pub mod rotation;
pub mod speaker_layout;

pub use ambisonics_type::AmbisonicsType;
pub use binaural::{check_ambisonics_binaural_apply, check_ambisonics_binaural_tail};
pub use decode::{AmbisonicsDecodeEffectChannels, Rendering};
pub use encode::{AmbisonicsEncodeEffectChannels, AmbisonicsEncodeEffectParams, AmbisonicsEncodeEffectSettings};
pub use panning::{
    AmbisonicsPanningEffectChannels, AmbisonicsPanningEffectParams, AmbisonicsPanningEffectSettings,
};
pub use rotation::{AmbisonicsRotationEffectChannels, AmbisonicsRotationEffectSettings};
pub use speaker_layout::SpeakerLayout;
