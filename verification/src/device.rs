//! Compute devices: OpenCL device lists and TrueAudio Next settings.

pub mod open_cl;
pub mod true_audio_next;
