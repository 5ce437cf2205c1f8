//! Verified bookkeeping and validation logic of a Steam Audio binding: error
//! mapping, channel-count checks of the audio effects, static mesh validation,
//! scene registration reference counts, and the plain data types around them.

pub mod channels;
pub mod device;
pub mod effect;
pub mod energy_field;
pub mod error;
pub mod ffi_wrapper;
pub mod fmod;
pub mod geometry;
pub mod hrtf;
pub mod impulse_response;
pub mod model;
pub mod open_cl_device;
pub mod sealed;
pub mod text;

pub use channels::{num_ambisonics_channels, ChannelRequirement};
pub use error::{to_option_error, StatusCode, SteamAudioError};
pub use ffi_wrapper::FFIWrapper;
pub use sealed::Sealed;
