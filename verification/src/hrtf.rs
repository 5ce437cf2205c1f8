//! Plain HRTF settings types.

use vstd::prelude::*;

verus! {

/// Where to load SOFA HRTF data from.
#[derive(Debug, Clone, PartialEq, Eq)]
pub enum Sofa {
    /// SOFA file from which to load HRTF data.
    Filename(String),
    /// Buffer containing SOFA file data from which to load HRTF data.
    Buffer(Vec<u8>),
}

/// HRTF volume normalization setting.
#[derive(Debug, Copy, Clone, PartialEq, Eq, Structural)]
pub enum VolumeNormalization {
    /// No normalization (named `None` in Steam Audio's terms).
    Unnormalized,
    /// Root-mean squared normalization.
    RootMeanSquared,
}

/// Techniques for interpolating HRTF data.
#[derive(Copy, Clone, Debug, PartialEq, Eq, Structural)]
pub enum HrtfInterpolation {
    /// Nearest-neighbor filtering, i.e., no interpolation.
    Nearest,
    /// Bilinear filtering.
    Bilinear,
}

} // verus!
