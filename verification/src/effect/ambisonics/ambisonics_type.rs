use vstd::prelude::*;

verus! {

/// Supported channel ordering and normalization schemes for Ambisonic audio.
#[derive(Copy, Clone, Debug, PartialEq, Eq, Structural)]
pub enum AmbisonicsType {
    /// ACN channel ordering, orthonormal spherical harmonics.
    N3D,
    /// ACN channel ordering, semi-normalized spherical harmonics (AmbiX format).
    SN3D,
    /// Furse-Malham (B-format).
    FuMa,
}

} // verus!
