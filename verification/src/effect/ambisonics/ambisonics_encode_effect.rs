use vstd::prelude::*;

verus! {

/// Settings used to create an Ambisonics encode effect (`usize` orders).
#[derive(Debug, Copy, Clone, PartialEq, Eq)]
pub struct AmbisonicsEncodeEffectSettings {
    /// Maximum Ambisonics order to encode audio buffers to.
    pub max_order: usize,
}

/// Parameters for applying an Ambisonics encode effect (`usize` orders); `D` is the
/// direction type.
#[derive(Debug, Copy, Clone, PartialEq)]
pub struct AmbisonicsEncodeEffectParams<D> {
    /// Vector pointing from the listener towards the source.
    pub direction: D,
    /// Ambisonic order of the output buffer.
    pub order: usize,
}

/// The number of input channels that parameters of order `N` call for: `(N + 1)^2`.
pub fn required_num_channels<D>(params: &AmbisonicsEncodeEffectParams<D>) -> (r: usize)
    requires
        (params.order + 1) * (params.order + 1) <= usize::MAX,
    ensures
        r == (params.order + 1) * (params.order + 1),
{
    assert(params.order + 1 <= usize::MAX) by (nonlinear_arith)
        requires
            (params.order + 1) * (params.order + 1) <= usize::MAX,
    ;
    let n: usize = params.order + 1;
    n * n
}

} // verus!
