use vstd::prelude::*;

verus! {

/// A deviation model: how sound is attenuated as it bends along its path to the listener.
///
/// `C` is the type of the callback of a user-defined model.
#[derive(Debug)]
pub enum DeviationModel<C> {
    /// The default, physics-based model (Uniform Theory of Diffraction).
    Default,
    /// An arbitrary deviation model, defined by a callback function.
    Callback(C),
}

impl<C> Default for DeviationModel<C> {
    fn default() -> (r: Self)
        ensures
            r is Default,
    {
        DeviationModel::Default
    }
}

} // verus!
