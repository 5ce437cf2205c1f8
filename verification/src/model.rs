//! Propagation models.

pub mod deviation;

pub use deviation::DeviationModel;
