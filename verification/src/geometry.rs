//! Geometry: triangles, matrices, static mesh validation and the scene registry.

pub mod matrix;
pub mod scene;
pub mod slot_map;
pub mod static_mesh;
pub mod triangle;

pub use matrix::Matrix;
pub use static_mesh::{validate_static_mesh_settings, StaticMeshError, StaticMeshSettings};
pub use triangle::Triangle;
