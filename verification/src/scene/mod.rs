//! Scene representation and sampling.
pub mod sampling;
pub mod scene;
pub mod static_mesh;
