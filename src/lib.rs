//! A directed graph of shared, lock-protected vertices.
pub mod id;
pub mod vertex;

pub use vertex::Vertex;
