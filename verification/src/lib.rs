//! A verified loader for the Wavefront OBJ triangle-mesh interchange format.
//!
//! The crate parses OBJ records line by line, resolves the format's 1-based
//! and negative (relative) vertex indices, triangulates quadrilateral faces,
//! and deduplicates face-vertices that share an index triple into compact
//! indexed meshes, one per named object.
//!
//! Scalar values (positions, texture coordinates, normals) are carried as the
//! bit patterns of 32-bit IEEE floating-point numbers.  Turning a text token
//! into such a bit pattern is the caller's side of the interface: the caller
//! tokenizes each line with [`tokenize`] and attaches to every token the
//! parsed scalar, if the token is one.  Everything the loader then does with
//! those values is verified.

pub mod text;
pub mod index;
pub mod face;
pub mod mesh;
pub mod loader;
pub mod laws;

pub use text::tokenize;
pub use index::VertexIndices;
pub use face::{Face, parse_face};
pub use mesh::{Mesh, Model, export_faces};
pub use loader::{LoadError, LoadResult, Loader, Token};
