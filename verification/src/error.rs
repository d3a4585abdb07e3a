//! Errors that building a scene can report.

use vstd::prelude::*;

verus! {

/// Why a scene could not be built. Each is reported when the scene is
/// loaded, before any rendering starts. (That a mesh file cannot be opened
/// is for the caller to report, who opens it.)
#[derive(Clone, Copy, Debug, PartialEq, Eq, Structural)]
pub enum ConfigError {
    /// The line with this index (the first line has index 0) starts a
    /// vertex, texture-coordinate or normal statement and does not hold the
    /// numbers that the statement needs.
    MalformedLine(usize),
    /// The face with this index has fewer or more than three corners.
    NonTriangularFace(usize),
    /// A corner of the face with this index names a vertex, a texture
    /// coordinate or a normal that the mesh does not have.
    DanglingIndex(usize),
    /// A hierarchy was asked for over no primitives.
    EmptyPrimitiveList,
}

} // verus!
