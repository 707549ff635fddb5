use vstd::prelude::*;

use super::vertex::Vertex;

verus! {

/// A fixed number of triangles.
pub struct BasicMesh<const C: usize> {
    pub tris: [[Vertex; 3]; C],
}

impl<const C: usize> BasicMesh<C> {
    /// The number of vertices: three per triangle.
    pub fn vert_count() -> (r: usize)
        requires
            C * 3 <= usize::MAX,
        ensures
            r == C * 3,
    {
        C * 3
    }
}

} // verus!
