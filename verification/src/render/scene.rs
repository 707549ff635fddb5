use vstd::prelude::*;

use super::vertex::Vertex;

verus! {

/// A list of triangles to draw.
pub struct Scene {
    pub triangles: Vec<[Vertex; 3]>,
}

impl Scene {
    /// Appends the triangles of `mesh`, in order.
    pub fn add_mesh(&mut self, mesh: &[[Vertex; 3]])
        ensures
            final(self).triangles@ == old(self).triangles@ + mesh@,
    {
        let ghost start = self.triangles@;
        let mut i: usize = 0;
        while i < mesh.len()
            invariant
                0 <= i <= mesh@.len(),
                self.triangles@ == start + mesh@.take(i as int),
            decreases mesh@.len() - i,
        {
            self.triangles.push(mesh[i]);
            assert(start + mesh@.take(i + 1) =~= (start + mesh@.take(i as int)).push(mesh@[i as int]));
            i = i + 1;
        }
        assert(mesh@.take(i as int) =~= mesh@);
    }

    /// The number of vertices, three per triangle, with the triangle count
    /// taken as a `u32`.
    pub fn size(&self) -> (r: u32)
        requires
            (self.triangles@.len() as u32) * 3 <= u32::MAX,
        ensures
            r == (self.triangles@.len() as u32) * 3,
    {
        self.triangles.len() as u32 * 3
    }
}

} // verus!
