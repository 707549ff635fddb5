use vstd::prelude::*;

use super::vertex::{corner, vertex_uv_corner, VertexUV};
use crate::render::linear::x_of_y_of;

verus! {

/// A textured rectangle as four vertices and two triangles.
pub struct TexturedQuad {
    pub vertices: [VertexUV; 4],
    pub indices: [u32; 6],
}

/// The two triangles of a quad, over its vertices 0..4.
pub open spec fn quad_indices() -> Seq<u32> {
    seq![0u32, 1, 2, 3, 1, 0]
}

impl TexturedQuad {
    /// The quad spanned by two opposite corners `p1` (top left) and `p2`
    /// (bottom right). Vertex 0 is the bottom-left corner (x of `p2`, y of
    /// `p1`), vertex 1 the top-right corner (x of `p1`, y of `p2`); both take
    /// the color of `p1`.
    pub fn new(p1: VertexUV, p2: VertexUV) -> (r: Self)
        ensures
            r.vertices@ == seq![VertexUV { color: p1.color, ..corner(p2, p1) }, corner(p1, p2), p2, p1],
            r.indices@ == quad_indices(),
            r.vertices@[0].position == x_of_y_of(p2.position, p1.position),
            r.vertices@[0].uv == x_of_y_of(p2.uv, p1.uv),
            r.vertices@[0].color == p1.color,
            r.vertices@[1].position == x_of_y_of(p1.position, p2.position),
            r.vertices@[1].uv == x_of_y_of(p1.uv, p2.uv),
            r.vertices@[1].color == p1.color,
            r.vertices@[2] == p2,
            r.vertices@[3] == p1,
    {
        let top_left = p1;
        let bottom_right = p2;
        let top_right = vertex_uv_corner(top_left, bottom_right);
        let bottom_left = vertex_uv_corner(bottom_right, top_left);
        let bottom_left = VertexUV { color: top_left.color, ..bottom_left };
        let r = Self {
            vertices: [bottom_left, top_right, bottom_right, top_left],
            indices: [0, 1, 2, 3, 1, 0],
        };
        assert(r.indices@ == quad_indices());
        r
    }
}

} // verus!
