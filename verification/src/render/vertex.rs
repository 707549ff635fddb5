use glam::{Vec2, Vec4};
use vstd::prelude::*;

use crate::render::linear::{vec2_x_of_y_of, x_of_y_of};

verus! {

/// A bare 2D vertex.
#[derive(Clone, Copy)]
pub struct Vertex(pub Vec2);

/// A vertex with a position, texture coordinates and a color.
#[derive(Clone, Copy)]
pub struct VertexUV {
    pub position: Vec2,
    pub uv: Vec2,
    pub color: Vec4,
}

/// The corner that takes its x from `a` and its y from `b`, for positions
/// and texture coordinates alike, in the color of `a`.
pub open spec fn corner(a: VertexUV, b: VertexUV) -> VertexUV {
    VertexUV {
        position: x_of_y_of(a.position, b.position),
        uv: x_of_y_of(a.uv, b.uv),
        color: a.color,
    }
}

pub(crate) fn vertex_uv_corner(a: VertexUV, b: VertexUV) -> (r: VertexUV)
    ensures
        r == corner(a, b),
        r.position == x_of_y_of(a.position, b.position),
        r.uv == x_of_y_of(a.uv, b.uv),
        r.color == a.color,
{
    VertexUV {
        position: vec2_x_of_y_of(a.position, b.position),
        uv: vec2_x_of_y_of(a.uv, b.uv),
        color: a.color,
    }
}

} // verus!
