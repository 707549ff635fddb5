use glam::{Vec2, Vec4};
use vstd::prelude::*;

use crate::render::linear::vec2_zero;

verus! {

/// A vertex of tessellated vector geometry.
#[derive(Clone, Copy)]
pub struct SVGVertex {
    pub color: Vec4,
    pub position: Vec2,
    pub _padding: Vec2,
}

impl SVGVertex {
    pub fn new(position: Vec2, color: Vec4) -> (r: Self)
        ensures
            r.position == position,
            r.color == color,
    {
        Self { position, color, _padding: vec2_zero() }
    }
}

} // verus!
