use glam::{Vec2, Vec4};
use vstd::prelude::*;

use crate::render::linear::{vec2_one, vec2_zero, vec4_one};
use super::svg_geometry::SVGGeometry;
use crate::util::handle::Handle;

verus! {

pub type ZIndex = u16;

/// One placement of a piece of vector geometry.
#[derive(Clone, Copy)]
pub struct VectorInstance {
    pub id: Handle<SVGGeometry>,
    pub transform: Vec2,
    pub scale: Vec2,
    pub color: Vec4,
    pub z_index: ZIndex,
}

impl VectorInstance {
    pub fn new(id: Handle<SVGGeometry>) -> (r: Self)
        ensures
            r.id == id,
            r.z_index == 0,
    {
        Self { id, transform: vec2_zero(), scale: vec2_one(), color: vec4_one(), z_index: 0 }
    }

    pub fn with_transform(self, transform: Vec2) -> (r: Self)
        ensures
            r == (VectorInstance { transform, ..self }),
    {
        let mut s = self;
        s.transform = transform;
        s
    }

    pub fn with_scale(self, scale: Vec2) -> (r: Self)
        ensures
            r == (VectorInstance { scale, ..self }),
    {
        let mut s = self;
        s.scale = scale;
        s
    }

    pub fn with_color(self, color: Vec4) -> (r: Self)
        ensures
            r == (VectorInstance { color, ..self }),
    {
        let mut s = self;
        s.color = color;
        s
    }
}

/// The per-instance data that is uploaded to the GPU.
#[derive(Clone, Copy)]
pub struct RawInstance {
    pub transform: Vec2,
    pub scale: Vec2,
    pub color: Vec4,
}

/// The GPU data of an instance: its transform, scale and color.
pub open spec fn raw_of(value: VectorInstance) -> RawInstance {
    RawInstance { transform: value.transform, scale: value.scale, color: value.color }
}

impl From<VectorInstance> for RawInstance {
    fn from(value: VectorInstance) -> (r: Self) {
        Self { transform: value.transform, scale: value.scale, color: value.color }
    }
}

impl vstd::std_specs::convert::FromSpecImpl<VectorInstance> for RawInstance {
    open spec fn obeys_from_spec() -> bool {
        true
    }

    open spec fn from_spec(v: VectorInstance) -> Self {
        raw_of(v)
    }
}

} // verus!
