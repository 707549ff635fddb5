use glam::Vec2;
use vstd::prelude::*;

verus! {

/// An axis-aligned box given by two opposite corners.
#[derive(Clone, Copy)]
pub struct Bounds {
    pub top_left: Vec2,
    pub bottom_right: Vec2,
}

impl Bounds {
    pub fn new(a: Vec2, b: Vec2) -> (r: Self)
        ensures
            r.top_left == a,
            r.bottom_right == b,
    {
        Self { top_left: a, bottom_right: b }
    }
}

} // verus!
