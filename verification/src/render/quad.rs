use vstd::prelude::*;
use vstd::std_specs::convert::IntoSpec;

use super::vertex::Vertex;
use crate::render::linear::{vec2_x_of_y_of, x_of_y_of};

verus! {

/// An axis-aligned rectangle given by two opposite corners.
pub struct Quad {
    p1: Vertex,
    p2: Vertex,
}

impl Quad {
    /// The corner the quad was built from first (top left).
    pub closed spec fn first_corner(self) -> Vertex {
        self.p1
    }

    /// The corner the quad was built from second (bottom right).
    pub closed spec fn second_corner(self) -> Vertex {
        self.p2
    }

    pub fn new<A: Into<Vertex>, B: Into<Vertex>>(p1: A, p2: B) -> (r: Self)
        ensures
            call_ensures(<A as Into<Vertex>>::into, (p1,), r.first_corner()),
            call_ensures(<B as Into<Vertex>>::into, (p2,), r.second_corner()),
            A::obeys_into_spec() ==> r.first_corner() == p1.into_spec(),
            B::obeys_into_spec() ==> r.second_corner() == p2.into_spec(),
    {
        Self { p1: p1.into(), p2: p2.into() }
    }

    /// Two triangles covering the quad. They share the diagonal through the
    /// corner with the first corner's x and the second corner's y, and the
    /// corner with the second corner's x and the first corner's y.
    pub fn triangles(&self) -> (r: Vec<[Vertex; 3]>)
        ensures
            ({
                let tl = self.first_corner();
                let br = self.second_corner();
                let tr = Vertex(x_of_y_of(tl.0, br.0));
                let bl = Vertex(x_of_y_of(br.0, tl.0));
                &&& r@.len() == 2
                &&& r@[0]@ == seq![bl, tr, br]
                &&& r@[1]@ == seq![tl, tr, bl]
            }),
    {
        let top_left = self.p1;
        let bottom_right = self.p2;
        let top_right = Vertex(vec2_x_of_y_of(top_left.0, bottom_right.0));
        let bottom_left = Vertex(vec2_x_of_y_of(bottom_right.0, top_left.0));
        let t1 = [bottom_left, top_right, bottom_right];
        let t2 = [top_left, top_right, bottom_left];
        let mut r = Vec::new();
        r.push(t1);
        r.push(t2);
        r
    }
}

} // verus!
