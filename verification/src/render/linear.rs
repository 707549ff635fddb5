//! The `glam` vector types that geometry and instances carry. The library
//! moves these values around but never reads their components.
use vstd::prelude::*;

verus! {

/// glam's two-component `f32` vector.
#[verifier::external_type_specification]
#[verifier::external_body]
pub struct ExVec2(glam::Vec2);

/// glam's four-component `f32` vector.
#[verifier::external_type_specification]
#[verifier::external_body]
pub struct ExVec4(glam::Vec4);

/// `glam::Vec2::ZERO`, the vector with both components zero.
#[verifier::external_body]
pub(crate) fn vec2_zero() -> glam::Vec2 {
    glam::Vec2::ZERO
}

/// `glam::Vec2::ONE`, the vector with both components one.
#[verifier::external_body]
pub(crate) fn vec2_one() -> glam::Vec2 {
    glam::Vec2::ONE
}

/// `glam::Vec4::ONE`, the vector with all four components one.
#[verifier::external_body]
pub(crate) fn vec4_one() -> glam::Vec4 {
    glam::Vec4::ONE
}

/// The vector made of the first component of `a` and the second component
/// of `b`. Components are floats, which are not modelled, so the vector is
/// only named.
pub uninterp spec fn x_of_y_of(a: glam::Vec2, b: glam::Vec2) -> glam::Vec2;

/// `Vec2::new(a.x, b.y)`: the first component of `a` with the second
/// component of `b`, which depends on `a` and `b` alone.
#[verifier::external_body]
pub(crate) fn vec2_x_of_y_of(a: glam::Vec2, b: glam::Vec2) -> (r: glam::Vec2)
    ensures
        r == x_of_y_of(a, b),
{
    glam::Vec2::new(a.x, b.y)
}

} // verus!
