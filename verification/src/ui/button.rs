use vstd::prelude::*;

verus! {

/// How the pointer interacted with a button this frame.
#[derive(Clone, Copy, Debug, PartialEq, Eq, Structural)]
pub struct ButtonResponse {
    pub clicked: bool,
    pub hovered: bool,
}

impl ButtonResponse {
    /// The response of a button given whether the pointer lies on it and
    /// whether the primary button was pressed this frame: a button away from
    /// the pointer is neither hovered nor clicked, whatever was pressed.
    pub fn from_pointer(pointer_inside: bool, pressed: bool) -> (r: Self)
        ensures
            r.hovered == pointer_inside,
            r.clicked == (pointer_inside && pressed),
    {
        if pointer_inside {
            ButtonResponse { clicked: pressed, hovered: true }
        } else {
            ButtonResponse { clicked: false, hovered: false }
        }
    }
}

} // verus!
