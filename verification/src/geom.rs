use vstd::prelude::*;

verus! {

/// A grid coordinate or integer offset. `y` grows downward: row 0 is the
/// top row, and gravity pulls toward larger `y`.
#[derive(Clone, Copy, PartialEq, Eq, Structural, Debug)]
pub struct Vec2 {
    pub x: i32,
    pub y: i32,
}

impl Vec2 {
    pub fn new(x: i32, y: i32) -> (r: Vec2)
        ensures
            r == (Vec2 { x, y }),
    {
        Vec2 { x, y }
    }
}

} // verus!
