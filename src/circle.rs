use vstd::prelude::*;

use crate::point::Point;

verus! {

/// A circle given by its center and its radius.
#[derive(Clone, Copy, Debug, PartialEq, Eq, Hash, PartialOrd, Ord, Structural)]
pub struct Circle {
    pub pos: Point,
    pub radius: i32,
}

impl Circle {
    pub fn new(x: i32, y: i32, radius: i32) -> (c: Circle)
        ensures
            c == (Circle { pos: Point { x, y }, radius }),
    {
        Circle { pos: Point::new(x, y), radius }
    }
}

} // verus!
