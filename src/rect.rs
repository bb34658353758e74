use vstd::prelude::*;

use core::ops::{Add, AddAssign};

use crate::point::{add_spec, Point};

verus! {

/// An axis-aligned rectangle: its top left corner and its size.
#[derive(Clone, Copy, Debug, PartialEq, Eq, Hash, PartialOrd, Ord, Structural)]
pub struct Rect {
    pub pos: Point,
    pub size: Point,
}

/// `(x, y)` lies in `r`: from its corner up to, not including, corner plus size.
pub open spec fn rect_contains(r: Rect, x: int, y: int) -> bool {
    &&& r.pos.x <= x < r.pos.x + r.size.x
    &&& r.pos.y <= y < r.pos.y + r.size.y
}

impl Rect {
    pub fn new(x: i32, y: i32, width: i32, height: i32) -> (r: Rect)
        ensures
            r == (Rect { pos: Point { x, y }, size: Point { x: width, y: height } }),
    {
        Rect { pos: Point::new(x, y), size: Point::new(width, height) }
    }

    /// Whether `p` lies in this rectangle.
    pub fn contains(&self, p: &Point) -> (b: bool)
        ensures
            b == rect_contains(*self, p.x as int, p.y as int),
    {
        let x = p.x as i64;
        let y = p.y as i64;
        if x < self.pos.x as i64 || x >= self.pos.x as i64 + self.size.width() as i64 {
            return false;
        }
        if y < self.pos.y as i64 || y >= self.pos.y as i64 + self.size.height() as i64 {
            return false;
        }
        true
    }
}

impl From<Point> for Rect {
    /// The rectangle of size `p` at the origin.
    fn from(p: Point) -> (r: Rect) {
        Rect { pos: Point::new(0, 0), size: p }
    }
}

impl vstd::std_specs::convert::FromSpecImpl<Point> for Rect {
    open spec fn obeys_from_spec() -> bool {
        true
    }

    open spec fn from_spec(p: Point) -> Rect {
        Rect { pos: Point { x: 0, y: 0 }, size: p }
    }
}

impl From<&Point> for Rect {
    /// The rectangle of size `p` at the origin.
    fn from(p: &Point) -> (r: Rect) {
        Rect { pos: Point::new(0, 0), size: *p }
    }
}

impl vstd::std_specs::convert::FromSpecImpl<&Point> for Rect {
    open spec fn obeys_from_spec() -> bool {
        true
    }

    open spec fn from_spec(p: &Point) -> Rect {
        Rect { pos: Point { x: 0, y: 0 }, size: *p }
    }
}

impl Add<Point> for Rect {
    type Output = Rect;

    /// The rectangle moved by `rhs`.
    fn add(self, rhs: Point) -> (r: Rect) {
        Rect { pos: self.pos + rhs, size: self.size }
    }
}

impl vstd::std_specs::ops::AddSpecImpl<Point> for Rect {
    open spec fn obeys_add_spec() -> bool {
        true
    }

    open spec fn add_req(self, rhs: Point) -> bool {
        true
    }

    open spec fn add_spec(self, rhs: Point) -> Rect {
        Rect { pos: add_spec(self.pos, rhs), size: self.size }
    }
}

impl Add<&Point> for &Rect {
    type Output = Rect;

    /// The rectangle moved by `rhs`.
    fn add(self, rhs: &Point) -> (r: Rect) {
        Rect { pos: self.pos + *rhs, size: self.size }
    }
}

impl vstd::std_specs::ops::AddSpecImpl<&Point> for &Rect {
    open spec fn obeys_add_spec() -> bool {
        true
    }

    open spec fn add_req(self, rhs: &Point) -> bool {
        true
    }

    open spec fn add_spec(self, rhs: &Point) -> Rect {
        Rect { pos: add_spec(self.pos, *rhs), size: self.size }
    }
}

impl AddAssign<Point> for Rect {
    fn add_assign(&mut self, rhs: Point)
        ensures
            *final(self) == (Rect { pos: add_spec(old(self).pos, rhs), size: old(self).size }),
    {
        self.pos = self.pos + rhs;
    }
}

impl AddAssign<&Point> for Rect {
    fn add_assign(&mut self, rhs: &Point)
        ensures
            *final(self) == (Rect { pos: add_spec(old(self).pos, *rhs), size: old(self).size }),
    {
        self.pos = self.pos + *rhs;
    }
}

} // verus!
