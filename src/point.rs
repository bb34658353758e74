use vstd::prelude::*;

use core::ops::{Add, AddAssign, Sub, SubAssign};

verus! {

/// A point, or a size, in integer coordinates. `+` and `-` work coordinate by coordinate
/// and wrap around at the ends of the `i32` range.
#[derive(Clone, Copy, Debug, PartialEq, Eq, Hash, PartialOrd, Ord, Structural)]
pub struct Point {
    pub x: i32,
    pub y: i32,
}

/// The coordinate-wise sum; a coordinate that leaves the `i32` range wraps around.
pub open spec fn add_spec(a: Point, b: Point) -> Point {
    Point { x: a.x.wrapping_add(b.x), y: a.y.wrapping_add(b.y) }
}

/// The coordinate-wise difference; a coordinate that leaves the `i32` range wraps around.
pub open spec fn sub_spec(a: Point, b: Point) -> Point {
    Point { x: a.x.wrapping_sub(b.x), y: a.y.wrapping_sub(b.y) }
}

/// `v / 2` rounded towards zero, as integer division in Rust does.
pub open spec fn half_toward_zero(v: int) -> int {
    if v < 0 { -((-v) / 2) } else { v / 2 }
}

/// `p` lies in the area `[0, size.x) x [0, size.y)`.
pub open spec fn contained_in(p: Point, size: Point) -> bool {
    0 <= p.x < size.x && 0 <= p.y < size.y
}

impl Point {
    pub fn new(x: i32, y: i32) -> (p: Point)
        ensures
            p == (Point { x, y }),
    {
        Point { x, y }
    }

    /// The horizontal extent, when the point stands for a size.
    pub fn width(&self) -> (w: i32)
        ensures
            w == self.x,
    {
        self.x
    }

    /// The vertical extent, when the point stands for a size.
    pub fn height(&self) -> (h: i32)
        ensures
            h == self.y,
    {
        self.y
    }

    /// Whether this point lies in the area from the origin up to, not including, `size`.
    pub fn is_contained(&self, size: &Point) -> (r: bool)
        ensures
            r == contained_in(*self, *size),
    {
        if self.x < 0 || self.y < 0 {
            return false;
        }
        if self.x >= size.width() || self.y >= size.height() {
            return false;
        }
        true
    }

    /// Both coordinates divided by two, rounded towards zero.
    pub fn half(&self) -> (p: Point)
        ensures
            p.x as int == half_toward_zero(self.x as int),
            p.y as int == half_toward_zero(self.y as int),
    {
        Point::new(self.x / 2, self.y / 2)
    }

    pub fn left(&self) -> (p: Point)
        requires
            self.x > i32::MIN,
        ensures
            p == (Point { x: (self.x - 1) as i32, y: self.y }),
    {
        Point::new(self.x - 1, self.y)
    }

    pub fn right(&self) -> (p: Point)
        requires
            self.x < i32::MAX,
        ensures
            p == (Point { x: (self.x + 1) as i32, y: self.y }),
    {
        Point::new(self.x + 1, self.y)
    }

    pub fn up(&self) -> (p: Point)
        requires
            self.y > i32::MIN,
        ensures
            p == (Point { x: self.x, y: (self.y - 1) as i32 }),
    {
        Point::new(self.x, self.y - 1)
    }

    pub fn up_left(&self) -> (p: Point)
        requires
            self.x > i32::MIN,
            self.y > i32::MIN,
        ensures
            p == (Point { x: (self.x - 1) as i32, y: (self.y - 1) as i32 }),
    {
        Point::new(self.x - 1, self.y - 1)
    }

    pub fn up_right(&self) -> (p: Point)
        requires
            self.x < i32::MAX,
            self.y > i32::MIN,
        ensures
            p == (Point { x: (self.x + 1) as i32, y: (self.y - 1) as i32 }),
    {
        Point::new(self.x + 1, self.y - 1)
    }

    pub fn down(&self) -> (p: Point)
        requires
            self.y < i32::MAX,
        ensures
            p == (Point { x: self.x, y: (self.y + 1) as i32 }),
    {
        Point::new(self.x, self.y + 1)
    }

    pub fn down_left(&self) -> (p: Point)
        requires
            self.x > i32::MIN,
            self.y < i32::MAX,
        ensures
            p == (Point { x: (self.x - 1) as i32, y: (self.y + 1) as i32 }),
    {
        Point::new(self.x - 1, self.y + 1)
    }

    pub fn down_right(&self) -> (p: Point)
        requires
            self.x < i32::MAX,
            self.y < i32::MAX,
        ensures
            p == (Point { x: (self.x + 1) as i32, y: (self.y + 1) as i32 }),
    {
        Point::new(self.x + 1, self.y + 1)
    }
}

impl Add<Point> for Point {
    type Output = Point;

    fn add(self, rhs: Point) -> (p: Point) {
        Point::new(self.x.wrapping_add(rhs.x), self.y.wrapping_add(rhs.y))
    }
}

impl vstd::std_specs::ops::AddSpecImpl<Point> for Point {
    open spec fn obeys_add_spec() -> bool {
        true
    }

    open spec fn add_req(self, rhs: Point) -> bool {
        true
    }

    open spec fn add_spec(self, rhs: Point) -> Point {
        add_spec(self, rhs)
    }
}

impl Add<&Point> for Point {
    type Output = Point;

    fn add(self, rhs: &Point) -> (p: Point) {
        Point::new(self.x.wrapping_add(rhs.x), self.y.wrapping_add(rhs.y))
    }
}

impl vstd::std_specs::ops::AddSpecImpl<&Point> for Point {
    open spec fn obeys_add_spec() -> bool {
        true
    }

    open spec fn add_req(self, rhs: &Point) -> bool {
        true
    }

    open spec fn add_spec(self, rhs: &Point) -> Point {
        add_spec(self, *rhs)
    }
}

impl Add<Point> for &Point {
    type Output = Point;

    fn add(self, rhs: Point) -> (p: Point) {
        Point::new(self.x.wrapping_add(rhs.x), self.y.wrapping_add(rhs.y))
    }
}

impl vstd::std_specs::ops::AddSpecImpl<Point> for &Point {
    open spec fn obeys_add_spec() -> bool {
        true
    }

    open spec fn add_req(self, rhs: Point) -> bool {
        true
    }

    open spec fn add_spec(self, rhs: Point) -> Point {
        add_spec(*self, rhs)
    }
}

impl Add<&Point> for &Point {
    type Output = Point;

    fn add(self, rhs: &Point) -> (p: Point) {
        Point::new(self.x.wrapping_add(rhs.x), self.y.wrapping_add(rhs.y))
    }
}

impl vstd::std_specs::ops::AddSpecImpl<&Point> for &Point {
    open spec fn obeys_add_spec() -> bool {
        true
    }

    open spec fn add_req(self, rhs: &Point) -> bool {
        true
    }

    open spec fn add_spec(self, rhs: &Point) -> Point {
        add_spec(*self, *rhs)
    }
}

impl AddAssign<Point> for Point {
    fn add_assign(&mut self, rhs: Point)
        ensures
            *final(self) == add_spec(*old(self), rhs),
    {
        self.x = self.x.wrapping_add(rhs.x);
        self.y = self.y.wrapping_add(rhs.y);
    }
}

impl AddAssign<&Point> for Point {
    fn add_assign(&mut self, rhs: &Point)
        ensures
            *final(self) == add_spec(*old(self), *rhs),
    {
        self.x = self.x.wrapping_add(rhs.x);
        self.y = self.y.wrapping_add(rhs.y);
    }
}

impl Sub<Point> for Point {
    type Output = Point;

    fn sub(self, rhs: Point) -> (p: Point) {
        Point::new(self.x.wrapping_sub(rhs.x), self.y.wrapping_sub(rhs.y))
    }
}

impl vstd::std_specs::ops::SubSpecImpl<Point> for Point {
    open spec fn obeys_sub_spec() -> bool {
        true
    }

    open spec fn sub_req(self, rhs: Point) -> bool {
        true
    }

    open spec fn sub_spec(self, rhs: Point) -> Point {
        sub_spec(self, rhs)
    }
}

impl Sub<&Point> for Point {
    type Output = Point;

    fn sub(self, rhs: &Point) -> (p: Point) {
        Point::new(self.x.wrapping_sub(rhs.x), self.y.wrapping_sub(rhs.y))
    }
}

impl vstd::std_specs::ops::SubSpecImpl<&Point> for Point {
    open spec fn obeys_sub_spec() -> bool {
        true
    }

    open spec fn sub_req(self, rhs: &Point) -> bool {
        true
    }

    open spec fn sub_spec(self, rhs: &Point) -> Point {
        sub_spec(self, *rhs)
    }
}

impl Sub<Point> for &Point {
    type Output = Point;

    fn sub(self, rhs: Point) -> (p: Point) {
        Point::new(self.x.wrapping_sub(rhs.x), self.y.wrapping_sub(rhs.y))
    }
}

impl vstd::std_specs::ops::SubSpecImpl<Point> for &Point {
    open spec fn obeys_sub_spec() -> bool {
        true
    }

    open spec fn sub_req(self, rhs: Point) -> bool {
        true
    }

    open spec fn sub_spec(self, rhs: Point) -> Point {
        sub_spec(*self, rhs)
    }
}

impl Sub<&Point> for &Point {
    type Output = Point;

    fn sub(self, rhs: &Point) -> (p: Point) {
        Point::new(self.x.wrapping_sub(rhs.x), self.y.wrapping_sub(rhs.y))
    }
}

impl vstd::std_specs::ops::SubSpecImpl<&Point> for &Point {
    open spec fn obeys_sub_spec() -> bool {
        true
    }

    open spec fn sub_req(self, rhs: &Point) -> bool {
        true
    }

    open spec fn sub_spec(self, rhs: &Point) -> Point {
        sub_spec(*self, *rhs)
    }
}

impl SubAssign<Point> for Point {
    fn sub_assign(&mut self, rhs: Point)
        ensures
            *final(self) == sub_spec(*old(self), rhs),
    {
        self.x = self.x.wrapping_sub(rhs.x);
        self.y = self.y.wrapping_sub(rhs.y);
    }
}

impl SubAssign<&Point> for Point {
    fn sub_assign(&mut self, rhs: &Point)
        ensures
            *final(self) == sub_spec(*old(self), *rhs),
    {
        self.x = self.x.wrapping_sub(rhs.x);
        self.y = self.y.wrapping_sub(rhs.y);
    }
}

} // verus!
