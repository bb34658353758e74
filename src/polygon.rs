use vstd::prelude::*;

use core::ops::AddAssign;

use crate::point::{add_spec, Point};
use crate::rect::Rect;

verus! {

/// The point with coordinates `x` and `y`.
pub open spec fn pt(x: int, y: int) -> Point {
    Point { x: x as i32, y: y as i32 }
}

/// The smallest value of `s`, or `i32::MAX` when `s` is empty.
pub open spec fn seq_min(s: Seq<int>) -> int
    decreases s.len(),
{
    if s.len() == 0 {
        i32::MAX as int
    } else {
        let m = seq_min(s.drop_last());
        if s.last() < m { s.last() } else { m }
    }
}

/// The largest value of `s`, or `i32::MIN` when `s` is empty.
pub open spec fn seq_max(s: Seq<int>) -> int
    decreases s.len(),
{
    if s.len() == 0 {
        i32::MIN as int
    } else {
        let m = seq_max(s.drop_last());
        if s.last() > m { s.last() } else { m }
    }
}

/// The horizontal coordinates of `vs`.
pub open spec fn xs(vs: Seq<Point>) -> Seq<int> {
    vs.map_values(|p: Point| p.x as int)
}

/// The vertical coordinates of `vs`.
pub open spec fn ys(vs: Seq<Point>) -> Seq<int> {
    vs.map_values(|p: Point| p.y as int)
}

/// The extent of `vs` fits the `i32` size of a rectangle.
pub open spec fn span_fits(vs: Seq<Point>) -> bool {
    vs.len() > 0 ==> {
        &&& seq_max(xs(vs)) - seq_min(xs(vs)) <= i32::MAX
        &&& seq_max(ys(vs)) - seq_min(ys(vs)) <= i32::MAX
    }
}

/// The bounding box of `vs`: from the smallest to the largest coordinates, the largest
/// ones on its edge; the empty rectangle at the origin for no vertices.
pub open spec fn boundary_of(vs: Seq<Point>) -> Rect {
    if vs.len() == 0 {
        Rect { pos: Point { x: 0, y: 0 }, size: Point { x: 0, y: 0 } }
    } else {
        Rect {
            pos: Point { x: seq_min(xs(vs)) as i32, y: seq_min(ys(vs)) as i32 },
            size: Point {
                x: (seq_max(xs(vs)) - seq_min(xs(vs))) as i32,
                y: (seq_max(ys(vs)) - seq_min(ys(vs))) as i32,
            },
        }
    }
}

/// The middle of a rectangle, rounded towards its corner.
pub open spec fn middle_of(r: Rect) -> Point {
    Point { x: (r.pos.x + r.size.x / 2) as i32, y: (r.pos.y + r.size.y / 2) as i32 }
}

/// The edge from `a` to `b` crosses the horizontal ray that goes right from `(x, y)`:
/// one end lies above the ray's height and one not, and `x` lies strictly left of the
/// edge's intercept at that height, compared exactly.
pub open spec fn edge_crosses(a: Point, b: Point, x: int, y: int) -> bool {
    let ay = a.y as int;
    let by = b.y as int;
    let ax = a.x as int;
    let bx = b.x as int;
    &&& (ay > y) != (by > y)
    &&& if by > ay {
        (x - ax) * (by - ay) < (bx - ax) * (y - ay)
    } else {
        (x - ax) * (by - ay) > (bx - ax) * (y - ay)
    }
}

/// How many of the first `k` edges of the closed polygon `vs` cross the ray from `(x, y)`.
pub open spec fn crossings(vs: Seq<Point>, x: int, y: int, k: int) -> nat
    decreases k,
{
    if k <= 0 {
        0
    } else {
        let i = k - 1;
        let j = if i + 1 == vs.len() { 0 } else { i + 1 };
        crossings(vs, x, y, i) + if edge_crosses(vs[i], vs[j], x, y) { 1nat } else { 0nat }
    }
}

/// The even-odd rule: `(x, y)` is inside when the ray from it crosses an odd number of edges.
pub open spec fn inside(vs: Seq<Point>, x: int, y: int) -> bool {
    crossings(vs, x, y, vs.len() as int) % 2 == 1
}

/// A closed polygon with its cached bounding box and center.
pub struct Polygon {
    boundary: Rect,
    center: Point,
    vertices: Vec<Point>,
}

impl Polygon {
    /// The cached bounding box.
    pub closed spec fn boundary_spec(&self) -> Rect {
        self.boundary
    }

    /// The center the polygon turns around.
    pub closed spec fn center_spec(&self) -> Point {
        self.center
    }

    /// The vertices in order; the last one connects back to the first.
    pub closed spec fn vertices_spec(&self) -> Seq<Point> {
        self.vertices@
    }

    /// The polygon with these vertices, its center the middle of their bounding box.
    pub fn new(vertices: Vec<Point>) -> (p: Polygon)
        requires
            span_fits(vertices@),
        ensures
            p.vertices_spec() == vertices@,
            p.boundary_spec() == boundary_of(vertices@),
            p.center_spec() == middle_of(boundary_of(vertices@)),
    {
        let boundary = Polygon::calc_boundary(&vertices);
        let center = Point::new(
            boundary.pos.x + boundary.size.width() / 2,
            boundary.pos.y + boundary.size.height() / 2,
        );
        Polygon { boundary, center, vertices }
    }

    /// A five-pointed star around the origin, with outer radius 14 and inner radius 6,
    /// its first spike pointing right and slightly up; the vertices are the polar points
    /// rounded to the nearest integers.
    pub fn new_star() -> (p: Polygon)
        ensures
            p.vertices_spec() == seq![
                pt(13, -4), pt(6, 2), pt(8, 11),
                pt(0, 6), pt(-8, 11), pt(-6, 2),
                pt(-13, -4), pt(-4, -5), pt(0, -14),
                pt(4, -5),
            ],
            p.boundary_spec() == boundary_of(p.vertices_spec()),
            p.center_spec() == (Point { x: 0, y: 0 }),
    {
        let vertices = vec![
            Point::new(13, -4), Point::new(6, 2), Point::new(8, 11),
            Point::new(0, 6), Point::new(-8, 11), Point::new(-6, 2),
            Point::new(-13, -4), Point::new(-4, -5), Point::new(0, -14),
            Point::new(4, -5),
        ];
        proof {
            lemma_small_span(vertices@, 100);
        }
        let boundary = Polygon::calc_boundary(&vertices);
        Polygon { boundary, center: Point::new(0, 0), vertices }
    }

    pub fn boundary(&self) -> (r: &Rect)
        ensures
            *r == self.boundary_spec(),
    {
        &self.boundary
    }

    pub fn center(&self) -> (r: &Point)
        ensures
            *r == self.center_spec(),
    {
        &self.center
    }

    pub fn vertices(&self) -> (r: &[Point])
        ensures
            r@ == self.vertices_spec(),
    {
        self.vertices.as_slice()
    }

    /// The bounding box of `vertices`.
    pub fn calc_boundary(vertices: &Vec<Point>) -> (r: Rect)
        requires
            span_fits(vertices@),
        ensures
            r == boundary_of(vertices@),
            0 <= r.size.x,
            0 <= r.size.y,
            r.pos.x + r.size.x <= i32::MAX,
            r.pos.y + r.size.y <= i32::MAX,
    {
        if vertices.len() == 0 {
            return Rect::new(0, 0, 0, 0);
        }
        let mut min_x = i32::MAX;
        let mut max_x = i32::MIN;
        let mut min_y = i32::MAX;
        let mut max_y = i32::MIN;
        let mut i: usize = 0;
        while i < vertices.len()
            invariant
                i <= vertices.len(),
                min_x == seq_min(xs(vertices@.take(i as int))),
                max_x == seq_max(xs(vertices@.take(i as int))),
                min_y == seq_min(ys(vertices@.take(i as int))),
                max_y == seq_max(ys(vertices@.take(i as int))),
            decreases vertices.len() - i,
        {
            let v = vertices[i];
            proof {
                let t = vertices@.take(i as int + 1);
                assert(xs(t).drop_last() =~= xs(vertices@.take(i as int)));
                assert(ys(t).drop_last() =~= ys(vertices@.take(i as int)));
                assert(xs(t).last() == v.x as int);
                assert(ys(t).last() == v.y as int);
            }
            if v.x < min_x {
                min_x = v.x;
            }
            if v.x > max_x {
                max_x = v.x;
            }
            if v.y < min_y {
                min_y = v.y;
            }
            if v.y > max_y {
                max_y = v.y;
            }
            i += 1;
        }
        assert(vertices@.take(vertices.len() as int) =~= vertices@);
        proof {
            lemma_coords_in_range(vertices@);
            lemma_min_le_max(xs(vertices@));
            lemma_min_le_max(ys(vertices@));
        }
        Rect::new(min_x, min_y, max_x - min_x, max_y - min_y)
    }

    /// Whether `p` lies inside the polygon by the even-odd crossing rule.
    pub fn is_inside(&self, p: &Point) -> (b: bool)
        ensures
            b == inside(self.vertices_spec(), p.x as int, p.y as int),
    {
        self.is_inside_at(p.x as i64, p.y as i64)
    }

    /// Whether `(x, y)` lies inside the polygon by the even-odd crossing rule.
    pub(crate) fn is_inside_at(&self, x: i64, y: i64) -> (b: bool)
        requires
            -0x1_0000_0000 < x < 0x1_0000_0000,
            -0x1_0000_0000 < y < 0x1_0000_0000,
        ensures
            b == inside(self.vertices_spec(), x as int, y as int),
    {
        let n = self.vertices.len();
        let mut c = false;
        let mut i: usize = 0;
        while i < n
            invariant
                n == self.vertices@.len(),
                i <= n,
                c == (crossings(self.vertices@, x as int, y as int, i as int) % 2 == 1),
                -0x1_0000_0000 < x < 0x1_0000_0000,
                -0x1_0000_0000 < y < 0x1_0000_0000,
            decreases n - i,
        {
            let j = if i + 1 == n { 0 } else { i + 1 };
            if crosses(&self.vertices[i], &self.vertices[j], x, y) {
                c = !c;
            }
            i += 1;
        }
        c
    }

    /// The polygon with its vertices replaced, keeping its center; the bounding box is
    /// computed anew.
    pub fn with_vertices(&self, vertices: Vec<Point>) -> (p: Polygon)
        requires
            span_fits(vertices@),
        ensures
            p.vertices_spec() == vertices@,
            p.boundary_spec() == boundary_of(vertices@),
            p.center_spec() == self.center_spec(),
    {
        let boundary = Polygon::calc_boundary(&vertices);
        Polygon { boundary, center: self.center, vertices }
    }
}

impl AddAssign<&Point> for Polygon {
    /// Moves the polygon, its bounding box and its center by `rhs`.
    fn add_assign(&mut self, rhs: &Point)
        ensures
            final(self).vertices_spec() == old(self).vertices_spec().map_values(|v: Point| add_spec(v, *rhs)),
            final(self).boundary_spec() == (Rect {
                pos: add_spec(old(self).boundary_spec().pos, *rhs),
                size: old(self).boundary_spec().size,
            }),
            final(self).center_spec() == add_spec(old(self).center_spec(), *rhs),
    {
        self.boundary = Rect { pos: self.boundary.pos + *rhs, size: self.boundary.size };
        self.center = self.center + *rhs;
        let mut i: usize = 0;
        while i < self.vertices.len()
            invariant
                i <= self.vertices@.len(),
                self.vertices@.len() == old(self).vertices@.len(),
                self.boundary == (Rect { pos: add_spec(old(self).boundary.pos, *rhs), size: old(self).boundary.size }),
                self.center == add_spec(old(self).center, *rhs),
                forall|k: int| 0 <= k < i ==> self.vertices@[k] == add_spec(old(self).vertices@[k], *rhs),
                forall|k: int| i <= k < self.vertices@.len() ==> self.vertices@[k] == old(self).vertices@[k],
            decreases self.vertices@.len() - i,
        {
            let moved = self.vertices[i] + *rhs;
            self.vertices.set(i, moved);
            i += 1;
        }
        assert(self.vertices@ =~= old(self).vertices@.map_values(|v: Point| add_spec(v, *rhs)));
    }
}

fn crosses(a: &Point, b: &Point, px: i64, py: i64) -> (r: bool)
    requires
        -0x1_0000_0000 < px < 0x1_0000_0000,
        -0x1_0000_0000 < py < 0x1_0000_0000,
    ensures
        r == edge_crosses(*a, *b, px as int, py as int),
{
    if (a.y as i64 > py) == (b.y as i64 > py) {
        return false;
    }
    let ax = a.x as i128;
    let ay = a.y as i128;
    let bx = b.x as i128;
    let by = b.y as i128;
    let x = px as i128;
    let y = py as i128;
    proof {
        lemma_product_bound((x - ax) as int, (by - ay) as int);
        lemma_product_bound((bx - ax) as int, (y - ay) as int);
    }
    let lhs = (x - ax) * (by - ay);
    let rhs = (bx - ax) * (y - ay);
    if by > ay {
        lhs < rhs
    } else {
        lhs > rhs
    }
}

proof fn lemma_product_bound(a: int, b: int)
    requires
        -0x4_0000_0000 < a < 0x4_0000_0000,
        -0x4_0000_0000 < b < 0x4_0000_0000,
    ensures
        -0x10_0000_0000_0000_0000 < a * b < 0x10_0000_0000_0000_0000,
{
    assert(-0x10_0000_0000_0000_0000 < a * b < 0x10_0000_0000_0000_0000) by (nonlinear_arith)
        requires
            -0x4_0000_0000 < a < 0x4_0000_0000,
            -0x4_0000_0000 < b < 0x4_0000_0000,
    ;
}

proof fn lemma_min_le_max(s: Seq<int>)
    requires
        s.len() > 0,
        forall|i: int| 0 <= i < s.len() ==> i32::MIN <= #[trigger] s[i] <= i32::MAX,
    ensures
        seq_min(s) <= seq_max(s),
        exists|i: int| 0 <= i < s.len() && s[i] == seq_min(s),
        exists|i: int| 0 <= i < s.len() && s[i] == seq_max(s),
    decreases s.len(),
{
    let n = s.len() - 1;
    if s.len() > 1 {
        let t = s.drop_last();
        assert forall|i: int| 0 <= i < t.len() implies i32::MIN <= #[trigger] t[i] <= i32::MAX by {
            assert(t[i] == s[i]);
        }
        lemma_min_le_max(t);
        let i = choose|i: int| 0 <= i < t.len() && t[i] == seq_min(t);
        let j = choose|j: int| 0 <= j < t.len() && t[j] == seq_max(t);
        assert(s[i] == t[i]);
        assert(s[j] == t[j]);
        if s.last() < seq_min(t) {
            assert(s[n] == seq_min(s));
        } else {
            assert(s[i] == seq_min(s));
        }
        if s.last() > seq_max(t) {
            assert(s[n] == seq_max(s));
        } else {
            assert(s[j] == seq_max(s));
        }
    } else {
        assert(s.drop_last().len() == 0);
        assert(seq_min(s.drop_last()) == i32::MAX);
        assert(seq_max(s.drop_last()) == i32::MIN);
        assert(i32::MIN <= s[n] <= i32::MAX);
        assert(s[n] == seq_min(s));
        assert(s[n] == seq_max(s));
    }
}

proof fn lemma_coords_in_range(vs: Seq<Point>)
    ensures
        forall|i: int| 0 <= i < xs(vs).len() ==> i32::MIN <= #[trigger] xs(vs)[i] <= i32::MAX,
        forall|i: int| 0 <= i < ys(vs).len() ==> i32::MIN <= #[trigger] ys(vs)[i] <= i32::MAX,
{
    assert forall|i: int| 0 <= i < xs(vs).len() implies i32::MIN <= #[trigger] xs(vs)[i] <= i32::MAX by {
        assert(xs(vs)[i] == vs[i].x as int);
    }
    assert forall|i: int| 0 <= i < ys(vs).len() implies i32::MIN <= #[trigger] ys(vs)[i] <= i32::MAX by {
        assert(ys(vs)[i] == vs[i].y as int);
    }
}

proof fn lemma_bounds(s: Seq<int>, lo: int, hi: int)
    requires
        forall|i: int| 0 <= i < s.len() ==> lo <= #[trigger] s[i] <= hi,
        i32::MIN <= lo,
        hi <= i32::MAX,
        s.len() > 0,
    ensures
        lo <= seq_min(s) <= hi,
        lo <= seq_max(s) <= hi,
{
    lemma_min_le_max(s);
}

proof fn lemma_small_span(vs: Seq<Point>, bound: int)
    requires
        bound < 0x4000_0000,
        forall|i: int| 0 <= i < vs.len() ==> -bound <= (#[trigger] vs[i]).x <= bound && -bound <= vs[i].y <= bound,
    ensures
        span_fits(vs),
{
    if vs.len() > 0 {
        assert forall|i: int| 0 <= i < xs(vs).len() implies -bound <= #[trigger] xs(vs)[i] <= bound by {
            assert(xs(vs)[i] == vs[i].x as int);
        }
        assert forall|i: int| 0 <= i < ys(vs).len() implies -bound <= #[trigger] ys(vs)[i] <= bound by {
            assert(ys(vs)[i] == vs[i].y as int);
        }
        lemma_bounds(xs(vs), -bound, bound);
        lemma_bounds(ys(vs), -bound, bound);
    }
}

} // verus!
