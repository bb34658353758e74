use vstd::prelude::*;

use crate::circle::Circle;
use crate::point::Point;
use crate::polygon::inside;
use crate::rgba::Rgba;

verus! {

/// The `n` points from `(x0, y)` rightwards (none when `n <= 0`).
pub open spec fn row_points(x0: int, y: int, n: int) -> Seq<(int, int)> {
    Seq::new(if n > 0 { n as nat } else { 0 }, |i: int| (x0 + i, y))
}

/// The points of the `w` by `h` rectangle at `(x0, y0)`, row by row, each row left to right.
pub open spec fn rect_fill_points(x0: int, y0: int, w: int, h: int) -> Seq<(int, int)>
    decreases h,
{
    if h <= 0 {
        seq![]
    } else {
        rect_fill_points(x0, y0, w, h - 1) + row_points(x0, y0 + h - 1, w)
    }
}

/// The `n` points from `(x, y0)` downwards (none when `n <= 0`).
pub open spec fn column_points(x: int, y0: int, n: int) -> Seq<(int, int)> {
    Seq::new(if n > 0 { n as nat } else { 0 }, |i: int| (x, y0 + i))
}

/// For each of `n` rows from `y0` downwards, the point in column `left`, then the point in
/// column `right`.
pub open spec fn row_pairs(y0: int, left: int, right: int, n: int) -> Seq<(int, int)>
    decreases n,
{
    if n <= 0 {
        seq![]
    } else {
        row_pairs(y0, left, right, n - 1) + seq![(left, y0 + n - 1), (right, y0 + n - 1)]
    }
}

/// The outline of the `w` by `h` rectangle at `(x0, y0)`, each border cell once: the top
/// row, the bottom row, then for each row strictly between them the left and the right
/// cell. Nothing for an empty rectangle.
pub open spec fn rect_outline_points(x0: int, y0: int, w: int, h: int) -> Seq<(int, int)> {
    if w <= 0 || h <= 0 {
        seq![]
    } else {
        row_points(x0, y0, w) + (if h >= 2 { row_points(x0, y0 + h - 1, w) } else { seq![] }) + (if w >= 2 {
            row_pairs(y0 + 1, x0, x0 + w - 1, h - 2)
        } else {
            column_points(x0, y0 + 1, h - 2)
        })
    }
}

/// The dabs of a picture of width `w` placed at `(x0, y0)`: its colors row by row.
pub open spec fn image_dabs(x0: int, y0: int, w: int, pixels: Seq<Rgba>) -> Seq<(int, int, Rgba)> {
    Seq::new(pixels.len(), |k: int| (x0 + k % w, y0 + k / w, pixels[k]))
}

/// The absolute value.
pub open spec fn abs(v: int) -> int {
    if v < 0 { -v } else { v }
}

/// The horizontal distance between the ends of a line.
pub open spec fn line_dx(p1: Point, p2: Point) -> int {
    abs(p2.x - p1.x)
}

/// The vertical distance between the ends of a line.
pub open spec fn line_dy(p1: Point, p2: Point) -> int {
    abs(p2.y - p1.y)
}

/// The horizontal step of a line: towards `p2`, or back when there is none to take.
pub open spec fn line_sx(p1: Point, p2: Point) -> int {
    if p1.x < p2.x { 1 } else { -1 }
}

/// The vertical step of a line.
pub open spec fn line_sy(p1: Point, p2: Point) -> int {
    if p1.y < p2.y { 1 } else { -1 }
}

/// The initial error term: half the larger distance, positive when the line is wider than
/// tall and negative otherwise.
pub open spec fn line_err0(p1: Point, p2: Point) -> int {
    if line_dx(p1, p2) > line_dy(p1, p2) {
        line_dx(p1, p2) / 2
    } else {
        -(line_dy(p1, p2) / 2)
    }
}

/// Bresenham's walk from `p1` towards `p2`: position and error term `(x, y, err)` after `k`
/// steps. In each step the error term before the step decides: above `-dx` the walk moves
/// horizontally and the error drops by `dy`; below `dy` it moves vertically and the error
/// grows by `dx`.
pub open spec fn line_state(p1: Point, p2: Point, k: nat) -> (int, int, int)
    decreases k,
{
    if k == 0 {
        (p1.x as int, p1.y as int, line_err0(p1, p2))
    } else {
        let s = line_state(p1, p2, (k - 1) as nat);
        let dx = line_dx(p1, p2);
        let dy = line_dy(p1, p2);
        let e2 = s.2;
        let x = if e2 > -dx { s.0 + line_sx(p1, p2) } else { s.0 };
        let err1 = if e2 > -dx { s.2 - dy } else { s.2 };
        let y = if e2 < dy { s.1 + line_sy(p1, p2) } else { s.1 };
        let err = if e2 < dy { err1 + dx } else { err1 };
        (x, y, err)
    }
}

/// The number of points on the line: one more than the larger distance.
pub open spec fn line_len(p1: Point, p2: Point) -> nat {
    (if line_dx(p1, p2) > line_dy(p1, p2) { line_dx(p1, p2) } else { line_dy(p1, p2) } + 1) as nat
}

/// The points of the line from `p1` to `p2` in the order Bresenham's walk visits them.
pub open spec fn line_points(p1: Point, p2: Point) -> Seq<(int, int)> {
    Seq::new(line_len(p1, p2), |k: int| (line_state(p1, p2, k as nat).0, line_state(p1, p2, k as nat).1))
}

/// What holds of the walk after `k` steps: with `u` horizontal and `v` vertical steps
/// taken, neither distance is overshot, the error term is `err0 - u*dy + v*dx`, and it
/// stays within the band that makes the longer axis step every time.
pub open spec fn line_inv(p1: Point, p2: Point, k: nat) -> bool {
    let s = line_state(p1, p2, k);
    let dx = line_dx(p1, p2);
    let dy = line_dy(p1, p2);
    let u = line_sx(p1, p2) * (s.0 - p1.x);
    let v = line_sy(p1, p2) * (s.1 - p1.y);
    &&& 0 <= u <= dx
    &&& 0 <= v <= dy
    &&& s.2 == line_err0(p1, p2) - u * dy + v * dx
    &&& dx > dy ==> u == k && 0 <= s.2 < dx
    &&& dx <= dy && dy > 0 ==> v == k && -dy < s.2 <= 0
    &&& (u == dx && v == dy) <==> k == line_len(p1, p2) - 1
}

proof fn lemma_line_step(p1: Point, p2: Point, k: nat)
    requires
        k < line_len(p1, p2) - 1,
        line_inv(p1, p2, k),
    ensures
        line_inv(p1, p2, k + 1),
{
    let s = line_state(p1, p2, k);
    let t = line_state(p1, p2, k + 1);
    let dx = line_dx(p1, p2);
    let dy = line_dy(p1, p2);
    let sx = line_sx(p1, p2);
    let sy = line_sy(p1, p2);
    let e0 = line_err0(p1, p2);
    let u = sx * (s.0 - p1.x);
    let v = sy * (s.1 - p1.y);
    let u2 = sx * (t.0 - p1.x);
    let v2 = sy * (t.1 - p1.y);
    assert(sx * sx == 1);
    assert(sy * sy == 1);
    let mx = if s.2 > -dx { 1int } else { 0int };
    let my = if s.2 < dy { 1int } else { 0int };
    assert(t.0 - p1.x == (s.0 - p1.x) + mx * sx);
    assert(t.1 - p1.y == (s.1 - p1.y) + my * sy);
    assert(u2 == u + mx) by (nonlinear_arith)
        requires u2 == sx * (t.0 - p1.x), u == sx * (s.0 - p1.x), t.0 - p1.x == (s.0 - p1.x) + mx * sx, sx * sx == 1;
    assert(v2 == v + my) by (nonlinear_arith)
        requires v2 == sy * (t.1 - p1.y), v == sy * (s.1 - p1.y), t.1 - p1.y == (s.1 - p1.y) + my * sy, sy * sy == 1;
    assert(t.2 == s.2 - mx * dy + my * dx);
    assert(t.2 == e0 - u2 * dy + v2 * dx) by (nonlinear_arith)
        requires t.2 == s.2 - mx * dy + my * dx, s.2 == e0 - u * dy + v * dx, u2 == u + mx, v2 == v + my;
    if dx > dy {
        assert(e0 == dx / 2);
        assert(mx == 1);
        if v == dy {
            assert((dx - u) * dy >= dy) by (nonlinear_arith)
                requires dx - u >= 1, dy >= 0;
            assert(s.2 == e0 + (dx - u) * dy) by (nonlinear_arith)
                requires s.2 == e0 - u * dy + v * dx, v == dy;
        }
        if u2 == dx {
            assert((dy - v2) * dx <= e0) by (nonlinear_arith)
                requires t.2 == e0 - u2 * dy + v2 * dx, u2 == dx, t.2 >= 0;
            assert(dy - v2 < 1) by (nonlinear_arith)
                requires (dy - v2) * dx <= e0, e0 < dx, dy - v2 >= 0, dx > 0;
        }
    } else {
        assert(dy > 0);
        assert(e0 == -(dy / 2));
        assert(my == 1);
        if u == dx {
            assert((dy - v) * dx >= dx) by (nonlinear_arith)
                requires dy - v >= 1, dx >= 0;
            assert(s.2 == e0 - (dy - v) * dx) by (nonlinear_arith)
                requires s.2 == e0 - u * dy + v * dx, u == dx;
        }
        if v2 == dy {
            assert((dx - u2) * dy <= -e0) by (nonlinear_arith)
                requires t.2 == e0 - u2 * dy + v2 * dx, v2 == dy, t.2 <= 0;
            assert(dx - u2 < 1) by (nonlinear_arith)
                requires (dx - u2) * dy <= -e0, -e0 < dy, dx - u2 >= 0, dy > 0;
        }
    }
}

/// The walk keeps its invariant for every step up to the last point.
pub proof fn lemma_line_inv(p1: Point, p2: Point, k: nat)
    requires
        k < line_len(p1, p2),
    ensures
        line_inv(p1, p2, k),
    decreases k,
{
    if k == 0 {
        let s = line_state(p1, p2, 0);
        assert(line_sx(p1, p2) * (s.0 - p1.x) == 0);
        assert(line_sy(p1, p2) * (s.1 - p1.y) == 0);
    } else {
        lemma_line_inv(p1, p2, (k - 1) as nat);
        lemma_line_step(p1, p2, (k - 1) as nat);
    }
}

/// A line starts at its first end point and finishes at its second.
pub proof fn lemma_line_endpoints(p1: Point, p2: Point)
    ensures
        line_points(p1, p2).len() >= 1,
        line_points(p1, p2)[0] == (p1.x as int, p1.y as int),
        line_points(p1, p2).last() == (p2.x as int, p2.y as int),
        line_points(p1, p2).contains((p1.x as int, p1.y as int)),
        line_points(p1, p2).contains((p2.x as int, p2.y as int)),
{
    let n = line_len(p1, p2);
    lemma_line_inv(p1, p2, (n - 1) as nat);
    let s = line_state(p1, p2, (n - 1) as nat);
    let sx = line_sx(p1, p2);
    let sy = line_sy(p1, p2);
    assert(sx * (s.0 - p1.x) == line_dx(p1, p2));
    assert(sy * (s.1 - p1.y) == line_dy(p1, p2));
    assert(s.0 == p2.x) by (nonlinear_arith)
        requires sx * (s.0 - p1.x) == line_dx(p1, p2), line_dx(p1, p2) == abs(p2.x - p1.x), sx == if p1.x < p2.x { 1int } else { -1int };
    assert(s.1 == p2.y) by (nonlinear_arith)
        requires sy * (s.1 - p1.y) == line_dy(p1, p2), line_dy(p1, p2) == abs(p2.y - p1.y), sy == if p1.y < p2.y { 1int } else { -1int };
    assert(line_points(p1, p2)[0] == (p1.x as int, p1.y as int));
    assert(line_points(p1, p2)[n - 1] == (p2.x as int, p2.y as int));
}

/// The points symmetric to `(cx + x, cy + y)` about the center `(cx, cy)`, in the order the
/// outline draws them, each once: four on the axes when `y` is 0, four on the diagonals
/// when `x == y`, eight otherwise.
pub open spec fn octants(cx: int, cy: int, x: int, y: int) -> Seq<(int, int)> {
    if y == 0 {
        seq![(cx + x, cy), (cx, cy + x), (cx - x, cy), (cx, cy - x)]
    } else if x == y {
        seq![(cx + x, cy + y), (cx - x, cy + y), (cx - x, cy - y), (cx + x, cy - y)]
    } else {
        seq![
            (cx + x, cy + y), (cx + y, cy + x), (cx - y, cy + x), (cx - x, cy + y),
            (cx - x, cy - y), (cx - y, cy - x), (cx + y, cy - x), (cx + x, cy - y),
        ]
    }
}

/// One step of the midpoint circle walk on `(x, y, d)`: `y` grows by one; while the
/// decision value is positive `x` shrinks by one as well.
pub open spec fn circle_step(x: int, y: int, d: int) -> (int, int, int) {
    let y1 = y + 1;
    if d <= 0 {
        (x, y1, d + 2 * y1 + 1)
    } else {
        (x - 1, y1, d + 2 * (y1 - (x - 1)) + 1)
    }
}

/// The outline points from walk state `(x, y, d)` on, until `y` passes `x`.
pub open spec fn circle_walk(cx: int, cy: int, x: int, y: int, d: int) -> Seq<(int, int)>
    decreases x - y + 2,
{
    if y > x {
        seq![]
    } else {
        let n = circle_step(x, y, d);
        octants(cx, cy, x, y) + circle_walk(cx, cy, n.0, n.1, n.2)
    }
}

/// The outline of `c` by the midpoint circle algorithm with eight-way symmetry; nothing for
/// a radius that is not positive.
pub open spec fn circle_outline_points(c: Circle) -> Seq<(int, int)> {
    if c.radius <= 0 {
        seq![]
    } else {
        circle_walk(c.pos.x as int, c.pos.y as int, c.radius as int, 0, 1 - c.radius)
    }
}

/// `(x, y)` lies strictly inside the circle around `(cx, cy)` of radius `r`.
pub open spec fn in_disc(cx: int, cy: int, r: int, x: int, y: int) -> bool {
    (x - cx) * (x - cx) + (y - cy) * (y - cy) < r * r
}

/// The points of the column from `(x, y0)` downwards over `n` rows that lie inside the circle.
pub open spec fn disc_column(cx: int, cy: int, r: int, x: int, y0: int, n: int) -> Seq<(int, int)>
    decreases n,
{
    if n <= 0 {
        seq![]
    } else {
        disc_column(cx, cy, r, x, y0, n - 1) + if in_disc(cx, cy, r, x, y0 + n - 1) {
            seq![(x, y0 + n - 1)]
        } else {
            seq![]
        }
    }
}

/// The inside points of the first `nx` columns of the box from `(x0, y0)` that is `ny` rows tall.
pub open spec fn disc_columns(cx: int, cy: int, r: int, x0: int, nx: int, y0: int, ny: int) -> Seq<(int, int)>
    decreases nx,
{
    if nx <= 0 {
        seq![]
    } else {
        disc_columns(cx, cy, r, x0, nx - 1, y0, ny) + disc_column(cx, cy, r, x0 + nx - 1, y0, ny)
    }
}

/// The filled circle: the points of its bounding box from `center - r` up to, not including,
/// `center + r`, column by column, that lie strictly inside it.
pub open spec fn circle_fill_points(c: Circle) -> Seq<(int, int)> {
    let cx = c.pos.x as int;
    let cy = c.pos.y as int;
    let r = c.radius as int;
    disc_columns(cx, cy, r, cx - r, 2 * r, cy - r, 2 * r)
}

/// The points of the column from `(x, y0)` downwards over `n` rows inside the polygon `vs`.
pub open spec fn polygon_column(vs: Seq<Point>, x: int, y0: int, n: int) -> Seq<(int, int)>
    decreases n,
{
    if n <= 0 {
        seq![]
    } else {
        polygon_column(vs, x, y0, n - 1) + if inside(vs, x, y0 + n - 1) {
            seq![(x, y0 + n - 1)]
        } else {
            seq![]
        }
    }
}

/// The inside points of the first `nx` columns of the box from `(x0, y0)` that is `ny` rows tall.
pub open spec fn polygon_columns(vs: Seq<Point>, x0: int, nx: int, y0: int, ny: int) -> Seq<(int, int)>
    decreases nx,
{
    if nx <= 0 {
        seq![]
    } else {
        polygon_columns(vs, x0, nx - 1, y0, ny) + polygon_column(vs, x0 + nx - 1, y0, ny)
    }
}

/// The lines along the first `k` edges of the vertex chain `vs`.
pub open spec fn chain_points(vs: Seq<Point>, k: int) -> Seq<(int, int)>
    decreases k,
{
    if k <= 0 {
        seq![]
    } else {
        chain_points(vs, k - 1) + line_points(vs[k - 1], vs[k])
    }
}

/// The outline of the closed polygon `vs`: lines from each vertex to the next and from the
/// last back to the first; nothing for fewer than three vertices.
pub open spec fn polygon_outline_points(vs: Seq<Point>) -> Seq<(int, int)> {
    if vs.len() < 3 {
        seq![]
    } else {
        chain_points(vs, vs.len() - 1) + line_points(vs[vs.len() - 1], vs[0])
    }
}

/// The cells of the `w` by `h` rectangle at `(x0, y0)`.
pub open spec fn rect_cells(x0: int, y0: int, w: int, h: int) -> Set<(int, int)> {
    Set::new(|p: (int, int)| x0 <= p.0 < x0 + w && y0 <= p.1 < y0 + h)
}

/// The cells on the border of the `w` by `h` rectangle at `(x0, y0)`: those in its first or
/// last row or column.
pub open spec fn rect_border(x0: int, y0: int, w: int, h: int) -> Set<(int, int)> {
    Set::new(
        |p: (int, int)|
            x0 <= p.0 < x0 + w && y0 <= p.1 < y0 + h && (p.0 == x0 || p.0 == x0 + w - 1 || p.1 == y0 || p.1 == y0 + h - 1),
    )
}

proof fn lemma_fill_points_shape(x0: int, y0: int, w: int, h: int)
    requires
        w >= 0,
        h >= 0,
    ensures
        rect_fill_points(x0, y0, w, h).len() == w * h,
        rect_fill_points(x0, y0, w, h).no_duplicates(),
        forall|p: (int, int)| rect_fill_points(x0, y0, w, h).contains(p) <==> rect_cells(x0, y0, w, h).contains(p),
    decreases h,
{
    if h > 0 {
        lemma_fill_points_shape(x0, y0, w, h - 1);
        let a = rect_fill_points(x0, y0, w, h - 1);
        let b = row_points(x0, y0 + h - 1, w);
        let s = a + b;
        assert(w * h == w * (h - 1) + w) by (nonlinear_arith);
        assert forall|i: int, j: int| 0 <= i < s.len() && 0 <= j < s.len() && i != j implies s[i] != s[j] by {
            if i < a.len() && j >= a.len() {
                assert(a.contains(s[i]));
            } else if j < a.len() && i >= a.len() {
                assert(a.contains(s[j]));
            }
        }
        assert forall|p: (int, int)| s.contains(p) <==> rect_cells(x0, y0, w, h).contains(p) by {
            if rect_cells(x0, y0, w, h).contains(p) {
                if p.1 < y0 + h - 1 {
                    assert(a.contains(p));
                    let i = choose|i: int| 0 <= i < a.len() && a[i] == p;
                    assert(s[i] == p);
                } else {
                    assert(s[a.len() + p.0 - x0] == p);
                }
            }
            if s.contains(p) {
                let i = choose|i: int| 0 <= i < s.len() && s[i] == p;
                if i < a.len() {
                    assert(a.contains(p));
                }
            }
        }
    } else {
        assert(rect_fill_points(x0, y0, w, h) =~= Seq::<(int, int)>::empty());
        assert(w * h == 0);
    }
}

/// A `w` by `h` rectangle has `w * h` cells, and filling it paints exactly those, each once.
pub proof fn lemma_rect_fill_cells(x0: int, y0: int, w: int, h: int)
    requires
        w >= 0,
        h >= 0,
    ensures
        rect_fill_points(x0, y0, w, h).to_set() == rect_cells(x0, y0, w, h),
        rect_fill_points(x0, y0, w, h).no_duplicates(),
        rect_cells(x0, y0, w, h).finite(),
        rect_cells(x0, y0, w, h).len() == w * h,
{
    lemma_fill_points_shape(x0, y0, w, h);
    let s = rect_fill_points(x0, y0, w, h);
    assert(s.to_set() =~= rect_cells(x0, y0, w, h));
    s.unique_seq_to_set();
    vstd::seq_lib::seq_to_set_is_finite(s);
}

proof fn lemma_row_pairs_cells(y0: int, left: int, right: int, n: int)
    ensures
        n >= 0 ==> row_pairs(y0, left, right, n).len() == 2 * n,
        forall|p: (int, int)| #[trigger] row_pairs(y0, left, right, n).contains(p) <==> (y0 <= p.1 < y0 + n && (p.0 == left || p.0 == right)),
    decreases n,
{
    if n > 0 {
        lemma_row_pairs_cells(y0, left, right, n - 1);
        let a = row_pairs(y0, left, right, n - 1);
        let s = row_pairs(y0, left, right, n);
        assert forall|p: (int, int)| s.contains(p) <==> (y0 <= p.1 < y0 + n && (p.0 == left || p.0 == right)) by {
            if y0 <= p.1 < y0 + n && (p.0 == left || p.0 == right) {
                if p.1 < y0 + n - 1 {
                    assert(a.contains(p));
                    let i = choose|i: int| 0 <= i < a.len() && a[i] == p;
                    assert(s[i] == p);
                } else if p.0 == left {
                    assert(s[a.len() as int] == p);
                } else {
                    assert(s[a.len() as int + 1] == p);
                }
            }
            if s.contains(p) {
                let i = choose|i: int| 0 <= i < s.len() && s[i] == p;
                if i < a.len() {
                    assert(a.contains(p));
                }
            }
        }
    } else {
        assert forall|p: (int, int)| !row_pairs(y0, left, right, n).contains(p) by {}
    }
}

/// The outline of a `w` by `h` rectangle with both sides at least 2 paints exactly its
/// border cells, each once, and there are `2w + 2h - 4` of them.
pub proof fn lemma_rect_outline_cells(x0: int, y0: int, w: int, h: int)
    requires
        w >= 2,
        h >= 2,
    ensures
        rect_outline_points(x0, y0, w, h).to_set() == rect_border(x0, y0, w, h),
        rect_outline_points(x0, y0, w, h).no_duplicates(),
        rect_outline_points(x0, y0, w, h).len() == 2 * w + 2 * h - 4,
        rect_border(x0, y0, w, h).finite(),
        rect_border(x0, y0, w, h).len() == 2 * w + 2 * h - 4,
{
    let s = rect_outline_points(x0, y0, w, h);
    let t = row_points(x0, y0, w);
    let u = row_points(x0, y0 + h - 1, w);
    let b = row_pairs(y0 + 1, x0, x0 + w - 1, h - 2);
    assert(s == t + u + b);
    lemma_row_pairs_cells(y0 + 1, x0, x0 + w - 1, h - 2);
    assert forall|p: (int, int)| s.contains(p) <==> rect_border(x0, y0, w, h).contains(p) by {
        if rect_border(x0, y0, w, h).contains(p) {
            if p.1 == y0 {
                assert(s[p.0 - x0] == p);
            } else if p.1 == y0 + h - 1 {
                assert(s[w + p.0 - x0] == p);
            } else {
                assert(b.contains(p));
                let i = choose|i: int| 0 <= i < b.len() && b[i] == p;
                assert(s[2 * w + i] == p);
            }
        }
        if s.contains(p) {
            let i = choose|i: int| 0 <= i < s.len() && s[i] == p;
            if i >= 2 * w {
                assert(b[i - 2 * w] == p);
                assert(b.contains(p));
            }
        }
    }
    assert(s.to_set() =~= rect_border(x0, y0, w, h));

    let all = rect_cells(x0, y0, w, h);
    let inner = rect_cells(x0 + 1, y0 + 1, w - 2, h - 2);
    lemma_rect_fill_cells(x0, y0, w, h);
    lemma_rect_fill_cells(x0 + 1, y0 + 1, w - 2, h - 2);
    let border = rect_border(x0, y0, w, h);
    assert(border =~= all.difference(inner));
    vstd::set_lib::lemma_len_subset(border, all);
    assert(all =~= border + inner);
    assert(border.disjoint(inner));
    vstd::set_lib::lemma_set_disjoint_lens(border, inner);
    assert(w * h - (w - 2) * (h - 2) == 2 * w + 2 * h - 4) by (nonlinear_arith);
    s.lemma_no_dup_set_cardinality();
}

} // verus!
