use vstd::prelude::*;

use crate::circle::Circle;
use crate::color::Color;
use crate::image::Image;
use crate::point::Point;
use crate::polygon::Polygon;
use crate::rect::Rect;
use crate::rgba::Rgba;
use crate::screen::{blank, cell_index, put_block, put_char, put_text, Pixel, Screen};
use crate::raster::{
    chain_points, circle_fill_points, circle_outline_points, circle_step, circle_walk, column_points, disc_column,
    disc_columns, image_dabs, lemma_line_inv, line_dx, line_dy, line_err0, line_len, line_points, line_state, line_sx,
    line_sy, octants, polygon_column, polygon_columns, polygon_outline_points, rect_fill_points, rect_outline_points,
    row_pairs, row_points,
};
use crate::video::{next_frame, Video};

verus! {

/// The upper half block: its foreground paints the upper half of a cell, its background
/// the lower half.
pub const HALF_BLOCK: char = '\u{2580}';

/// How drawing coordinates map onto character cells.
#[derive(Clone, Copy, Debug, PartialEq, Eq, Structural)]
pub enum Addressing {
    /// Two pixels per cell, stacked: even rows paint a cell's foreground, odd rows its
    /// background.
    HalfBlock,
    /// One pixel per cell.
    FullBlock,
}

/// The number of pixel rows for `rows` cell rows.
pub open spec fn pixel_rows(mode: Addressing, rows: int) -> int {
    match mode {
        Addressing::HalfBlock => 2 * rows,
        Addressing::FullBlock => rows,
    }
}

/// The cell row of pixel row `y`: half of it, rounded down, for half blocks.
pub open spec fn cell_row(mode: Addressing, y: int) -> int {
    match mode {
        Addressing::HalfBlock => y / 2,
        Addressing::FullBlock => y,
    }
}

/// The cells after painting pixel `(x, y)` with `c` on a grid of `w` by `h` cells.
/// Half blocks: when the pixel is on the canvas its cell shows the upper half block, with
/// `c` blended over the foreground for an even row or over the background for an odd row,
/// the other color blended over itself. Full blocks: a full-block pixel. Off the canvas
/// nothing changes.
pub open spec fn plot(mode: Addressing, w: int, h: int, cells: Seq<Pixel>, x: int, y: int, c: Rgba) -> Seq<Pixel> {
    match mode {
        Addressing::HalfBlock => {
            if 0 <= x < w && 0 <= y < 2 * h {
                let old = cells[cell_index(w, x, y / 2)].color;
                let color = if y % 2 == 0 {
                    Color { bg: old.bg, fg: c }
                } else {
                    Color { bg: c, fg: old.fg }
                };
                put_char(w, h, cells, x, y / 2, color, HALF_BLOCK)
            } else {
                cells
            }
        },
        Addressing::FullBlock => put_block(w, h, cells, x, y, c),
    }
}

/// The cells after painting each `(x, y, color)` in order.
pub open spec fn paint_dabs(mode: Addressing, w: int, h: int, cells: Seq<Pixel>, dabs: Seq<(int, int, Rgba)>) -> Seq<Pixel>
    decreases dabs.len(),
{
    if dabs.len() == 0 {
        cells
    } else {
        let d = dabs.last();
        plot(mode, w, h, paint_dabs(mode, w, h, cells, dabs.drop_last()), d.0, d.1, d.2)
    }
}

/// The cells after painting each point of `pts` in order with `c`.
pub open spec fn paint(mode: Addressing, w: int, h: int, cells: Seq<Pixel>, pts: Seq<(int, int)>, c: Rgba) -> Seq<Pixel> {
    paint_dabs(mode, w, h, cells, pts.map_values(|p: (int, int)| (p.0, p.1, c)))
}

/// Painting two runs of dabs is painting the first, then the second.
pub proof fn lemma_paint_dabs_concat(mode: Addressing, w: int, h: int, cells: Seq<Pixel>, a: Seq<(int, int, Rgba)>, b: Seq<(int, int, Rgba)>)
    ensures
        paint_dabs(mode, w, h, cells, a + b) == paint_dabs(mode, w, h, paint_dabs(mode, w, h, cells, a), b),
    decreases b.len(),
{
    if b.len() == 0 {
        assert(a + b =~= a);
    } else {
        lemma_paint_dabs_concat(mode, w, h, cells, a, b.drop_last());
        assert((a + b).drop_last() =~= a + b.drop_last());
    }
}

/// Painting two runs of points is painting the first, then the second.
pub proof fn lemma_paint_concat(mode: Addressing, w: int, h: int, cells: Seq<Pixel>, a: Seq<(int, int)>, b: Seq<(int, int)>, c: Rgba)
    ensures
        paint(mode, w, h, cells, a + b, c) == paint(mode, w, h, paint(mode, w, h, cells, a, c), b, c),
{
    let f = |p: (int, int)| (p.0, p.1, c);
    assert((a + b).map_values(f) =~= a.map_values(f) + b.map_values(f));
    lemma_paint_dabs_concat(mode, w, h, cells, a.map_values(f), b.map_values(f));
}

/// Painting one more point at the end.
pub proof fn lemma_paint_push(mode: Addressing, w: int, h: int, cells: Seq<Pixel>, a: Seq<(int, int)>, x: int, y: int, c: Rgba)
    ensures
        paint(mode, w, h, cells, a.push((x, y)), c) == plot(mode, w, h, paint(mode, w, h, cells, a, c), x, y, c),
{
    let f = |p: (int, int)| (p.0, p.1, c);
    assert(a.push((x, y)).map_values(f).drop_last() =~= a.map_values(f));
}

/// Half-block addressing: pixel rows 0 and 1 share the cells of cell row 0, row 0 painting
/// their foreground and row 1 their background, and pixel row 2 lies in cell row 1.
pub proof fn lemma_half_block_rows(w: int, h: int, cells: Seq<Pixel>, x: int, c: Rgba)
    requires
        0 <= x < w,
        2 <= h,
        cells.len() == w * h,
    ensures
        cell_row(Addressing::HalfBlock, 0) == 0,
        cell_row(Addressing::HalfBlock, 1) == 0,
        cell_row(Addressing::HalfBlock, 2) == 1,
        plot(Addressing::HalfBlock, w, h, cells, x, 0, c) == cells.update(
            x,
            Pixel {
                ch: HALF_BLOCK,
                color: Color {
                    bg: crate::rgba::blend_spec(cells[x].color.bg, cells[x].color.bg),
                    fg: crate::rgba::blend_spec(c, cells[x].color.fg),
                },
            },
        ),
        plot(Addressing::HalfBlock, w, h, cells, x, 1, c) == cells.update(
            x,
            Pixel {
                ch: HALF_BLOCK,
                color: Color {
                    bg: crate::rgba::blend_spec(c, cells[x].color.bg),
                    fg: crate::rgba::blend_spec(cells[x].color.fg, cells[x].color.fg),
                },
            },
        ),
        plot(Addressing::HalfBlock, w, h, cells, x, 2, c) == cells.update(
            w + x,
            Pixel {
                ch: HALF_BLOCK,
                color: Color {
                    bg: crate::rgba::blend_spec(cells[w + x].color.bg, cells[w + x].color.bg),
                    fg: crate::rgba::blend_spec(c, cells[w + x].color.fg),
                },
            },
        ),
{
    assert(cell_index(w, x, 0) == x);
    assert(cell_index(w, x, 1) == w + x);
}

proof fn lemma_square_bound(a: int)
    requires
        -0x8000_0000 <= a <= 0x8000_0000,
    ensures
        0 <= a * a <= 0x4000_0000_0000_0000,
{
    assert(0 <= a * a <= 0x4000_0000_0000_0000) by (nonlinear_arith)
        requires -0x8000_0000 <= a <= 0x8000_0000;
}

/// A drawing surface over a grid of character cells.
pub struct Canvas {
    screen: Screen,
    addressing: Addressing,
}

impl Canvas {
    /// How pixels map onto cells.
    pub closed spec fn mode(&self) -> Addressing {
        self.addressing
    }

    /// The cell grid.
    pub closed spec fn grid(&self) -> Screen {
        self.screen
    }

    /// Number of cell columns.
    pub open spec fn cols(&self) -> int {
        self.grid().width()
    }

    /// Number of cell rows.
    pub open spec fn rows(&self) -> int {
        self.grid().height()
    }

    /// The cells, row by row.
    pub open spec fn cells(&self) -> Seq<Pixel> {
        self.grid().cells()
    }

    /// The cell grid is well formed.
    pub open spec fn wf(&self) -> bool {
        self.grid().wf()
    }

    /// `self` is `old` with the cells replaced by `cells`.
    pub open spec fn redrawn(&self, old: &Canvas, cells: Seq<Pixel>) -> bool {
        &&& self.wf()
        &&& self.mode() == old.mode()
        &&& self.cols() == old.cols()
        &&& self.rows() == old.rows()
        &&& self.cells() == cells
    }

    /// A canvas over `cols` by `rows` blank cells.
    pub fn new(addressing: Addressing, cols: u16, rows: u16) -> (c: Canvas)
        ensures
            c.wf(),
            c.mode() == addressing,
            c.cols() == cols,
            c.rows() == rows,
            c.cells() == Seq::new((cols * rows) as nat, |i: int| blank()),
    {
        Canvas { screen: Screen::new(cols, rows), addressing }
    }

    /// The cell grid underneath.
    pub fn screen(&self) -> (s: &Screen)
        ensures
            *s == self.grid(),
    {
        &self.screen
    }

    /// The size in pixels: the cell columns by the pixel rows.
    pub fn get_size(&self) -> (p: Point)
        requires
            self.wf(),
        ensures
            p.x == self.cols(),
            p.y == pixel_rows(self.mode(), self.rows()),
    {
        let s = self.screen.get_size();
        match self.addressing {
            Addressing::HalfBlock => Point::new(s.x, 2 * s.y),
            Addressing::FullBlock => s,
        }
    }

    /// Takes on a new cell grid size; every cell becomes blank.
    pub fn resize(&mut self, cols: u16, rows: u16)
        ensures
            final(self).wf(),
            final(self).mode() == old(self).mode(),
            final(self).cols() == cols,
            final(self).rows() == rows,
            final(self).cells() == Seq::new((cols * rows) as nat, |i: int| blank()),
    {
        self.screen.resize(cols, rows);
    }

    /// Makes every cell blank.
    pub fn clear(&mut self)
        requires
            old(self).wf(),
        ensures
            final(self).redrawn(old(self), Seq::new(old(self).cells().len(), |i: int| blank())),
    {
        self.screen.clear();
    }

    /// The whole cell grid as terminal output (see `Screen::display`).
    pub fn display(&self) -> (s: String)
        requires
            self.wf(),
        ensures
            s@ == crate::screen::frame_text(self.cells(), self.cols(), self.rows()),
    {
        self.screen.display()
    }

    fn plot_at(&mut self, x: i64, y: i64, c: &Rgba)
        requires
            old(self).wf(),
        ensures
            final(self).redrawn(old(self), plot(old(self).mode(), old(self).cols(), old(self).rows(), old(self).cells(), x as int, y as int, *c)),
    {
        match self.addressing {
            Addressing::HalfBlock => {
                let size = self.screen.get_size();
                if 0 <= x && x < size.x as i64 && 0 <= y && y < 2 * (size.y as i64) {
                    let row = y / 2;
                    let old = self.screen.get_color(&Point::new(x as i32, row as i32));
                    let color = if y % 2 == 0 {
                        Color { bg: old.bg, fg: *c }
                    } else {
                        Color { bg: *c, fg: old.fg }
                    };
                    self.screen.put_char_at(x, row, &color, HALF_BLOCK);
                }
            },
            Addressing::FullBlock => {
                self.screen.put_block_at(x, y, c);
            },
        }
    }

    /// Paints pixel `p` with `c`; nothing happens off the canvas.
    pub fn draw_pixel(&mut self, p: &Point, c: &Rgba)
        requires
            old(self).wf(),
        ensures
            final(self).redrawn(old(self), plot(old(self).mode(), old(self).cols(), old(self).rows(), old(self).cells(), p.x as int, p.y as int, *c)),
    {
        self.plot_at(p.x as i64, p.y as i64, c);
    }

    /// Writes glyph `ch` in `color` into the cell of pixel `p`, blending as the screen does.
    pub fn draw_char(&mut self, p: &Point, color: &Color, ch: char)
        requires
            old(self).wf(),
        ensures
            final(self).redrawn(old(self), put_char(old(self).cols(), old(self).rows(), old(self).cells(), p.x as int, cell_row(old(self).mode(), p.y as int), *color, ch)),
    {
        let row = self.row_of(p.y);
        self.screen.put_char_at(p.x as i64, row, color, ch);
    }

    /// Writes `text` from the cell of pixel `p` rightwards, one cell per character.
    pub fn draw_text(&mut self, p: &Point, color: &Color, text: &str)
        requires
            old(self).wf(),
        ensures
            final(self).redrawn(old(self), put_text(old(self).cols(), old(self).rows(), old(self).cells(), p.x as int, cell_row(old(self).mode(), p.y as int), *color, text@)),
    {
        let row = self.row_of(p.y);
        self.screen.put_text_at(p.x as i64, row, color, text);
    }

    /// Writes `text` as `draw_text` does in foreground `fg` over a fully transparent
    /// background, so that the cells keep their background colors.
    pub fn draw_text_transparent(&mut self, p: &Point, fg: &Rgba, text: &str)
        requires
            old(self).wf(),
        ensures
            final(self).redrawn(old(self), put_text(old(self).cols(), old(self).rows(), old(self).cells(), p.x as int, cell_row(old(self).mode(), p.y as int), Color { bg: Rgba { r: 0, g: 0, b: 0, a: 0 }, fg: *fg }, text@)),
    {
        let color = Color { bg: Rgba::transparent(), fg: *fg };
        self.draw_text(p, &color, text);
    }

    fn row_of(&self, y: i32) -> (r: i64)
        ensures
            r == cell_row(self.mode(), y as int),
    {
        match self.addressing {
            Addressing::HalfBlock => {
                let y = y as i64;
                if y < 0 { (y - 1) / 2 } else { y / 2 }
            },
            Addressing::FullBlock => y as i64,
        }
    }
}

impl Canvas {
    fn paint_row(&mut self, x0: i64, y: i64, n: i64, c: &Rgba)
        requires
            old(self).wf(),
            -0x1_0000_0000 <= x0 <= 0x1_0000_0000,
            0 <= n <= 0x1_0000_0000,
        ensures
            final(self).redrawn(old(self), paint(old(self).mode(), old(self).cols(), old(self).rows(), old(self).cells(),
                row_points(x0 as int, y as int, n as int), *c)),
    {
        let ghost mode = self.mode();
        let ghost w = self.cols();
        let ghost h = self.rows();
        let ghost start = self.cells();
        let mut i: i64 = 0;
        while i < n
            invariant
                self.redrawn(old(self), paint(mode, w, h, start, row_points(x0 as int, y as int, i as int), *c)),
                mode == old(self).mode(), w == old(self).cols(), h == old(self).rows(), start == old(self).cells(),
                -0x1_0000_0000 <= x0 <= 0x1_0000_0000,
                0 <= i <= n <= 0x1_0000_0000,
            decreases n - i,
        {
            self.plot_at(x0 + i, y, c);
            proof {
                lemma_paint_push(mode, w, h, start, row_points(x0 as int, y as int, i as int), x0 + i, y as int, *c);
                assert(row_points(x0 as int, y as int, i + 1) =~= row_points(x0 as int, y as int, i as int).push((x0 + i, y as int)));
            }
            i = i + 1;
        }
    }

    fn paint_column(&mut self, x: i64, y0: i64, n: i64, c: &Rgba)
        requires
            old(self).wf(),
            -0x1_0000_0000 <= y0 <= 0x1_0000_0000,
            0 <= n <= 0x1_0000_0000,
        ensures
            final(self).redrawn(old(self), paint(old(self).mode(), old(self).cols(), old(self).rows(), old(self).cells(),
                column_points(x as int, y0 as int, n as int), *c)),
    {
        let ghost mode = self.mode();
        let ghost w = self.cols();
        let ghost h = self.rows();
        let ghost start = self.cells();
        let mut i: i64 = 0;
        while i < n
            invariant
                self.redrawn(old(self), paint(mode, w, h, start, column_points(x as int, y0 as int, i as int), *c)),
                mode == old(self).mode(), w == old(self).cols(), h == old(self).rows(), start == old(self).cells(),
                -0x1_0000_0000 <= y0 <= 0x1_0000_0000,
                0 <= i <= n <= 0x1_0000_0000,
            decreases n - i,
        {
            self.plot_at(x, y0 + i, c);
            proof {
                lemma_paint_push(mode, w, h, start, column_points(x as int, y0 as int, i as int), x as int, y0 + i, *c);
                assert(column_points(x as int, y0 as int, i + 1) =~= column_points(x as int, y0 as int, i as int).push((x as int, y0 + i)));
            }
            i = i + 1;
        }
    }

    /// Draws the outline of `r` in one pass, each border cell once: the top row, the bottom
    /// row, then the left and right cells of each row between them.
    pub fn draw_rect(&mut self, r: &Rect, c: &Rgba)
        requires
            old(self).wf(),
        ensures
            final(self).redrawn(old(self), paint(old(self).mode(), old(self).cols(), old(self).rows(), old(self).cells(),
                rect_outline_points(r.pos.x as int, r.pos.y as int, r.size.x as int, r.size.y as int), *c)),
    {
        let ghost mode = self.mode();
        let ghost w = self.cols();
        let ghost h = self.rows();
        let ghost start = self.cells();
        let x0 = r.pos.x as i64;
        let y0 = r.pos.y as i64;
        let rw = r.size.x as i64;
        let rh = r.size.y as i64;
        if rw <= 0 || rh <= 0 {
            return;
        }
        let x1 = x0 + rw;
        let y1 = y0 + rh;
        let ghost top = row_points(x0 as int, y0 as int, rw as int);
        let ghost bottom = if rh >= 2 { row_points(x0 as int, y1 - 1, rw as int) } else { Seq::<(int, int)>::empty() };
        self.paint_row(x0, y0, rw, c);
        let ghost after_top = self.cells();
        if rh >= 2 {
            self.paint_row(x0, y1 - 1, rw, c);
        } else {
            assert(self.cells() == paint(mode, w, h, after_top, bottom, *c));
        }
        proof {
            lemma_paint_concat(mode, w, h, start, top, bottom, *c);
        }
        let ghost after_rows = self.cells();
        let ghost sides;
        if rw >= 2 {
            proof {
                sides = row_pairs(y0 + 1, x0 as int, x1 - 1, rh - 2);
            }
            let mut y = y0 + 1;
            while y < y1 - 1
                invariant
                    self.redrawn(old(self), paint(mode, w, h, after_rows, row_pairs(y0 + 1, x0 as int, x1 - 1, y - y0 - 1), *c)),
                    mode == old(self).mode(), w == old(self).cols(), h == old(self).rows(),
                    y0 + 1 <= y,
                    y <= y1 - 1 || y == y0 + 1,
                    x0 == r.pos.x, y0 == r.pos.y, x1 == x0 + rw, y1 == y0 + rh, rw == r.size.x, rh == r.size.y,
                decreases y1 - y,
            {
                let ghost before = row_pairs(y0 + 1, x0 as int, x1 - 1, y - y0 - 1);
                self.plot_at(x0, y, c);
                self.plot_at(x1 - 1, y, c);
                proof {
                    lemma_paint_push(mode, w, h, after_rows, before, x0 as int, y as int, *c);
                    lemma_paint_push(mode, w, h, after_rows, before.push((x0 as int, y as int)), x1 - 1, y as int, *c);
                    assert(row_pairs(y0 + 1, x0 as int, x1 - 1, y + 1 - y0 - 1)
                        =~= before.push((x0 as int, y as int)).push((x1 - 1, y as int)));
                }
                y = y + 1;
            }
            proof {
                if rh < 2 {
                    assert(row_pairs(y0 + 1, x0 as int, x1 - 1, y - y0 - 1) =~= sides);
                }
            }
        } else {
            proof {
                sides = column_points(x0 as int, y0 + 1, rh - 2);
            }
            let n = if rh >= 2 { rh - 2 } else { 0 };
            self.paint_column(x0, y0 + 1, n, c);
            proof {
                assert(column_points(x0 as int, y0 + 1, n as int) =~= sides);
            }
        }
        proof {
            lemma_paint_concat(mode, w, h, start, top + bottom, sides, *c);
        }
    }

    /// Fills `r`, row by row.
    pub fn draw_rect_fill(&mut self, r: &Rect, c: &Rgba)
        requires
            old(self).wf(),
        ensures
            final(self).redrawn(old(self), paint(old(self).mode(), old(self).cols(), old(self).rows(), old(self).cells(),
                rect_fill_points(r.pos.x as int, r.pos.y as int, r.size.x as int, r.size.y as int), *c)),
    {
        let ghost mode = self.mode();
        let ghost w = self.cols();
        let ghost h = self.rows();
        let ghost start = self.cells();
        let x0 = r.pos.x as i64;
        let x1 = x0 + r.size.x as i64;
        let y0 = r.pos.y as i64;
        let y1 = y0 + r.size.y as i64;
        let mut y = y0;
        while y < y1
            invariant
                self.redrawn(old(self), paint(mode, w, h, start, rect_fill_points(x0 as int, y0 as int, r.size.x as int, y - y0), *c)),
                mode == old(self).mode(), w == old(self).cols(), h == old(self).rows(), start == old(self).cells(),
                y0 <= y,
                y <= y1 || y == y0,
                x0 == r.pos.x,
                y0 == r.pos.y,
                x1 == x0 + r.size.x,
                y1 == y0 + r.size.y,
            decreases y1 - y,
        {
            let ghost done = rect_fill_points(x0 as int, y0 as int, r.size.x as int, y - y0);
            let mut x = x0;
            while x < x1
                invariant
                    self.redrawn(old(self), paint(mode, w, h, start, done + row_points(x0 as int, y as int, x - x0), *c)),
                    mode == old(self).mode(), w == old(self).cols(), h == old(self).rows(), start == old(self).cells(),
                    x0 <= x,
                    x <= x1 || x == x0,
                    x1 == x0 + r.size.x,
                decreases x1 - x,
            {
                let ghost before = done + row_points(x0 as int, y as int, x - x0);
                self.plot_at(x, y, c);
                proof {
                    lemma_paint_push(mode, w, h, start, before, x as int, y as int, *c);
                    assert(done + row_points(x0 as int, y as int, x + 1 - x0) =~= before.push((x as int, y as int)));
                }
                x = x + 1;
            }
            proof {
                assert(done + row_points(x0 as int, y as int, x - x0) =~= rect_fill_points(x0 as int, y0 as int, r.size.x as int, y + 1 - y0));
            }
            y = y + 1;
        }
        proof {
            if r.size.y <= 0 {
                assert(rect_fill_points(x0 as int, y0 as int, r.size.x as int, y - y0) =~= rect_fill_points(x0 as int, y0 as int, r.size.x as int, r.size.y as int));
            }
        }
    }

    /// Draws the line from `p1` to `p2` with Bresenham's algorithm, both ends included.
    pub fn draw_line(&mut self, p1: &Point, p2: &Point, c: &Rgba)
        requires
            old(self).wf(),
        ensures
            final(self).redrawn(old(self), paint(old(self).mode(), old(self).cols(), old(self).rows(), old(self).cells(), line_points(*p1, *p2), *c)),
    {
        let ghost mode = self.mode();
        let ghost w = self.cols();
        let ghost h = self.rows();
        let ghost start = self.cells();
        let ghost pts = line_points(*p1, *p2);
        let x1 = p1.x as i64;
        let y1 = p1.y as i64;
        let x2 = p2.x as i64;
        let y2 = p2.y as i64;
        let dx = if x2 >= x1 { x2 - x1 } else { x1 - x2 };
        let dy = if y2 >= y1 { y2 - y1 } else { y1 - y2 };
        let sx: i64 = if x1 < x2 { 1 } else { -1 };
        let sy: i64 = if y1 < y2 { 1 } else { -1 };
        let mut err: i64 = if dx > dy { dx / 2 } else { -(dy / 2) };
        let mut x = x1;
        let mut y = y1;
        let ghost mut k: nat = 0;
        assert(err == line_err0(*p1, *p2));
        loop
            invariant_except_break
                self.redrawn(old(self), paint(mode, w, h, start, pts.take(k as int), *c)),
            invariant
                mode == old(self).mode(), w == old(self).cols(), h == old(self).rows(), start == old(self).cells(),
                pts == line_points(*p1, *p2),
                x1 == p1.x, y1 == p1.y, x2 == p2.x, y2 == p2.y,
                dx == line_dx(*p1, *p2),
                dy == line_dy(*p1, *p2),
                sx == line_sx(*p1, *p2),
                sy == line_sy(*p1, *p2),
                k < line_len(*p1, *p2),
                (x as int, y as int, err as int) == line_state(*p1, *p2, k),
            ensures
                self.redrawn(old(self), paint(mode, w, h, start, pts, *c)),
            decreases line_len(*p1, *p2) - k,
        {
            proof {
                lemma_line_inv(*p1, *p2, k);
                let u = sx * (x - x1);
                let v = sy * (y - y1);
                assert(sx * sx == 1);
                assert(sy * sy == 1);
                assert(x - x1 == sx * u) by (nonlinear_arith)
                    requires u == sx * (x - x1), sx * sx == 1;
                assert(y - y1 == sy * v) by (nonlinear_arith)
                    requires v == sy * (y - y1), sy * sy == 1;
                assert(sx * dx == x2 - x1);
                assert(sy * dy == y2 - y1);
                assert(x == x2 <==> u == dx) by (nonlinear_arith)
                    requires x - x1 == sx * u, sx * dx == x2 - x1, sx * sx == 1, u == sx * (x - x1);
                assert(y == y2 <==> v == dy) by (nonlinear_arith)
                    requires y - y1 == sy * v, sy * dy == y2 - y1, sy * sy == 1, v == sy * (y - y1);
                assert(-0x1_0000_0000 <= x - x1 <= 0x1_0000_0000) by (nonlinear_arith)
                    requires x - x1 == sx * u, 0 <= u <= dx, dx <= 0x1_0000_0000, sx * sx == 1, sx == 1 || sx == -1;
            }
            self.plot_at(x, y, c);
            proof {
                lemma_paint_push(mode, w, h, start, pts.take(k as int), x as int, y as int, *c);
                assert(pts.take((k + 1) as int) =~= pts.take(k as int).push((x as int, y as int)));
            }
            if x == x2 && y == y2 {
                proof {
                    assert(pts.take((k + 1) as int) =~= pts);
                }
                break;
            }
            let e2 = err;
            if e2 > -dx {
                err = err - dy;
                x = x + sx;
            }
            if e2 < dy {
                err = err + dx;
                y = y + sy;
            }
            proof {
                k = k + 1;
            }
        }
    }

    fn plot_octants(&mut self, cx: i64, cy: i64, x: i64, y: i64, c: &Rgba)
        requires
            old(self).wf(),
            -0x1_0000_0000 <= cx <= 0x1_0000_0000,
            -0x1_0000_0000 <= cy <= 0x1_0000_0000,
            -0x1_0000_0000 <= x <= 0x1_0000_0000,
            -0x1_0000_0000 <= y <= 0x1_0000_0000,
        ensures
            final(self).redrawn(old(self), paint(old(self).mode(), old(self).cols(), old(self).rows(), old(self).cells(),
                octants(cx as int, cy as int, x as int, y as int), *c)),
    {
        let ghost mode = self.mode();
        let ghost w = self.cols();
        let ghost h = self.rows();
        let ghost start = self.cells();
        let ghost o = octants(cx as int, cy as int, x as int, y as int);
        assert(o.take(0) =~= Seq::<(int, int)>::empty());
        if y == 0 {
            self.plot_at(cx + x, cy, c);
            proof {
                lemma_paint_push(mode, w, h, start, o.take(0), (cx + x) as int, (cy) as int, *c);
                assert(o.take(1) =~= o.take(0).push(((cx + x) as int, (cy) as int)));
            }
            self.plot_at(cx, cy + x, c);
            proof {
                lemma_paint_push(mode, w, h, start, o.take(1), (cx) as int, (cy + x) as int, *c);
                assert(o.take(2) =~= o.take(1).push(((cx) as int, (cy + x) as int)));
            }
            self.plot_at(cx - x, cy, c);
            proof {
                lemma_paint_push(mode, w, h, start, o.take(2), (cx - x) as int, (cy) as int, *c);
                assert(o.take(3) =~= o.take(2).push(((cx - x) as int, (cy) as int)));
            }
            self.plot_at(cx, cy - x, c);
            proof {
                lemma_paint_push(mode, w, h, start, o.take(3), (cx) as int, (cy - x) as int, *c);
                assert(o.take(4) =~= o.take(3).push(((cx) as int, (cy - x) as int)));
            }
            assert(o.take(4) =~= o);
        } else if x == y {
            self.plot_at(cx + x, cy + y, c);
            proof {
                lemma_paint_push(mode, w, h, start, o.take(0), (cx + x) as int, (cy + y) as int, *c);
                assert(o.take(1) =~= o.take(0).push(((cx + x) as int, (cy + y) as int)));
            }
            self.plot_at(cx - x, cy + y, c);
            proof {
                lemma_paint_push(mode, w, h, start, o.take(1), (cx - x) as int, (cy + y) as int, *c);
                assert(o.take(2) =~= o.take(1).push(((cx - x) as int, (cy + y) as int)));
            }
            self.plot_at(cx - x, cy - y, c);
            proof {
                lemma_paint_push(mode, w, h, start, o.take(2), (cx - x) as int, (cy - y) as int, *c);
                assert(o.take(3) =~= o.take(2).push(((cx - x) as int, (cy - y) as int)));
            }
            self.plot_at(cx + x, cy - y, c);
            proof {
                lemma_paint_push(mode, w, h, start, o.take(3), (cx + x) as int, (cy - y) as int, *c);
                assert(o.take(4) =~= o.take(3).push(((cx + x) as int, (cy - y) as int)));
            }
            assert(o.take(4) =~= o);
        } else {
            self.plot_at(cx + x, cy + y, c);
            proof {
                lemma_paint_push(mode, w, h, start, o.take(0), (cx + x) as int, (cy + y) as int, *c);
                assert(o.take(1) =~= o.take(0).push(((cx + x) as int, (cy + y) as int)));
            }
            self.plot_at(cx + y, cy + x, c);
            proof {
                lemma_paint_push(mode, w, h, start, o.take(1), (cx + y) as int, (cy + x) as int, *c);
                assert(o.take(2) =~= o.take(1).push(((cx + y) as int, (cy + x) as int)));
            }
            self.plot_at(cx - y, cy + x, c);
            proof {
                lemma_paint_push(mode, w, h, start, o.take(2), (cx - y) as int, (cy + x) as int, *c);
                assert(o.take(3) =~= o.take(2).push(((cx - y) as int, (cy + x) as int)));
            }
            self.plot_at(cx - x, cy + y, c);
            proof {
                lemma_paint_push(mode, w, h, start, o.take(3), (cx - x) as int, (cy + y) as int, *c);
                assert(o.take(4) =~= o.take(3).push(((cx - x) as int, (cy + y) as int)));
            }
            self.plot_at(cx - x, cy - y, c);
            proof {
                lemma_paint_push(mode, w, h, start, o.take(4), (cx - x) as int, (cy - y) as int, *c);
                assert(o.take(5) =~= o.take(4).push(((cx - x) as int, (cy - y) as int)));
            }
            self.plot_at(cx - y, cy - x, c);
            proof {
                lemma_paint_push(mode, w, h, start, o.take(5), (cx - y) as int, (cy - x) as int, *c);
                assert(o.take(6) =~= o.take(5).push(((cx - y) as int, (cy - x) as int)));
            }
            self.plot_at(cx + y, cy - x, c);
            proof {
                lemma_paint_push(mode, w, h, start, o.take(6), (cx + y) as int, (cy - x) as int, *c);
                assert(o.take(7) =~= o.take(6).push(((cx + y) as int, (cy - x) as int)));
            }
            self.plot_at(cx + x, cy - y, c);
            proof {
                lemma_paint_push(mode, w, h, start, o.take(7), (cx + x) as int, (cy - y) as int, *c);
                assert(o.take(8) =~= o.take(7).push(((cx + x) as int, (cy - y) as int)));
            }
            assert(o.take(8) =~= o);
        }
    }

    /// Draws the outline of `circle` with the midpoint algorithm, up to eight symmetric points
    /// per step, each once; nothing for a radius that is not positive.
    pub fn draw_circle(&mut self, circle: &Circle, c: &Rgba)
        requires
            old(self).wf(),
        ensures
            final(self).redrawn(old(self), paint(old(self).mode(), old(self).cols(), old(self).rows(), old(self).cells(), circle_outline_points(*circle), *c)),
    {
        let ghost mode = self.mode();
        let ghost w = self.cols();
        let ghost h = self.rows();
        let ghost start = self.cells();
        let ghost target = paint(mode, w, h, start, circle_outline_points(*circle), *c);
        let cx = circle.pos.x as i64;
        let cy = circle.pos.y as i64;
        let r = circle.radius as i64;
        if r <= 0 {
            return;
        }
        let mut x = r;
        let mut y: i64 = 0;
        let mut d: i64 = 1 - r;
        while y <= x
            invariant
                self.wf(),
                self.mode() == mode, self.cols() == w, self.rows() == h,
                mode == old(self).mode(), w == old(self).cols(), h == old(self).rows(), start == old(self).cells(),
                target == paint(mode, w, h, start, circle_outline_points(*circle), *c),
                paint(mode, w, h, self.cells(), circle_walk(cx as int, cy as int, x as int, y as int, d as int), *c) == target,
                cx == circle.pos.x, cy == circle.pos.y, r == circle.radius,
                0 <= r,
                0 <= y <= r + 1,
                y - 2 <= x <= r,
                -2 * r - 2 <= d <= 2 * r + 3 + 5 * y,
            decreases x - y + 2,
        {
            let ghost before = self.cells();
            let ghost next = circle_step(x as int, y as int, d as int);
            self.plot_octants(cx, cy, x, y, c);
            proof {
                lemma_paint_concat(mode, w, h, before, octants(cx as int, cy as int, x as int, y as int),
                    circle_walk(cx as int, cy as int, next.0, next.1, next.2), *c);
            }
            y = y + 1;
            if d <= 0 {
                d = d + 2 * y + 1;
            } else {
                x = x - 1;
                d = d + 2 * (y - x) + 1;
            }
        }
    }

    /// Fills `circle`: every point of its bounding box, from center minus radius up to, not
    /// including, center plus radius, whose squared distance from the center is less than
    /// the squared radius, column by column.
    pub fn draw_circle_fill(&mut self, circle: &Circle, c: &Rgba)
        requires
            old(self).wf(),
        ensures
            final(self).redrawn(old(self), paint(old(self).mode(), old(self).cols(), old(self).rows(), old(self).cells(), circle_fill_points(*circle), *c)),
    {
        let ghost mode = self.mode();
        let ghost w = self.cols();
        let ghost h = self.rows();
        let ghost start = self.cells();
        let cx = circle.pos.x as i64;
        let cy = circle.pos.y as i64;
        let r = circle.radius as i64;
        let x0 = cx - r;
        let y0 = cy - r;
        let n = 2 * r;
        let mut i: i64 = 0;
        while i < n
            invariant
                self.redrawn(old(self), paint(mode, w, h, start, disc_columns(cx as int, cy as int, r as int, x0 as int, i as int, y0 as int, n as int), *c)),
                mode == old(self).mode(), w == old(self).cols(), h == old(self).rows(), start == old(self).cells(),
                cx == circle.pos.x, cy == circle.pos.y, r == circle.radius,
                x0 == cx - r, y0 == cy - r, n == 2 * r,
                0 <= i,
                i <= n || i == 0,
            decreases n - i,
        {
            let ghost done = disc_columns(cx as int, cy as int, r as int, x0 as int, i as int, y0 as int, n as int);
            let mut j: i64 = 0;
            while j < n
                invariant
                    self.redrawn(old(self), paint(mode, w, h, start, done + disc_column(cx as int, cy as int, r as int, x0 + i, y0 as int, j as int), *c)),
                    mode == old(self).mode(), w == old(self).cols(), h == old(self).rows(), start == old(self).cells(),
                    cx == circle.pos.x, cy == circle.pos.y, r == circle.radius,
                    x0 == cx - r, y0 == cy - r, n == 2 * r,
                    0 <= i < n,
                    0 <= j <= n,
                decreases n - j,
            {
                let ghost before = done + disc_column(cx as int, cy as int, r as int, x0 + i, y0 as int, j as int);
                let x = x0 + i;
                let y = y0 + j;
                let ddx = (x - cx) as i128;
                let ddy = (y - cy) as i128;
                let rr = r as i128;
                proof {
                    lemma_square_bound(ddx as int);
                    lemma_square_bound(ddy as int);
                    lemma_square_bound(rr as int);
                }
                let dx2 = ddx * ddx;
                let dy2 = ddy * ddy;
                let r2 = rr * rr;
                if dx2 + dy2 < r2 {
                    self.plot_at(x, y, c);
                    proof {
                        lemma_paint_push(mode, w, h, start, before, x as int, y as int, *c);
                        assert(done + disc_column(cx as int, cy as int, r as int, x0 + i, y0 as int, j + 1) =~= before.push((x as int, y as int)));
                    }
                } else {
                    proof {
                        assert(done + disc_column(cx as int, cy as int, r as int, x0 + i, y0 as int, j + 1) =~= before);
                    }
                }
                j = j + 1;
            }
            proof {
                assert(done + disc_column(cx as int, cy as int, r as int, x0 + i, y0 as int, n as int)
                    =~= disc_columns(cx as int, cy as int, r as int, x0 as int, i + 1, y0 as int, n as int));
            }
            i = i + 1;
        }
        proof {
            if n <= 0 {
                assert(disc_columns(cx as int, cy as int, r as int, x0 as int, i as int, y0 as int, n as int)
                    =~= disc_columns(cx as int, cy as int, r as int, x0 as int, n as int, y0 as int, n as int));
            }
        }
    }

    /// Draws the outline of `polygon`: a line from each vertex to the next and from the last
    /// back to the first. A polygon of fewer than three vertices draws nothing.
    pub fn draw_polygon(&mut self, polygon: &Polygon, c: &Rgba)
        requires
            old(self).wf(),
        ensures
            final(self).redrawn(old(self), paint(old(self).mode(), old(self).cols(), old(self).rows(), old(self).cells(), polygon_outline_points(polygon.vertices_spec()), *c)),
    {
        let ghost mode = self.mode();
        let ghost w = self.cols();
        let ghost h = self.rows();
        let ghost start = self.cells();
        let vs = polygon.vertices();
        let n = vs.len();
        if n < 3 {
            return;
        }
        let mut i: usize = 0;
        while i + 1 < n
            invariant
                self.redrawn(old(self), paint(mode, w, h, start, chain_points(vs@, i as int), *c)),
                mode == old(self).mode(), w == old(self).cols(), h == old(self).rows(), start == old(self).cells(),
                vs@ == polygon.vertices_spec(),
                n == vs@.len(),
                n >= 3,
                i + 1 <= n,
            decreases n - i,
        {
            let ghost before = self.cells();
            self.draw_line(&vs[i], &vs[i + 1], c);
            proof {
                lemma_paint_concat(mode, w, h, start, chain_points(vs@, i as int), line_points(vs@[i as int], vs@[i + 1]), *c);
            }
            i += 1;
        }
        self.draw_line(&vs[n - 1], &vs[0], c);
        proof {
            lemma_paint_concat(mode, w, h, start, chain_points(vs@, n - 1), line_points(vs@[n - 1], vs@[0]), *c);
        }
    }

    /// Fills `polygon`: every point of its bounding box, edges included, that lies inside it
    /// by the even-odd crossing rule, column by column.
    pub fn draw_polygon_fill(&mut self, polygon: &Polygon, c: &Rgba)
        requires
            old(self).wf(),
        ensures
            final(self).redrawn(old(self), paint(old(self).mode(), old(self).cols(), old(self).rows(), old(self).cells(),
                polygon_columns(polygon.vertices_spec(), polygon.boundary_spec().pos.x as int, polygon.boundary_spec().size.x + 1,
                    polygon.boundary_spec().pos.y as int, polygon.boundary_spec().size.y + 1), *c)),
    {
        let ghost mode = self.mode();
        let ghost w = self.cols();
        let ghost h = self.rows();
        let ghost start = self.cells();
        let ghost vs = polygon.vertices_spec();
        let b = polygon.boundary();
        let x0 = b.pos.x as i64;
        let y0 = b.pos.y as i64;
        let nx = b.size.x as i64 + 1;
        let ny = b.size.y as i64 + 1;
        let mut i: i64 = 0;
        while i < nx
            invariant
                self.redrawn(old(self), paint(mode, w, h, start, polygon_columns(vs, x0 as int, i as int, y0 as int, ny as int), *c)),
                mode == old(self).mode(), w == old(self).cols(), h == old(self).rows(), start == old(self).cells(),
                vs == polygon.vertices_spec(),
                *b == polygon.boundary_spec(),
                x0 == b.pos.x, y0 == b.pos.y, nx == b.size.x + 1, ny == b.size.y + 1,
                0 <= i,
                i <= nx || i == 0,
            decreases nx - i,
        {
            let ghost done = polygon_columns(vs, x0 as int, i as int, y0 as int, ny as int);
            let mut j: i64 = 0;
            while j < ny
                invariant
                    self.redrawn(old(self), paint(mode, w, h, start, done + polygon_column(vs, x0 + i, y0 as int, j as int), *c)),
                    mode == old(self).mode(), w == old(self).cols(), h == old(self).rows(), start == old(self).cells(),
                    vs == polygon.vertices_spec(),
                    x0 == b.pos.x, y0 == b.pos.y, nx == b.size.x + 1, ny == b.size.y + 1,
                    0 <= i < nx,
                    0 <= j,
                    j <= ny || j == 0,
                decreases ny - j,
            {
                let ghost before = done + polygon_column(vs, x0 + i, y0 as int, j as int);
                let x = x0 + i;
                let y = y0 + j;
                if polygon.is_inside_at(x, y) {
                    self.plot_at(x, y, c);
                    proof {
                        lemma_paint_push(mode, w, h, start, before, x as int, y as int, *c);
                        assert(done + polygon_column(vs, x0 + i, y0 as int, j + 1) =~= before.push((x as int, y as int)));
                    }
                } else {
                    proof {
                        assert(done + polygon_column(vs, x0 + i, y0 as int, j + 1) =~= before);
                    }
                }
                j = j + 1;
            }
            proof {
                assert(done + polygon_column(vs, x0 + i, y0 as int, ny as int) =~= polygon_columns(vs, x0 as int, i + 1, y0 as int, ny as int));
            }
            i = i + 1;
        }
        proof {
            if nx <= 0 {
                assert(polygon_columns(vs, x0 as int, i as int, y0 as int, ny as int) =~= polygon_columns(vs, x0 as int, nx as int, y0 as int, ny as int));
            }
        }
    }

    /// Draws `image` with its top left corner at `p`, row by row; each color is painted as
    /// a pixel, so it blends with what is there.
    pub fn draw_image(&mut self, p: &Point, image: &Image)
        requires
            old(self).wf(),
            image.wf(),
        ensures
            final(self).redrawn(old(self), paint_dabs(old(self).mode(), old(self).cols(), old(self).rows(), old(self).cells(),
                image_dabs(p.x as int, p.y as int, image.size.x as int, image.pixels@))),
    {
        let ghost mode = self.mode();
        let ghost w = self.cols();
        let ghost h = self.rows();
        let ghost start = self.cells();
        let ghost dabs = image_dabs(p.x as int, p.y as int, image.size.x as int, image.pixels@);
        let iw = image.size.x as usize;
        let n = image.pixels.len();
        let mut k: usize = 0;
        while k < n
            invariant
                self.redrawn(old(self), paint_dabs(mode, w, h, start, dabs.take(k as int))),
                mode == old(self).mode(), w == old(self).cols(), h == old(self).rows(), start == old(self).cells(),
                dabs == image_dabs(p.x as int, p.y as int, image.size.x as int, image.pixels@),
                image.wf(),
                iw == image.size.x,
                n == image.pixels@.len(),
                k <= n,
            decreases n - k,
        {
            proof {
                crate::image::lemma_mirror_index_in_range(iw as int, image.size.y as int, k as int);
            }
            let x = p.x as i64 + (k % iw) as i64;
            let y = p.y as i64 + (k / iw) as i64;
            self.plot_at(x, y, &image.pixels[k]);
            proof {
                assert(dabs.take(k + 1).drop_last() =~= dabs.take(k as int));
            }
            k += 1;
        }
        proof {
            assert(dabs.take(n as int) =~= dabs);
        }
    }

    /// Draws the current frame of `video` at `p` as `draw_image` does, then moves the video
    /// on to its next frame; a video without frames is left as it is and draws nothing.
    pub fn draw_video(&mut self, p: &Point, video: &mut Video)
        requires
            old(self).wf(),
            old(video).wf(),
            forall|i: int| 0 <= i < old(video).images@.len() ==> (#[trigger] old(video).images@[i]).wf(),
        ensures
            final(video).images@ == old(video).images@,
            final(video).wf(),
            old(video).images@.len() == 0 ==> final(self).redrawn(old(self), old(self).cells()) && final(video).frame == 0,
            old(video).images@.len() > 0 ==> {
                let img = old(video).images@[old(video).frame as int];
                &&& final(self).redrawn(old(self), paint_dabs(old(self).mode(), old(self).cols(), old(self).rows(), old(self).cells(),
                        image_dabs(p.x as int, p.y as int, img.size.x as int, img.pixels@)))
                &&& final(video).frame == next_frame(old(video).frame as int, old(video).images@.len() as int)
            },
    {
        if video.images.len() > 0 {
            self.draw_image(p, &video.images[video.frame]);
        }
        video.advance();
    }
}

} // verus!
