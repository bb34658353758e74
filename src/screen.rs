use vstd::prelude::*;

use vstd::std_specs::iter::IteratorSpec;

use crate::ansiesc::{chars_to_string, goto_text, push_goto};
use crate::color::{color_ansi_text, color_change_text, push_color_ansi, push_color_change, Color};
use crate::point::Point;
use crate::rgba::{blend_spec, Rgba};

verus! {

/// One character cell: a glyph and its two colors.
#[derive(Clone, Copy, Debug, PartialEq, Eq, Structural)]
pub struct Pixel {
    pub ch: char,
    pub color: Color,
}

/// A blank cell: a space, opaque black on opaque black.
pub open spec fn blank() -> Pixel {
    Pixel {
        ch: ' ',
        color: Color { bg: Rgba { r: 0, g: 0, b: 0, a: 255 }, fg: Rgba { r: 0, g: 0, b: 0, a: 255 } },
    }
}

/// `(x, y)` is a cell of a grid of `w` columns and `h` rows.
pub open spec fn in_grid(w: int, h: int, x: int, y: int) -> bool {
    0 <= x < w && 0 <= y < h
}

/// The position of cell `(x, y)` in the row-major cell array of a grid `w` columns wide.
pub open spec fn cell_index(w: int, x: int, y: int) -> int {
    y * w + x
}

/// The cell `old` after writing glyph `ch` in colors `color`: each color of the cell is
/// blended under the matching new one.
pub open spec fn blended(old: Pixel, color: Color, ch: char) -> Pixel {
    Pixel {
        ch,
        color: Color { bg: blend_spec(color.bg, old.color.bg), fg: blend_spec(color.fg, old.color.fg) },
    }
}

/// The cells after writing `ch` in `color` at `(x, y)`; nothing changes off the grid.
pub open spec fn put_char(w: int, h: int, cells: Seq<Pixel>, x: int, y: int, color: Color, ch: char) -> Seq<Pixel> {
    if in_grid(w, h, x, y) {
        cells.update(cell_index(w, x, y), blended(cells[cell_index(w, x, y)], color, ch))
    } else {
        cells
    }
}

/// The cell `old` after a full-block pixel of color `c`: a space whose background is `c`
/// blended over the old background, on a black foreground.
pub open spec fn block(old: Pixel, c: Rgba) -> Pixel {
    Pixel {
        ch: ' ',
        color: Color { bg: blend_spec(c, old.color.bg), fg: Rgba { r: 0, g: 0, b: 0, a: 255 } },
    }
}

/// The cells after a full-block pixel of color `c` at `(x, y)`; nothing changes off the grid.
pub open spec fn put_block(w: int, h: int, cells: Seq<Pixel>, x: int, y: int, c: Rgba) -> Seq<Pixel> {
    if in_grid(w, h, x, y) {
        cells.update(cell_index(w, x, y), block(cells[cell_index(w, x, y)], c))
    } else {
        cells
    }
}

/// The cells after writing `text` from `(x, y)` rightwards, one cell per character.
pub open spec fn put_text(w: int, h: int, cells: Seq<Pixel>, x: int, y: int, color: Color, text: Seq<char>) -> Seq<Pixel>
    decreases text.len(),
{
    if text.len() == 0 {
        cells
    } else {
        put_char(
            w,
            h,
            put_text(w, h, cells, x, y, color, text.drop_last()),
            x + text.len() - 1,
            y,
            color,
            text.last(),
        )
    }
}

/// The text for the cells of one row after its first color sequence: for each cell the
/// escape text that switches from the previous cell's colors (the first cell's colors
/// before it), then its glyph.
pub open spec fn row_text(cells: Seq<Pixel>, first: Color) -> Seq<char>
    decreases cells.len(),
{
    if cells.len() == 0 {
        seq![]
    } else {
        let prev = if cells.len() == 1 { first } else { cells[cells.len() - 2].color };
        row_text(cells.drop_last(), first) + color_change_text(prev, cells.last().color) + seq![cells.last().ch]
    }
}

/// The text of row `y`: the cursor moves to its first column, the first cell's colors are
/// set in full, and the cells follow.
pub open spec fn row_line(cells: Seq<Pixel>, w: int, y: int) -> Seq<char> {
    goto_text(1, y + 1) + if w > 0 {
        let row = cells.subrange(y * w, y * w + w);
        color_ansi_text(row[0].color) + row_text(row, row[0].color)
    } else {
        seq![]
    }
}

/// The text of the first `h` rows of a grid `w` columns wide, top to bottom.
pub open spec fn frame_text(cells: Seq<Pixel>, w: int, h: int) -> Seq<char>
    decreases h,
{
    if h <= 0 {
        seq![]
    } else {
        frame_text(cells, w, h - 1) + row_line(cells, w, h - 1)
    }
}

/// The display surface: a grid of character cells, row by row.
pub struct Screen {
    pixels: Vec<Pixel>,
    size: Point,
}

impl Default for Pixel {
    /// A blank cell.
    fn default() -> (p: Pixel)
        ensures
            p == blank(),
    {
        Pixel { ch: ' ', color: Color::default() }
    }
}

impl From<char> for Pixel {
    /// The glyph `ch` in text colors.
    fn from(ch: char) -> (p: Pixel) {
        Pixel { ch, color: Color::text() }
    }
}

impl vstd::std_specs::convert::FromSpecImpl<char> for Pixel {
    open spec fn obeys_from_spec() -> bool {
        true
    }

    open spec fn from_spec(ch: char) -> Pixel {
        Pixel {
            ch,
            color: Color {
                bg: Rgba { r: 0, g: 0, b: 0, a: 255 },
                fg: Rgba { r: 200, g: 200, b: 200, a: 255 },
            },
        }
    }
}

fn blank_cells(n: usize) -> (v: Vec<Pixel>)
    ensures
        v@ == Seq::new(n as nat, |i: int| blank()),
{
    let mut v: Vec<Pixel> = Vec::new();
    let mut i: usize = 0;
    while i < n
        invariant
            i <= n,
            v@ =~= Seq::new(i as nat, |k: int| blank()),
        decreases n - i,
    {
        v.push(Pixel::default());
        i += 1;
    }
    v
}

impl Screen {
    /// Number of columns.
    pub closed spec fn width(&self) -> int {
        self.size.x as int
    }

    /// Number of rows.
    pub closed spec fn height(&self) -> int {
        self.size.y as int
    }

    /// The cells, row by row.
    pub closed spec fn cells(&self) -> Seq<Pixel> {
        self.pixels@
    }

    /// The size fits a terminal and there is one cell for each position.
    pub open spec fn wf(&self) -> bool {
        &&& 0 <= self.width() <= u16::MAX
        &&& 0 <= self.height() <= u16::MAX
        &&& self.cells().len() == self.width() * self.height()
    }

    /// A screen of `cols` columns and `rows` rows of blank cells.
    pub fn new(cols: u16, rows: u16) -> (s: Screen)
        ensures
            s.wf(),
            s.width() == cols,
            s.height() == rows,
            s.cells() == Seq::new((cols * rows) as nat, |i: int| blank()),
    {
        assert(cols as usize * rows as usize <= 0xffff * 0xffff) by (nonlinear_arith)
            requires cols <= 0xffff, rows <= 0xffff;
        let n = cols as usize * rows as usize;
        Screen { pixels: blank_cells(n), size: Point::new(cols as i32, rows as i32) }
    }

    /// The number of columns and rows.
    pub fn get_size(&self) -> (p: Point)
        ensures
            p.x == self.width(),
            p.y == self.height(),
    {
        self.size
    }

    /// Takes on a new size; every cell becomes blank.
    pub fn resize(&mut self, cols: u16, rows: u16)
        ensures
            final(self).wf(),
            final(self).width() == cols,
            final(self).height() == rows,
            final(self).cells() == Seq::new((cols * rows) as nat, |i: int| blank()),
    {
        *self = Screen::new(cols, rows);
    }

    /// Makes every cell blank, keeping the size.
    pub fn clear(&mut self)
        requires
            old(self).wf(),
        ensures
            final(self).wf(),
            final(self).width() == old(self).width(),
            final(self).height() == old(self).height(),
            final(self).cells() == Seq::new(old(self).cells().len(), |i: int| blank()),
    {
        let n = self.pixels.len();
        self.pixels = blank_cells(n);
    }

    /// The cell at `index` in row-major order.
    pub fn get_pixel(&self, index: usize) -> (p: Pixel)
        requires
            index < self.cells().len(),
        ensures
            p == self.cells()[index as int],
    {
        self.pixels[index]
    }

    /// Replaces the cell at `index` in row-major order.
    pub fn set_pixel(&mut self, index: usize, pixel: &Pixel)
        requires
            index < old(self).cells().len(),
        ensures
            final(self).width() == old(self).width(),
            final(self).height() == old(self).height(),
            final(self).cells() == old(self).cells().update(index as int, *pixel),
    {
        self.pixels.set(index, *pixel);
    }

    /// The colors of the cell at `p`.
    pub fn get_color(&self, p: &Point) -> (c: Color)
        requires
            self.wf(),
            in_grid(self.width(), self.height(), p.x as int, p.y as int),
        ensures
            c == self.cells()[cell_index(self.width(), p.x as int, p.y as int)].color,
    {
        let i = self.index_of(p.x as i64, p.y as i64);
        self.pixels[i].color
    }

    fn index_of(&self, x: i64, y: i64) -> (i: usize)
        requires
            self.wf(),
            in_grid(self.width(), self.height(), x as int, y as int),
        ensures
            i == cell_index(self.width(), x as int, y as int),
            i < self.cells().len(),
    {
        proof {
            lemma_cell_index_in_range(self.width(), self.height(), x as int, y as int);
            assert(self.width() * self.height() <= 0xffff * 0xffff) by (nonlinear_arith)
                requires 0 <= self.width() <= 0xffff, 0 <= self.height() <= 0xffff;
        }
        (y as usize) * (self.size.x as usize) + x as usize
    }

    pub(crate) fn contains_cell(&self, x: i64, y: i64) -> (b: bool)
        ensures
            b == in_grid(self.width(), self.height(), x as int, y as int),
    {
        0 <= x && x < self.size.x as i64 && 0 <= y && y < self.size.y as i64
    }

    /// Writes glyph `ch` at cell `(x, y)`, blending its colors under `color`.
    pub(crate) fn put_char_at(&mut self, x: i64, y: i64, color: &Color, ch: char)
        requires
            old(self).wf(),
        ensures
            final(self).wf(),
            final(self).width() == old(self).width(),
            final(self).height() == old(self).height(),
            final(self).cells() == put_char(old(self).width(), old(self).height(), old(self).cells(), x as int, y as int, *color, ch),
    {
        if self.contains_cell(x, y) {
            let i = self.index_of(x, y);
            let old_color = self.pixels[i].color;
            let new_color = Color { bg: color.bg.blend(&old_color.bg), fg: color.fg.blend(&old_color.fg) };
            self.pixels.set(i, Pixel { ch, color: new_color });
        }
    }

    /// Writes a full-block pixel of color `rgba` at `p`: the cell becomes a space whose
    /// background is `rgba` blended over the old one, on black; nothing happens off the grid.
    pub fn draw_pixel(&mut self, p: &Point, rgba: &Rgba)
        requires
            old(self).wf(),
        ensures
            final(self).wf(),
            final(self).width() == old(self).width(),
            final(self).height() == old(self).height(),
            final(self).cells() == put_block(old(self).width(), old(self).height(), old(self).cells(), p.x as int, p.y as int, *rgba),
    {
        self.put_block_at(p.x as i64, p.y as i64, rgba);
    }

    pub(crate) fn put_block_at(&mut self, x: i64, y: i64, rgba: &Rgba)
        requires
            old(self).wf(),
        ensures
            final(self).wf(),
            final(self).width() == old(self).width(),
            final(self).height() == old(self).height(),
            final(self).cells() == put_block(old(self).width(), old(self).height(), old(self).cells(), x as int, y as int, *rgba),
    {
        if self.contains_cell(x, y) {
            let i = self.index_of(x, y);
            let old_bg = self.pixels[i].color.bg;
            let bg = rgba.blend(&old_bg);
            self.pixels.set(i, Pixel { ch: ' ', color: Color { bg, fg: Rgba::black() } });
        }
    }

    /// Writes glyph `ch` at `p`, each color of the cell blended under the matching one of
    /// `color`; nothing happens off the grid.
    pub fn draw_char(&mut self, p: &Point, color: &Color, ch: char)
        requires
            old(self).wf(),
        ensures
            final(self).wf(),
            final(self).width() == old(self).width(),
            final(self).height() == old(self).height(),
            final(self).cells() == put_char(old(self).width(), old(self).height(), old(self).cells(), p.x as int, p.y as int, *color, ch),
    {
        self.put_char_at(p.x as i64, p.y as i64, color, ch);
    }

    /// Writes `text` from `p` rightwards, one cell per character, as `draw_char` does.
    pub fn draw_text(&mut self, p: &Point, color: &Color, text: &str)
        requires
            old(self).wf(),
        ensures
            final(self).wf(),
            final(self).width() == old(self).width(),
            final(self).height() == old(self).height(),
            final(self).cells() == put_text(old(self).width(), old(self).height(), old(self).cells(), p.x as int, p.y as int, *color, text@),
    {
        self.put_text_at(p.x as i64, p.y as i64, color, text);
    }

    pub(crate) fn put_text_at(&mut self, x: i64, y: i64, color: &Color, text: &str)
        requires
            old(self).wf(),
            i32::MIN <= x <= i32::MAX,
        ensures
            final(self).wf(),
            final(self).width() == old(self).width(),
            final(self).height() == old(self).height(),
            final(self).cells() == put_text(old(self).width(), old(self).height(), old(self).cells(), x as int, y as int, *color, text@),
    {
        broadcast use vstd::string::axiom_spec_iter, vstd::string::next_postcondition;

        let ghost w = self.width();
        let ghost h = self.height();
        let ghost start = self.cells();
        let mut chars = text.chars();
        let mut cx: i64 = x;
        let ghost mut i: int = 0;
        loop
            invariant
                self.wf(),
                self.width() == w,
                self.height() == h,
                0 <= i <= text@.len(),
                cx == x + i,
                w == old(self).width(),
                h == old(self).height(),
                start == old(self).cells(),
                cx <= i32::MAX,
                chars.remaining() == text@.skip(i),
                self.cells() == put_text(w, h, start, x as int, y as int, *color, text@.take(i)),
            decreases text@.len() - i,
        {
            let ghost before = chars.remaining();
            match chars.next() {
                Some(ch) => {
                    proof {
                        assert(before.len() > 0);
                        assert(ch == text@[i]);
                        assert(text@.take(i + 1).drop_last() =~= text@.take(i));
                    }
                    self.put_char_at(cx, y, color, ch);
                    proof {
                        i = i + 1;
                        assert(chars.remaining() =~= text@.skip(i));
                    }
                    if cx >= self.size.x as i64 {
                        proof {
                            lemma_text_past_edge(w, h, start, x as int, y as int, *color, text@, i);
                        }
                        return;
                    }
                    cx = cx + 1;
                },
                None => {
                    proof {
                        assert(before.len() == 0);
                        assert(text@.take(i) =~= text@);
                    }
                    return;
                },
            }
        }
    }

    /// The whole grid as terminal output: for each row, top to bottom, the cursor moves to
    /// its first column, the first cell's colors are set in full, and each cell follows as
    /// its glyph, preceded by an escape sequence only for the colors that differ from the
    /// cell before it.
    pub fn display(&self) -> (s: String)
        requires
            self.wf(),
        ensures
            s@ == frame_text(self.cells(), self.width(), self.height()),
    {
        let mut out: Vec<char> = Vec::new();
        let w = self.size.x as usize;
        let h = self.size.y as usize;
        let mut y: usize = 0;
        while y < h
            invariant
                self.wf(),
                w == self.width(),
                h == self.height(),
                y <= h,
                out@ == frame_text(self.cells(), w as int, y as int),
            decreases h - y,
        {
            push_goto(&mut out, 1, (y + 1) as i32);
            if w > 0 {
                proof {
                    lemma_row_in_range(w as int, h as int, y as int);
                }
                let start = y * w;
                let end = start + w;
                let ghost row = self.cells().subrange(start as int, end as int);
                let ghost base = out@;
                let first = self.pixels[start].color;
                push_color_ansi(&mut out, &first);
                let mut last = first;
                let mut i = start;
                while i < end
                    invariant
                        self.wf(),
                        start <= i <= end,
                        end == start + w,
                        end <= self.cells().len(),
                        row == self.cells().subrange(start as int, end as int),
                        first == row[0].color,
                        last == if i == start { first } else { self.cells()[i - 1].color },
                        out@ == base + color_ansi_text(first) + row_text(row.take(i - start), first),
                    decreases end - i,
                {
                    let cur = self.pixels[i];
                    proof {
                        let j = i - start;
                        let t = row.take(j + 1);
                        assert(t.drop_last() =~= row.take(j));
                        assert(t.last() == cur);
                        if j > 0 {
                            assert(t[t.len() - 2] == self.cells()[i - 1]);
                        }
                    }
                    push_color_change(&mut out, &last, &cur.color);
                    out.push(cur.ch);
                    last = cur.color;
                    i += 1;
                }
                proof {
                    assert(row.take(w as int) =~= row);
                    assert(out@ =~= frame_text(self.cells(), w as int, y as int) + row_line(self.cells(), w as int, y as int));
                }
            } else {
                assert(out@ =~= frame_text(self.cells(), w as int, y as int) + row_line(self.cells(), w as int, y as int));
            }
            y += 1;
        }
        chars_to_string(&out)
    }
}

/// Within a row, a cell whose colors equal those of the cell before it adds only its glyph
/// to the output: no escape sequence comes between two such cells. The same holds of the
/// first cell of a row, whose colors the row's leading sequence has already set.
pub proof fn lemma_same_colors_add_glyph_only(cells: Seq<Pixel>, first: Color, j: int)
    requires
        0 <= j < cells.len(),
        j == 0 ==> cells[0].color == first,
        j > 0 ==> cells[j].color == cells[j - 1].color,
    ensures
        row_text(cells.take(j + 1), first) == row_text(cells.take(j), first) + seq![cells[j].ch],
{
    let t = cells.take(j + 1);
    assert(t.drop_last() =~= cells.take(j));
    let prev = if j == 0 { first } else { cells[j - 1].color };
    if j > 0 {
        assert(t[t.len() - 2] == cells[j - 1]);
    }
    assert(color_change_text(prev, cells[j].color) =~= Seq::<char>::empty());
    assert(row_text(cells.take(j), first) + color_change_text(prev, cells[j].color) + seq![cells[j].ch]
        =~= row_text(cells.take(j), first) + seq![cells[j].ch]);
}

/// The output of row `y` of a grid of `w` columns (at least one) and `h` rows: the cursor move, one sequence
/// with the colors of its first cell, then the text of its cells.
pub proof fn lemma_row_line_shape(cells: Seq<Pixel>, w: int, h: int, y: int)
    requires
        w > 0,
        0 <= y < h,
        cells.len() == w * h,
    ensures
        row_line(cells, w, y) == goto_text(1, y + 1) + color_ansi_text(cells[y * w].color)
            + row_text(cells.subrange(y * w, y * w + w), cells[y * w].color),
{
    assert(0 <= y * w) by (nonlinear_arith)
        requires 0 <= y, 0 < w;
    assert(y * w + w <= w * h) by (nonlinear_arith)
        requires y + 1 <= h, 0 < w;
    let row = cells.subrange(y * w, y * w + w);
    assert(row[0] == cells[y * w]);
    assert(row_line(cells, w, y) =~= goto_text(1, y + 1) + color_ansi_text(row[0].color) + row_text(row, row[0].color));
}

/// The glyphs of `cells`, in order.
pub open spec fn glyphs(cells: Seq<Pixel>) -> Seq<char> {
    cells.map_values(|p: Pixel| p.ch)
}

/// A row whose cells all have the colors it starts with comes out as its glyphs alone, after
/// the one color sequence that starts the row.
pub proof fn lemma_uniform_row(cells: Seq<Pixel>, first: Color)
    requires
        forall|i: int| 0 <= i < cells.len() ==> (#[trigger] cells[i]).color == first,
    ensures
        row_text(cells, first) == glyphs(cells),
    decreases cells.len(),
{
    if cells.len() > 0 {
        let t = cells.drop_last();
        assert forall|i: int| 0 <= i < t.len() implies (#[trigger] t[i]).color == first by {
            assert(t[i] == cells[i]);
        }
        lemma_uniform_row(t, first);
        let prev = if cells.len() == 1 { first } else { cells[cells.len() - 2].color };
        assert(prev == first);
        assert(cells.last().color == first);
        assert(color_change_text(prev, cells.last().color) =~= Seq::<char>::empty());
        assert(glyphs(cells) =~= glyphs(t) + seq![cells.last().ch]);
        assert(row_text(cells, first) =~= glyphs(t) + seq![cells.last().ch]);
    } else {
        assert(glyphs(cells) =~= Seq::<char>::empty());
    }
}

/// Cell `(x, y)` of a grid lies in its cell array.
pub proof fn lemma_cell_index_in_range(w: int, h: int, x: int, y: int)
    requires
        in_grid(w, h, x, y),
    ensures
        0 <= cell_index(w, x, y) < w * h,
{
    assert(0 <= y * w) by (nonlinear_arith)
        requires 0 <= y, 0 <= w;
    assert(y * w + w <= h * w) by (nonlinear_arith)
        requires y + 1 <= h, 0 <= w;
    assert(h * w == w * h) by (nonlinear_arith);
}

proof fn lemma_row_in_range(w: int, h: int, y: int)
    requires
        0 < w <= u16::MAX,
        0 <= y < h <= u16::MAX,
    ensures
        0 <= y * w,
        y * w + w <= w * h,
        w * h <= u16::MAX * u16::MAX,
{
    assert(0 <= y * w) by (nonlinear_arith)
        requires 0 <= y, 0 <= w;
    assert(y * w + w <= h * w) by (nonlinear_arith)
        requires y + 1 <= h, 0 <= w;
    assert(h * w == w * h) by (nonlinear_arith);
    assert(w * h <= u16::MAX * u16::MAX) by (nonlinear_arith)
        requires 0 < w <= u16::MAX, 0 <= h <= u16::MAX;
}

/// Characters that land right of the grid change nothing.
proof fn lemma_text_past_edge(w: int, h: int, cells: Seq<Pixel>, x: int, y: int, color: Color, text: Seq<char>, i: int)
    requires
        0 <= i <= text.len(),
        x + i - 1 >= w,
    ensures
        put_text(w, h, cells, x, y, color, text) == put_text(w, h, cells, x, y, color, text.take(i)),
    decreases text.len(),
{
    if text.len() > i {
        lemma_text_past_edge(w, h, cells, x, y, color, text.drop_last(), i);
        assert(text.drop_last().take(i) =~= text.take(i));
    } else {
        assert(text.take(i) =~= text);
    }
}

} // verus!
