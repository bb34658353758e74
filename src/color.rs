use vstd::prelude::*;

use crate::ansiesc::chars_to_string;
use crate::rgba::{fg_prefix, push_bg_ansi, push_fg_ansi, push_rgb, rgb_text, Rgba};

verus! {

/// The pair of colors of one character cell.
#[derive(Clone, Copy, Debug, PartialEq, Eq, Structural)]
pub struct Color {
    pub bg: Rgba,
    pub fg: Rgba,
}

/// The single escape sequence `ESC[38;2;r;g;b;48;2;r;g;bm` that sets both colors.
pub open spec fn color_ansi_text(c: Color) -> Seq<char> {
    fg_prefix() + rgb_text(c.fg) + seq![';', '4', '8', ';', '2', ';'] + rgb_text(c.bg) + seq!['m']
}

/// The escape text that switches the colors from `last` to `cur`: both colors in one
/// sequence when both differ, the one that differs alone, or nothing.
pub open spec fn color_change_text(last: Color, cur: Color) -> Seq<char> {
    if cur.bg != last.bg && cur.fg != last.fg {
        color_ansi_text(cur)
    } else if cur.bg != last.bg {
        crate::rgba::bg_ansi_text(cur.bg)
    } else if cur.fg != last.fg {
        crate::rgba::fg_ansi_text(cur.fg)
    } else {
        seq![]
    }
}

/// Appends the escape sequence that sets both colors of `c`.
pub fn push_color_ansi(out: &mut Vec<char>, c: &Color)
    ensures
        final(out)@ == old(out)@ + color_ansi_text(*c),
{
    push_fg_ansi_prefix(out);
    push_rgb(out, &c.fg);
    out.push(';');
    out.push('4');
    out.push('8');
    out.push(';');
    out.push('2');
    out.push(';');
    push_rgb(out, &c.bg);
    out.push('m');
    assert(final(out)@ =~= old(out)@ + color_ansi_text(*c));
}

fn push_fg_ansi_prefix(out: &mut Vec<char>)
    ensures
        final(out)@ == old(out)@ + fg_prefix(),
{
    crate::ansiesc::push_csi(out);
    out.push('3');
    out.push('8');
    out.push(';');
    out.push('2');
    out.push(';');
    assert(final(out)@ =~= old(out)@ + fg_prefix());
}

/// Appends the escape text that switches the colors from `last` to `cur`.
pub fn push_color_change(out: &mut Vec<char>, last: &Color, cur: &Color)
    ensures
        final(out)@ == old(out)@ + color_change_text(*last, *cur),
{
    if cur.bg != last.bg && cur.fg != last.fg {
        push_color_ansi(out, cur);
    } else if cur.bg != last.bg {
        push_bg_ansi(out, &cur.bg);
    } else if cur.fg != last.fg {
        push_fg_ansi(out, &cur.fg);
    } else {
        assert(final(out)@ =~= old(out)@ + color_change_text(*last, *cur));
    }
}

impl Default for Color {
    /// Opaque black on opaque black.
    fn default() -> (c: Color)
        ensures
            c == (Color { bg: Rgba { r: 0, g: 0, b: 0, a: 255 }, fg: Rgba { r: 0, g: 0, b: 0, a: 255 } }),
    {
        Color { bg: Rgba::default(), fg: Rgba::default() }
    }
}

impl Color {
    /// The colors for plain text: light grey on black.
    pub fn text() -> (c: Color)
        ensures
            c == (Color { bg: Rgba { r: 0, g: 0, b: 0, a: 255 }, fg: Rgba { r: 200, g: 200, b: 200, a: 255 } }),
    {
        Color { bg: Rgba::default(), fg: Rgba { r: 200, g: 200, b: 200, a: 255 } }
    }

    /// The escape sequence that sets the foreground and the background of this color pair.
    pub fn ansi(&self) -> (s: String)
        ensures
            s@ == color_ansi_text(*self),
    {
        let mut out: Vec<char> = Vec::new();
        push_color_ansi(&mut out, self);
        assert(out@ =~= color_ansi_text(*self));
        chars_to_string(&out)
    }
}

} // verus!
