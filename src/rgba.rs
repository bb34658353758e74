use vstd::prelude::*;

use vstd::string::StringSliceAdditionalSpecFns;

use crate::ansiesc::{chars_to_string, csi, dec, push_csi, push_dec};

verus! {

/// An RGBA color with 8-bit channels; alpha 0 is fully transparent, 255 fully opaque.
#[derive(Clone, Copy, Debug, PartialEq, Eq, Structural)]
pub struct Rgba {
    pub r: u8,
    pub g: u8,
    pub b: u8,
    pub a: u8,
}

/// One channel of `src` laid over one channel of `dst` with weight `a / 255`.
pub open spec fn mix(a: u8, s: u8, d: u8) -> u8 {
    ((a as int * s as int + (255 - a as int) * d as int) / 255) as u8
}

/// The "over" compositing of `src` onto `dst`.
pub open spec fn blend_spec(src: Rgba, dst: Rgba) -> Rgba {
    if src.a == 0 {
        dst
    } else if src.a == 255 {
        src
    } else {
        Rgba { r: mix(src.a, src.r, dst.r), g: mix(src.a, src.g, dst.g), b: mix(src.a, src.b, dst.b), a: 255 }
    }
}

fn mix_channel(a: u8, s: u8, d: u8) -> (r: u8)
    ensures
        r == mix(a, s, d),
        (a as int * s as int + (255 - a as int) * d as int) / 255 <= 255,
{
    let a32 = a as u32;
    assert(a32 * (s as u32) <= 255 * 255) by (nonlinear_arith)
        requires a32 <= 255, s as u32 <= 255;
    assert((255 - a32) * (d as u32) <= (255 - a32) * 255) by (nonlinear_arith)
        requires a32 <= 255, d as u32 <= 255;
    let num = a32 * (s as u32) + (255 - a32) * (d as u32);
    assert(num <= 255 * 255) by (nonlinear_arith)
        requires num == a32 * (s as u32) + (255 - a32) * (d as u32), a32 <= 255, s as u32 <= 255, d as u32 <= 255;
    (num / 255) as u8
}

impl Rgba {
    /// Composites `self` over `other`.
    pub fn blend(&self, other: &Rgba) -> (r: Rgba)
        ensures
            r == blend_spec(*self, *other),
    {
        if self.a == 0 {
            return *other;
        }
        if self.a == 255 {
            return *self;
        }
        Rgba {
            r: mix_channel(self.a, self.r, other.r),
            g: mix_channel(self.a, self.g, other.g),
            b: mix_channel(self.a, self.b, other.b),
            a: 255,
        }
    }
}


/// The value of an ASCII hexadecimal digit (either case), if `c` is one.
pub open spec fn hex_value(c: u8) -> Option<u8> {
    if 48 <= c <= 57 {
        Some((c - 48) as u8)
    } else if 65 <= c <= 70 {
        Some((c - 55) as u8)
    } else if 97 <= c <= 102 {
        Some((c - 87) as u8)
    } else {
        None
    }
}

/// `bytes` starts with six hexadecimal digits.
pub open spec fn is_hex_color(bytes: Seq<u8>) -> bool {
    &&& bytes.len() >= 6
    &&& forall|i: int| 0 <= i < 6 ==> (#[trigger] hex_value(bytes[i])) is Some
}

/// The byte made of the hexadecimal digits `hi` and `lo`.
pub open spec fn hex_byte(hi: u8, lo: u8) -> u8 {
    (16 * hex_value(hi)->0 + hex_value(lo)->0) as u8
}

/// The step by which a channel moves: towards the target by at most `speed`.
pub open spec fn fading_step(speed: int, delta: int) -> int {
    if delta < 0 {
        if -speed > delta { -speed } else { delta }
    } else if delta > 0 {
        if speed < delta { speed } else { delta }
    } else {
        0
    }
}

/// A channel after one fading step, saturated to the channel range.
pub open spec fn fade_channel(current: u8, target: u8, speed: int) -> u8 {
    let v = current as int + fading_step(speed, target as int - current as int);
    if v < 0 {
        0
    } else if v > 255 {
        255
    } else {
        v as u8
    }
}

/// `c` after one step of fading towards `target` at `speed`; alpha is kept.
pub open spec fn fade_spec(c: Rgba, target: Rgba, speed: int) -> Rgba {
    Rgba {
        r: fade_channel(c.r, target.r, speed),
        g: fade_channel(c.g, target.g, speed),
        b: fade_channel(c.b, target.b, speed),
        a: c.a,
    }
}

/// The channel values of an RGBA color as the text `r;g;b`.
pub open spec fn rgb_text(c: Rgba) -> Seq<char> {
    dec(c.r as nat) + seq![';'] + dec(c.g as nat) + seq![';'] + dec(c.b as nat)
}

/// `ESC[38;2;`: the start of a truecolor foreground sequence.
pub open spec fn fg_prefix() -> Seq<char> {
    csi() + seq!['3', '8', ';', '2', ';']
}

/// `ESC[48;2;`: the start of a truecolor background sequence.
pub open spec fn bg_prefix() -> Seq<char> {
    csi() + seq!['4', '8', ';', '2', ';']
}

/// The escape sequence that sets the foreground to `c`.
pub open spec fn fg_ansi_text(c: Rgba) -> Seq<char> {
    fg_prefix() + rgb_text(c) + seq!['m']
}

/// The escape sequence that sets the background to `c`.
pub open spec fn bg_ansi_text(c: Rgba) -> Seq<char> {
    bg_prefix() + rgb_text(c) + seq!['m']
}

fn char_to_hex(c: u8) -> (v: u8)
    requires
        hex_value(c) is Some,
    ensures
        v == hex_value(c)->0,
{
    if c <= 57 {
        c - 48
    } else if c <= 70 {
        c - 55
    } else {
        c - 87
    }
}

fn calc_real_fading_speed(fading_speed: i32, color_delta: i32) -> (r: i64)
    ensures
        r == fading_step(fading_speed as int, color_delta as int),
{
    let speed = fading_speed as i64;
    let delta = color_delta as i64;
    if delta < 0 {
        if -speed > delta { -speed } else { delta }
    } else if delta > 0 {
        if speed < delta { speed } else { delta }
    } else {
        0
    }
}

fn fade_one(current: u8, target: u8, fading_speed: i32) -> (r: u8)
    ensures
        r == fade_channel(current, target, fading_speed as int),
{
    let step = calc_real_fading_speed(fading_speed, target as i32 - current as i32);
    let v = current as i64 + step;
    if v < 0 {
        0
    } else if v > 255 {
        255
    } else {
        v as u8
    }
}

/// Appends `r;g;b` for the channels of `c`.
pub fn push_rgb(out: &mut Vec<char>, c: &Rgba)
    ensures
        final(out)@ == old(out)@ + rgb_text(*c),
{
    push_dec(out, c.r as u32);
    out.push(';');
    push_dec(out, c.g as u32);
    out.push(';');
    push_dec(out, c.b as u32);
    assert(final(out)@ =~= old(out)@ + rgb_text(*c));
}

/// Appends the escape sequence that sets the foreground to `c`.
pub fn push_fg_ansi(out: &mut Vec<char>, c: &Rgba)
    ensures
        final(out)@ == old(out)@ + fg_ansi_text(*c),
{
    push_csi(out);
    out.push('3');
    out.push('8');
    out.push(';');
    out.push('2');
    out.push(';');
    push_rgb(out, c);
    out.push('m');
    assert(final(out)@ =~= old(out)@ + fg_ansi_text(*c));
}

/// Appends the escape sequence that sets the background to `c`.
pub fn push_bg_ansi(out: &mut Vec<char>, c: &Rgba)
    ensures
        final(out)@ == old(out)@ + bg_ansi_text(*c),
{
    push_csi(out);
    out.push('4');
    out.push('8');
    out.push(';');
    out.push('2');
    out.push(';');
    push_rgb(out, c);
    out.push('m');
    assert(final(out)@ =~= old(out)@ + bg_ansi_text(*c));
}

impl Default for Rgba {
    /// Opaque black.
    fn default() -> (c: Rgba)
        ensures
            c == (Rgba { r: 0, g: 0, b: 0, a: 255 }),
    {
        Rgba { r: 0, g: 0, b: 0, a: 255 }
    }
}

impl Rgba {
    pub fn new(r: u8, g: u8, b: u8, a: u8) -> (c: Rgba)
        ensures
            c == (Rgba { r, g, b, a }),
    {
        Rgba { r, g, b, a }
    }

    /// The opaque color written as six hexadecimal digits `rrggbb`, in either case.
    pub fn from_hex(hex: &str) -> (c: Rgba)
        requires
            is_hex_color(hex.spec_bytes()),
        ensures
            c == (Rgba {
                r: hex_byte(hex.spec_bytes()[0], hex.spec_bytes()[1]),
                g: hex_byte(hex.spec_bytes()[2], hex.spec_bytes()[3]),
                b: hex_byte(hex.spec_bytes()[4], hex.spec_bytes()[5]),
                a: 255,
            }),
    {
        let bytes = hex.as_bytes();
        assert(hex_value(bytes@[0]) is Some && hex_value(bytes@[1]) is Some && hex_value(bytes@[2]) is Some);
        assert(hex_value(bytes@[3]) is Some && hex_value(bytes@[4]) is Some && hex_value(bytes@[5]) is Some);
        let r = 16 * char_to_hex(bytes[0]) + char_to_hex(bytes[1]);
        let g = 16 * char_to_hex(bytes[2]) + char_to_hex(bytes[3]);
        let b = 16 * char_to_hex(bytes[4]) + char_to_hex(bytes[5]);
        Rgba { r, g, b, a: 255 }
    }

    pub fn transparent() -> (c: Rgba)
        ensures
            c == (Rgba { r: 0, g: 0, b: 0, a: 0 }),
    {
        Rgba { r: 0, g: 0, b: 0, a: 0 }
    }

    pub fn black() -> (c: Rgba)
        ensures
            c == (Rgba { r: 0, g: 0, b: 0, a: 255 }),
    {
        Rgba { r: 0, g: 0, b: 0, a: 255 }
    }

    pub fn white() -> (c: Rgba)
        ensures
            c == (Rgba { r: 255, g: 255, b: 255, a: 255 }),
    {
        Rgba { r: 255, g: 255, b: 255, a: 255 }
    }

    pub fn red() -> (c: Rgba)
        ensures
            c == (Rgba { r: 255, g: 0, b: 0, a: 255 }),
    {
        Rgba { r: 255, g: 0, b: 0, a: 255 }
    }

    pub fn green() -> (c: Rgba)
        ensures
            c == (Rgba { r: 0, g: 255, b: 0, a: 255 }),
    {
        Rgba { r: 0, g: 255, b: 0, a: 255 }
    }

    pub fn blue() -> (c: Rgba)
        ensures
            c == (Rgba { r: 0, g: 0, b: 255, a: 255 }),
    {
        Rgba { r: 0, g: 0, b: 255, a: 255 }
    }

    pub fn yellow() -> (c: Rgba)
        ensures
            c == (Rgba { r: 255, g: 255, b: 0, a: 255 }),
    {
        Rgba { r: 255, g: 255, b: 0, a: 255 }
    }

    pub fn cyan() -> (c: Rgba)
        ensures
            c == (Rgba { r: 0, g: 255, b: 255, a: 255 }),
    {
        Rgba { r: 0, g: 255, b: 255, a: 255 }
    }

    pub fn violet() -> (c: Rgba)
        ensures
            c == (Rgba { r: 255, g: 0, b: 255, a: 255 }),
    {
        Rgba { r: 255, g: 0, b: 255, a: 255 }
    }

    pub fn orange() -> (c: Rgba)
        ensures
            c == (Rgba { r: 255, g: 128, b: 0, a: 255 }),
    {
        Rgba { r: 255, g: 128, b: 0, a: 255 }
    }

    /// The escape sequence `ESC[48;2;r;g;bm` that sets the background to this color.
    pub fn bg_ansi(&self) -> (s: String)
        ensures
            s@ == bg_ansi_text(*self),
    {
        let mut out: Vec<char> = Vec::new();
        push_bg_ansi(&mut out, self);
        assert(out@ =~= bg_ansi_text(*self));
        chars_to_string(&out)
    }

    /// The escape sequence `ESC[38;2;r;g;bm` that sets the foreground to this color.
    pub fn fg_ansi(&self) -> (s: String)
        ensures
            s@ == fg_ansi_text(*self),
    {
        let mut out: Vec<char> = Vec::new();
        push_fg_ansi(&mut out, self);
        assert(out@ =~= fg_ansi_text(*self));
        chars_to_string(&out)
    }

    /// Moves each color channel towards `target` by at most `fading_speed`; alpha is kept.
    pub fn fade(&mut self, target: &Rgba, fading_speed: i32)
        ensures
            *final(self) == fade_spec(*old(self), *target, fading_speed as int),
    {
        self.r = fade_one(self.r, target.r, fading_speed);
        self.g = fade_one(self.g, target.g, fading_speed);
        self.b = fade_one(self.b, target.b, fading_speed);
    }
}

/// Blending with an opaque source gives the source, and with a fully transparent source
/// leaves the destination as it was.
pub proof fn lemma_blend_identity(src: Rgba, dst: Rgba)
    ensures
        src.a == 255 ==> blend_spec(src, dst) == src,
        src.a == 0 ==> blend_spec(src, dst) == dst,
{
}

/// Blending never wraps: each resulting channel is the exact weighted mean of the two
/// channels, which lies in `0..=255`, and the result is opaque unless the source is
/// fully transparent.
pub proof fn lemma_blend_saturates(src: Rgba, dst: Rgba)
    ensures
        0 < src.a < 255 ==> {
            let w = src.a as int;
            &&& 0 <= (w * src.r as int + (255 - w) * dst.r as int) / 255 <= 255
            &&& 0 <= (w * src.g as int + (255 - w) * dst.g as int) / 255 <= 255
            &&& 0 <= (w * src.b as int + (255 - w) * dst.b as int) / 255 <= 255
            &&& blend_spec(src, dst).r as int == (w * src.r as int + (255 - w) * dst.r as int) / 255
            &&& blend_spec(src, dst).g as int == (w * src.g as int + (255 - w) * dst.g as int) / 255
            &&& blend_spec(src, dst).b as int == (w * src.b as int + (255 - w) * dst.b as int) / 255
            &&& blend_spec(src, dst).a == 255
        },
{
    if 0 < src.a < 255 {
        lemma_mix_in_range(src.a, src.r, dst.r);
        lemma_mix_in_range(src.a, src.g, dst.g);
        lemma_mix_in_range(src.a, src.b, dst.b);
    }
}

proof fn lemma_mix_in_range(a: u8, s: u8, d: u8)
    ensures
        0 <= (a as int * s as int + (255 - a as int) * d as int) / 255 <= 255,
{
    let w = a as int;
    assert(0 <= w * s as int + (255 - w) * d as int <= 255 * 255) by (nonlinear_arith)
        requires 0 <= w <= 255, 0 <= s as int <= 255, 0 <= d as int <= 255;
}

/// With a non-negative speed a fading step never passes the target, moves by at most the
/// speed, and stops exactly on the target once within reach.
pub proof fn lemma_fade_toward(current: u8, target: u8, speed: int)
    requires
        speed >= 0,
    ensures
        current <= target ==> current <= fade_channel(current, target, speed) <= target,
        target <= current ==> target <= fade_channel(current, target, speed) <= current,
        (fade_channel(current, target, speed) as int - current as int) <= speed,
        (current as int - fade_channel(current, target, speed) as int) <= speed,
        (target as int - current as int) <= speed && (current as int - target as int) <= speed
            ==> fade_channel(current, target, speed) == target,
{
}

} // verus!
