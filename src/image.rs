use vstd::prelude::*;

use crate::point::Point;
use crate::rgba::Rgba;

verus! {

/// A rectangular picture: `size.x * size.y` colors, row by row.
pub struct Image {
    pub pixels: Vec<Rgba>,
    pub size: Point,
}

/// The colors of a flat RGBA byte array, four bytes each; trailing bytes that do not
/// make up a whole color are ignored.
pub open spec fn rgba_pixels(bytes: Seq<u8>) -> Seq<Rgba> {
    Seq::new(
        (bytes.len() / 4) as nat,
        |i: int| Rgba { r: bytes[4 * i], g: bytes[4 * i + 1], b: bytes[4 * i + 2], a: bytes[4 * i + 3] },
    )
}

/// Where the `k`-th color of a row-major picture of width `w` comes from when the
/// picture is mirrored left to right.
pub open spec fn mirror_index(w: int, k: int) -> int {
    (k / w) * w + (w - 1 - k % w)
}

/// The colors of a picture of width `w` mirrored left to right.
pub open spec fn mirror_pixels(w: int, px: Seq<Rgba>) -> Seq<Rgba> {
    Seq::new(px.len(), |k: int| px[mirror_index(w, k)])
}

impl Image {
    /// The image holds exactly one color for each position of its size.
    pub open spec fn wf(&self) -> bool {
        &&& self.size.x >= 0
        &&& self.size.y >= 0
        &&& self.pixels@.len() == self.size.x * self.size.y
    }

    /// The image of the given size whose colors are read from `bytes`, four bytes each.
    pub fn from_raw(width: u32, height: u32, bytes: Vec<u8>) -> (img: Image)
        ensures
            img.size == (Point { x: width as i32, y: height as i32 }),
            img.pixels@ == rgba_pixels(bytes@),
            width <= i32::MAX && height <= i32::MAX && bytes@.len() == 4 * width * height ==> img.wf(),
    {
        let len = bytes.len();
        let n = len / 4;
        let mut pixels: Vec<Rgba> = Vec::new();
        let mut i: usize = 0;
        while i < n
            invariant
                len == bytes@.len(),
                n == len / 4,
                i <= n,
                pixels@ =~= rgba_pixels(bytes@).take(i as int),
            decreases n - i,
        {
            assert(4 * i + 3 < bytes@.len()) by (nonlinear_arith)
                requires i < n, n == len / 4, len == bytes@.len();
            pixels.push(Rgba { r: bytes[4 * i], g: bytes[4 * i + 1], b: bytes[4 * i + 2], a: bytes[4 * i + 3] });
            i += 1;
        }
        proof {
            if width <= i32::MAX && height <= i32::MAX && bytes@.len() == 4 * width * height {
                assert(bytes@.len() / 4 == width * height) by (nonlinear_arith)
                    requires bytes@.len() == 4 * width * height, width >= 0, height >= 0;
            }
        }
        Image { pixels, size: Point::new(width as i32, height as i32) }
    }

    /// The image mirrored left to right.
    pub fn mirror_y(&self) -> (m: Image)
        requires
            self.wf(),
        ensures
            m.size == self.size,
            m.pixels@ == mirror_pixels(self.size.x as int, self.pixels@),
            m.wf(),
    {
        let w = self.size.x as usize;
        let n = self.pixels.len();
        let mut pixels: Vec<Rgba> = Vec::new();
        let mut k: usize = 0;
        while k < n
            invariant
                w == self.size.x,
                n == self.pixels@.len(),
                n == self.size.x * self.size.y,
                self.size.y >= 0,
                k <= n,
                pixels@ =~= mirror_pixels(w as int, self.pixels@).take(k as int),
            decreases n - k,
        {
            proof {
                lemma_mirror_index_in_range(w as int, self.size.y as int, k as int);
            }
            let row = k / w;
            let col = k % w;
            let idx = row * w + (w - 1 - col);
            pixels.push(self.pixels[idx]);
            k += 1;
        }
        Image { pixels, size: self.size }
    }
}

/// A mirrored position stays within the picture.
pub proof fn lemma_mirror_index_in_range(w: int, h: int, k: int)
    requires
        w >= 0,
        h >= 0,
        0 <= k < w * h,
    ensures
        w > 0,
        0 <= k / w < h,
        0 <= k % w < w,
        0 <= (k / w) * w <= k,
        0 <= mirror_index(w, k) < w * h,
{
    if w == 0 {
        assert(w * h == 0);
    }
    vstd::arithmetic::div_mod::lemma_fundamental_div_mod(k, w);
    vstd::arithmetic::div_mod::lemma_div_pos_is_pos(k, w);
    vstd::arithmetic::div_mod::lemma_mod_pos_bound(k, w);
    let q = k / w;
    assert(q < h) by (nonlinear_arith)
        requires k == w * q + k % w, 0 <= k % w, k < w * h, w > 0;
    assert((k / w) * w == w * (k / w)) by (nonlinear_arith);
    assert(0 <= (k / w) * w) by (nonlinear_arith)
        requires k / w >= 0, w > 0;
    assert((k / w + 1) * w <= h * w) by (nonlinear_arith)
        requires k / w < h, w > 0;
    assert(w * h == h * w) by (nonlinear_arith);
    assert((k / w + 1) * w == (k / w) * w + w) by (nonlinear_arith);
}

} // verus!
