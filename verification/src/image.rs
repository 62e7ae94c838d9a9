use vstd::prelude::*;

use crate::color::{premultiplied, Color};
use crate::types::PixCoord;

verus! {

/// The pixel at column `x`, row `y` of a row-major buffer `width` pixels wide.
pub open spec fn pixel_at(pixels: Seq<Color>, width: int, x: int, y: int) -> Color {
    pixels[x + y * width]
}

/// The `w` by `h` block of a buffer `width` pixels wide whose top-left pixel is
/// `(x, y)`, row by row.
pub open spec fn region_of(pixels: Seq<Color>, width: int, x: int, y: int, w: int, h: int) -> Seq<Color> {
    Seq::new((w * h) as nat, |k: int| pixels[(x + k % w) + (y + k / w) * width])
}

/// A position inside a `w` by `h` buffer splits into its column and row.
pub proof fn lemma_grid_split(k: int, w: int, h: int)
    requires
        0 <= k < w * h,
        0 <= w,
        0 <= h,
    ensures
        w > 0,
        0 <= k % w < w,
        0 <= k / w < h,
        k == k % w + (k / w) * w,
{
    if w <= 0 {
        assert(w * h <= 0) by (nonlinear_arith)
            requires w <= 0, h >= 0;
    }
    vstd::arithmetic::div_mod::lemma_fundamental_div_mod(k, w);
    vstd::arithmetic::div_mod::lemma_mod_pos_bound(k, w);
    vstd::arithmetic::div_mod::lemma_div_pos_is_pos(k, w);
    let q = k / w;
    let r = k % w;
    assert(q < h) by (nonlinear_arith)
        requires k == w * q + r, 0 <= r, k < w * h, w > 0;
    assert(k == r + q * w) by (nonlinear_arith)
        requires k == w * q + r;
}

/// The column and row of a grid cell are recovered from its row-major index.
pub proof fn lemma_grid_join(x: int, y: int, w: int)
    requires
        0 <= x < w,
        0 <= y,
    ensures
        (x + y * w) % w == x,
        (x + y * w) / w == y,
{
    assert(x + y * w == y * w + x) by (nonlinear_arith);
    vstd::arithmetic::div_mod::lemma_fundamental_div_mod_converse(x + y * w, w, y, x);
}

/// A cell of a `w` by `h` grid has a row-major index inside the buffer.
pub proof fn lemma_grid_index(x: int, y: int, w: int, h: int)
    requires
        0 <= x < w,
        0 <= y < h,
    ensures
        0 <= y * w,
        y * w + x < w * h,
        x + y * w < (y + 1) * w,
        (y + 1) * w <= w * h,
{
    assert(0 <= y * w) by (nonlinear_arith)
        requires 0 <= y, 0 <= x < w;
    assert(x + y * w < (y + 1) * w) by (nonlinear_arith)
        requires 0 <= x < w;
    assert((y + 1) * w <= w * h) by (nonlinear_arith)
        requires 0 <= y < h, 0 <= x < w;
}

/// The row-major index of a position at most one past the end of a row fits in the buffer.
pub proof fn lemma_grid_offset(x: int, y: int, w: int, h: int)
    requires
        0 <= x <= w,
        0 <= y < h,
    ensures
        0 <= y * w + x <= w * h,
{
    assert(0 <= y * w + x <= w * h) by (nonlinear_arith)
        requires 0 <= x <= w, 0 <= y < h;
}

/// Two cells of a grid with the same row-major index are the same cell.
pub proof fn lemma_grid_index_unique(x1: int, y1: int, x2: int, y2: int, w: int)
    requires
        0 <= x1 < w,
        0 <= x2 < w,
        0 <= y1,
        0 <= y2,
        x1 + y1 * w == x2 + y2 * w,
    ensures
        x1 == x2,
        y1 == y2,
{
    if y1 < y2 {
        assert(x1 + y1 * w < x2 + y2 * w) by (nonlinear_arith)
            requires y1 < y2, 0 <= x1 < w, 0 <= x2;
    } else if y2 < y1 {
        assert(x2 + y2 * w < x1 + y1 * w) by (nonlinear_arith)
            requires y2 < y1, 0 <= x2 < w, 0 <= x1;
    }
}

/// A rectangular image held as its pixels, row by row from the top.
pub struct ColorImage {
    /// Width and height in pixels.
    pub size: PixCoord,
    /// The pixels, row by row from top to bottom.
    pub pixels: Vec<Color>,
}

/// Calls `egui::ColorImage::from_rgba_unmultiplied`, which reads `rgba`
/// four bytes at a time and turns each group into a pixel with
/// `Color32::from_rgba_unmultiplied`: transparent for opacity 0, the channels
/// as they are for opacity 255, otherwise each channel `c` becomes
/// `mul_frac_round(c, a)`, the formula that `premultiplied` restates. It
/// panics unless `rgba` holds four bytes per pixel, which `requires` rules out.
#[verifier::external_body]
fn unmultiplied_image(size: PixCoord, rgba: &Vec<u8>) -> (img: ColorImage)
    requires
        size[0] * size[1] * 4 == rgba@.len(),
    ensures
        img.size == size,
        img.pixels@.len() == size[0] * size[1],
        forall|i: int|
            0 <= i < size[0] * size[1] ==> #[trigger] img.pixels@[i] == premultiplied(
                rgba@[4 * i],
                rgba@[4 * i + 1],
                rgba@[4 * i + 2],
                rgba@[4 * i + 3],
            ),
{
    let made = egui::ColorImage::from_rgba_unmultiplied(size, rgba.as_slice());
    let pixels = made.pixels.iter().map(|c| {
        let [r, g, b, a] = c.to_array();
        Color { r, g, b, a }
    }).collect();
    ColorImage { size: made.size, pixels }
}

impl Clone for ColorImage {
    fn clone(&self) -> (img: Self)
        ensures
            img.size == self.size,
            img.pixels@ == self.pixels@,
    {
        ColorImage { size: self.size, pixels: self.pixels.clone() }
    }
}

impl ColorImage {
    /// The buffer holds exactly one colour per pixel.
    pub open spec fn wf(&self) -> bool {
        self.pixels@.len() == self.size[0] * self.size[1]
    }

    /// The colour at column `x`, row `y`.
    pub open spec fn pixel(&self, x: int, y: int) -> Color {
        pixel_at(self.pixels@, self.size[0] as int, x, y)
    }

    /// An image of the given size and pixels.
    pub fn new(size: PixCoord, pixels: Vec<Color>) -> (img: ColorImage)
        requires
            pixels@.len() == size[0] * size[1],
        ensures
            img.wf(),
            img.size == size,
            img.pixels@ == pixels@,
    {
        ColorImage { size, pixels }
    }

    /// An image of the given size from bytes with four unmultiplied channels
    /// per pixel (red, green, blue, opacity), row by row; each pixel is
    /// premultiplied by its opacity.
    pub fn from_rgba_unmultiplied(size: PixCoord, rgba: &Vec<u8>) -> (img: ColorImage)
        requires
            size[0] * size[1] * 4 == rgba@.len(),
        ensures
            img.wf(),
            img.size == size,
            forall|i: int|
                0 <= i < size[0] * size[1] ==> #[trigger] img.pixels@[i] == premultiplied(
                    rgba@[4 * i],
                    rgba@[4 * i + 1],
                    rgba@[4 * i + 2],
                    rgba@[4 * i + 3],
                ),
    {
        unmultiplied_image(size, rgba)
    }

    /// An image of the given size with every pixel set to `color`.
    pub fn filled(size: PixCoord, color: Color) -> (img: ColorImage)
        requires
            size[0] * size[1] <= usize::MAX,
        ensures
            img.wf(),
            img.size == size,
            forall|i: int| 0 <= i < img.pixels@.len() ==> img.pixels@[i] == color,
    {
        let n = size[0] * size[1];
        let pixels = vec![color; n];
        ColorImage { size, pixels }
    }

    /// The width in pixels.
    pub fn width(&self) -> (w: usize)
        ensures
            w == self.size[0],
    {
        self.size[0]
    }

    /// The height in pixels.
    pub fn height(&self) -> (h: usize)
        ensures
            h == self.size[1],
    {
        self.size[1]
    }

    /// A copy of the `size[0]` by `size[1]` block whose top-left pixel is `pos`.
    pub fn region_by_pixels(&self, pos: PixCoord, size: PixCoord) -> (region: ColorImage)
        requires
            self.wf(),
            pos[0] + size[0] <= self.size[0],
            pos[1] + size[1] <= self.size[1],
        ensures
            region.wf(),
            region.size == size,
            region.pixels@ == region_of(
                self.pixels@,
                self.size[0] as int,
                pos[0] as int,
                pos[1] as int,
                size[0] as int,
                size[1] as int,
            ),
            forall|x: int, y: int|
                0 <= x < size[0] && 0 <= y < size[1] ==> #[trigger] region.pixel(x, y) == self.pixel(
                    pos[0] + x,
                    pos[1] + y,
                ),
    {
        let w = size[0];
        let h = size[1];
        let width = self.size[0];
        let ghost src = self.pixels@;
        let total = self.pixels.len();
        let mut pixels: Vec<Color> = Vec::new();
        let mut j: usize = 0;
        while j < h
            invariant
                self.wf(),
                src == self.pixels@,
                total == src.len(),
                width == self.size[0],
                w == size[0],
                h == size[1],
                pos[0] + w <= self.size[0],
                pos[1] + h <= self.size[1],
                j <= h,
                pixels@.len() == j * w,
                forall|x: int, y: int|
                    0 <= x < w && 0 <= y < j ==> #[trigger] pixel_at(pixels@, w as int, x, y) == pixel_at(
                        src,
                        width as int,
                        pos[0] + x,
                        pos[1] + y,
                    ),
            decreases h - j,
        {
            let row = pos[1] + j;
            proof {
                lemma_grid_offset(pos[0] as int, row as int, width as int, self.size[1] as int);
            }
            let offset = row * width + pos[0];
            let mut i: usize = 0;
            while i < w
                invariant
                    self.wf(),
                    src == self.pixels@,
                    total == src.len(),
                    width == self.size[0],
                    w == size[0],
                    h == size[1],
                    pos[0] + w <= self.size[0],
                    pos[1] + h <= self.size[1],
                    j < h,
                    row == pos[1] + j,
                    offset == row * width + pos[0],
                    i <= w,
                    pixels@.len() == j * w + i,
                    forall|x: int, y: int|
                        0 <= x < w && 0 <= y < j ==> #[trigger] pixel_at(pixels@, w as int, x, y) == pixel_at(
                            src,
                            width as int,
                            pos[0] + x,
                            pos[1] + y,
                        ),
                    forall|x: int|
                        0 <= x < i ==> #[trigger] pixel_at(pixels@, w as int, x, j as int) == pixel_at(
                            src,
                            width as int,
                            pos[0] + x,
                            row as int,
                        ),
                decreases w - i,
            {
                proof {
                    lemma_grid_index((pos[0] + i) as int, row as int, width as int, self.size[1] as int);
                }
                let c = self.pixels[offset + i];
                let ghost before = pixels@;
                pixels.push(c);
                proof {
                    assert forall|x: int, y: int|
                        0 <= x < w && 0 <= y < j implies #[trigger] pixel_at(pixels@, w as int, x, y) == pixel_at(
                            src,
                            width as int,
                            pos[0] + x,
                            pos[1] + y,
                        ) by {
                        lemma_grid_index(x, y, w as int, j as int);
                        assert(pixel_at(pixels@, w as int, x, y) == pixel_at(before, w as int, x, y));
                    }
                    assert forall|x: int| 0 <= x < i + 1 implies #[trigger] pixel_at(pixels@, w as int, x, j as int) == pixel_at(
                        src,
                        width as int,
                        pos[0] + x,
                        row as int,
                    ) by {
                        if x < i {
                            assert(pixel_at(pixels@, w as int, x, j as int) == pixel_at(before, w as int, x, j as int));
                        }
                    }
                }
                i += 1;
            }
            proof {
                assert((j + 1) * w == j * w + w) by (nonlinear_arith);
            }
            j += 1;
        }
        proof {
            assert(h * w == w * h) by (nonlinear_arith);
            let reg = region_of(src, width as int, pos[0] as int, pos[1] as int, w as int, h as int);
            assert forall|k: int| 0 <= k < pixels@.len() implies pixels@[k] == reg[k] by {
                lemma_grid_split(k, w as int, h as int);
                assert(pixel_at(pixels@, w as int, k % (w as int), k / (w as int)) == pixels@[k]);
            }
            assert(pixels@ =~= reg);
        }
        ColorImage { size, pixels }
    }
}

} // verus!
