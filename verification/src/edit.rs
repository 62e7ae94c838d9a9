use vstd::prelude::*;
use vstd::math::{max, min};

use crate::color::Color;
use crate::image::{lemma_grid_index, lemma_grid_index_unique, lemma_grid_join, lemma_grid_split, pixel_at, region_of, ColorImage};
use crate::types::{coord_add, coord_min, coord_sub, coord_to_idx, PixCoord, PixRect};

verus! {

/// The row-major buffer index of `coord` in an image `width` pixels wide.
pub open spec fn idx_of(coord: PixCoord, width: int) -> int {
    coord[0] + coord[1] * width
}

/// `coord` lies inside an image `width` by `height` pixels.
pub open spec fn coord_inside(coord: PixCoord, width: int, height: int) -> bool {
    coord[0] < width && coord[1] < height
}

/// Returns `None` if out of bounds
fn pixel_from_coord(coord: PixCoord, img: &ColorImage) -> (c: Option<Color>)
    requires
        img.wf(),
    ensures
        c == (if coord_inside(coord, img.size[0] as int, img.size[1] as int) {
            Some(img.pixels@[idx_of(coord, img.size[0] as int)])
        } else {
            None
        }),
{
    if coord[0] < img.width() && coord[1] < img.height() {
        let _ = img.pixels.len();
        proof {
            lemma_grid_index(coord[0] as int, coord[1] as int, img.size[0] as int, img.size[1] as int);
        }
        let idx = coord_to_idx(coord, img);
        Some(img.pixels[idx])
    } else {
        None
    }
}

/// One pixel write: applying it sets the pixel at `coord` to `oldcol`.
#[derive(Debug, Clone, Copy)]
pub struct PixelEdit {
    pub oldcol: Color,
    pub coord: PixCoord,
}

impl Default for PixelEdit {
    fn default() -> (e: PixelEdit)
        ensures
            e.oldcol == crate::color::transparent(),
            e.coord[0] == 0 && e.coord[1] == 0,
    {
        PixelEdit { oldcol: Color::transparent(), coord: [0, 0] }
    }
}

impl PixelEdit {
    /// The write that would put back the current colour at `coord`; `None`
    /// when `coord` is outside the image.
    pub fn new(data: &ColorImage, coord: PixCoord) -> (e: Option<Self>)
        requires
            data.wf(),
        ensures
            e == (if coord_inside(coord, data.size[0] as int, data.size[1] as int) {
                Some(PixelEdit { oldcol: data.pixels@[idx_of(coord, data.size[0] as int)], coord })
            } else {
                None
            }),
    {
        match pixel_from_coord(coord, data) {
            Some(oldcol) => Some(PixelEdit { oldcol, coord }),
            None => None,
        }
    }
}

/// A list of pixel writes, applied in order.
pub type PixelEdits = Vec<PixelEdit>;

/// Returns `None` if the list of coordinates is empty
pub fn create_pixel_edits(col: Color, coords: &Vec<PixCoord>) -> (edits: Option<PixelEdits>)
    ensures
        coords@.len() == 0 ==> edits is None,
        coords@.len() > 0 ==> (edits matches Some(v) && v@.len() == coords@.len() && forall|i: int|
            0 <= i < coords@.len() ==> (#[trigger] v@[i]).oldcol == col && v@[i].coord == coords@[i]),
{
    if coords.len() == 0 {
        return None;
    }
    let mut edits: Vec<PixelEdit> = Vec::new();
    let mut i: usize = 0;
    while i < coords.len()
        invariant
            i <= coords@.len(),
            edits@.len() == i,
            forall|j: int| 0 <= j < i ==> (#[trigger] edits@[j]).oldcol == col && edits@[j].coord == coords@[j],
        decreases coords.len() - i,
    {
        edits.push(PixelEdit { oldcol: col, coord: coords[i] });
        i += 1;
    }
    Some(edits)
}

/// The buffer after writing `edits` one after the other into `pixels`.
pub open spec fn paint_pixels(pixels: Seq<Color>, width: int, edits: Seq<PixelEdit>) -> Seq<Color>
    decreases edits.len(),
{
    if edits.len() == 0 {
        pixels
    } else {
        let e = edits.last();
        paint_pixels(pixels, width, edits.drop_last()).update(idx_of(e.coord, width), e.oldcol)
    }
}

/// For each write of `edits`, the write that puts back the colour it replaces.
pub open spec fn recorded_pixels(pixels: Seq<Color>, width: int, edits: Seq<PixelEdit>) -> Seq<PixelEdit> {
    Seq::new(
        edits.len(),
        |i: int|
            PixelEdit {
                oldcol: paint_pixels(pixels, width, edits.take(i))[idx_of(edits[i].coord, width)],
                coord: edits[i].coord,
            },
    )
}

/// The smallest `k`-th coordinate among the writes.
pub open spec fn coords_min(edits: Seq<PixelEdit>, k: int) -> int
    decreases edits.len(),
{
    if edits.len() <= 1 {
        edits[0].coord[k] as int
    } else {
        min(coords_min(edits.drop_last(), k), edits.last().coord[k] as int)
    }
}

/// The largest `k`-th coordinate among the writes.
pub open spec fn coords_max(edits: Seq<PixelEdit>, k: int) -> int
    decreases edits.len(),
{
    if edits.len() <= 1 {
        edits[0].coord[k] as int
    } else {
        max(coords_max(edits.drop_last(), k), edits.last().coord[k] as int)
    }
}

/// Every write lands inside a buffer of `len` pixels.
pub open spec fn pixel_edits_in_bounds(edits: Seq<PixelEdit>, width: int, len: int) -> bool {
    forall|i: int| 0 <= i < edits.len() ==> 0 <= idx_of((#[trigger] edits[i]).coord, width) < len
}

/// Every write lands inside an image `width` by `height` pixels.
pub open spec fn pixel_edits_inside(edits: Seq<PixelEdit>, width: int, height: int) -> bool {
    forall|i: int| 0 <= i < edits.len() ==> coord_inside((#[trigger] edits[i]).coord, width, height)
}

/// Writes inside the image land inside its buffer.
pub proof fn lemma_inside_in_bounds(edits: Seq<PixelEdit>, width: int, height: int)
    requires
        pixel_edits_inside(edits, width, height),
    ensures
        pixel_edits_in_bounds(edits, width, width * height),
{
    assert forall|i: int| 0 <= i < edits.len() implies 0 <= idx_of((#[trigger] edits[i]).coord, width) < width
        * height by {
        lemma_grid_index(edits[i].coord[0] as int, edits[i].coord[1] as int, width, height);
    }
}

pub proof fn lemma_paint_pixels_len(pixels: Seq<Color>, width: int, edits: Seq<PixelEdit>)
    requires
        pixel_edits_in_bounds(edits, width, pixels.len() as int),
    ensures
        paint_pixels(pixels, width, edits).len() == pixels.len(),
    decreases edits.len(),
{
    if edits.len() > 0 {
        lemma_paint_pixels_len(pixels, width, edits.drop_last());
    }
}

/// After a list of writes, each pixel holds the colour of the last write to
/// it, or its old colour when no write touched it.
pub proof fn lemma_paint_pixels_last_write(pixels: Seq<Color>, width: int, edits: Seq<PixelEdit>, d: int)
    requires
        pixel_edits_in_bounds(edits, width, pixels.len() as int),
        0 <= d < pixels.len(),
    ensures
        (forall|i: int| 0 <= i < edits.len() ==> idx_of((#[trigger] edits[i]).coord, width) != d) ==> paint_pixels(
            pixels,
            width,
            edits,
        )[d] == pixels[d],
        forall|i: int|
            0 <= i < edits.len() && idx_of((#[trigger] edits[i]).coord, width) == d && (forall|j: int|
                i < j < edits.len() ==> idx_of((#[trigger] edits[j]).coord, width) != d) ==> paint_pixels(
                pixels,
                width,
                edits,
            )[d] == edits[i].oldcol,
    decreases edits.len(),
{
    if edits.len() > 0 {
        let prefix = edits.drop_last();
        let n = edits.len() - 1;
        assert forall|i: int| 0 <= i < prefix.len() implies 0 <= idx_of((#[trigger] prefix[i]).coord, width)
            < pixels.len() by {
            assert(prefix[i] == edits[i]);
        }
        lemma_paint_pixels_last_write(pixels, width, prefix, d);
        lemma_paint_pixels_len(pixels, width, prefix);
        assert(edits[n] == edits.last());
        if (forall|i: int| 0 <= i < edits.len() ==> idx_of((#[trigger] edits[i]).coord, width) != d) {
            assert forall|i: int| 0 <= i < prefix.len() implies idx_of((#[trigger] prefix[i]).coord, width) != d by {
                assert(prefix[i] == edits[i]);
            }
        }
        assert forall|i: int|
            0 <= i < edits.len() && idx_of((#[trigger] edits[i]).coord, width) == d && (forall|j: int|
                i < j < edits.len() ==> idx_of((#[trigger] edits[j]).coord, width) != d) implies paint_pixels(
            pixels,
            width,
            edits,
        )[d] == edits[i].oldcol by {
            if i < n {
                assert(prefix[i] == edits[i]);
                assert forall|j: int| i < j < prefix.len() implies idx_of((#[trigger] prefix[j]).coord, width) != d by {
                    assert(prefix[j] == edits[j]);
                }
            }
        }
    }
}

/// Writing `a` then `b` is writing `a + b`.
pub proof fn lemma_paint_pixels_concat(pixels: Seq<Color>, width: int, a: Seq<PixelEdit>, b: Seq<PixelEdit>)
    ensures
        paint_pixels(paint_pixels(pixels, width, a), width, b) == paint_pixels(pixels, width, a + b),
    decreases b.len(),
{
    if b.len() == 0 {
        assert(a + b =~= a);
    } else {
        lemma_paint_pixels_concat(pixels, width, a, b.drop_last());
        assert((a + b).drop_last() =~= a + b.drop_last());
    }
}

/// Writing the recorded writes in reverse order puts back the buffer as it was.
pub proof fn lemma_pixel_edits_restore(pixels: Seq<Color>, width: int, edits: Seq<PixelEdit>)
    requires
        pixel_edits_in_bounds(edits, width, pixels.len() as int),
    ensures
        paint_pixels(paint_pixels(pixels, width, edits), width, recorded_pixels(pixels, width, edits).reverse())
            == pixels,
    decreases edits.len(),
{
    if edits.len() > 0 {
        let n = edits.len() - 1;
        let prefix = edits.drop_last();
        let e = edits.last();
        let rec = recorded_pixels(pixels, width, edits);
        let rec_prefix = recorded_pixels(pixels, width, prefix);
        assert forall|i: int| 0 <= i < n implies edits.take(i) =~= prefix.take(i) by {}
        assert(rec.drop_last() =~= rec_prefix);
        assert(edits.take(n) =~= prefix);
        let undo_last = rec.last();
        assert(rec.reverse() =~= seq![undo_last] + rec_prefix.reverse());
        let before = paint_pixels(pixels, width, prefix);
        lemma_paint_pixels_len(pixels, width, prefix);
        lemma_paint_pixels_concat(paint_pixels(pixels, width, edits), width, seq![undo_last], rec_prefix.reverse());
        assert(seq![undo_last].drop_last() =~= Seq::<PixelEdit>::empty());
        assert(edits[n] == e);
        let ix = idx_of(e.coord, width);
        assert(paint_pixels(pixels, width, edits) == before.update(ix, e.oldcol));
        assert(undo_last.oldcol == before[ix]);
        assert(undo_last.coord == e.coord);
        assert(before.update(ix, e.oldcol).update(ix, before[ix]) =~= before);
        let painted = paint_pixels(pixels, width, edits);
        assert(paint_pixels(painted, width, Seq::<PixelEdit>::empty()) == painted);
        assert(seq![undo_last].last() == undo_last);
        assert(paint_pixels(painted, width, seq![undo_last]) == paint_pixels(
            painted,
            width,
            seq![undo_last].drop_last(),
        ).update(ix, undo_last.oldcol));
        assert(paint_pixels(paint_pixels(pixels, width, edits), width, seq![undo_last]) =~= before);
        lemma_pixel_edits_restore(pixels, width, prefix);
    }
}

/// Writes `edits` into `target` and returns the writes that undo them, in
/// the order they must be applied, together with the bounding box of the
/// written coordinates.
fn apply_pixel_edits(edits: &PixelEdits, target: &mut ColorImage) -> (res: (PixelEdits, PixRect))
    requires
        edits@.len() > 0,
        old(target).wf(),
        pixel_edits_inside(edits@, old(target).size[0] as int, old(target).size[1] as int),
    ensures
        final(target).size == old(target).size,
        final(target).pixels@ == paint_pixels(old(target).pixels@, old(target).size[0] as int, edits@),
        res.0@ == recorded_pixels(old(target).pixels@, old(target).size[0] as int, edits@).reverse(),
        res.1.a[0] == coords_min(edits@, 0),
        res.1.a[1] == coords_min(edits@, 1),
        res.1.b[0] == coords_max(edits@, 0),
        res.1.b[1] == coords_max(edits@, 1),
{
    let ghost start = target.pixels@;
    let ghost width = target.size[0] as int;
    let len = target.pixels.len();
    proof {
        lemma_inside_in_bounds(edits@, width, target.size[1] as int);
    }
    let mut redo: Vec<PixelEdit> = Vec::new();
    let mut area = PixRect { a: edits[0].coord, b: edits[0].coord };
    let mut i: usize = 0;
    while i < edits.len()
        invariant
            edits@.len() > 0,
            pixel_edits_in_bounds(edits@, width, start.len() as int),
            pixel_edits_inside(edits@, width, target.size[1] as int),
            target.wf(),
            width == target.size[0],
            target.size == old(target).size,
            start == old(target).pixels@,
            start.len() == len,
            i <= edits@.len(),
            target.pixels@ == paint_pixels(start, width, edits@.take(i as int)),
            redo@ == recorded_pixels(start, width, edits@.take(i as int)),
            area.a[0] == coords_min(edits@.take(max(i as int, 1)), 0),
            area.a[1] == coords_min(edits@.take(max(i as int, 1)), 1),
            area.b[0] == coords_max(edits@.take(max(i as int, 1)), 0),
            area.b[1] == coords_max(edits@.take(max(i as int, 1)), 1),
        decreases edits.len() - i,
    {
        let edit = edits[i];
        proof {
            lemma_paint_pixels_len(start, width, edits@.take(i as int));
            assert(edits@.take(i as int + 1).drop_last() =~= edits@.take(i as int));
            assert(edits@[i as int] == edit);
        }
        let ghost prev_redo = redo@;
        let undo = PixelEdit::new(target, edit.coord).unwrap();
        redo.push(undo);
        let idx = coord_to_idx(edit.coord, target);
        target.pixels.set(idx, edit.oldcol);
        area = area.enclose(edit.coord);
        proof {
            let next = edits@.take(i as int + 1);
            assert forall|j: int| 0 <= j < i implies next.take(j) =~= edits@.take(i as int).take(j) by {}
            assert(next.take(i as int) =~= edits@.take(i as int));
            assert(redo@ =~= recorded_pixels(start, width, next));
            if i == 0 {
                assert(edits@.take(1).drop_last() =~= Seq::<PixelEdit>::empty());
            }
        }
        i += 1;
    }
    proof {
        assert(edits@.take(edits@.len() as int) =~= edits@);
    }
    let mut reversed: Vec<PixelEdit> = Vec::new();
    let mut k: usize = redo.len();
    while k > 0
        invariant
            k <= redo@.len(),
            reversed@.len() == redo@.len() - k,
            forall|j: int| 0 <= j < reversed@.len() ==> #[trigger] reversed@[j] == redo@[redo@.len() - 1 - j],
        decreases k,
    {
        k -= 1;
        reversed.push(redo[k]);
    }
    proof {
        assert(reversed@ =~= redo@.reverse());
    }
    (reversed, area)
}

/// A block of pixels placed with its top-left pixel at column `x`, row `y`.
pub struct BlockModel {
    pub x: int,
    pub y: int,
    pub w: int,
    pub h: int,
    /// The block's pixels, row by row.
    pub pixels: Seq<Color>,
}

/// The block covers column `x`, row `y`.
pub open spec fn block_covers(b: BlockModel, x: int, y: int) -> bool {
    b.x <= x < b.x + b.w && b.y <= y < b.y + b.h
}

/// The block's pixel that lands on column `x`, row `y`.
pub open spec fn block_pixel(b: BlockModel, x: int, y: int) -> Color {
    b.pixels[(x - b.x) + (y - b.y) * b.w]
}

/// The buffer of an image `sw` pixels wide after the first `k` pixels of the
/// block, in row order, are written; pixels that fall outside the image are
/// skipped.
pub open spec fn paint_block_upto(pixels: Seq<Color>, sw: int, b: BlockModel, k: int) -> Seq<Color> {
    Seq::new(
        pixels.len(),
        |d: int|
            if block_covers(b, d % sw, d / sw) && (d % sw - b.x) + (d / sw - b.y) * b.w < k {
                block_pixel(b, d % sw, d / sw)
            } else {
                pixels[d]
            },
    )
}

/// The buffer of an image `sw` pixels wide after the block is written: each
/// pixel of the image that the block covers takes the block's colour, and
/// every other pixel keeps its own.
pub open spec fn paint_block(pixels: Seq<Color>, sw: int, b: BlockModel) -> Seq<Color> {
    Seq::new(
        pixels.len(),
        |d: int|
            if block_covers(b, d % sw, d / sw) {
                block_pixel(b, d % sw, d / sw)
            } else {
                pixels[d]
            },
    )
}

/// The block can be written into an image of `sw` by `sh` pixels: its corner
/// lies inside the image and its far corner fits in a `usize`.
pub open spec fn block_applicable(b: BlockModel, sw: int, sh: int) -> bool {
    &&& 0 <= b.w
    &&& 0 <= b.h
    &&& b.pixels.len() == b.w * b.h
    &&& 0 <= b.x < sw
    &&& 0 <= b.y < sh
    &&& b.x + b.w <= usize::MAX
    &&& b.y + b.h <= usize::MAX
}

/// The part of the image that the block covers, clipped to the image:
/// writing it back undoes writing the block.
pub open spec fn block_inverse(b: BlockModel, sw: int, sh: int, pixels: Seq<Color>) -> BlockModel {
    let w = min(b.x + b.w, sw) - b.x;
    let h = min(b.y + b.h, sh) - b.y;
    BlockModel { x: b.x, y: b.y, w, h, pixels: region_of(pixels, sw, b.x, b.y, w, h) }
}

/// Writing no pixel of the block leaves the buffer, and writing all of them
/// paints the block.
proof fn lemma_paint_block_upto_ends(pixels: Seq<Color>, sw: int, sh: int, b: BlockModel)
    requires
        0 <= sw,
        0 <= sh,
        pixels.len() == sw * sh,
        0 <= b.w,
        0 <= b.h,
    ensures
        paint_block_upto(pixels, sw, b, 0) =~= pixels,
        paint_block_upto(pixels, sw, b, b.w * b.h) =~= paint_block(pixels, sw, b),
{
    assert forall|d: int| 0 <= d < pixels.len() implies paint_block_upto(pixels, sw, b, 0)[d] == pixels[d] && paint_block_upto(
        pixels,
        sw,
        b,
        b.w * b.h,
    )[d] == paint_block(pixels, sw, b)[d] by {
        lemma_grid_split(d, sw, sh);
        let x = d % sw;
        let y = d / sw;
        if block_covers(b, x, y) {
            lemma_grid_index(x - b.x, y - b.y, b.w, b.h);
        }
    }
}

/// Replaces a rectangular block of an image with stored pixels.
pub struct BlockEdit {
    /// The pixels to write.
    pub old: ColorImage,
    /// Where the top-left pixel of `old` goes.
    pub coord: PixCoord,
}

impl BlockEdit {
    pub open spec fn model(&self) -> BlockModel {
        BlockModel {
            x: self.coord[0] as int,
            y: self.coord[1] as int,
            w: self.old.size[0] as int,
            h: self.old.size[1] as int,
            pixels: self.old.pixels@,
        }
    }

    /// The edit that puts back the part of `target` that a block of `data`'s
    /// size at `coord` would cover, clipped to `target`.
    pub fn new(target: &ColorImage, data: &ColorImage, coord: PixCoord) -> (e: Self)
        requires
            target.wf(),
            coord[0] <= target.size[0],
            coord[1] <= target.size[1],
            coord[0] + data.size[0] <= usize::MAX,
            coord[1] + data.size[1] <= usize::MAX,
        ensures
            e.old.wf(),
            e.model() == block_inverse(
                BlockModel {
                    x: coord[0] as int,
                    y: coord[1] as int,
                    w: data.size[0] as int,
                    h: data.size[1] as int,
                    pixels: data.pixels@,
                },
                target.size[0] as int,
                target.size[1] as int,
                target.pixels@,
            ),
    {
        let block_end = coord_add(coord, data.size);
        let max_end = coord_min(block_end, target.size);
        let real_size = coord_sub(max_end, coord);
        BlockEdit { old: target.region_by_pixels(coord, real_size), coord }
    }

    /// Writes the part of the block that lies inside `target`, returning the
    /// edit that undoes it and the area to refresh: from `coord` to the
    /// block's far corner, capped at the last row and column.
    pub fn apply(&self, target: &mut ColorImage) -> (res: (BlockEdit, PixRect))
        requires
            old(target).wf(),
            block_applicable(self.model(), old(target).size[0] as int, old(target).size[1] as int),
        ensures
            final(target).size == old(target).size,
            final(target).pixels@ == paint_block(old(target).pixels@, old(target).size[0] as int, self.model()),
            res.0.old.wf(),
            res.0.model() == block_inverse(
                self.model(),
                old(target).size[0] as int,
                old(target).size[1] as int,
                old(target).pixels@,
            ),
            res.1.a[0] == self.coord[0],
            res.1.a[1] == self.coord[1],
            res.1.b[0] == min(self.coord[0] + self.old.size[0], old(target).size[0] - 1),
            res.1.b[1] == min(self.coord[1] + self.old.size[1], old(target).size[1] - 1),
    {
        let redo = BlockEdit::new(target, &self.old, self.coord);
        let ghost start = target.pixels@;
        let ghost b = self.model();
        let ghost sw = target.size[0] as int;
        let ghost sh = target.size[1] as int;
        let len = target.pixels.len();
        let old_len = self.old.pixels.len();
        let width = target.width();
        let height = target.height();
        let w = self.old.width();
        let h = self.old.height();
        proof {
            lemma_paint_block_upto_ends(start, sw, sh, b);
        }
        let mut src_y: usize = 0;
        while src_y < h
            invariant
                self.old.wf(),
                b == self.model(),
                block_applicable(b, sw, sh),
                sw == target.size[0],
                sh == target.size[1],
                width == sw,
                height == sh,
                target.wf(),
                target.size == old(target).size,
                start == old(target).pixels@,
                len == start.len(),
                old_len == self.old.pixels@.len(),
                w == self.old.size[0],
                h == self.old.size[1],
                src_y <= h,
                target.pixels@ == paint_block_upto(start, sw, b, src_y * w),
            decreases h - src_y,
        {
            let dest_y = self.coord[1] + src_y;
            let mut src_x: usize = 0;
            while src_x < w
                invariant
                    self.old.wf(),
                    b == self.model(),
                    block_applicable(b, sw, sh),
                    sw == target.size[0],
                    sh == target.size[1],
                    width == sw,
                    height == sh,
                    target.wf(),
                    target.size == old(target).size,
                    start == old(target).pixels@,
                    len == start.len(),
                    old_len == self.old.pixels@.len(),
                    w == self.old.size[0],
                    h == self.old.size[1],
                    src_y < h,
                    dest_y == self.coord[1] + src_y,
                    src_x <= w,
                    target.pixels@ == paint_block_upto(start, sw, b, src_y * w + src_x),
                decreases w - src_x,
            {
                let dest_x = self.coord[0] + src_x;
                proof {
                    lemma_grid_index(src_x as int, src_y as int, w as int, h as int);
                }
                let src = [src_x, src_y];
                assert(src[0] == src_x && src[1] == src_y);
                let src_idx = coord_to_idx(src, &self.old);
                let ghost k = src_y * w + src_x;
                let ghost before = target.pixels@;
                if dest_x < width && dest_y < height {
                    let dest = [dest_x, dest_y];
                    assert(dest[0] == dest_x && dest[1] == dest_y);
                    proof {
                        lemma_grid_index(dest_x as int, dest_y as int, sw, sh);
                    }
                    let dest_idx = coord_to_idx(dest, target);
                    target.pixels.set(dest_idx, self.old.pixels[src_idx]);
                }
                proof {
                    assert forall|d: int| 0 <= d < len implies target.pixels@[d] == paint_block_upto(
                        start,
                        sw,
                        b,
                        k + 1,
                    )[d] by {
                        lemma_grid_split(d, sw, sh);
                        let x = d % sw;
                        let y = d / sw;
                        if block_covers(b, x, y) && (x - b.x) + (y - b.y) * b.w == k {
                            lemma_grid_index_unique(x - b.x, y - b.y, src_x as int, src_y as int, w as int);
                        }
                        if dest_x < width && dest_y < height && d == dest_x + dest_y * sw {
                            lemma_grid_index_unique(x, y, dest_x as int, dest_y as int, sw);
                        }
                    }
                    assert(target.pixels@ =~= paint_block_upto(start, sw, b, k + 1));
                }
                src_x += 1;
            }
            proof {
                assert((src_y + 1) * w == src_y * w + w) by (nonlinear_arith);
            }
            src_y += 1;
        }
        proof {
            assert(h * w == w * h) by (nonlinear_arith);
        }
        let block_end = coord_add(self.coord, self.old.size);
        let max_end = coord_min(block_end, coord_sub(target.size, [1, 1]));
        let area = PixRect { a: self.coord, b: max_end };
        (redo, area)
    }
}

/// For an applicable block, the edit returned by writing it is applicable.
pub proof fn lemma_block_inverse_applicable(b: BlockModel, sw: int, sh: int, pixels: Seq<Color>)
    requires
        block_applicable(b, sw, sh),
    ensures
        block_applicable(block_inverse(b, sw, sh, pixels), sw, sh),
        block_inverse(b, sw, sh, pixels).x + block_inverse(b, sw, sh, pixels).w <= sw,
        block_inverse(b, sw, sh, pixels).y + block_inverse(b, sw, sh, pixels).h <= sh,
{
    let inv = block_inverse(b, sw, sh, pixels);
    assert(inv.w * inv.h >= 0) by (nonlinear_arith)
        requires inv.w >= 0, inv.h >= 0;
}

/// Writing a block and then the edit that writing it returned gives back the
/// pixels it started from.
pub proof fn lemma_block_restore(b: BlockModel, sw: int, sh: int, pixels: Seq<Color>)
    requires
        block_applicable(b, sw, sh),
        pixels.len() == sw * sh,
    ensures
        paint_block(paint_block(pixels, sw, b), sw, block_inverse(b, sw, sh, pixels)) == pixels,
{
    let inv = block_inverse(b, sw, sh, pixels);
    let painted = paint_block(pixels, sw, b);
    let back = paint_block(painted, sw, inv);
    assert forall|d: int| 0 <= d < pixels.len() implies back[d] == pixels[d] by {
        lemma_grid_split(d, sw, sh);
        let x = d % sw;
        let y = d / sw;
        if block_covers(b, x, y) {
            assert(block_covers(inv, x, y));
            lemma_grid_index(x - b.x, y - b.y, inv.w, inv.h);
            lemma_grid_join(x - b.x, y - b.y, inv.w);
        }
    }
    assert(back =~= pixels);
}

/// What an image edit does, over plain values.
pub enum EditModel {
    Pixels(Seq<PixelEdit>),
    Block(BlockModel),
}

impl EditModel {
    /// The edit can be applied to an image of `sw` by `sh` pixels without fault.
    pub open spec fn applicable(self, sw: int, sh: int) -> bool {
        match self {
            EditModel::Pixels(v) => v.len() > 0 && pixel_edits_inside(v, sw, sh),
            EditModel::Block(b) => block_applicable(b, sw, sh),
        }
    }

    /// The pixels of an image of `sw` by `sh` pixels after the edit.
    pub open spec fn painted(self, sw: int, sh: int, pixels: Seq<Color>) -> Seq<Color> {
        match self {
            EditModel::Pixels(v) => paint_pixels(pixels, sw, v),
            EditModel::Block(b) => paint_block(pixels, sw, b),
        }
    }

    /// The edit that applying this one to `pixels` returns.
    pub open spec fn inverse(self, sw: int, sh: int, pixels: Seq<Color>) -> EditModel {
        match self {
            EditModel::Pixels(v) => EditModel::Pixels(recorded_pixels(pixels, sw, v).reverse()),
            EditModel::Block(b) => EditModel::Block(block_inverse(b, sw, sh, pixels)),
        }
    }

    /// The area that applying the edit reports as changed, as the corners
    /// `(min x, min y, max x, max y)`.
    pub open spec fn area(self, sw: int, sh: int) -> (int, int, int, int) {
        match self {
            EditModel::Pixels(v) => (coords_min(v, 0), coords_min(v, 1), coords_max(v, 0), coords_max(v, 1)),
            EditModel::Block(b) => (b.x, b.y, min(b.x + b.w, sw - 1), min(b.y + b.h, sh - 1)),
        }
    }
}

/// Some kind of edit that can be applied to an image, once, and later undone if needed
pub enum ImageEdit {
    Pixels(PixelEdits),
    Block(BlockEdit),
}

impl View for ImageEdit {
    type V = EditModel;

    open spec fn view(&self) -> EditModel {
        match self {
            ImageEdit::Pixels(v) => EditModel::Pixels(v@),
            ImageEdit::Block(b) => EditModel::Block(b.model()),
        }
    }
}

/// Applying an edit keeps the buffer's length, and the edit it returns is
/// applicable to the result.
pub proof fn lemma_inverse_applicable(e: EditModel, sw: int, sh: int, pixels: Seq<Color>)
    requires
        0 <= sw,
        0 <= sh,
        pixels.len() == sw * sh,
        e.applicable(sw, sh),
    ensures
        e.painted(sw, sh, pixels).len() == pixels.len(),
        e.inverse(sw, sh, pixels).applicable(sw, sh),
{
    match e {
        EditModel::Pixels(v) => {
            lemma_inside_in_bounds(v, sw, sh);
            lemma_paint_pixels_len(pixels, sw, v);
            let inv = recorded_pixels(pixels, sw, v).reverse();
            assert forall|i: int| 0 <= i < inv.len() implies coord_inside((#[trigger] inv[i]).coord, sw, sh) by {
                assert(inv[i].coord == v[v.len() - 1 - i].coord);
            }
        },
        EditModel::Block(b) => {
            lemma_block_inverse_applicable(b, sw, sh, pixels);
        },
    }
}

/// Modifies the target and returns the inverse action: modifying an image
/// with an applicable edit and then with the edit that this returned gives
/// back the image as it was.
pub proof fn lemma_apply_inverse_restores(e: EditModel, sw: int, sh: int, pixels: Seq<Color>)
    requires
        0 <= sw,
        0 <= sh,
        pixels.len() == sw * sh,
        e.applicable(sw, sh),
    ensures
        e.inverse(sw, sh, pixels).painted(sw, sh, e.painted(sw, sh, pixels)) == pixels,
{
    match e {
        EditModel::Pixels(v) => {
            lemma_inside_in_bounds(v, sw, sh);
            lemma_pixel_edits_restore(pixels, sw, v);
        },
        EditModel::Block(b) => {
            lemma_block_restore(b, sw, sh, pixels);
        },
    }
}

impl ImageEdit {
    /// Modifies the target and returns the inverse action and the affected area
    pub fn apply(&self, target: &mut ColorImage) -> (res: (ImageEdit, PixRect))
        requires
            old(target).wf(),
            self@.applicable(old(target).size[0] as int, old(target).size[1] as int),
        ensures
            final(target).size == old(target).size,
            final(target).pixels@ == self@.painted(
                old(target).size[0] as int,
                old(target).size[1] as int,
                old(target).pixels@,
            ),
            res.0@ == self@.inverse(old(target).size[0] as int, old(target).size[1] as int, old(target).pixels@),
            res.1.corners() == self@.area(
                old(target).size[0] as int,
                old(target).size[1] as int,
            ),
    {
        match self {
            ImageEdit::Pixels(edits) => {
                let (redo, area) = apply_pixel_edits(edits, target);
                (ImageEdit::Pixels(redo), area)
            },
            ImageEdit::Block(block) => {
                let (redo, area) = block.apply(target);
                (ImageEdit::Block(redo), area)
            },
        }
    }
}

impl ImageEdit {
    /// Whether the edit can be applied to an image of size `size`.
    pub fn is_applicable(&self, size: PixCoord) -> (b: bool)
        ensures
            b == self@.applicable(size[0] as int, size[1] as int),
    {
        match self {
            ImageEdit::Pixels(edits) => {
                if edits.len() == 0 {
                    return false;
                }
                let mut i: usize = 0;
                while i < edits.len()
                    invariant
                        self@ == EditModel::Pixels(edits@),
                        i <= edits@.len(),
                        forall|j: int| 0 <= j < i ==> coord_inside((#[trigger] edits@[j]).coord, size[0] as int, size[1] as int),
                    decreases edits.len() - i,
                {
                    let coord = edits[i].coord;
                    assert(coord == edits@[i as int].coord);
                    if coord[0] >= size[0] || coord[1] >= size[1] {
                        return false;
                    }
                    i += 1;
                }
                true
            },
            ImageEdit::Block(block) => {
                let w = block.old.size[0];
                let h = block.old.size[1];
                let x = block.coord[0];
                let y = block.coord[1];
                let len = block.old.pixels.len();
                let area_ok = match w.checked_mul(h) {
                    Some(n) => n == len,
                    None => false,
                };
                area_ok && x < size[0] && y < size[1] && x.checked_add(w).is_some() && y.checked_add(h).is_some()
            },
        }
    }
}

} // verus!
