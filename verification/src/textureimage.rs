use vstd::prelude::*;

use crate::color::{transparent, Color};
use crate::edit::{block_applicable, coord_inside, lemma_apply_inverse_restores, lemma_inverse_applicable, BlockEdit, BlockModel, EditModel, ImageEdit, PixelEdit};
use crate::image::{lemma_grid_index, lemma_grid_index_unique, lemma_grid_split, pixel_at, region_of, ColorImage};
use crate::types::{coord_map, coord_to_idx, PixCoord, PixRect};

verus! {

/// What a texture image holds, over plain values: its pixels, the edits
/// that undo past changes (most recent last) and the edits that redo undone
/// changes (most recently undone last).
pub struct TextureModel {
    pub saved: bool,
    pub width: int,
    pub height: int,
    pub pixels: Seq<Color>,
    pub history: Seq<EditModel>,
    pub redos: Seq<EditModel>,
}

impl TextureModel {
    /// The pixels fill the image, and every stored edit can be applied to it.
    pub open spec fn valid(self) -> bool {
        &&& 0 <= self.width
        &&& 0 <= self.height
        &&& self.width * self.height <= usize::MAX
        &&& self.pixels.len() == self.width * self.height
        &&& forall|i: int|
            0 <= i < self.history.len() ==> (#[trigger] self.history[i]).applicable(self.width, self.height)
        &&& forall|i: int|
            0 <= i < self.redos.len() ==> (#[trigger] self.redos[i]).applicable(self.width, self.height)
    }

    /// A saved image with the given pixels and no history.
    pub open spec fn fresh(width: int, height: int, pixels: Seq<Color>) -> TextureModel {
        TextureModel { saved: true, width, height, pixels, history: Seq::empty(), redos: Seq::empty() }
    }

    /// The state after undoing the last edit: it is applied, and the edit
    /// that reverses it joins the redo history. Nothing changes without history.
    pub open spec fn undone(self) -> TextureModel {
        if self.history.len() == 0 {
            self
        } else {
            let e = self.history.last();
            TextureModel {
                pixels: e.painted(self.width, self.height, self.pixels),
                history: self.history.drop_last(),
                redos: self.redos.push(e.inverse(self.width, self.height, self.pixels)),
                ..self
            }
        }
    }

    /// The state after redoing the last undone edit, which marks the image
    /// saved. Nothing changes without redo history.
    pub open spec fn redone(self) -> TextureModel {
        if self.redos.len() == 0 {
            self
        } else {
            let e = self.redos.last();
            TextureModel {
                saved: true,
                pixels: e.painted(self.width, self.height, self.pixels),
                history: self.history.push(e.inverse(self.width, self.height, self.pixels)),
                redos: self.redos.drop_last(),
                ..self
            }
        }
    }

    /// The state after making the edit `e`: it is applied, the edit that
    /// reverses it joins the history, and the redo history is cleared.
    pub open spec fn edited(self, e: EditModel) -> TextureModel {
        TextureModel {
            saved: true,
            pixels: e.painted(self.width, self.height, self.pixels),
            history: self.history.push(e.inverse(self.width, self.height, self.pixels)),
            redos: Seq::empty(),
            ..self
        }
    }
}

/// Undoing, redoing and editing keep the state valid.
pub proof fn lemma_ops_keep_valid(m: TextureModel, e: EditModel)
    requires
        m.valid(),
    ensures
        m.undone().valid(),
        m.redone().valid(),
        e.applicable(m.width, m.height) ==> m.edited(e).valid(),
{
    if m.history.len() > 0 {
        let h = m.history.last();
        assert(m.history[m.history.len() - 1] == h);
        lemma_inverse_applicable(h, m.width, m.height, m.pixels);
        let u = m.undone();
        assert forall|i: int| 0 <= i < u.redos.len() implies (#[trigger] u.redos[i]).applicable(u.width, u.height) by {
            if i < m.redos.len() {
                assert(u.redos[i] == m.redos[i]);
            }
        }
        assert forall|i: int| 0 <= i < u.history.len() implies (#[trigger] u.history[i]).applicable(u.width, u.height) by {
            assert(u.history[i] == m.history[i]);
        }
    }
    if m.redos.len() > 0 {
        let r = m.redos.last();
        assert(m.redos[m.redos.len() - 1] == r);
        lemma_inverse_applicable(r, m.width, m.height, m.pixels);
        let d = m.redone();
        assert forall|i: int| 0 <= i < d.history.len() implies (#[trigger] d.history[i]).applicable(d.width, d.height) by {
            if i < m.history.len() {
                assert(d.history[i] == m.history[i]);
            }
        }
        assert forall|i: int| 0 <= i < d.redos.len() implies (#[trigger] d.redos[i]).applicable(d.width, d.height) by {
            assert(d.redos[i] == m.redos[i]);
        }
    }
    if e.applicable(m.width, m.height) {
        lemma_inverse_applicable(e, m.width, m.height, m.pixels);
        let n = m.edited(e);
        assert forall|i: int| 0 <= i < n.history.len() implies (#[trigger] n.history[i]).applicable(n.width, n.height) by {
            if i < m.history.len() {
                assert(n.history[i] == m.history[i]);
            }
        }
    }
}

/// Undoing right after an edit gives back the pixels and the history from
/// before the edit.
pub proof fn lemma_undo_reverts_edit(m: TextureModel, e: EditModel)
    requires
        m.valid(),
        e.applicable(m.width, m.height),
    ensures
        m.edited(e).undone().pixels == m.pixels,
        m.edited(e).undone().history == m.history,
{
    lemma_apply_inverse_restores(e, m.width, m.height, m.pixels);
    assert(m.edited(e).history.drop_last() =~= m.history);
}

/// Redoing right after an undo gives back the pixels and the redo history
/// from before the undo.
pub proof fn lemma_redo_reverts_undo(m: TextureModel)
    requires
        m.valid(),
        m.history.len() > 0,
    ensures
        m.undone().redone().pixels == m.pixels,
        m.undone().redone().redos == m.redos,
{
    let h = m.history.last();
    assert(m.history[m.history.len() - 1] == h);
    lemma_inverse_applicable(h, m.width, m.height, m.pixels);
    lemma_apply_inverse_restores(h, m.width, m.height, m.pixels);
    assert(m.undone().redos.last() == h.inverse(m.width, m.height, m.pixels));
    assert(m.undone().redos.drop_last() =~= m.redos);
}

/// Undoing right after a redo gives back the pixels and the history from
/// before the redo.
pub proof fn lemma_undo_reverts_redo(m: TextureModel)
    requires
        m.valid(),
        m.redos.len() > 0,
    ensures
        m.redone().undone().pixels == m.pixels,
        m.redone().undone().history == m.history,
{
    let r = m.redos.last();
    assert(m.redos[m.redos.len() - 1] == r);
    lemma_apply_inverse_restores(r, m.width, m.height, m.pixels);
    assert(m.redone().history.drop_last() =~= m.history);
}

/// The state after making the edits `es` in turn, first to last.
pub open spec fn edited_all(m: TextureModel, es: Seq<EditModel>) -> TextureModel
    decreases es.len(),
{
    if es.len() == 0 {
        m
    } else {
        edited_all(m, es.drop_last()).edited(es.last())
    }
}

/// The state after undoing `k` times in a row.
pub open spec fn undone_times(m: TextureModel, k: nat) -> TextureModel
    decreases k,
{
    if k == 0 {
        m
    } else {
        undone_times(m, (k - 1) as nat).undone()
    }
}

proof fn lemma_edited_all_counts(m: TextureModel, es: Seq<EditModel>)
    ensures
        edited_all(m, es).history.len() == m.history.len() + es.len(),
        es.len() > 0 ==> edited_all(m, es).redos.len() == 0,
        es.len() == 0 ==> edited_all(m, es).redos == m.redos,
    decreases es.len(),
{
    if es.len() > 0 {
        lemma_edited_all_counts(m, es.drop_last());
    }
}

proof fn lemma_undone_times_counts(m: TextureModel, k: nat)
    requires
        k <= m.history.len(),
    ensures
        undone_times(m, k).history.len() == m.history.len() - k,
        undone_times(m, k).redos.len() == m.redos.len() + k,
    decreases k,
{
    if k > 0 {
        lemma_undone_times_counts(m, (k - 1) as nat);
    }
}

/// A manual edit leaves nothing to redo, whatever could be redone before,
/// and one more edit to undo; so does any non-empty run of edits.
pub proof fn lemma_edits_clear_redos(m: TextureModel, e: EditModel, es: Seq<EditModel>)
    ensures
        m.edited(e).redos.len() == 0,
        m.edited(e).history.len() == m.history.len() + 1,
        es.len() > 0 ==> edited_all(m, es).redos.len() == 0,
        edited_all(m, es).history.len() == m.history.len() + es.len(),
{
    lemma_edited_all_counts(m, es);
}

/// After `n` edits made to an image with nothing to redo, `k` undos (as many
/// as there are edits to undo at most) leave `n - k` more edits to undo than
/// before and `k` to redo; so an image fresh from `new` or `assign` has
/// something to undo exactly when `k < n`, and something to redo exactly
/// when `k > 0`.
pub proof fn lemma_edit_undo_counts(m: TextureModel, es: Seq<EditModel>, k: nat)
    requires
        m.redos.len() == 0,
        k <= m.history.len() + es.len(),
    ensures
        undone_times(edited_all(m, es), k).history.len() == m.history.len() + es.len() - k,
        undone_times(edited_all(m, es), k).redos.len() == k,
{
    lemma_edited_all_counts(m, es);
    lemma_undone_times_counts(edited_all(m, es), k);
}

/// The pixels of an image `w` by `h` pixels scaled with nearest-neighbour
/// sampling from an image `sw` by `sh` pixels.
pub open spec fn scaled_pixels(pixels: Seq<Color>, sw: int, sh: int, w: int, h: int) -> Seq<Color> {
    Seq::new((w * h) as nat, |k: int| pixel_at(pixels, sw, (k % w) * sw / w, (k / w) * sh / h))
}

/// `n` pixels of colour `c`.
pub open spec fn solid(n: int, c: Color) -> Seq<Color> {
    Seq::new(n as nat, |i: int| c)
}

/// The block covering the selection `rect`, its far corner capped at the
/// image's size, every pixel set to `c`.
pub open spec fn rect_fill(rect: PixRect, sw: int, sh: int, c: Color) -> EditModel {
    let w = vstd::math::min(rect.hi(0), sw) - rect.lo(0) + 1;
    let h = vstd::math::min(rect.hi(1), sh) - rect.lo(1) + 1;
    EditModel::Block(BlockModel { x: rect.lo(0), y: rect.lo(1), w, h, pixels: solid(w * h, c) })
}

/// The selection starts inside an image of `sw` by `sh` pixels, and the
/// block that clears it, with its far corner capped at the image's size,
/// can be allocated.
pub open spec fn rect_clearable(rect: PixRect, sw: int, sh: int) -> bool {
    &&& rect.lo(0) < sw
    &&& rect.lo(1) < sh
    &&& vstd::math::min(rect.hi(0), sw) + 1 <= usize::MAX
    &&& vstd::math::min(rect.hi(1), sh) + 1 <= usize::MAX
    &&& (vstd::math::min(rect.hi(0), sw) - rect.lo(0) + 1) * (vstd::math::min(rect.hi(1), sh) - rect.lo(1) + 1)
        <= usize::MAX
}

/// The selection's top-left corner lies inside an image of `width` by
/// `height` pixels.
pub open spec fn rect_starts_inside(rect: PixRect, width: int, height: int) -> bool {
    rect.lo(0) < width && rect.lo(1) < height
}

/// The selection's far edge on axis `k`, capped at the last pixel of an
/// image `len` pixels long on that axis.
pub open spec fn clip_hi(rect: PixRect, k: int, len: int) -> int {
    vstd::math::min(rect.hi(k), len - 1)
}

/// The block that fills the selection `rect` with `c`: `rect.size()` pixels
/// on each axis (the distance between the corners) from its top-left corner.
pub open spec fn rect_block(rect: PixRect, c: Color) -> EditModel {
    let w = rect.hi(0) - rect.lo(0);
    let h = rect.hi(1) - rect.lo(1);
    EditModel::Block(BlockModel { x: rect.lo(0), y: rect.lo(1), w, h, pixels: solid(w * h, c) })
}

/// The one-pixel edits that paint each of `points` with `c`, in order.
pub open spec fn point_edits(points: Seq<PixCoord>, c: Color) -> Seq<EditModel> {
    points.map_values(|p: PixCoord| EditModel::Pixels(seq![PixelEdit { oldcol: c, coord: p }]))
}

/// Creates a `ColorImage` with the given size and all transparent pixels
fn create_image(size: PixCoord) -> (img: ColorImage)
    requires
        size[0] * size[1] <= usize::MAX,
    ensures
        img.wf(),
        img.size == size,
        img.pixels@ == solid(size[0] * size[1], transparent()),
{
    let img = ColorImage::filled(size, Color::transparent());
    assert(img.pixels@ =~= solid(size[0] * size[1], transparent()));
    img
}

/// An image that owns an array in memory of the pixel data, together with
/// its edit history.
pub struct TextureImage {
    pub saved: bool,
    pub data: ColorImage,
    /// The edits that undo past changes, most recent last.
    pub history: Vec<ImageEdit>,
    /// The edits that redo undone changes, most recently undone last.
    pub redos: Vec<ImageEdit>,
}

impl View for TextureImage {
    type V = TextureModel;

    open spec fn view(&self) -> TextureModel {
        TextureModel {
            saved: self.saved,
            width: self.data.size[0] as int,
            height: self.data.size[1] as int,
            pixels: self.data.pixels@,
            history: self.history@.map_values(|e: ImageEdit| e@),
            redos: self.redos@.map_values(|e: ImageEdit| e@),
        }
    }
}

impl TextureImage {
    /// A saved image showing `data`, with no history.
    pub fn new(data: ColorImage) -> (img: Self)
        requires
            data.wf(),
        ensures
            img@ == TextureModel::fresh(data.size[0] as int, data.size[1] as int, data.pixels@),
            img@.valid(),
    {
        let _ = data.pixels.len();
        let img = TextureImage { saved: true, data, history: Vec::new(), redos: Vec::new() };
        proof {
            assert(img@.history =~= Seq::<EditModel>::empty());
            assert(img@.redos =~= Seq::<EditModel>::empty());
        }
        img
    }

    /// Replaces the image with `data` and forgets the history.
    pub fn assign(&mut self, data: ColorImage)
        requires
            data.wf(),
        ensures
            final(self)@ == TextureModel::fresh(data.size[0] as int, data.size[1] as int, data.pixels@),
            final(self)@.valid(),
    {
        let _ = data.pixels.len();
        self.saved = true;
        self.data = data;
        self.history = Vec::new();
        self.redos = Vec::new();
        proof {
            assert(self@.history =~= Seq::<EditModel>::empty());
            assert(self@.redos =~= Seq::<EditModel>::empty());
        }
    }

    /// Undoes the last edit and pushes it to the redo history
    ///
    /// Does nothing if there is no history. Returns the area that changed.
    pub fn undo(&mut self) -> (area: Option<PixRect>)
        requires
            old(self)@.valid(),
        ensures
            final(self)@ == old(self)@.undone(),
            final(self)@.valid(),
            old(self)@.history.len() == 0 ==> area is None,
            old(self)@.history.len() > 0 ==> (area matches Some(r) && r.corners() == old(self)@.history.last().area(
                old(self)@.width,
                old(self)@.height,
            )),
    {
        proof {
            lemma_ops_keep_valid(self@, self@.history.last());
        }
        let ghost before = self@;
        let ghost old_history = self.history@;
        match self.history.pop() {
            Some(edit) => {
                proof {
                    assert(edit@ == before.history.last());
                    assert(self.history@.map_values(|e: ImageEdit| e@) =~= before.history.drop_last());
                }
                let (redo, area) = edit.apply(&mut self.data);
                let ghost old_redos = self.redos@;
                self.redos.push(redo);
                proof {
                    assert(self.redos@.map_values(|e: ImageEdit| e@) =~= old_redos.map_values(|e: ImageEdit| e@).push(redo@));
                    assert(self@ =~= before.undone());
                }
                Some(area)
            },
            None => None,
        }
    }

    /// Redoes the last undone edit and marks the image saved
    ///
    /// Does nothing if there is no redo history. Returns the area that changed.
    pub fn redo(&mut self) -> (area: Option<PixRect>)
        requires
            old(self)@.valid(),
        ensures
            final(self)@ == old(self)@.redone(),
            final(self)@.valid(),
            old(self)@.redos.len() == 0 ==> area is None,
            old(self)@.redos.len() > 0 ==> (area matches Some(r) && r.corners() == old(self)@.redos.last().area(
                old(self)@.width,
                old(self)@.height,
            )),
    {
        proof {
            lemma_ops_keep_valid(self@, self@.history.last());
        }
        let ghost before = self@;
        let area = match self.redos.pop() {
            Some(edit) => {
                proof {
                    assert(edit@ == before.redos.last());
                    assert(self.redos@.map_values(|e: ImageEdit| e@) =~= before.redos.drop_last());
                }
                let (undo, area) = edit.apply(&mut self.data);
                let ghost old_history = self.history@;
                self.history.push(undo);
                proof {
                    assert(self.history@.map_values(|e: ImageEdit| e@) =~= old_history.map_values(|e: ImageEdit| e@).push(undo@));
                }
                self.save_state();
                Some(area)
            },
            None => None,
        };
        proof {
            assert(self@ =~= before.redone());
        }
        area
    }

    /// Makes the edit `edit`: it is applied, the edit that reverses it joins
    /// the history and the redo history is cleared. Returns the area that changed.
    pub fn edit(&mut self, edit: ImageEdit) -> (area: PixRect)
        requires
            old(self)@.valid(),
            edit@.applicable(old(self)@.width, old(self)@.height),
        ensures
            final(self)@ == old(self)@.edited(edit@),
            final(self)@.valid(),
            final(self)@.redos.len() == 0,
            final(self)@.history.len() > 0,
            area.corners() == edit@.area(old(self)@.width, old(self)@.height),
    {
        proof {
            lemma_ops_keep_valid(self@, edit@);
        }
        let ghost before = self@;
        self.redos.clear();
        let (undo, area) = edit.apply(&mut self.data);
        let ghost old_history = self.history@;
        self.history.push(undo);
        self.save_state();
        proof {
            assert(self.history@.map_values(|e: ImageEdit| e@) =~= old_history.map_values(|e: ImageEdit| e@).push(undo@));
            assert(self.redos@.map_values(|e: ImageEdit| e@) =~= Seq::<EditModel>::empty());
            assert(self@ =~= before.edited(edit@));
        }
        area
    }

    /// Resizes using nearest-neighbor
    pub fn resize(&mut self, size: PixCoord)
        requires
            old(self)@.valid(),
            size[0] * size[1] <= usize::MAX,
            size[0] > 0 && size[1] > 0 ==> {
                &&& old(self)@.width > 0
                &&& old(self)@.height > 0
                &&& (size[0] - 1) * old(self)@.width <= usize::MAX
                &&& (size[1] - 1) * old(self)@.height <= usize::MAX
            },
        ensures
            final(self)@ == TextureModel::fresh(
                size[0] as int,
                size[1] as int,
                scaled_pixels(old(self)@.pixels, old(self)@.width, old(self)@.height, size[0] as int, size[1] as int),
            ),
            final(self)@.valid(),
    {
        let ghost src = self@;
        let mut target = create_image(size);
        let w = size[0];
        let h = size[1];
        let mut x: usize = 0;
        while x < w
            invariant
                self@ == src,
                src.valid(),
                w == size[0],
                h == size[1],
                w * h <= usize::MAX,
                w > 0 && h > 0 ==> {
                    &&& src.width > 0
                    &&& src.height > 0
                    &&& (w - 1) * src.width <= usize::MAX
                    &&& (h - 1) * src.height <= usize::MAX
                },
                target.wf(),
                target.size == size,
                x <= w,
                forall|i: int, j: int|
                    0 <= i < x && 0 <= j < h ==> #[trigger] pixel_at(target.pixels@, w as int, i, j) == pixel_at(
                        src.pixels,
                        src.width,
                        i * src.width / (w as int),
                        j * src.height / (h as int),
                    ),
            decreases w - x,
        {
            let mut y: usize = 0;
            while y < h
                invariant
                    self@ == src,
                    src.valid(),
                    w == size[0],
                    h == size[1],
                    w * h <= usize::MAX,
                    w > 0 && h > 0 ==> {
                        &&& src.width > 0
                        &&& src.height > 0
                        &&& (w - 1) * src.width <= usize::MAX
                        &&& (h - 1) * src.height <= usize::MAX
                    },
                    target.wf(),
                    target.size == size,
                    x < w,
                    y <= h,
                    forall|i: int, j: int|
                        0 <= i < x && 0 <= j < h ==> #[trigger] pixel_at(target.pixels@, w as int, i, j) == pixel_at(
                            src.pixels,
                            src.width,
                            i * src.width / (w as int),
                            j * src.height / (h as int),
                        ),
                    forall|j: int|
                        0 <= j < y ==> #[trigger] pixel_at(target.pixels@, w as int, x as int, j) == pixel_at(
                            src.pixels,
                            src.width,
                            x * src.width / (w as int),
                            j * src.height / (h as int),
                        ),
                decreases h - y,
            {
                let cell = [x, y];
                assert(cell[0] == x && cell[1] == y);
                proof {
                    lemma_grid_index(x as int, y as int, w as int, h as int);
                }
                let idx = coord_to_idx(cell, &target);
                let c = self.get_scaled_pixel(cell, size);
                let ghost before = target.pixels@;
                target.pixels.set(idx, c);
                proof {
                    assert forall|i: int, j: int| 0 <= i < x && 0 <= j < h implies #[trigger] pixel_at(
                        target.pixels@,
                        w as int,
                        i,
                        j,
                    ) == pixel_at(src.pixels, src.width, i * src.width / (w as int), j * src.height / (h as int)) by {
                        lemma_grid_index(i, j, w as int, h as int);
                        if i + j * w == x + y * w {
                            lemma_grid_index_unique(i, j, x as int, y as int, w as int);
                        }
                        assert(pixel_at(before, w as int, i, j) == pixel_at(target.pixels@, w as int, i, j));
                    }
                    assert forall|j: int| 0 <= j < y + 1 implies #[trigger] pixel_at(
                        target.pixels@,
                        w as int,
                        x as int,
                        j,
                    ) == pixel_at(src.pixels, src.width, x * src.width / (w as int), j * src.height / (h as int)) by {
                        if j < y {
                            lemma_grid_index(x as int, j, w as int, h as int);
                            if x + j * w == x + y * w {
                                lemma_grid_index_unique(x as int, j, x as int, y as int, w as int);
                            }
                            assert(pixel_at(before, w as int, x as int, j) == pixel_at(
                                target.pixels@,
                                w as int,
                                x as int,
                                j,
                            ));
                        }
                    }
                }
                y += 1;
            }
            x += 1;
        }
        proof {
            let expect = scaled_pixels(src.pixels, src.width, src.height, w as int, h as int);
            assert forall|k: int| 0 <= k < target.pixels@.len() implies target.pixels@[k] == expect[k] by {
                lemma_grid_split(k, w as int, h as int);
                assert(pixel_at(target.pixels@, w as int, k % (w as int), k / (w as int)) == target.pixels@[k]);
            }
            assert(target.pixels@ =~= expect);
        }
        self.assign(target);
    }

    /// A copy of the pixels of the selection `rect` that lie inside the image:
    /// a selection running off the right or bottom edge is cut off there.
    pub fn copy(&self, rect: PixRect) -> (img: ColorImage)
        requires
            self@.valid(),
            rect_starts_inside(rect, self@.width, self@.height),
        ensures
            img.wf(),
            img.size[0] == clip_hi(rect, 0, self@.width) - rect.lo(0) + 1,
            img.size[1] == clip_hi(rect, 1, self@.height) - rect.lo(1) + 1,
            img.pixels@ == region_of(
                self@.pixels,
                self@.width,
                rect.lo(0),
                rect.lo(1),
                img.size[0] as int,
                img.size[1] as int,
            ),
    {
        // The actual size of rect that we can use
        let last = [self.data.width() - 1, self.data.height() - 1];
        let usable = rect.limit(last);
        let size = usable.outer_size();
        let min = usable.min();
        self.data.region_by_pixels(min, size)
    }

    /// Copies the part of the selection `rect` inside the image out and
    /// clears the selection to transparent black as an edit. Returns the copy
    /// and the area that changed.
    pub fn cut(&mut self, rect: PixRect) -> (res: (ColorImage, PixRect))
        requires
            old(self)@.valid(),
            rect_clearable(rect, old(self)@.width, old(self)@.height),
        ensures
            res.0.wf(),
            res.0.size[0] == clip_hi(rect, 0, old(self)@.width) - rect.lo(0) + 1,
            res.0.size[1] == clip_hi(rect, 1, old(self)@.height) - rect.lo(1) + 1,
            res.0.pixels@ == region_of(
                old(self)@.pixels,
                old(self)@.width,
                rect.lo(0),
                rect.lo(1),
                res.0.size[0] as int,
                res.0.size[1] as int,
            ),
            final(self)@ == old(self)@.edited(rect_fill(rect, old(self)@.width, old(self)@.height, transparent())),
            final(self)@.valid(),
            res.1.corners() == rect_fill(rect, old(self)@.width, old(self)@.height, transparent()).area(old(self)@.width, old(self)@.height),
    {
        let data = self.copy(rect);
        proof {
            let (sw, sh) = (self@.width, self@.height);
            let (w, h) = (clip_hi(rect, 0, sw) - rect.lo(0) + 1, clip_hi(rect, 1, sh) - rect.lo(1) + 1);
            assert(w * h <= sw * sh) by (nonlinear_arith)
                requires 0 <= w <= sw, 0 <= h <= sh;
        }
        let block = self.clear_rect(rect);
        let area = self.edit(block);
        (data, area)
    }

    /// Clears the selection `rect` to transparent as an edit. Returns the area
    /// that changed.
    pub fn delete(&mut self, rect: PixRect) -> (area: PixRect)
        requires
            old(self)@.valid(),
            rect_clearable(rect, old(self)@.width, old(self)@.height),
        ensures
            final(self)@ == old(self)@.edited(rect_fill(rect, old(self)@.width, old(self)@.height, transparent())),
            final(self)@.valid(),
            area.corners() == rect_fill(rect, old(self)@.width, old(self)@.height, transparent()).area(old(self)@.width, old(self)@.height),
    {
        let block = self.clear_rect(rect);
        self.edit(block)
    }

    /// Fills the selection `rect` with `color` as one edit: a block of
    /// `rect.size()` pixels at its top-left corner. Returns the area that changed.
    pub fn fill_rect(&mut self, rect: PixRect, color: Color) -> (area: PixRect)
        requires
            old(self)@.valid(),
            rect_starts_inside(rect, old(self)@.width, old(self)@.height),
            (rect.hi(0) - rect.lo(0)) * (rect.hi(1) - rect.lo(1)) <= usize::MAX,
        ensures
            final(self)@ == old(self)@.edited(rect_block(rect, color)),
            final(self)@.valid(),
            area.corners() == rect_block(rect, color).area(old(self)@.width, old(self)@.height),
    {
        let size = rect.size();
        let fill = ColorImage::filled(size, color);
        proof {
            assert(fill.pixels@ =~= solid(size[0] * size[1], color));
        }
        self.paste(rect.min(), &fill)
    }

    /// Paints each of `points` with `color`, one edit per point, in order.
    pub fn paint_points(&mut self, points: &Vec<PixCoord>, color: Color)
        requires
            old(self)@.valid(),
            forall|i: int| 0 <= i < points@.len() ==> coord_inside(#[trigger] points@[i], old(self)@.width, old(self)@.height),
        ensures
            final(self)@ == edited_all(old(self)@, point_edits(points@, color)),
            final(self)@.valid(),
    {
        let ghost start = self@;
        let mut i: usize = 0;
        proof {
            assert(point_edits(points@.take(0), color) =~= Seq::<EditModel>::empty());
        }
        while i < points.len()
            invariant
                i <= points@.len(),
                self@.valid(),
                self@.width == start.width,
                self@.height == start.height,
                self@ == edited_all(start, point_edits(points@.take(i as int), color)),
                forall|j: int| 0 <= j < points@.len() ==> coord_inside(#[trigger] points@[j], start.width, start.height),
            decreases points.len() - i,
        {
            let mut one: Vec<PixelEdit> = Vec::new();
            one.push(PixelEdit { oldcol: color, coord: points[i] });
            let e = ImageEdit::Pixels(one);
            let ghost before = self@;
            proof {
                assert(one@ =~= seq![PixelEdit { oldcol: color, coord: points@[i as int] }]);
                assert(coord_inside(points@[i as int], start.width, start.height));
            }
            self.edit(e);
            proof {
                let next = point_edits(points@.take(i + 1), color);
                assert(next.drop_last() =~= point_edits(points@.take(i as int), color));
                assert(next.last() == e@);
            }
            i += 1;
        }
        proof {
            assert(points@.take(points@.len() as int) =~= points@);
        }
    }

    /// The edit that clears the selection `rect` to transparent.
    fn clear_rect(&self, rect: PixRect) -> (e: ImageEdit)
        requires
            self@.valid(),
            rect_clearable(rect, self@.width, self@.height),
        ensures
            e@ == rect_fill(rect, self@.width, self@.height, transparent()),
            e@.applicable(self@.width, self@.height),
    {
        // The actual size of rect that we can use
        let usable = rect.limit(self.data.size);
        let size = usable.outer_size();
        let min = usable.min();
        let fill = ColorImage::filled(size, Color::transparent());
        let block = BlockEdit { old: fill, coord: min };
        proof {
            assert(block.old.pixels@ =~= solid(size[0] * size[1], transparent()));
        }
        ImageEdit::Block(block)
    }

    /// Pastes `data` with its top-left pixel at `pos` as an edit. Returns the
    /// area that changed.
    pub fn paste(&mut self, pos: PixCoord, data: &ColorImage) -> (area: PixRect)
        requires
            old(self)@.valid(),
            data.wf(),
            block_applicable(
                BlockModel {
                    x: pos[0] as int,
                    y: pos[1] as int,
                    w: data.size[0] as int,
                    h: data.size[1] as int,
                    pixels: data.pixels@,
                },
                old(self)@.width,
                old(self)@.height,
            ),
        ensures
            final(self)@ == old(self)@.edited(
                EditModel::Block(
                    BlockModel {
                        x: pos[0] as int,
                        y: pos[1] as int,
                        w: data.size[0] as int,
                        h: data.size[1] as int,
                        pixels: data.pixels@,
                    },
                ),
            ),
            final(self)@.valid(),
            area.corners() == EditModel::Block(
                BlockModel {
                    x: pos[0] as int,
                    y: pos[1] as int,
                    w: data.size[0] as int,
                    h: data.size[1] as int,
                    pixels: data.pixels@,
                },
            ).area(old(self)@.width, old(self)@.height),
    {
        self.edit(ImageEdit::Block(BlockEdit { old: data.clone(), coord: pos }))
    }

    /// The width and height in pixels.
    pub fn size(&self) -> (size: PixCoord)
        ensures
            size[0] == self@.width,
            size[1] == self@.height,
    {
        self.data.size
    }

    /// The colour at buffer position `idx`.
    pub fn pixel(&self, idx: usize) -> (c: Color)
        requires
            idx < self@.pixels.len(),
        ensures
            c == self@.pixels[idx as int],
    {
        self.data.pixels[idx]
    }

    /// Mark the current edit as complete
    pub fn save_state(&mut self)
        ensures
            final(self)@ == (TextureModel { saved: true, ..old(self)@ }),
    {
        self.saved = true;
    }

    /// If there are edits to undo
    pub fn has_undo(&self) -> (b: bool)
        ensures
            b == (self@.history.len() > 0),
    {
        !self.history.is_empty()
    }

    /// If there are edits to redo
    ///
    /// Cleared whenever a manual edit is made
    pub fn has_redo(&self) -> (b: bool)
        ensures
            b == (self@.redos.len() > 0),
    {
        !self.redos.is_empty()
    }

    /// Gets the nearest pixel when scaling
    ///
    /// `coord` corresponds to the coordinates in the *target* image
    fn get_scaled_pixel(&self, coord: PixCoord, size: PixCoord) -> (c: Color)
        requires
            self@.valid(),
            coord[0] < size[0],
            coord[1] < size[1],
            self.data.size[0] > 0,
            self.data.size[1] > 0,
            (size[0] - 1) * self.data.size[0] <= usize::MAX,
            (size[1] - 1) * self.data.size[1] <= usize::MAX,
        ensures
            c == pixel_at(
                self@.pixels,
                self@.width,
                coord[0] * self@.width / (size[0] as int),
                coord[1] * self@.height / (size[1] as int),
            ),
    {
        let ghost w = self.data.size[0] as int;
        let ghost h = self.data.size[1] as int;
        proof {
            assert(coord[0] * w <= usize::MAX) by (nonlinear_arith)
                requires coord[0] <= size[0] - 1, (size[0] - 1) * w <= usize::MAX, w >= 0;
            assert(coord[1] * h <= usize::MAX) by (nonlinear_arith)
                requires coord[1] <= size[1] - 1, (size[1] - 1) * h <= usize::MAX, h >= 0;
            assert(coord[0] * w / (size[0] as int) < w) by (nonlinear_arith)
                requires coord[0] < size[0], w > 0;
            assert(coord[1] * h / (size[1] as int) < h) by (nonlinear_arith)
                requires coord[1] < size[1], h > 0;
        }
        let scaled = coord_map(coord, [0, 0], size, [0, 0], self.data.size);
        proof {
            lemma_grid_index(scaled[0] as int, scaled[1] as int, w, h);
        }
        let idx = coord_to_idx(scaled, &self.data);
        self.data.pixels[idx]
    }
}

} // verus!
