use vstd::prelude::*;

use crate::color::{blend, blended, gamma_channel, gamma_multiplied, gamma_multiply_u8, transparent, Color};
use crate::image::ColorImage;
use crate::textureimage::{solid, TextureImage, TextureModel};
use crate::types::PixCoord;

verus! {

/// A layer's size differs from the size of the layers already there.
#[derive(Debug, Default, Clone, Copy)]
pub struct DimensionError {
    target_size: PixCoord,
    actual_size: PixCoord,
}

impl DimensionError {
    /// The expected size.
    pub closed spec fn target(&self) -> PixCoord {
        self.target_size
    }

    /// The size found.
    pub closed spec fn actual(&self) -> PixCoord {
        self.actual_size
    }

    /// The size that the layer should have had.
    pub fn target_size(&self) -> (s: PixCoord)
        ensures
            s == self.target(),
    {
        self.target_size
    }

    /// The size that the layer had.
    pub fn actual_size(&self) -> (s: PixCoord)
        ensures
            s == self.actual(),
    {
        self.actual_size
    }

    /// The text that reports the error, naming both sizes.
    pub fn message(&self) -> (m: String)
        ensures
            m@ == sizing_message(self.target(), self.actual()),
    {
        let mut m = String::from_str("Sizing error: Expected size: ");
        push_size(&mut m, self.target_size);
        m.append(", Actual size: ");
        push_size(&mut m, self.actual_size);
        proof {
            reveal_strlit("Sizing error: Expected size: ");
            reveal_strlit(", Actual size: ");
            assert(m@ =~= sizing_message(self.target(), self.actual()));
        }
        m
    }
}

/// A size written as a list: `[`, the width, `, `, the height and `]`.
pub open spec fn size_text(size: PixCoord) -> Seq<char> {
    seq!['['] + decimal(size[0] as nat) + seq![',', ' '] + decimal(size[1] as nat) + seq![']']
}

/// The report of a layer of size `actual` where `target` was expected.
pub open spec fn sizing_message(target: PixCoord, actual: PixCoord) -> Seq<char> {
    "Sizing error: Expected size: "@ + size_text(target) + ", Actual size: "@ + size_text(actual)
}

/// Appends `size` written as a list.
fn push_size(s: &mut String, size: PixCoord)
    ensures
        final(s)@ == old(s)@ + size_text(size),
{
    s.append("[");
    push_decimal(s, size[0]);
    s.append(", ");
    push_decimal(s, size[1]);
    s.append("]");
    proof {
        reveal_strlit("[");
        reveal_strlit(", ");
        reveal_strlit("]");
        assert(s@ =~= old(s)@ + size_text(size));
    }
}

/// How a layer is shown: its opacity and its name.
#[derive(Default, Debug, PartialEq, Eq)]
pub struct LayerSettings {
    pub opacity: u8,
    pub name: String,
}

impl Clone for LayerSettings {
    fn clone(&self) -> (s: Self)
        ensures
            s.opacity == self.opacity,
            s.name@ == self.name@,
    {
        LayerSettings { opacity: self.opacity, name: self.name.clone() }
    }
}

/// A layer over plain values.
pub struct LayerModel {
    pub image: TextureModel,
    pub enabled: bool,
    pub opacity: u8,
    pub name: Seq<char>,
}

/// One image of the stack, with whether it is shown and how.
pub struct Layer {
    pub image: TextureImage,
    pub enabled: bool,
    pub settings: LayerSettings,
}

impl View for Layer {
    type V = LayerModel;

    open spec fn view(&self) -> LayerModel {
        LayerModel {
            image: self.image@,
            enabled: self.enabled,
            opacity: self.settings.opacity,
            name: self.settings.name@,
        }
    }
}

/// The decimal digits of `n`, most significant first.
pub open spec fn decimal(n: nat) -> Seq<char>
    decreases n,
{
    if n < 10 {
        seq![digit_char(n)]
    } else {
        decimal(n / 10).push(digit_char(n % 10))
    }
}

/// The character of the decimal digit `d`.
pub open spec fn digit_char(d: nat) -> char {
    (('0' as nat) + d) as char
}

/// The name given to the layer added at position `index`: "Layer " and the index.
pub open spec fn layer_name(index: nat) -> Seq<char> {
    seq!['L', 'a', 'y', 'e', 'r', ' '] + decimal(index)
}

/// Appends the decimal digits of `n` to `s`.
fn push_decimal(s: &mut String, n: usize)
    ensures
        final(s)@ == old(s)@ + decimal(n as nat),
    decreases n,
{
    if n >= 10 {
        push_decimal(s, n / 10);
    }
    let d = n % 10;
    let digit = match d {
        0 => "0",
        1 => "1",
        2 => "2",
        3 => "3",
        4 => "4",
        5 => "5",
        6 => "6",
        7 => "7",
        8 => "8",
        _ => "9",
    };
    proof {
        reveal_strlit("0");
        reveal_strlit("1");
        reveal_strlit("2");
        reveal_strlit("3");
        reveal_strlit("4");
        reveal_strlit("5");
        reveal_strlit("6");
        reveal_strlit("7");
        reveal_strlit("8");
        reveal_strlit("9");
        assert(digit@ =~= seq![digit_char(d as nat)]);
    }
    let ghost before = s@;
    s.append(digit);
    assert(s@ =~= old(s)@ + decimal(n as nat));
}

/// "Layer " followed by the decimal digits of `index`.
fn layer_label(index: usize) -> (s: String)
    ensures
        s@ == layer_name(index as nat),
{
    let mut s = String::from_str("Layer ");
    proof {
        reveal_strlit("Layer ");
    }
    push_decimal(&mut s, index);
    proof {
        assert(s@ =~= layer_name(index as nat));
    }
    s
}

/// What the layer manager holds, over plain values.
#[verifier::ext_equal]
pub struct ManagerModel {
    pub width: int,
    pub height: int,
    pub layers: Seq<LayerModel>,
    pub current: int,
    pub backup: Option<(u8, Seq<char>)>,
    pub configuring: Option<int>,
}

impl ManagerModel {
    /// Every layer is a valid image of the manager's size.
    pub open spec fn valid(self) -> bool {
        &&& 0 <= self.width
        &&& 0 <= self.height
        &&& self.width * self.height <= usize::MAX
        &&& forall|i: int|
            0 <= i < self.layers.len() ==> (#[trigger] self.layers[i]).image.valid() && self.layers[i].image.width
                == self.width && self.layers[i].image.height == self.height
    }
}

impl ManagerModel {
    /// The state after `image` is added on top as an enabled, fully opaque
    /// layer named after its position; the manager takes the image's size.
    pub open spec fn with_layer_added(self, image: TextureModel) -> ManagerModel {
        ManagerModel {
            width: image.width,
            height: image.height,
            layers: self.layers.push(
                LayerModel { image, enabled: true, opacity: 255, name: layer_name(self.layers.len()) },
            ),
            ..self
        }
    }
}

impl ManagerModel {
    /// The state after the layer at `src` is taken out and put back at row
    /// `row` (capped at the top), with the selection following the layers.
    pub open spec fn with_layer_moved(self, src: int, row: int) -> ManagerModel {
        let rest = self.layers.remove(src);
        ManagerModel {
            layers: rest.insert(vstd::math::min(row, rest.len() as int), self.layers[src]),
            current: moved_selection(self.current, src, row),
            ..self
        }
    }

    /// The state after the settings dialog is closed with Cancel: the backed-up
    /// settings, if any, go back to the layer being configured.
    pub open spec fn settings_cancelled(self) -> ManagerModel {
        ManagerModel {
            configuring: None,
            layers: match (self.configuring, self.backup) {
                (Some(i), Some(b)) => self.layers.update(i, LayerModel { opacity: b.0, name: b.1, ..self.layers[i] }),
                _ => self.layers,
            },
            ..self
        }
    }
}

/// The colour of buffer position `idx` of the picture: the layers from the
/// bottom up, each faded by its opacity and blended over those below it,
/// starting from transparent.
pub open spec fn composited(layers: Seq<LayerModel>, idx: int) -> Color
    decreases layers.len(),
{
    if layers.len() == 0 {
        transparent()
    } else {
        let top = layers.last();
        blended(composited(layers.drop_last(), idx), gamma_multiplied(top.image.pixels[idx], top.opacity))
    }
}

proof fn lemma_gamma_extremes(c: Color)
    ensures
        gamma_multiplied(c, 0) == transparent(),
        gamma_multiplied(c, 255) == c,
{
    assert forall|v: u8| #[trigger] gamma_channel(v, 255) == v by {
        vstd::arithmetic::div_mod::lemma_fundamental_div_mod_converse(v * 255 + 127, 255, v as int, 127);
    }
    assert(gamma_channel(c.r, 255) == c.r);
    assert(gamma_channel(c.g, 255) == c.g);
    assert(gamma_channel(c.b, 255) == c.b);
    assert(gamma_channel(c.a, 255) == c.a);
}

/// The picture of no layers is transparent, and each layer added on top,
/// whatever lies below it, is faded by its own opacity and blended over the
/// picture of the layers below.
pub proof fn lemma_composite_push(layers: Seq<LayerModel>, top: LayerModel, idx: int)
    ensures
        composited(Seq::<LayerModel>::empty(), idx) == transparent(),
        composited(layers.push(top), idx) == blended(
            composited(layers, idx),
            gamma_multiplied(top.image.pixels[idx], top.opacity),
        ),
{
    assert(layers.push(top).drop_last() =~= layers);
}

/// A layer at opacity 0 leaves the picture below it unchanged.
pub proof fn lemma_composite_invisible_layer(layers: Seq<LayerModel>, top: LayerModel, idx: int)
    requires
        top.opacity == 0,
    ensures
        composited(layers.push(top), idx) == composited(layers, idx),
{
    lemma_composite_push(layers, top, idx);
    let below = composited(layers, idx);
    lemma_gamma_extremes(top.image.pixels[idx]);
    lemma_gamma_extremes(below);
}

/// A layer at full opacity whose pixel is opaque hides the picture below it.
pub proof fn lemma_composite_opaque_layer(layers: Seq<LayerModel>, top: LayerModel, idx: int)
    requires
        top.opacity == 255,
        top.image.pixels[idx].a == 255,
    ensures
        composited(layers.push(top), idx) == top.image.pixels[idx],
{
    lemma_composite_push(layers, top, idx);
    lemma_gamma_extremes(top.image.pixels[idx]);
    lemma_gamma_extremes(composited(layers, idx));
}

/// A single layer shows its own pixel faded by its opacity.
pub proof fn lemma_composite_single(top: LayerModel, idx: int)
    ensures
        composited(seq![top], idx) == gamma_multiplied(top.image.pixels[idx], top.opacity),
{
    lemma_composite_push(Seq::empty(), top, idx);
    assert(Seq::<LayerModel>::empty().push(top) =~= seq![top]);
    let p = gamma_multiplied(top.image.pixels[idx], top.opacity);
    lemma_gamma_extremes(transparent());
}

/// Moving a layer keeps the selected layer selected and puts the moved layer
/// at the row it was dropped on, whenever the drop row is at most the number
/// of layers.
pub proof fn lemma_move_keeps_selection(m: ManagerModel, src: int, dst: int)
    requires
        0 <= src < m.layers.len(),
        0 <= dst <= m.layers.len(),
        insertion_row(src, dst) != src,
        0 <= m.current < m.layers.len(),
    ensures
        m.with_layer_moved(src, insertion_row(src, dst)).layers[m.with_layer_moved(src, insertion_row(src, dst)).current]
            == m.layers[m.current],
        m.with_layer_moved(src, insertion_row(src, dst)).layers[insertion_row(src, dst)] == m.layers[src],
        m.with_layer_moved(src, insertion_row(src, dst)).layers.len() == m.layers.len(),
{
}

/// Dropping the layer of row `src` before row `dst` (rows counted before
/// the move) lands it at row `dst - 1` when it moves up the stack and at row
/// `dst` when it moves down; the layers it passes shift by one row toward
/// `src`, every other layer keeps its row, and the selected layer stays
/// selected.
pub proof fn lemma_move_layer_order(m: ManagerModel, src: int, dst: int)
    requires
        0 <= src < m.layers.len(),
        0 <= dst <= m.layers.len(),
        (if dst > src { dst - 1 } else { dst }) != src,
    ensures
        ({
            let r = if dst > src { dst - 1 } else { dst };
            let moved = m.with_layer_moved(src, insertion_row(src, dst));
            &&& moved.layers.len() == m.layers.len()
            &&& moved.layers[r] == m.layers[src]
            &&& forall|i: int| r < i <= src ==> #[trigger] moved.layers[i] == m.layers[i - 1]
            &&& forall|i: int| src <= i < r ==> #[trigger] moved.layers[i] == m.layers[i + 1]
            &&& forall|i: int|
                0 <= i < m.layers.len() && i < vstd::math::min(src, r) ==> #[trigger] moved.layers[i] == m.layers[i]
            &&& forall|i: int|
                0 <= i < m.layers.len() && i > vstd::math::max(src, r) ==> #[trigger] moved.layers[i] == m.layers[i]
            &&& (0 <= m.current < m.layers.len() ==> 0 <= moved.current < moved.layers.len()
                && moved.layers[moved.current] == m.layers[m.current])
        }),
{
    let r = if dst > src { dst - 1 } else { dst };
    assert(insertion_row(src, dst) == r);
    let rest = m.layers.remove(src);
    let moved = m.with_layer_moved(src, r);
    assert(moved.layers == rest.insert(r, m.layers[src]));
    assert forall|i: int| r < i <= src implies #[trigger] moved.layers[i] == m.layers[i - 1] by {
        assert(moved.layers[i] == rest[i - 1]);
    }
    assert forall|i: int| src <= i < r implies #[trigger] moved.layers[i] == m.layers[i + 1] by {
        assert(moved.layers[i] == rest[i]);
    }
    assert forall|i: int| 0 <= i < m.layers.len() && i > vstd::math::max(src, r) implies #[trigger] moved.layers[i]
        == m.layers[i] by {
        assert(moved.layers[i] == rest[i - 1]);
    }
    if 0 <= m.current < m.layers.len() {
        lemma_move_keeps_selection(m, src, dst);
    }
}

/// The row at which a layer dragged from `src` and dropped before row `dst`
/// lands, counting rows after it is taken out.
pub open spec fn insertion_row(src: int, dst: int) -> int {
    if dst > src {
        dst - 1
    } else {
        dst
    }
}

/// Where the selection `sel` goes when the layer at `src` moves to row `dst`.
pub open spec fn moved_selection(sel: int, src: int, dst: int) -> int {
    if sel == src {
        dst
    } else if src > sel && dst <= sel {
        sel + 1
    } else if src < sel && dst >= sel {
        sel - 1
    } else {
        sel
    }
}

/// The stack of layers that make up the picture, all of one size, with the
/// selected layer and the state of the settings dialog.
pub struct LayerManager {
    size: PixCoord,
    layers: Vec<Layer>,
    curr_layer: usize,
    backup_settings: Option<LayerSettings>,
    configuring_layer: Option<usize>,  // If we are currently editing the settings of a layer in the popout, the idx is stored here
}

impl View for LayerManager {
    type V = ManagerModel;

    closed spec fn view(&self) -> ManagerModel {
        ManagerModel {
            width: self.size[0] as int,
            height: self.size[1] as int,
            layers: self.layers@.map_values(|l: Layer| l@),
            current: self.curr_layer as int,
            backup: match self.backup_settings {
                Some(b) => Some((b.opacity, b.name@)),
                None => None,
            },
            configuring: match self.configuring_layer {
                Some(i) => Some(i as int),
                None => None,
            },
        }
    }
}

impl Default for LayerManager {
    fn default() -> (m: Self)
        ensures
            m@ == (ManagerModel {
                width: 0,
                height: 0,
                layers: Seq::empty(),
                current: 0,
                backup: None,
                configuring: None,
            }),
    {
        let m = LayerManager {
            size: [0, 0],
            layers: Vec::new(),
            curr_layer: 0,
            backup_settings: None,
            configuring_layer: None,
        };
        proof {
            assert(m@.layers =~= Seq::<LayerModel>::empty());
        }
        m
    }
}

impl LayerManager {
    /// The selected row, the row being configured and the size are never
    /// negative and fit in a `usize`.
    pub proof fn lemma_view_bounds(&self)
        ensures
            0 <= self@.current <= usize::MAX,
            0 <= self@.width <= usize::MAX,
            0 <= self@.height <= usize::MAX,
            self@.configuring matches Some(i) ==> 0 <= i <= usize::MAX,
    {
    }

    /// If there are no layers
    pub fn is_empty(&self) -> (b: bool)
        ensures
            b == (self@.layers.len() == 0),
    {
        self.layers.is_empty()
    }

    /// The selected layer, if the selection points at one.
    pub fn get_active(&self) -> (layer: Option<&Layer>)
        ensures
            layer is Some == (0 <= self@.current < self@.layers.len()),
            layer matches Some(l) ==> l@ == self@.layers[self@.current],
    {
        if self.curr_layer < self.layers.len() {
            Some(&self.layers[self.curr_layer])
        } else {
            None
        }
    }

    /// The selected layer, to be changed in place, if the selection points at one.
    pub fn get_active_mut(&mut self) -> (layer: Option<&mut Layer>)
        ensures
            layer is Some == (0 <= old(self)@.current < old(self)@.layers.len()),
            layer is Some ==> (*layer.unwrap())@ == old(self)@.layers[old(self)@.current] && final(self)@ == (
            ManagerModel {
                layers: old(self)@.layers.update(old(self)@.current, (*final(layer.unwrap()))@),
                ..old(self)@
            }),
            layer is None ==> final(self)@ == old(self)@,
    {
        if self.curr_layer < self.layers.len() {
            let i = self.curr_layer;
            Some(&mut self.layers[i])
        } else {
            None
        }
    }

    /// Moves the layer dragged from row `src` so that it lands before row
    /// `dst` (rows counted before the move), and adjusts the selection so
    /// that it stays on the same layer. Nothing happens when the layer would
    /// land where it is. Returns the row the layer landed on, if it moved.
    #[verifier::rlimit(30)]
    pub fn move_layer(&mut self, src: usize, dst: usize) -> (row: Option<usize>)
        requires
            old(self)@.valid(),
            insertion_row(src as int, dst as int) != src ==> src < old(self)@.layers.len(),
        ensures
            final(self)@.valid(),
            insertion_row(src as int, dst as int) == src ==> final(self)@ == old(self)@,
            insertion_row(src as int, dst as int) != src ==> final(self)@ == old(self)@.with_layer_moved(
                src as int,
                insertion_row(src as int, dst as int),
            ),
            insertion_row(src as int, dst as int) == src ==> row is None,
            insertion_row(src as int, dst as int) != src ==> row == Some(
                vstd::math::min(insertion_row(src as int, dst as int), old(self)@.layers.len() - 1) as usize,
            ),
            src < old(self)@.layers.len() && dst <= old(self)@.layers.len() ==> ({
                let r = if dst > src { dst - 1 } else { dst as int };
                &&& r == src ==> row is None && final(self)@ == old(self)@
                &&& r != src ==> row == Some(r as usize) && final(self)@.layers[r] == old(self)@.layers[src as int]
                &&& r != src ==> final(self)@.layers == old(self)@.layers.remove(src as int).insert(
                    r,
                    old(self)@.layers[src as int],
                )
                &&& r != src && 0 <= old(self)@.current < old(self)@.layers.len()
                    ==> final(self)@.layers[final(self)@.current] == old(self)@.layers[old(self)@.current]
            }),
    {
        let ghost d0 = dst;
        let mut dst = dst;
        // Adjust row index if we are re-ordering:
        if dst > src {
            dst -= 1;
        }
        // Only continue if it actually moved to a new place
        if dst != src {
            let ghost before = self@;
            let ghost old_layers = self.layers@;
            // Adjust the current selection
            let sel = self.curr_layer;
            self.curr_layer = if sel == src {
                dst
            } else if src > sel && dst <= sel {
                sel + 1
            } else if src < sel && dst >= sel {
                sel - 1
            } else {
                sel
            };
            let item = self.layers.remove(src);
            dst = dst.min(self.layers.len());
            self.layers.insert(dst, item);
            proof {
                if src < before.layers.len() && d0 <= before.layers.len() {
                    lemma_move_layer_order(before, src as int, d0 as int);
                }
                let moved = before.with_layer_moved(src as int, insertion_row(src as int, dst as int));
                assert(self.layers@.map_values(|l: Layer| l@) =~= old_layers.map_values(|l: Layer| l@).remove(
                    src as int,
                ).insert(dst as int, before.layers[src as int]));
                assert forall|i: int| 0 <= i < self@.layers.len() implies (#[trigger] self@.layers[i]).image.valid()
                    && self@.layers[i].image.width == self@.width && self@.layers[i].image.height
                    == self@.height by {
                    if i < dst {
                        if i >= src {
                            assert(self@.layers[i] == before.layers[i + 1]);
                        } else {
                            assert(self@.layers[i] == before.layers[i]);
                        }
                    } else if i == dst {
                        assert(self@.layers[i] == before.layers[src as int]);
                    } else {
                        if i - 1 >= src {
                            assert(self@.layers[i] == before.layers[i]);
                        } else {
                            assert(self@.layers[i] == before.layers[i - 1]);
                        }
                    }
                }
            }
            Some(dst)
        } else {
            None
        }
    }

    /// Opens the settings dialog of layer `idx`, backing up its settings.
    pub fn open_settings(&mut self, idx: usize)
        requires
            idx < old(self)@.layers.len(),
        ensures
            final(self)@ == (ManagerModel {
                configuring: Some(idx as int),
                backup: Some((old(self)@.layers[idx as int].opacity, old(self)@.layers[idx as int].name)),
                ..old(self)@
            }),
    {
        self.configuring_layer = Some(idx);
        self.backup_settings = Some(self.layers[idx].settings.clone());
    }

    /// Closes the settings dialog, keeping the changes made in it.
    pub fn close_settings(&mut self)
        ensures
            final(self)@ == (ManagerModel { configuring: None, ..old(self)@ }),
    {
        self.configuring_layer = None;
    }

    /// Closes the settings dialog, putting back the backed-up settings.
    pub fn cancel_settings(&mut self)
        requires
            old(self)@.valid(),
            old(self)@.configuring matches Some(i) ==> 0 <= i < old(self)@.layers.len(),
        ensures
            final(self)@ == old(self)@.settings_cancelled(),
            final(self)@.valid(),
    {
        if let Some(idx) = self.configuring_layer {
            self.configuring_layer = None;
            if let Some(backup) = &self.backup_settings {
                let restored = backup.clone();
                let ghost old_layers = self.layers@;
                self.layers[idx].settings = restored;
                proof {
                    assert(self.layers@.map_values(|l: Layer| l@) =~= old_layers.map_values(|l: Layer| l@).update(
                        idx as int,
                        self.layers@[idx as int]@,
                    ));
                }
            }
        }
    }

    /// The layer whose settings dialog is open, if any.
    pub fn configuring_layer(&self) -> (idx: Option<usize>)
        ensures
            idx matches Some(i) ==> self@.configuring == Some(i as int),
            idx is None ==> self@.configuring is None,
    {
        self.configuring_layer
    }

    /// The number of layers.
    pub fn layer_count(&self) -> (n: usize)
        ensures
            n == self@.layers.len(),
    {
        self.layers.len()
    }

    /// The layer at row `idx`.
    pub fn layer(&self, idx: usize) -> (l: &Layer)
        requires
            idx < self@.layers.len(),
        ensures
            l@ == self@.layers[idx as int],
    {
        &self.layers[idx]
    }

    /// The layer at row `idx`, to be changed in place.
    pub fn layer_mut(&mut self, idx: usize) -> (l: &mut Layer)
        requires
            idx < old(self)@.layers.len(),
        ensures
            (*l)@ == old(self)@.layers[idx as int],
            final(self)@ == (ManagerModel {
                layers: old(self)@.layers.update(idx as int, (*final(l))@),
                ..old(self)@
            }),
    {
        &mut self.layers[idx]
    }

    /// The selected row.
    pub fn current_layer(&self) -> (idx: usize)
        ensures
            idx == self@.current,
    {
        self.curr_layer
    }

    /// Selects row `idx`.
    pub fn select_layer(&mut self, idx: usize)
        ensures
            final(self)@ == (ManagerModel { current: idx as int, ..old(self)@ }),
    {
        self.curr_layer = idx;
    }

    /// The width and height shared by all layers.
    pub fn size(&self) -> (size: PixCoord)
        ensures
            size[0] == self@.width,
            size[1] == self@.height,
    {
        self.size
    }

    /// The picture as saved: for each pixel, row by row, every layer (shown
    /// or not) from the bottom up, faded by its opacity and blended over
    /// those below it, starting from transparent.
    pub fn composite(&self) -> (pixels: Vec<Color>)
        requires
            self@.valid(),
        ensures
            pixels@.len() == self@.width * self@.height,
            forall|i: int| 0 <= i < pixels@.len() ==> #[trigger] pixels@[i] == composited(self@.layers, i),
    {
        let n = self.size[0] * self.size[1];
        let mut out: Vec<Color> = Vec::new();
        let mut idx: usize = 0;
        while idx < n
            invariant
                self@.valid(),
                n == self@.width * self@.height,
                idx <= n,
                out@.len() == idx,
                forall|i: int| 0 <= i < idx ==> #[trigger] out@[i] == composited(self@.layers, i),
            decreases n - idx,
        {
            let mut pixel = Color::transparent();
            let mut li: usize = 0;
            while li < self.layers.len()
                invariant
                    self@.valid(),
                    n == self@.width * self@.height,
                    idx < n,
                    li <= self@.layers.len(),
                    pixel == composited(self@.layers.take(li as int), idx as int),
                decreases self@.layers.len() - li,
            {
                let l = &self.layers[li];
                proof {
                    assert(self@.layers[li as int] == l@);
                    assert(self@.layers.take(li + 1).drop_last() =~= self@.layers.take(li as int));
                }
                let l_pixel = gamma_multiply_u8(l.image.pixel(idx), l.settings.opacity);
                pixel = blend(pixel, l_pixel);
                li += 1;
            }
            proof {
                assert(self@.layers.take(self@.layers.len() as int) =~= self@.layers);
            }
            out.push(pixel);
            idx += 1;
        }
        out
    }

    /// Adds `img` on top as an enabled, fully opaque layer named after its
    /// position. The first layer sets the size; a later one of another size
    /// is refused.
    pub fn add_layer(&mut self, img: TextureImage) -> (res: Result<&Layer, DimensionError>)
        requires
            old(self)@.valid(),
            img@.valid(),
        ensures
            final(self)@.valid(),
            res is Ok == (old(self)@.layers.len() == 0 || (img@.width == old(self)@.width && img@.height
                == old(self)@.height)),
            res matches Ok(l) ==> final(self)@ == old(self)@.with_layer_added(img@),
            res matches Ok(l) ==> l@ == final(self)@.layers.last(),
            res matches Err(e) ==> {
                &&& final(self)@ == old(self)@
                &&& e.target()[0] == old(self)@.width && e.target()[1] == old(self)@.height
                &&& e.actual()[0] == img@.width && e.actual()[1] == img@.height
            },
    {
        let img_size = img.size();
        if self.is_empty() {
            // If this is the first image, use its size to determine our own
            self.size = img_size;
        }

        if self.size[0] != img_size[0] || self.size[1] != img_size[1] {
            return Err(DimensionError { target_size: self.size, actual_size: img_size });
        }

        let name = layer_label(self.layers.len());
        let ghost before = self.layers@;
        self.layers.push(Layer { image: img, enabled: true, settings: LayerSettings { opacity: 255, name } });
        proof {
            assert(self.layers@.map_values(|l: Layer| l@) =~= before.map_values(|l: Layer| l@).push(
                self.layers@.last()@,
            ));
        }
        let last = self.layers.len() - 1;
        Ok(&self.layers[last])
    }

    /// Adds a transparent layer of the current size on top.
    ///
    /// Does nothing if empty
    pub fn add_empty_layer(&mut self)
        requires
            old(self)@.valid(),
        ensures
            final(self)@.valid(),
            old(self)@.layers.len() == 0 ==> final(self)@ == old(self)@,
            old(self)@.layers.len() > 0 ==> final(self)@ == old(self)@.with_layer_added(
                TextureModel::fresh(
                    old(self)@.width,
                    old(self)@.height,
                    solid(old(self)@.width * old(self)@.height, transparent()),
                ),
            ),
    {
        if self.is_empty() {
            return;
        }
        proof {
            assert(self@.layers[0].image.valid());
        }
        let data = ColorImage::filled(self.size, Color::transparent());
        proof {
            assert(data.pixels@ =~= solid(self@.width * self@.height, transparent()));
        }
        let res = self.add_layer(TextureImage::new(data));
        // The new layer has the manager's size, so it is never refused.
        assert(res is Ok);
    }
}

} // verus!
