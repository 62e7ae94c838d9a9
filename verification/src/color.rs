use vstd::prelude::*;

verus! {

/// An sRGBA colour with premultiplied alpha, one byte per channel, laid out as
/// the editor's drawing surfaces store it.
#[derive(Clone, Copy, Debug, PartialEq, Eq, Structural)]
pub struct Color {
    pub r: u8,
    pub g: u8,
    pub b: u8,
    pub a: u8,
}

/// The fully transparent colour (all channels zero).
pub open spec fn transparent() -> Color {
    Color { r: 0, g: 0, b: 0, a: 0 }
}

/// One channel scaled by `factor / 255` in gamma space, rounded to nearest.
pub open spec fn gamma_channel(c: u8, factor: u8) -> u8 {
    ((c * factor + 127) / 255) as u8
}

/// Every channel, alpha included, scaled by `factor / 255`.
pub open spec fn gamma_multiplied(c: Color, factor: u8) -> Color {
    Color {
        r: gamma_channel(c.r, factor),
        g: gamma_channel(c.g, factor),
        b: gamma_channel(c.b, factor),
        a: gamma_channel(c.a, factor),
    }
}

/// The sum of two channels, clamped at 255.
pub open spec fn saturating_channel(x: u8, y: u8) -> u8 {
    if x + y > 255 {
        255
    } else {
        (x + y) as u8
    }
}

/// `on_top` drawn over `below`: `below` weakened by the opacity of `on_top`, then
/// `on_top` added channel by channel with saturation.
pub open spec fn blended(below: Color, on_top: Color) -> Color {
    let faded = gamma_multiplied(below, (255 - on_top.a) as u8);
    Color {
        r: saturating_channel(faded.r, on_top.r),
        g: saturating_channel(faded.g, on_top.g),
        b: saturating_channel(faded.b, on_top.b),
        a: saturating_channel(faded.a, on_top.a),
    }
}

/// `c * a / 255` rounded to nearest, in fixed point without a division by 255.
pub open spec fn unmultiplied_channel(c: u8, a: u8) -> u8 {
    let p = c * a + 128;
    ((p + p / 256) / 256) as u8
}

/// The premultiplied colour of the unmultiplied channels `r`, `g`, `b` with
/// opacity `a`: fully transparent when `a` is zero, the channels unchanged
/// when `a` is 255, and otherwise each channel scaled by `a / 255`.
pub open spec fn premultiplied(r: u8, g: u8, b: u8, a: u8) -> Color {
    if a == 0 {
        transparent()
    } else if a == 255 {
        Color { r, g, b, a }
    } else {
        Color { r: unmultiplied_channel(r, a), g: unmultiplied_channel(g, a), b: unmultiplied_channel(b, a), a }
    }
}

impl Color {
    /// The fully transparent colour.
    pub fn transparent() -> (c: Color)
        ensures
            c == transparent(),
    {
        Color { r: 0, g: 0, b: 0, a: 0 }
    }
}

/// Calls `egui::Color32::gamma_multiply_u8`, which scales each premultiplied
/// channel `c` to `(c * factor + 127) / 255`; the contract restates that formula.
#[verifier::external_body]
pub(crate) fn gamma_multiply_u8(color: Color, factor: u8) -> (res: Color)
    ensures
        res == gamma_multiplied(color, factor),
{
    let [r, g, b, a] = egui::Color32::from_rgba_premultiplied(color.r, color.g, color.b, color.a)
        .gamma_multiply_u8(factor)
        .to_array();
    Color { r, g, b, a }
}

/// Calls `egui::Color32::blend`, which fades `below` with
/// `gamma_multiply_u8(255 - on_top.a)` and adds `on_top` with per-channel
/// saturating addition; the contract restates that formula.
#[verifier::external_body]
pub(crate) fn blend(below: Color, on_top: Color) -> (res: Color)
    ensures
        res == blended(below, on_top),
{
    let lower = egui::Color32::from_rgba_premultiplied(below.r, below.g, below.b, below.a);
    let upper = egui::Color32::from_rgba_premultiplied(on_top.r, on_top.g, on_top.b, on_top.a);
    let [r, g, b, a] = lower.blend(upper).to_array();
    Color { r, g, b, a }
}

} // verus!
