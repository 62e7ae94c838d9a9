use vstd::prelude::*;

use crate::bresenham;
use crate::bresenham::{abs, line_points, same_points_usize};
use crate::types::{PixCoord, PixRect};

verus! {

/// The drawing tools of the editor.
#[derive(Clone, Copy, Debug, PartialEq, Eq, Structural)]
pub enum Tool {
    Eyedropper,
    Pencil,
    Rect,
    Select,
    Paste,
    Line,
}

/// A line between the two positions can be rasterised in `i32` arithmetic.
pub open spec fn line_drawable(a: PixCoord, b: PixCoord) -> bool {
    &&& a[0] <= i32::MAX && a[1] <= i32::MAX
    &&& b[0] <= i32::MAX && b[1] <= i32::MAX
    &&& 2 * abs(b[0] - a[0]) <= i32::MAX
    &&& 2 * abs(b[1] - a[1]) <= i32::MAX
}

/// The pixels that the pencil paints when the pointer reaches `coords`:
/// none if it is still on the last painted pixel, the pixel itself when no
/// stroke is under way, and otherwise the line from the last painted pixel,
/// without that pixel.
pub fn pencil_stroke(last: Option<PixCoord>, coords: PixCoord) -> (points: Vec<PixCoord>)
    requires
        last matches Some(l) ==> line_drawable(l, coords),
    ensures
        last is None ==> points@.len() == 1 && points@[0] == coords,
        last matches Some(l) ==> (l[0] == coords[0] && l[1] == coords[1] ==> points@.len() == 0),
        last matches Some(l) ==> (!(l[0] == coords[0] && l[1] == coords[1]) ==> same_points_usize(
            points@,
            line_points((l[0] as int, l[1] as int), (coords[0] as int, coords[1] as int)),
        )),
{
    match last {
        None => {
            let mut points: Vec<PixCoord> = Vec::new();
            points.push(coords);
            points
        },
        Some(l) => {
            if l[0] == coords[0] && l[1] == coords[1] {
                Vec::new()
            } else {
                bresenham::line(l, coords)
            }
        },
    }
}

/// The selection while the pointer is dragged to `coords`: the running
/// selection stretched so that its second corner follows the pointer, or a
/// new one-pixel selection when no drag is under way.
pub fn drag_selection(selection: Option<PixRect>, interacting: bool, coords: PixCoord) -> (rect: PixRect)
    ensures
        rect.b == coords,
        (interacting && selection is Some) ==> rect.a == selection.unwrap().a,
        !(interacting && selection is Some) ==> rect.a == coords,
{
    match selection {
        Some(r) => {
            if interacting {
                PixRect { a: r.a, b: coords }
            } else {
                PixRect { a: coords, b: coords }
            }
        },
        None => PixRect { a: coords, b: coords },
    }
}

/// What the editor remembers between frames about the tool in use.
#[derive(Clone, Copy, Debug)]
pub struct ToolState {
    pub tool: Tool,
    /// A drag is under way.
    pub interacting: bool,
    /// The selected rectangle, if any.
    pub selection: Option<PixRect>,
    /// The last pixel the pencil painted in the running stroke.
    pub last_coord: Option<PixCoord>,
}

/// What the editor has to carry out after the pointer moved or was released.
#[derive(Clone, Copy, Debug, PartialEq, Eq)]
pub enum ToolAction {
    Nothing,
    /// Fill the rectangle with the colour of the released button.
    FillRect(PixRect),
    /// Paint the line between the two corners with the colour of the released button.
    DrawLine(PixCoord, PixCoord),
    /// Continue the pencil stroke to the pixel.
    Paint(PixCoord),
    /// Take the colour of the pixel for the held button.
    Pick(PixCoord),
    /// Paste the clipboard with its top-left corner at the pixel.
    Paste(PixCoord),
}

/// The state and the action after the pointer is released: the stroke and
/// the drag end, and the rectangle and line tools use up the selection.
pub open spec fn released(s: ToolState) -> (ToolState, ToolAction) {
    let ended = ToolState { interacting: false, last_coord: None, ..s };
    match (s.tool, s.selection) {
        (Tool::Rect, Some(r)) => (ToolState { selection: None, ..ended }, ToolAction::FillRect(r)),
        (Tool::Line, Some(r)) => (ToolState { selection: None, ..ended }, ToolAction::DrawLine(r.a, r.b)),
        _ => (ended, ToolAction::Nothing),
    }
}

/// The state and the action while the pointer is over the pixel `coords`,
/// with a button held when `held`: nothing happens without a button; the
/// selecting tools stretch the selection; pasting happens on the first frame
/// of a drag only, and not at all with an empty clipboard, which leaves the
/// drag unstarted.
pub open spec fn dragged(s: ToolState, coords: PixCoord, held: bool, has_clipboard: bool) -> (ToolState, ToolAction) {
    let busy = ToolState { interacting: true, ..s };
    if !held {
        (s, ToolAction::Nothing)
    } else {
        match s.tool {
            Tool::Pencil => (busy, ToolAction::Paint(coords)),
            Tool::Eyedropper => (busy, ToolAction::Pick(coords)),
            Tool::Paste => if s.interacting {
                (busy, ToolAction::Nothing)
            } else if has_clipboard {
                (busy, ToolAction::Paste(coords))
            } else {
                (s, ToolAction::Nothing)
            },
            _ => {
                let stretched = if s.interacting && s.selection is Some {
                    PixRect { a: s.selection.unwrap().a, b: coords }
                } else {
                    PixRect { a: coords, b: coords }
                };
                (ToolState { selection: Some(stretched), ..busy }, ToolAction::Nothing)
            },
        }
    }
}

impl ToolState {
    /// The pointer was released over the image.
    pub fn release(&mut self) -> (action: ToolAction)
        ensures
            (*final(self), action) == released(*old(self)),
            !final(self).interacting,
            final(self).last_coord is None,
            final(self).tool == old(self).tool,
            old(self).tool == Tool::Rect && old(self).selection is Some ==> action == ToolAction::FillRect(
                old(self).selection.unwrap(),
            ) && final(self).selection is None,
            old(self).tool == Tool::Line && old(self).selection is Some ==> action == ToolAction::DrawLine(
                old(self).selection.unwrap().a,
                old(self).selection.unwrap().b,
            ) && final(self).selection is None,
            !((old(self).tool == Tool::Rect || old(self).tool == Tool::Line) && old(self).selection is Some) ==> action
                == ToolAction::Nothing && final(self).selection == old(self).selection,
    {
        self.interacting = false;
        self.last_coord = None;
        match (self.tool, self.selection) {
            (Tool::Rect, Some(r)) => {
                self.selection = None;
                ToolAction::FillRect(r)
            },
            (Tool::Line, Some(r)) => {
                self.selection = None;
                ToolAction::DrawLine(r.a, r.b)
            },
            _ => ToolAction::Nothing,
        }
    }

    /// The pointer is over the pixel `coords`, with a button held when `held`;
    /// `has_clipboard` tells whether there is anything to paste.
    pub fn drag(&mut self, coords: PixCoord, held: bool, has_clipboard: bool) -> (action: ToolAction)
        ensures
            (*final(self), action) == dragged(*old(self), coords, held, has_clipboard),
            final(self).tool == old(self).tool,
            final(self).last_coord == old(self).last_coord,
            !held ==> action == ToolAction::Nothing && *final(self) == *old(self),
            held && old(self).tool == Tool::Eyedropper ==> action == ToolAction::Pick(coords) && final(self).interacting
                && final(self).selection == old(self).selection,
            held && old(self).tool == Tool::Pencil ==> action == ToolAction::Paint(coords) && final(self).interacting
                && final(self).selection == old(self).selection,
            held && old(self).tool == Tool::Paste ==> {
                &&& (action == ToolAction::Paste(coords)) == (!old(self).interacting && has_clipboard)
                &&& action != ToolAction::Paste(coords) ==> action == ToolAction::Nothing
                &&& final(self).interacting == (old(self).interacting || has_clipboard)
                &&& final(self).selection == old(self).selection
            },
            held && (old(self).tool == Tool::Select || old(self).tool == Tool::Rect || old(self).tool == Tool::Line) ==> {
                &&& action == ToolAction::Nothing
                &&& final(self).interacting
                &&& final(self).selection matches Some(r) && r.b == coords && r.a == (if old(self).interacting
                    && old(self).selection is Some {
                    old(self).selection.unwrap().a
                } else {
                    coords
                })
            },
    {
        if !held {
            return ToolAction::Nothing;
        }
        let action = match self.tool {
            Tool::Pencil => ToolAction::Paint(coords),
            Tool::Eyedropper => ToolAction::Pick(coords),
            Tool::Paste => {
                if self.interacting {
                    ToolAction::Nothing
                } else if has_clipboard {
                    ToolAction::Paste(coords)
                } else {
                    return ToolAction::Nothing;
                }
            },
            _ => {
                self.selection = Some(drag_selection(self.selection, self.interacting, coords));
                ToolAction::Nothing
            },
        };
        self.interacting = true;
        action
    }
}

/// Releasing the pointer ends the drag for every tool: nothing is under way
/// and no stroke continues afterwards, and the tool stays the same.
pub proof fn lemma_release_ends_drag(s: ToolState)
    ensures
        !released(s).0.interacting,
        released(s).0.last_coord is None,
        released(s).0.tool == s.tool,
{
}

/// A press right after a release starts afresh: the paste tool pastes the
/// clipboard again, the selecting tools start a one-pixel selection under the
/// pointer, the eyedropper picks and the pencil paints the pixel under it.
pub proof fn lemma_press_after_release(s: ToolState, coords: PixCoord, has_clipboard: bool)
    ensures
        ({
            let after = dragged(released(s).0, coords, true, has_clipboard);
            &&& s.tool == Tool::Paste && has_clipboard ==> after.1 == ToolAction::Paste(coords)
            &&& (s.tool == Tool::Select || s.tool == Tool::Rect || s.tool == Tool::Line) ==> after.0.selection
                == Some(PixRect { a: coords, b: coords })
            &&& s.tool == Tool::Eyedropper ==> after.1 == ToolAction::Pick(coords)
            &&& s.tool == Tool::Pencil ==> after.1 == ToolAction::Paint(coords)
        }),
{
}

/// While a button is held, the eyedropper picks the pixel under the pointer
/// and the pencil paints it on every frame, whether or not a drag is already
/// under way; so two frames in a row act on both pixels.
pub proof fn lemma_pick_and_paint_every_frame(s: ToolState, first: PixCoord, second: PixCoord, has_clipboard: bool)
    ensures
        s.tool == Tool::Eyedropper ==> dragged(s, first, true, has_clipboard).1 == ToolAction::Pick(first)
            && dragged(dragged(s, first, true, has_clipboard).0, second, true, has_clipboard).1 == ToolAction::Pick(
            second,
        ),
        s.tool == Tool::Pencil ==> dragged(s, first, true, has_clipboard).1 == ToolAction::Paint(first)
            && dragged(dragged(s, first, true, has_clipboard).0, second, true, has_clipboard).1 == ToolAction::Paint(
            second,
        ),
{
}

/// The clipboard is pasted once per press: on the first frame of a drag when
/// there is something to paste, and not on the frames that follow.
pub proof fn lemma_paste_once_per_press(s: ToolState, first: PixCoord, second: PixCoord)
    requires
        s.tool == Tool::Paste,
        !s.interacting,
    ensures
        dragged(s, first, true, true).1 == ToolAction::Paste(first),
        dragged(dragged(s, first, true, true).0, second, true, true).1 == ToolAction::Nothing,
        dragged(s, first, true, false).1 == ToolAction::Nothing,
        !dragged(s, first, true, false).0.interacting,
{
}

} // verus!
