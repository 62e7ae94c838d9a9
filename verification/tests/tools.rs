use pixel_editor::tools::{drag_selection, pencil_stroke, Tool, ToolAction, ToolState};
use pixel_editor::types::PixRect;

#[test]
fn pencil_starts_with_pixel_under_pointer() {
    assert_eq!(pencil_stroke(None, [4, 5]), vec![[4, 5]]);
}

#[test]
fn pencil_does_not_repaint_last_pixel() {
    assert!(pencil_stroke(Some([4, 5]), [4, 5]).is_empty());
}

#[test]
fn pencil_joins_with_line() {
    assert_eq!(pencil_stroke(Some([0, 0]), [3, 1]), vec![[1, 0], [2, 1], [3, 1]]);
}

#[test]
fn drag_stretches_running_selection() {
    let sel = Some(PixRect { a: [1, 1], b: [2, 2] });
    assert_eq!(drag_selection(sel, true, [5, 0]), PixRect { a: [1, 1], b: [5, 0] });
    assert_eq!(drag_selection(sel, false, [5, 0]), PixRect { a: [5, 0], b: [5, 0] });
    assert_eq!(drag_selection(None, true, [5, 0]), PixRect { a: [5, 0], b: [5, 0] });
}

#[test]
fn tools_compare() {
    assert_eq!(Tool::Pencil, Tool::Pencil);
    assert_ne!(Tool::Pencil, Tool::Line);
}

fn state(tool: Tool) -> ToolState {
    ToolState { tool, interacting: false, selection: None, last_coord: None }
}

#[test]
fn rect_tool_fills_selection_on_release() {
    let mut s = state(Tool::Rect);
    assert_eq!(s.drag([1, 1], true, false), ToolAction::Nothing);
    assert_eq!(s.drag([3, 2], true, false), ToolAction::Nothing);
    assert!(s.interacting);
    assert_eq!(s.selection, Some(PixRect { a: [1, 1], b: [3, 2] }));
    assert_eq!(s.release(), ToolAction::FillRect(PixRect { a: [1, 1], b: [3, 2] }));
    assert!(!s.interacting);
    assert_eq!(s.selection, None);
}

#[test]
fn line_tool_draws_between_corners_on_release() {
    let mut s = state(Tool::Line);
    s.drag([0, 4], true, false);
    s.drag([5, 1], true, false);
    assert_eq!(s.release(), ToolAction::DrawLine([0, 4], [5, 1]));
    assert_eq!(s.selection, None);
}

#[test]
fn select_tool_keeps_selection_on_release() {
    let mut s = state(Tool::Select);
    s.drag([2, 2], true, false);
    s.last_coord = Some([2, 2]);
    assert_eq!(s.release(), ToolAction::Nothing);
    assert_eq!(s.selection, Some(PixRect { a: [2, 2], b: [2, 2] }));
    assert_eq!(s.last_coord, None);
}

#[test]
fn nothing_happens_without_a_button() {
    let mut s = state(Tool::Pencil);
    assert_eq!(s.drag([1, 1], false, true), ToolAction::Nothing);
    assert!(!s.interacting);
}

#[test]
fn pencil_and_eyedropper_act_every_frame() {
    let mut s = state(Tool::Pencil);
    assert_eq!(s.drag([1, 1], true, false), ToolAction::Paint([1, 1]));
    assert_eq!(s.drag([2, 1], true, false), ToolAction::Paint([2, 1]));
    let mut e = state(Tool::Eyedropper);
    assert_eq!(e.drag([0, 3], true, false), ToolAction::Pick([0, 3]));
    assert!(e.interacting);
}

#[test]
fn paste_happens_on_first_frame_only() {
    let mut s = state(Tool::Paste);
    assert_eq!(s.drag([1, 2], true, false), ToolAction::Nothing);
    assert!(!s.interacting);
    assert_eq!(s.drag([1, 2], true, true), ToolAction::Paste([1, 2]));
    assert!(s.interacting);
    assert_eq!(s.drag([2, 2], true, true), ToolAction::Nothing);
}
