use pixel_editor::color::Color;
use pixel_editor::edit::{create_pixel_edits, BlockEdit, ImageEdit, PixelEdit};
use pixel_editor::image::ColorImage;
use pixel_editor::types::PixRect;

fn shade(v: u8) -> Color {
    Color { r: v, g: v, b: v, a: 255 }
}

fn numbered(size: [usize; 2]) -> ColorImage {
    let pixels: Vec<Color> = (0..size[0] * size[1]).map(|v| shade(v as u8)).collect();
    ColorImage::new(size, pixels)
}

#[test]
fn pixel_edit_new_reads_current_colour() {
    let img = numbered([3, 2]);
    let e = PixelEdit::new(&img, [1, 1]).unwrap();
    assert_eq!(e.oldcol, shade(4));
    assert_eq!(e.coord, [1, 1]);
    // A column past the right edge is outside, whatever its buffer position.
    assert!(PixelEdit::new(&img, [3, 0]).is_none());
    assert!(PixelEdit::new(&img, [0, 2]).is_none());
    assert!(PixelEdit::new(&img, [2, 1]).is_some());
}

#[test]
fn create_pixel_edits_empty_is_none() {
    assert!(create_pixel_edits(shade(1), &vec![]).is_none());
}

#[test]
fn create_pixel_edits_one_per_coordinate() {
    let edits = create_pixel_edits(shade(9), &vec![[0, 0], [2, 1]]).unwrap();
    assert_eq!(edits.len(), 2);
    assert_eq!(edits[0].oldcol, shade(9));
    assert_eq!(edits[0].coord, [0, 0]);
    assert_eq!(edits[1].coord, [2, 1]);
}

#[test]
fn pixel_edits_apply_and_undo_with_repeated_coordinate() {
    let mut img = numbered([3, 2]);
    let before = img.pixels.clone();
    let edits = vec![
        PixelEdit { oldcol: shade(100), coord: [1, 0] },
        PixelEdit { oldcol: shade(200), coord: [2, 1] },
        PixelEdit { oldcol: shade(150), coord: [1, 0] },
    ];
    let (undo, area) = ImageEdit::Pixels(edits).apply(&mut img);
    assert_eq!(img.pixels[1], shade(150));
    assert_eq!(img.pixels[5], shade(200));
    assert_eq!(area, PixRect { a: [1, 0], b: [2, 1] });
    let (redo, _) = undo.apply(&mut img);
    assert_eq!(img.pixels, before);
    redo.apply(&mut img);
    assert_eq!(img.pixels[1], shade(150));
    assert_eq!(img.pixels[5], shade(200));
}

#[test]
fn block_edit_new_clips_to_target() {
    let target = numbered([4, 3]);
    let data = ColorImage::filled([3, 3], shade(0));
    let e = BlockEdit::new(&target, &data, [2, 1]);
    assert_eq!(e.coord, [2, 1]);
    assert_eq!(e.old.size, [2, 2]);
    assert_eq!(e.old.pixels, vec![shade(6), shade(7), shade(10), shade(11)]);
}

#[test]
fn block_edit_apply_and_undo_inside() {
    let mut img = numbered([4, 3]);
    let before = img.pixels.clone();
    let block = BlockEdit { old: ColorImage::filled([2, 2], shade(99)), coord: [1, 1] };
    let (undo, area) = block.apply(&mut img);
    assert_eq!(img.pixels[5], shade(99));
    assert_eq!(img.pixels[6], shade(99));
    assert_eq!(img.pixels[9], shade(99));
    assert_eq!(img.pixels[10], shade(99));
    assert_eq!(img.pixels[4], shade(4));
    assert_eq!(img.pixels[7], shade(7));
    // The far corner is capped at the last row.
    assert_eq!(area, PixRect { a: [1, 1], b: [3, 2] });
    undo.apply(&mut img);
    assert_eq!(img.pixels, before);
}

#[test]
fn block_edit_past_right_edge_is_clipped() {
    let mut img = numbered([3, 2]);
    let before = img.pixels.clone();
    let block = BlockEdit { old: ColorImage::filled([2, 1], shade(77)), coord: [2, 0] };
    let (undo, area) = block.apply(&mut img);
    // Only the column inside the image is written; the next row is untouched.
    assert_eq!(img.pixels[2], shade(77));
    assert_eq!(img.pixels[3], shade(3));
    assert_eq!(area, PixRect { a: [2, 0], b: [2, 1] });
    assert_eq!(undo.old.size, [1, 1]);
    undo.apply(&mut img);
    assert_eq!(img.pixels, before);
}

#[test]
fn block_edit_overhanging_square_is_clipped() {
    let black = Color { r: 0, g: 0, b: 0, a: 255 };
    let red = Color { r: 255, g: 0, b: 0, a: 255 };
    let mut img = ColorImage::filled([2, 2], black);
    let before = img.pixels.clone();
    let block = BlockEdit { old: ColorImage::filled([2, 2], red), coord: [1, 0] };
    let (undo, area) = block.apply(&mut img);
    assert_eq!(img.pixels, vec![black, red, black, red]);
    assert_eq!(area, PixRect { a: [1, 0], b: [1, 1] });
    undo.apply(&mut img);
    assert_eq!(img.pixels, before);
}

#[test]
fn block_edit_past_bottom_is_clipped() {
    let mut img = numbered([3, 2]);
    let block = BlockEdit { old: ColorImage::filled([1, 3], shade(50)), coord: [0, 1] };
    block.apply(&mut img);
    assert_eq!(img.pixels[3], shade(50));
    assert_eq!(img.pixels[0], shade(0));
    assert_eq!(img.pixels.len(), 6);
}

#[test]
fn applicability_checks() {
    let size = [3, 2];
    assert!(ImageEdit::Pixels(vec![PixelEdit { oldcol: shade(1), coord: [2, 1] }]).is_applicable(size));
    assert!(!ImageEdit::Pixels(vec![PixelEdit { oldcol: shade(1), coord: [0, 2] }]).is_applicable(size));
    assert!(!ImageEdit::Pixels(vec![]).is_applicable(size));
    let inside = BlockEdit { old: ColorImage::filled([2, 2], shade(1)), coord: [1, 0] };
    assert!(ImageEdit::Block(inside).is_applicable(size));
    let pixel_right = PixelEdit { oldcol: shade(1), coord: [3, 0] };
    assert!(!ImageEdit::Pixels(vec![pixel_right]).is_applicable(size));
    let corner_outside = BlockEdit { old: ColorImage::filled([1, 1], shade(1)), coord: [3, 0] };
    assert!(!ImageEdit::Block(corner_outside).is_applicable(size));
    let mismatched = BlockEdit { old: ColorImage { size: [2, 2], pixels: vec![shade(1)] }, coord: [0, 0] };
    assert!(!ImageEdit::Block(mismatched).is_applicable(size));
    let overflowing = BlockEdit { old: ColorImage { size: [usize::MAX, 0], pixels: vec![] }, coord: [1, 0] };
    assert!(!ImageEdit::Block(overflowing).is_applicable(size));
}
