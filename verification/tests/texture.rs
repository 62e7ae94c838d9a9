use pixel_editor::color::Color;
use pixel_editor::edit::{create_pixel_edits, BlockEdit, ImageEdit};
use pixel_editor::image::ColorImage;
use pixel_editor::textureimage::TextureImage;
use pixel_editor::types::PixRect;

fn shade(v: u8) -> Color {
    Color { r: v, g: v, b: v, a: 255 }
}

fn numbered(size: [usize; 2]) -> ColorImage {
    let pixels: Vec<Color> = (0..size[0] * size[1]).map(|v| shade(v as u8)).collect();
    ColorImage::new(size, pixels)
}

fn pencil(col: Color, coords: Vec<[usize; 2]>) -> ImageEdit {
    ImageEdit::Pixels(create_pixel_edits(col, &coords).unwrap())
}

#[test]
fn new_image_has_no_history() {
    let img = TextureImage::new(numbered([2, 2]));
    assert!(img.saved);
    assert!(!img.has_undo());
    assert!(!img.has_redo());
    assert_eq!(img.size(), [2, 2]);
    assert_eq!(img.pixel(3), shade(3));
}

#[test]
fn undo_after_edit_restores() {
    let mut img = TextureImage::new(numbered([3, 3]));
    let before = img.data.pixels.clone();
    let area = img.edit(pencil(shade(200), vec![[1, 1], [2, 0]]));
    assert_eq!(area, PixRect { a: [1, 0], b: [2, 1] });
    assert_eq!(img.data.pixels[4], shade(200));
    assert!(img.has_undo());
    assert!(!img.has_redo());
    let undone = img.undo();
    assert_eq!(undone, Some(PixRect { a: [1, 0], b: [2, 1] }));
    assert_eq!(img.data.pixels, before);
    assert!(!img.has_undo());
    assert!(img.has_redo());
}

#[test]
fn redo_after_undo_restores() {
    let mut img = TextureImage::new(numbered([3, 3]));
    img.edit(pencil(shade(200), vec![[0, 0]]));
    let edited = img.data.pixels.clone();
    img.undo();
    assert!(img.redo().is_some());
    assert_eq!(img.data.pixels, edited);
    img.undo();
    img.redo();
    assert_eq!(img.data.pixels, edited);
}

#[test]
fn undo_and_redo_without_history_do_nothing() {
    let mut img = TextureImage::new(numbered([2, 2]));
    let before = img.data.pixels.clone();
    assert_eq!(img.undo(), None);
    assert_eq!(img.redo(), None);
    assert_eq!(img.data.pixels, before);
    assert!(img.saved);
}

#[test]
fn edit_clears_redo_history() {
    let mut img = TextureImage::new(numbered([3, 3]));
    img.edit(pencil(shade(1), vec![[0, 0]]));
    img.edit(pencil(shade(2), vec![[1, 0]]));
    img.undo();
    assert!(img.has_redo());
    img.edit(pencil(shade(3), vec![[2, 0]]));
    assert!(!img.has_redo());
    // Two edits are left to undo.
    img.undo();
    img.undo();
    assert_eq!(img.data.pixels, numbered([3, 3]).pixels);
    assert!(!img.has_undo());
}

#[test]
fn copy_takes_selection() {
    let img = TextureImage::new(numbered([4, 3]));
    let part = img.copy(PixRect { a: [2, 2], b: [1, 1] });
    assert_eq!(part.size, [2, 2]);
    assert_eq!(part.pixels, vec![shade(5), shade(6), shade(9), shade(10)]);
}

#[test]
fn cut_clears_selection_and_can_be_undone() {
    let mut img = TextureImage::new(numbered([4, 3]));
    let (part, area) = img.cut(PixRect { a: [1, 1], b: [2, 2] });
    assert_eq!(part.pixels, vec![shade(5), shade(6), shade(9), shade(10)]);
    assert_eq!(area, PixRect { a: [1, 1], b: [3, 2] });
    assert_eq!(img.data.pixels[5], Color::transparent());
    assert_eq!(img.data.pixels[10], Color::transparent());
    assert_eq!(img.data.pixels[4], shade(4));
    img.undo();
    assert_eq!(img.data.pixels, numbered([4, 3]).pixels);
}

#[test]
fn delete_clears_selection() {
    let mut img = TextureImage::new(numbered([3, 3]));
    img.delete(PixRect { a: [0, 0], b: [0, 1] });
    assert_eq!(img.data.pixels[0], Color::transparent());
    assert_eq!(img.data.pixels[3], Color::transparent());
    assert_eq!(img.data.pixels[1], shade(1));
    assert!(img.has_undo());
}

#[test]
fn paste_writes_block_and_undo_restores() {
    let mut img = TextureImage::new(numbered([3, 3]));
    let data = ColorImage::filled([2, 1], shade(90));
    let area = img.paste([1, 2], &data);
    assert_eq!(area, PixRect { a: [1, 2], b: [2, 2] });
    assert_eq!(img.data.pixels[7], shade(90));
    assert_eq!(img.data.pixels[8], shade(90));
    img.undo();
    assert_eq!(img.data.pixels, numbered([3, 3]).pixels);
}

#[test]
fn block_edit_through_edit() {
    let mut img = TextureImage::new(numbered([3, 3]));
    let block = BlockEdit { old: ColorImage::filled([1, 1], shade(42)), coord: [2, 2] };
    img.edit(ImageEdit::Block(block));
    assert_eq!(img.data.pixels[8], shade(42));
}

#[test]
fn resize_samples_nearest_pixel() {
    let mut img = TextureImage::new(numbered([2, 2]));
    img.edit(pencil(shade(50), vec![[0, 0]]));
    img.resize([4, 3]);
    assert_eq!(img.size(), [4, 3]);
    // Column x samples source column x * 2 / 4, row y samples y * 2 / 3.
    let expected: Vec<Color> = vec![
        shade(50), shade(50), shade(1), shade(1),
        shade(50), shade(50), shade(1), shade(1),
        shade(2), shade(2), shade(3), shade(3),
    ];
    assert_eq!(img.data.pixels, expected);
    assert!(!img.has_undo());
    assert!(img.saved);
}

#[test]
fn resize_to_empty() {
    let mut img = TextureImage::new(numbered([2, 2]));
    img.resize([0, 5]);
    assert_eq!(img.size(), [0, 5]);
    assert!(img.data.pixels.is_empty());
}

#[test]
fn assign_and_save_state() {
    let mut img = TextureImage::new(numbered([2, 2]));
    img.edit(pencil(shade(7), vec![[1, 1]]));
    img.saved = false;
    img.save_state();
    assert!(img.saved);
    img.assign(numbered([1, 1]));
    assert_eq!(img.size(), [1, 1]);
    assert!(!img.has_undo());
}

#[test]
fn undo_after_redo_restores() {
    let mut img = TextureImage::new(numbered([3, 3]));
    img.edit(pencil(shade(200), vec![[2, 2], [0, 1]]));
    img.undo();
    let undone = img.data.pixels.clone();
    img.redo();
    assert_ne!(img.data.pixels, undone);
    img.undo();
    assert_eq!(img.data.pixels, undone);
}

#[test]
fn paste_past_right_edge_is_clipped_and_undone() {
    let mut img = TextureImage::new(numbered([3, 2]));
    let area = img.paste([2, 0], &ColorImage::filled([2, 1], shade(77)));
    assert_eq!(area, PixRect { a: [2, 0], b: [2, 1] });
    assert_eq!(img.data.pixels[2], shade(77));
    // The next row is not touched.
    assert_eq!(img.data.pixels[3], shade(3));
    img.undo();
    assert_eq!(img.data.pixels, numbered([3, 2]).pixels);
}

#[test]
fn redo_without_history_keeps_saved_flag() {
    let mut img = TextureImage::new(numbered([2, 2]));
    img.saved = false;
    assert_eq!(img.redo(), None);
    assert!(!img.saved);
    assert!(!img.has_redo());
    assert!(!img.has_undo());
}

#[test]
fn delete_reaching_past_the_edge_is_clipped() {
    let mut img = TextureImage::new(numbered([3, 3]));
    img.edit(pencil(shade(1), vec![[0, 0]]));
    img.undo();
    assert!(img.has_redo());
    let area = img.delete(PixRect { a: [1, 2], b: [7, 9] });
    assert_eq!(area, PixRect { a: [1, 2], b: [2, 2] });
    assert_eq!(img.data.pixels[6], shade(6));
    assert_eq!(img.data.pixels[7], Color::transparent());
    assert_eq!(img.data.pixels[8], Color::transparent());
    assert_eq!(img.data.pixels[5], shade(5));
    assert!(!img.has_redo());
    img.undo();
    assert_eq!(img.data.pixels, numbered([3, 3]).pixels);
}

#[test]
fn copy_past_the_edge_takes_the_part_inside() {
    let img = TextureImage::new(numbered([4, 3]));
    let part = img.copy(PixRect { a: [2, 1], b: [9, 7] });
    assert_eq!(part.size, [2, 2]);
    assert_eq!(part.pixels, vec![shade(6), shade(7), shade(10), shade(11)]);
}

#[test]
fn cut_past_the_edge_takes_the_part_inside_and_clears_it() {
    let mut img = TextureImage::new(numbered([3, 3]));
    let (part, area) = img.cut(PixRect { a: [5, 5], b: [1, 1] });
    assert_eq!(part.size, [2, 2]);
    assert_eq!(part.pixels, vec![shade(4), shade(5), shade(7), shade(8)]);
    assert_eq!(area, PixRect { a: [1, 1], b: [2, 2] });
    assert_eq!(img.data.pixels[4], Color::transparent());
    assert_eq!(img.data.pixels[8], Color::transparent());
    assert_eq!(img.data.pixels[3], shade(3));
    img.undo();
    assert_eq!(img.data.pixels, numbered([3, 3]).pixels);
}

#[test]
fn fill_rect_fills_size_of_selection_at_its_corner() {
    let mut img = TextureImage::new(numbered([4, 3]));
    let area = img.fill_rect(PixRect { a: [3, 2], b: [1, 0] }, shade(99));
    // `size()` is the distance between the corners: 2 by 2 pixels from [1, 0].
    assert_eq!(area, PixRect { a: [1, 0], b: [3, 2] });
    let mut expected = numbered([4, 3]).pixels;
    for idx in [1, 2, 5, 6] {
        expected[idx] = shade(99);
    }
    assert_eq!(img.data.pixels, expected);
    assert!(img.has_undo());
    img.undo();
    assert_eq!(img.data.pixels, numbered([4, 3]).pixels);
}

#[test]
fn paint_points_makes_one_edit_per_point() {
    let mut img = TextureImage::new(numbered([3, 2]));
    img.edit(pencil(shade(1), vec![[0, 0]]));
    img.undo();
    img.paint_points(&vec![[0, 1], [2, 0], [0, 1]], shade(50));
    assert_eq!(img.data.pixels[3], shade(50));
    assert_eq!(img.data.pixels[2], shade(50));
    assert!(!img.has_redo());
    img.undo();
    img.undo();
    assert_eq!(img.data.pixels[2], shade(2));
    assert_eq!(img.data.pixels[3], shade(50));
    img.undo();
    assert_eq!(img.data.pixels, numbered([3, 2]).pixels);
    assert!(!img.has_undo());
}
