use pixel_editor::color::Color;
use pixel_editor::image::ColorImage;
use pixel_editor::types::{coord_add, coord_map, coord_max, coord_min, coord_sub, coord_to_idx, PixRect};

#[test]
fn coordinate_arithmetic() {
    assert_eq!(coord_min([3, 7], [5, 2]), [3, 2]);
    assert_eq!(coord_max([3, 7], [5, 2]), [5, 7]);
    assert_eq!(coord_add([3, 7], [5, 2]), [8, 9]);
    assert_eq!(coord_sub([5, 7], [3, 2]), [2, 5]);
}

#[test]
fn coord_map_scales_linearly() {
    assert_eq!(coord_map([3, 1], [0, 0], [4, 2], [0, 0], [2, 8]), [1, 4]);
    assert_eq!(coord_map([5, 5], [2, 4], [6, 8], [10, 0], [14, 2]), [13, 0]);
}

#[test]
fn coord_to_idx_is_row_major() {
    let img = ColorImage::filled([4, 3], Color::transparent());
    assert_eq!(coord_to_idx([1, 2], &img), 9);
    assert_eq!(coord_to_idx([0, 0], &img), 0);
}

#[test]
fn rect_corners_and_sizes() {
    let r = PixRect { a: [5, 1], b: [2, 4] };
    assert_eq!(r.min(), [2, 1]);
    assert_eq!(r.max(), [5, 4]);
    assert_eq!(r.outer(), [6, 5]);
    assert_eq!(r.size(), [3, 3]);
    assert_eq!(r.outer_size(), [4, 4]);
}

#[test]
fn rect_enclose_grows_to_coordinate() {
    let r = PixRect { a: [2, 2], b: [3, 3] };
    let grown = r.enclose([0, 5]);
    assert_eq!(grown, PixRect { a: [0, 2], b: [3, 5] });
    let same = r.enclose([2, 3]);
    assert_eq!(same, PixRect { a: [2, 2], b: [3, 3] });
}

#[test]
fn rect_limit_caps_both_corners() {
    let r = PixRect { a: [9, 1], b: [2, 7] };
    assert_eq!(r.limit([5, 5]), PixRect { a: [2, 1], b: [5, 5] });
}

#[test]
fn rect_default_is_origin() {
    let r = PixRect::default();
    assert_eq!(r, PixRect { a: [0, 0], b: [0, 0] });
}

#[test]
fn image_region_copies_block() {
    let pixels: Vec<Color> = (0..12u8).map(|v| Color { r: v, g: 0, b: 0, a: 255 }).collect();
    let img = ColorImage::new([4, 3], pixels);
    let region = img.region_by_pixels([1, 1], [2, 2]);
    assert_eq!(region.size, [2, 2]);
    let reds: Vec<u8> = region.pixels.iter().map(|c| c.r).collect();
    assert_eq!(reds, vec![5, 6, 9, 10]);
    assert_eq!(img.width(), 4);
    assert_eq!(img.height(), 3);
}

#[test]
fn image_filled_and_clone() {
    let c = Color { r: 1, g: 2, b: 3, a: 4 };
    let img = ColorImage::filled([3, 2], c);
    assert_eq!(img.pixels, vec![c; 6]);
    let copy = img.clone();
    assert_eq!(copy.size, [3, 2]);
    assert_eq!(copy.pixels, img.pixels);
}

#[test]
fn from_rgba_unmultiplied_premultiplies_each_pixel() {
    let rgba: Vec<u8> = vec![200, 100, 50, 128, 10, 20, 30, 0, 1, 2, 3, 255];
    let img = pixel_editor::image::ColorImage::from_rgba_unmultiplied([3, 1], &rgba);
    assert_eq!(img.size, [3, 1]);
    assert_eq!(
        img.pixels,
        vec![
            pixel_editor::color::Color { r: 100, g: 50, b: 25, a: 128 },
            pixel_editor::color::Color { r: 0, g: 0, b: 0, a: 0 },
            pixel_editor::color::Color { r: 1, g: 2, b: 3, a: 255 },
        ]
    );
}
