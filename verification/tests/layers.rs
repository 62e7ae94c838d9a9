use pixel_editor::color::Color;
use pixel_editor::image::ColorImage;
use pixel_editor::layermanager::{LayerManager, LayerSettings};
use pixel_editor::textureimage::TextureImage;

fn solid(size: [usize; 2], c: Color) -> TextureImage {
    TextureImage::new(ColorImage::filled(size, c))
}

fn named(m: &LayerManager, i: usize) -> String {
    m.layer(i).settings.name.clone()
}

#[test]
fn first_layer_sets_size() {
    let mut m = LayerManager::default();
    assert!(m.is_empty());
    assert!(m.get_active().is_none());
    let layer = m.add_layer(solid([3, 2], Color::transparent())).unwrap();
    assert!(layer.enabled);
    assert_eq!(layer.settings.opacity, 255);
    assert_eq!(layer.settings.name, "Layer 0");
    assert_eq!(m.size(), [3, 2]);
    assert!(!m.is_empty());
    assert!(m.get_active().is_some());
}

#[test]
fn layer_of_other_size_is_refused() {
    let mut m = LayerManager::default();
    m.add_layer(solid([3, 2], Color::transparent())).unwrap();
    let err = match m.add_layer(solid([2, 3], Color::transparent())) {
        Ok(_) => panic!("a layer of another size was accepted"),
        Err(e) => e,
    };
    assert_eq!(err.target_size(), [3, 2]);
    assert_eq!(err.actual_size(), [2, 3]);
    assert_eq!(err.message(), "Sizing error: Expected size: [3, 2], Actual size: [2, 3]");
    assert_eq!(m.layer_count(), 1);
}

#[test]
fn layers_are_named_by_position() {
    let mut m = LayerManager::default();
    for _ in 0..12 {
        m.add_layer(solid([1, 1], Color::transparent())).unwrap();
    }
    assert_eq!(named(&m, 0), "Layer 0");
    assert_eq!(named(&m, 9), "Layer 9");
    assert_eq!(named(&m, 10), "Layer 10");
    assert_eq!(named(&m, 11), "Layer 11");
}

#[test]
fn add_empty_layer_needs_a_first_layer() {
    let mut m = LayerManager::default();
    m.add_empty_layer();
    assert!(m.is_empty());
    m.add_layer(solid([2, 2], Color { r: 1, g: 1, b: 1, a: 1 })).unwrap();
    m.add_empty_layer();
    assert_eq!(m.layer_count(), 2);
    assert_eq!(m.layer(1).image.size(), [2, 2]);
    assert_eq!(m.layer(1).image.pixel(3), Color::transparent());
    assert_eq!(named(&m, 1), "Layer 1");
}

fn stack(n: usize) -> LayerManager {
    let mut m = LayerManager::default();
    for _ in 0..n {
        m.add_layer(solid([1, 1], Color::transparent())).unwrap();
    }
    m
}

#[test]
fn move_layer_up_keeps_selection() {
    let mut m = stack(4);
    m.select_layer(2);
    // Drag layer 0 to above row 3: it lands at row 2.
    assert_eq!(m.move_layer(0, 3), Some(2));
    let names: Vec<String> = (0..4).map(|i| named(&m, i)).collect();
    assert_eq!(names, vec!["Layer 1", "Layer 2", "Layer 0", "Layer 3"]);
    assert_eq!(m.current_layer(), 1);
    assert_eq!(named(&m, m.current_layer()), "Layer 2");
}

#[test]
fn move_layer_down_keeps_selection() {
    let mut m = stack(4);
    m.select_layer(1);
    assert_eq!(m.move_layer(3, 0), Some(0));
    let names: Vec<String> = (0..4).map(|i| named(&m, i)).collect();
    assert_eq!(names, vec!["Layer 3", "Layer 0", "Layer 1", "Layer 2"]);
    assert_eq!(named(&m, m.current_layer()), "Layer 1");
}

#[test]
fn move_selected_layer_moves_selection() {
    let mut m = stack(3);
    m.select_layer(0);
    assert_eq!(m.move_layer(0, 3), Some(2));
    assert_eq!(m.current_layer(), 2);
    assert_eq!(named(&m, 2), "Layer 0");
}

#[test]
fn move_layer_onto_itself_does_nothing() {
    let mut m = stack(3);
    m.select_layer(1);
    assert_eq!(m.move_layer(1, 2), None);
    assert_eq!(m.move_layer(1, 1), None);
    let names: Vec<String> = (0..3).map(|i| named(&m, i)).collect();
    assert_eq!(names, vec!["Layer 0", "Layer 1", "Layer 2"]);
    assert_eq!(m.current_layer(), 1);
}

#[test]
fn settings_cancel_restores_backup() {
    let mut m = stack(2);
    m.open_settings(1);
    assert_eq!(m.configuring_layer(), Some(1));
    m.layer_mut(1).settings = LayerSettings { opacity: 10, name: String::from("Sky") };
    m.cancel_settings();
    assert_eq!(m.configuring_layer(), None);
    assert_eq!(m.layer(1).settings.opacity, 255);
    assert_eq!(named(&m, 1), "Layer 1");
}

#[test]
fn settings_close_keeps_changes() {
    let mut m = stack(2);
    m.open_settings(0);
    m.layer_mut(0).settings.opacity = 40;
    m.close_settings();
    assert_eq!(m.configuring_layer(), None);
    assert_eq!(m.layer(0).settings.opacity, 40);
}

#[test]
fn get_active_mut_changes_selected_layer() {
    let mut m = stack(2);
    m.select_layer(1);
    m.get_active_mut().unwrap().enabled = false;
    assert!(!m.layer(1).enabled);
    assert!(m.layer(0).enabled);
    m.select_layer(5);
    assert!(m.get_active_mut().is_none());
}

#[test]
fn composite_fades_and_blends_layers() {
    let mut m = LayerManager::default();
    m.add_layer(solid([2, 1], Color { r: 200, g: 100, b: 50, a: 255 })).unwrap();
    m.layer_mut(0).settings.opacity = 128;
    assert_eq!(m.composite(), vec![Color { r: 100, g: 50, b: 25, a: 128 }; 2]);
    m.add_layer(solid([2, 1], Color { r: 0, g: 0, b: 100, a: 100 })).unwrap();
    assert_eq!(m.composite(), vec![Color { r: 61, g: 30, b: 115, a: 178 }; 2]);
}

#[test]
fn composite_saturates_and_includes_hidden_layers() {
    let mut m = LayerManager::default();
    m.add_layer(solid([1, 1], Color { r: 255, g: 255, b: 255, a: 255 })).unwrap();
    m.add_layer(solid([1, 1], Color { r: 250, g: 10, b: 10, a: 200 })).unwrap();
    m.layer_mut(1).enabled = false;
    assert_eq!(m.composite(), vec![Color { r: 255, g: 65, b: 65, a: 255 }]);
}

#[test]
fn composite_without_layers_is_empty() {
    let m = LayerManager::default();
    assert!(m.composite().is_empty());
}
