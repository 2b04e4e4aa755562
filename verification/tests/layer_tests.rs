use ruxel::camera::ScreenPos;
use ruxel::canvas::Canvas;
use ruxel::color::Color;
use ruxel::file_interactions::FileInteractions;
use ruxel::new_file_modal::NewFileModal;

fn red() -> Color {
    Color { r: 255, g: 0, b: 0, a: 255 }
}

fn blue() -> Color {
    Color { r: 0, g: 0, b: 255, a: 255 }
}

fn semi(a: u8) -> Color {
    Color { r: 10, g: 20, b: 30, a }
}

#[test]
fn add_layer_then_delete_it_restores_previous_contents() {
    let mut c = Canvas::new(4, 4);
    assert_eq!(c.set_pixel_from_pixel_coords((1, 2), red()), Ok(()));
    let new_index = c.get_num_layers();
    c.add_layer();
    c.set_active_layer(new_index);
    assert_eq!(c.set_pixel_from_pixel_coords((0, 0), blue()), Ok(()));
    c.set_active_layer(0);
    c.delete_layer(new_index);
    assert_eq!(c.get_num_layers(), 1);
    assert_eq!(c.get_active_layer(), 0);
    for x in 0..4 {
        for y in 0..4 {
            let expected = if (x, y) == (1, 2) { red() } else { Color::transparent() };
            assert_eq!(c.get_pixel(x, y, 0), Some(expected));
        }
    }
    assert_eq!(c.get_layer_name(0), 0);
    assert_eq!(c.get_layers_to_show(), vec![true]);
}

#[test]
fn layer_names_count_up_and_are_never_reused() {
    let mut c = Canvas::new(4, 4);
    c.add_layer();
    c.add_layer();
    assert_eq!(c.get_layer_name(0), 0);
    assert_eq!(c.get_layer_name(1), 1);
    assert_eq!(c.get_layer_name(2), 2);
    c.delete_layer(1);
    c.add_layer();
    // The freed name 1 is not handed out again.
    assert_eq!(c.get_layer_name(0), 0);
    assert_eq!(c.get_layer_name(1), 2);
    assert_eq!(c.get_layer_name(2), 3);
}

#[test]
fn new_layers_are_transparent_and_visible() {
    let mut c = Canvas::new(4, 4);
    c.add_layer();
    assert_eq!(c.get_num_layers(), 2);
    for x in 0..4 {
        for y in 0..4 {
            assert_eq!(c.get_pixel(x, y, 1), Some(Color::transparent()));
        }
    }
    assert_eq!(c.get_layers_to_show(), vec![true, true]);
}

#[test]
fn delete_last_layer_pulls_active_layer_down() {
    let mut c = Canvas::new(4, 4);
    c.add_layer();
    c.add_layer();
    c.set_active_layer(2);
    c.delete_layer(2);
    assert_eq!(c.get_active_layer(), 1);
    assert_eq!(c.get_num_layers(), 2);
}

#[test]
fn delete_middle_layer_shifts_contents_down() {
    let mut c = Canvas::new(4, 4);
    c.add_layer();
    c.add_layer();
    c.set_active_layer(2);
    assert_eq!(c.set_pixel_from_pixel_coords((3, 3), blue()), Ok(()));
    c.set_active_layer(0);
    c.delete_layer(1);
    assert_eq!(c.get_num_layers(), 2);
    // The former layer 2 is now layer 1.
    assert_eq!(c.get_pixel(3, 3, 1), Some(blue()));
}

#[test]
fn toggle_visibility_drops_hidden_blocks_from_unhidden_squares() {
    let mut c = Canvas::new(4, 4);
    c.add_layer();
    c.update_squares();
    assert_eq!(c.get_squares().len(), 4 * 4 * 3);
    assert_eq!(c.get_squares_unhidden().len(), 4 * 4 * 3);
    c.toggle_layer_visibility(0);
    assert_eq!(c.get_squares_unhidden().len(), 4 * 4 * 2);
    c.toggle_layer_visibility(0);
    assert_eq!(c.get_squares_unhidden().len(), 4 * 4 * 3);
}

#[test]
fn rgba_buffer_composites_topmost_nonzero_alpha() {
    let mut c = Canvas::new(2, 2);
    assert_eq!(c.set_pixel_from_pixel_coords((0, 0), red()), Ok(()));
    assert_eq!(c.set_pixel_from_pixel_coords((1, 0), semi(0)), Ok(()));
    c.add_layer();
    c.set_active_layer(1);
    // Covers (0, 0) on top of red; leaves (1, 0) transparent above.
    assert_eq!(c.set_pixel_from_pixel_coords((0, 0), blue()), Ok(()));
    let buf = c.get_rgba_buffer();
    assert_eq!(buf.len(), 2 * 2 * 4);
    // (0, 0): blue from the upper layer.
    assert_eq!(buf[0..4].to_vec(), vec![0, 0, 255, 255]);
    // (1, 0): upper layer transparent, bottom layer written as-is.
    assert_eq!(buf[4..8].to_vec(), vec![10, 20, 30, 0]);
    // (0, 1): untouched, transparent black.
    assert_eq!(buf[8..12].to_vec(), vec![0, 0, 0, 0]);
}

#[test]
fn rgba_buffer_ignores_visibility_flags() {
    let mut c = Canvas::new(2, 2);
    assert_eq!(c.set_pixel_from_pixel_coords((0, 0), red()), Ok(()));
    c.toggle_layer_visibility(0);
    let buf = c.get_rgba_buffer();
    assert_eq!(buf[0..4].to_vec(), vec![255, 0, 0, 255]);
}

#[test]
fn circle_brush_preview_has_disc_squares() {
    let c = Canvas::new(8, 8);
    let brush = c.get_circle_brush(ScreenPos { x: 0, y: 0 }, 2);
    // dx*dx + dy*dy < 4 has nine solutions.
    assert_eq!(brush.len(), 9);
    for sq in &brush {
        assert_eq!(sq.color, Color::highlight());
        assert_eq!(sq.size, 10_000);
    }
    // First square in visiting order is (dx, dy) = (-1, -1), pixel (3, 3) of
    // the 8x8 grid (pan anchor 4): screen (-10000, -10000).
    assert_eq!(brush[0].x, -10_000);
    assert_eq!(brush[0].y, -10_000);
}

#[test]
fn rect_brush_preview_spans_corners() {
    let c = Canvas::new(8, 8);
    let rect = c.get_rect_brush(
        ScreenPos { x: 0, y: 0 },
        ScreenPos { x: 20_000, y: 10_000 },
    );
    // Pixels (4,4) to (6,5); the highlight covers through the far edges.
    assert_eq!(rect.min.x, 0);
    assert_eq!(rect.min.y, 0);
    assert_eq!(rect.max.x, 30_000);
    assert_eq!(rect.max.y, 20_000);
    assert_eq!(rect.color, Color::highlight());
}

#[test]
fn new_file_modal_activates() {
    let mut m = NewFileModal::default();
    assert!(!m.is_active());
    m.activate();
    assert!(m.is_active());
    assert_eq!(m.width, 32);
    assert_eq!(m.height, 32);
}

#[test]
fn file_interactions_start_without_dialog() {
    let f = FileInteractions::new();
    assert!(!f.show_save_dialog);
    let d = FileInteractions::default();
    assert!(!d.show_save_dialog);
}
