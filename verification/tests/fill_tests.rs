use ruxel::camera::ScreenPos;
use ruxel::canvas::{Canvas, CanvasError};
use ruxel::color::Color;

fn red() -> Color {
    Color { r: 255, g: 0, b: 0, a: 255 }
}

fn blue() -> Color {
    Color { r: 0, g: 0, b: 255, a: 255 }
}

fn grey() -> Color {
    Color { r: 128, g: 128, b: 128, a: 255 }
}

/// Screen position over pixel (x, y) of a 4x4 canvas fresh from `new`:
/// square size 10, pan anchor on pixel 2, screen center at the origin.
fn over_4x4(x: i64, y: i64) -> ScreenPos {
    ScreenPos { x: (x - 2) * 10_000, y: (y - 2) * 10_000 }
}

#[test]
fn fill_with_same_color_fails_and_leaves_grid_unmodified() {
    let mut c = Canvas::new(4, 4);
    assert_eq!(c.set_pixel_from_pixel_coords((1, 1), red()), Ok(()));
    assert_eq!(
        c.fill(over_4x4(1, 1), red(), red()),
        Err(CanvasError::SameColor)
    );
    assert_eq!(c.get_pixel(1, 1, 0), Some(red()));
    assert_eq!(c.get_pixel(0, 0, 0), Some(Color::transparent()));
}

#[test]
fn fill_outside_canvas_fails() {
    let mut c = Canvas::new(4, 4);
    assert_eq!(
        c.fill(over_4x4(-1, 0), Color::transparent(), red()),
        Err(CanvasError::OffCanvas)
    );
    assert_eq!(
        c.fill(over_4x4(4, 0), Color::transparent(), red()),
        Err(CanvasError::OffCanvas)
    );
}

#[test]
fn fill_recolors_two_by_two_block() {
    // 4x4 canvas, 1 layer, all transparent. Paint a 2x2 red block, flood it
    // with blue from (1, 1): exactly those four pixels turn blue and (0, 0)
    // stays transparent.
    let mut c = Canvas::new(4, 4);
    assert_eq!(c.set_pixel_from_pixel_coords((1, 1), red()), Ok(()));
    assert_eq!(c.set_pixel_from_pixel_coords((2, 1), red()), Ok(()));
    assert_eq!(c.set_pixel_from_pixel_coords((1, 2), red()), Ok(()));
    assert_eq!(c.set_pixel_from_pixel_coords((2, 2), red()), Ok(()));

    assert_eq!(c.fill(over_4x4(1, 1), red(), blue()), Ok(()));

    for x in 0..4 {
        for y in 0..4 {
            let expected = if (1..=2).contains(&x) && (1..=2).contains(&y) {
                blue()
            } else {
                Color::transparent()
            };
            assert_eq!(c.get_pixel(x, y, 0), Some(expected), "at {} {}", x, y);
        }
    }
    assert_eq!(c.get_pixel(0, 0, 0), Some(Color::transparent()));
}

#[test]
fn fill_enclosed_region_stops_at_border() {
    // An 8x8 grid: a grey ring around a red interior. Filling the interior
    // recolors exactly the enclosed red region; the grey border and the
    // outside stay as they were.
    let mut c = Canvas::new(8, 8);
    for i in 1..=5usize {
        assert_eq!(c.set_pixel_from_pixel_coords((i, 1), grey()), Ok(()));
        assert_eq!(c.set_pixel_from_pixel_coords((i, 5), grey()), Ok(()));
        assert_eq!(c.set_pixel_from_pixel_coords((1, i), grey()), Ok(()));
        assert_eq!(c.set_pixel_from_pixel_coords((5, i), grey()), Ok(()));
    }
    for x in 2..=4usize {
        for y in 2..=4usize {
            assert_eq!(c.set_pixel_from_pixel_coords((x, y), red()), Ok(()));
        }
    }
    // Screen position over pixel (3, 3) of an 8x8 canvas (pan anchor 4).
    let pos = ScreenPos { x: -10_000, y: -10_000 };
    assert_eq!(c.fill(pos, red(), blue()), Ok(()));

    for x in 0..8usize {
        for y in 0..8usize {
            let inside = (2..=4).contains(&x) && (2..=4).contains(&y);
            let on_ring = !inside
                && (1..=5).contains(&x)
                && (1..=5).contains(&y)
                && (x == 1 || x == 5 || y == 1 || y == 5);
            let expected = if inside {
                blue()
            } else if on_ring {
                grey()
            } else {
                Color::transparent()
            };
            assert_eq!(c.get_pixel(x, y, 0), Some(expected), "at {} {}", x, y);
        }
    }
}

#[test]
fn fill_does_not_leak_through_diagonal_gaps() {
    // Two red cells touching only diagonally: 4-connected fill recolors only
    // the seed's component.
    let mut c = Canvas::new(4, 4);
    assert_eq!(c.set_pixel_from_pixel_coords((1, 1), red()), Ok(()));
    assert_eq!(c.set_pixel_from_pixel_coords((2, 2), red()), Ok(()));
    assert_eq!(c.fill(over_4x4(1, 1), red(), blue()), Ok(()));
    assert_eq!(c.get_pixel(1, 1, 0), Some(blue()));
    assert_eq!(c.get_pixel(2, 2, 0), Some(red()));
}

#[test]
fn fill_seed_without_target_color_changes_nothing() {
    let mut c = Canvas::new(4, 4);
    assert_eq!(c.set_pixel_from_pixel_coords((1, 1), red()), Ok(()));
    // Seed (0, 0) is transparent, not red: the fill is a no-op but reports Ok.
    assert_eq!(c.fill(over_4x4(0, 0), red(), blue()), Ok(()));
    assert_eq!(c.get_pixel(1, 1, 0), Some(red()));
    assert_eq!(c.get_pixel(0, 0, 0), Some(Color::transparent()));
}

#[test]
fn fill_only_touches_active_layer() {
    let mut c = Canvas::new(4, 4);
    c.add_layer();
    c.set_active_layer(0);
    assert_eq!(c.set_pixel_from_pixel_coords((1, 1), red()), Ok(()));
    c.set_active_layer(1);
    assert_eq!(c.set_pixel_from_pixel_coords((1, 1), red()), Ok(()));
    assert_eq!(c.fill(over_4x4(1, 1), red(), blue()), Ok(()));
    assert_eq!(c.get_pixel(1, 1, 1), Some(blue()));
    assert_eq!(c.get_pixel(1, 1, 0), Some(red()));
}
