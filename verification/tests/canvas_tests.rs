use ruxel::camera::{ScreenPos, SUBPIXEL};
use ruxel::canvas::{Canvas, CanvasError};
use ruxel::color::Color;

fn red() -> Color {
    Color { r: 255, g: 0, b: 0, a: 255 }
}

fn blue() -> Color {
    Color { r: 0, g: 0, b: 255, a: 255 }
}

fn green() -> Color {
    Color { r: 0, g: 255, b: 0, a: 255 }
}

#[test]
fn set_pixel_then_get_pixel_returns_written_color() {
    let mut c = Canvas::new(8, 8);
    assert_eq!(c.set_pixel_from_pixel_coords((3, 5), red()), Ok(()));
    assert_eq!(c.get_pixel(3, 5, 0), Some(red()));
    assert_eq!(c.get_pixel(3, 4, 0), Some(Color::transparent()));
}

#[test]
fn set_pixel_out_of_bounds_fails_and_changes_nothing() {
    let mut c = Canvas::new(4, 4);
    assert_eq!(
        c.set_pixel_from_pixel_coords((4, 0), red()),
        Err(CanvasError::OutOfBounds)
    );
    for x in 0..4 {
        for y in 0..4 {
            assert_eq!(c.get_pixel(x, y, 0), Some(Color::transparent()));
        }
    }
}

#[test]
fn set_pixel_from_screen_cords_uses_camera_transform() {
    // A fresh 4x4 canvas has square size 10 and its pan anchor on pixel 2,
    // so screen x in [-20000, -10001) sub-units maps to pixel column 0.
    let mut c = Canvas::new(4, 4);
    let pos = ScreenPos { x: -20000, y: -20000 };
    assert_eq!(c.set_pixel_from_screen_cords(pos, red()), Ok(()));
    assert_eq!(c.get_pixel(0, 0, 0), Some(red()));
}

#[test]
fn set_pixel_from_screen_cords_off_canvas() {
    let mut c = Canvas::new(4, 4);
    // Maps to pixel -1.
    let pos = ScreenPos { x: -30000, y: 0 };
    assert_eq!(
        c.set_pixel_from_screen_cords(pos, red()),
        Err(CanvasError::OffCanvas)
    );
    // Maps to pixel 4, past the 4-wide grid.
    let pos = ScreenPos { x: 20000, y: 0 };
    assert_eq!(
        c.set_pixel_from_screen_cords(pos, red()),
        Err(CanvasError::OutOfBounds)
    );
}

#[test]
fn get_pixel_from_screen_cords_reads_back() {
    let mut c = Canvas::new(4, 4);
    assert_eq!(c.set_pixel_from_pixel_coords((1, 1), green()), Ok(()));
    let pos = ScreenPos { x: -10000, y: -10000 };
    assert_eq!(c.get_pixel_from_screen_cords(pos, 0), Some(green()));
    let off = ScreenPos { x: -30000, y: 0 };
    assert_eq!(c.get_pixel_from_screen_cords(off, 0), None);
}

#[test]
fn brush_radius_one_paints_single_pixel() {
    let mut c = Canvas::new(8, 8);
    // Pan anchor of an 8x8 canvas sits on pixel 4; screen origin maps to (4, 4).
    c.set_pixels_from_brush(ScreenPos { x: 0, y: 0 }, 1, red());
    for x in 0..8 {
        for y in 0..8 {
            let expected = if (x, y) == (4, 4) { red() } else { Color::transparent() };
            assert_eq!(c.get_pixel(x, y, 0), Some(expected), "at {} {}", x, y);
        }
    }
}

#[test]
fn brush_radius_two_paints_disc() {
    let mut c = Canvas::new(8, 8);
    c.set_pixels_from_brush(ScreenPos { x: 0, y: 0 }, 2, red());
    // dx*dx + dy*dy < 4 around (4, 4): center, the four axis neighbors and
    // the four diagonals.
    let mut painted = 0;
    for x in 0..8i64 {
        for y in 0..8i64 {
            let dx = x - 4;
            let dy = y - 4;
            let expected = if dx * dx + dy * dy < 4 { red() } else { Color::transparent() };
            assert_eq!(c.get_pixel(x as usize, y as usize, 0), Some(expected));
            if dx * dx + dy * dy < 4 {
                painted += 1;
            }
        }
    }
    assert_eq!(painted, 9);
}

#[test]
fn brush_clips_at_grid_edge() {
    let mut c = Canvas::new(4, 4);
    // Center on pixel (0, 0): the parts of the disc at negative coordinates
    // are skipped silently.
    c.set_pixels_from_brush(ScreenPos { x: -20000, y: -20000 }, 2, blue());
    assert_eq!(c.get_pixel(0, 0, 0), Some(blue()));
    assert_eq!(c.get_pixel(1, 0, 0), Some(blue()));
    assert_eq!(c.get_pixel(0, 1, 0), Some(blue()));
    assert_eq!(c.get_pixel(1, 1, 0), Some(blue()));
    assert_eq!(c.get_pixel(2, 0, 0), Some(Color::transparent()));
}

#[test]
fn rect_brush_fills_inclusive_rectangle() {
    let mut c = Canvas::new(8, 8);
    // Corners under screen (0,0) and (20000, 10000): pixels (4,4) and (6,5).
    c.set_pixels_from_rect_brush(
        ScreenPos { x: 0, y: 0 },
        ScreenPos { x: 20000, y: 10000 },
        green(),
    );
    for x in 0..8 {
        for y in 0..8 {
            let expected = if (4..=6).contains(&x) && (4..=5).contains(&y) {
                green()
            } else {
                Color::transparent()
            };
            assert_eq!(c.get_pixel(x, y, 0), Some(expected), "at {} {}", x, y);
        }
    }
}

#[test]
fn zoom_clamps_low_and_high() {
    let mut c = Canvas::new(4, 4);
    // Starting square size is 10: repeated zoom by 0.01 never drops below 2.
    for _ in 0..5 {
        c.zoom(1, 100);
    }
    assert_eq!(c.get_squares()[0].size, 2 * SUBPIXEL as i64);
    // Repeated zoom by 100 never exceeds 100.
    for _ in 0..5 {
        c.zoom(100, 1);
    }
    assert_eq!(c.get_squares()[0].size, 100 * SUBPIXEL as i64);
}

#[test]
fn moving_the_viewport_center_shifts_the_squares() {
    let mut c = Canvas::new(4, 4);
    c.set_screen_center(ScreenPos { x: 5_000, y: 5_000 });
    c.update_squares();
    // Pixel (0, 0) with pan anchor 2 and square size 10 sits at
    // (0 - 2) * 10000 + 5000 = -15000 from the new center.
    let sq = c.get_squares()[0];
    assert_eq!(sq.x, -15_000);
    assert_eq!(sq.y, -15_000);
}

#[test]
fn zoom_ceils_to_next_whole_pixel() {
    let mut c = Canvas::new(4, 4);
    // 10 * 0.25 = 2.5, rounded up to 3.
    c.zoom(1, 4);
    let squares = c.get_squares();
    assert_eq!(squares[0].size, 3 * SUBPIXEL as i64);
}

#[test]
fn scroll_clamps_pan_to_grid() {
    let mut c = Canvas::new(4, 4);
    // A huge drag to the right pushes the pan anchor to its lower clamp 0;
    // afterwards the screen origin maps to pixel (0, 0).
    c.scroll(1_000_000, 1_000_000);
    assert_eq!(c.get_pixel_from_screen_cords(ScreenPos { x: 0, y: 0 }, 0).is_some(), true);
    let mut c2 = Canvas::new(4, 4);
    assert_eq!(c2.set_pixel_from_pixel_coords((0, 0), red()), Ok(()));
    c2.scroll(1_000_000, 1_000_000);
    assert_eq!(c2.get_pixel_from_screen_cords(ScreenPos { x: 0, y: 0 }, 0), Some(red()));
}

#[test]
fn round_coords_rounds_to_interval() {
    // 17.3 screen pixels rounded to an interval of 5 pixels is 15; -12.5
    // rounds up to -10.
    let r = Canvas::round_coords(ScreenPos { x: 17_300, y: -12_500 }, 5);
    assert_eq!(r.x, 15_000);
    assert_eq!(r.y, -10_000);
}

#[test]
fn update_squares_places_pixel_squares_by_camera() {
    let mut c = Canvas::new(4, 4);
    assert_eq!(c.set_pixel_from_pixel_coords((1, 2), red()), Ok(()));
    c.update_squares();
    let squares = c.get_squares();
    // Cache layout: 16 checkerboard entries first, then layer 0. Entry for
    // pixel (1, 2) sits at 16 + 1 + 2*4 = 25. Pan anchor is pixel 2, square
    // size 10: screen x = (1-2)*10000 = -10000, y = (2-2)*10000 = 0.
    let sq = squares[25];
    assert_eq!(sq.color, red());
    assert_eq!(sq.x, -10_000);
    assert_eq!(sq.y, 0);
    assert_eq!(sq.size, 10_000);
}

#[test]
fn checkerboard_alternates_by_alpha_ratio() {
    let mut c = Canvas::new(20, 20);
    c.update_squares();
    let squares = c.get_squares();
    // Cells (0,0) and (8,0) fall in different checkerboard halves.
    let a = squares[0];
    let b = squares[8];
    assert_eq!(a.color, Color::dark_gray());
    assert_eq!(b.color, Color::light_gray());
}

#[test]
fn stroke_color_round_trip() {
    let mut c = Canvas::new(4, 4);
    assert_eq!(c.get_stroke(), Color::transparent());
    c.new_stroke_color(red());
    assert_eq!(c.get_stroke(), red());
    c.change_stroke(blue());
    assert_eq!(c.get_stroke(), blue());
}
