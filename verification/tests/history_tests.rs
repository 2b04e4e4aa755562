use ruxel::canvas::Canvas;
use ruxel::change_manager::ChangeManager;
use ruxel::color::Color;

fn red() -> Color {
    Color { r: 255, g: 0, b: 0, a: 255 }
}

fn blue() -> Color {
    Color { r: 0, g: 0, b: 255, a: 255 }
}

#[test]
fn snapshot_restore_is_noop_on_observable_state() {
    let mut c = Canvas::new(6, 6);
    c.add_layer();
    c.set_active_layer(1);
    assert_eq!(c.set_pixel_from_pixel_coords((2, 3), red()), Ok(()));
    c.toggle_layer_visibility(0);
    let s = c.create_state();
    c.load_state(&s);
    assert_eq!(c.get_num_layers(), 2);
    assert_eq!(c.get_active_layer(), 1);
    assert_eq!(c.get_pixel(2, 3, 1), Some(red()));
    assert_eq!(c.get_pixel(2, 3, 0), Some(Color::transparent()));
    assert_eq!(c.get_layers_to_show(), vec![false, true]);
    assert_eq!(c.get_layer_name(0), 0);
    assert_eq!(c.get_layer_name(1), 1);
}

#[test]
fn undo_after_commit_restores_prior_state() {
    let mut c = Canvas::new(4, 4);
    let s0 = c.create_state();
    let mut cm = ChangeManager::new(s0);

    assert_eq!(c.set_pixel_from_pixel_coords((1, 1), red()), Ok(()));
    cm.push_new_state(c.create_state());
    assert_eq!(c.set_pixel_from_pixel_coords((2, 2), blue()), Ok(()));
    cm.push_new_state(c.create_state());

    assert!(!cm.is_undo_empty());
    let prev = cm.undo();
    c.load_state(prev);
    assert_eq!(c.get_pixel(1, 1, 0), Some(red()));
    assert_eq!(c.get_pixel(2, 2, 0), Some(Color::transparent()));
}

#[test]
fn redo_after_undo_restores_undone_state() {
    let mut c = Canvas::new(4, 4);
    let mut cm = ChangeManager::new(c.create_state());

    assert_eq!(c.set_pixel_from_pixel_coords((1, 1), red()), Ok(()));
    cm.push_new_state(c.create_state());

    cm.undo();
    assert!(!cm.is_redo_empty());
    let next = cm.redo();
    c.load_state(next);
    assert_eq!(c.get_pixel(1, 1, 0), Some(red()));
}

#[test]
fn commit_after_undo_clears_redo() {
    let mut c = Canvas::new(4, 4);
    let mut cm = ChangeManager::new(c.create_state());

    assert_eq!(c.set_pixel_from_pixel_coords((0, 0), red()), Ok(()));
    cm.push_new_state(c.create_state()); // commit A
    assert_eq!(c.set_pixel_from_pixel_coords((1, 0), red()), Ok(()));
    cm.push_new_state(c.create_state()); // commit B

    cm.undo(); // current = A, redo = [B]
    assert!(!cm.is_redo_empty());

    assert_eq!(c.set_pixel_from_pixel_coords((2, 0), blue()), Ok(()));
    cm.push_new_state(c.create_state()); // commit C
    assert!(cm.is_redo_empty());
}

#[test]
fn undo_stack_never_exceeds_fifteen_entries() {
    let mut c = Canvas::new(4, 4);
    let mut cm = ChangeManager::new(c.create_state());
    for i in 0..20 {
        assert_eq!(c.set_pixel_from_pixel_coords((i % 4, (i / 4) % 4), red()), Ok(()));
        cm.push_new_state(c.create_state());
    }
    let mut undos = 0;
    while !cm.is_undo_empty() {
        cm.undo();
        undos += 1;
    }
    assert_eq!(undos, 15);
}

#[test]
fn redo_stack_is_bounded_too() {
    let mut c = Canvas::new(4, 4);
    let mut cm = ChangeManager::new(c.create_state());
    for i in 0..20 {
        assert_eq!(c.set_pixel_from_pixel_coords((i % 4, (i / 4) % 4), red()), Ok(()));
        cm.push_new_state(c.create_state());
    }
    while !cm.is_undo_empty() {
        cm.undo();
    }
    let mut redos = 0;
    while !cm.is_redo_empty() {
        cm.redo();
        redos += 1;
    }
    assert_eq!(redos, 15);
}

#[test]
fn current_follows_commits() {
    let mut c = Canvas::new(4, 4);
    let mut cm = ChangeManager::new(c.create_state());
    assert_eq!(c.set_pixel_from_pixel_coords((3, 3), blue()), Ok(()));
    let s = c.create_state();
    let expected_pixels = s.pixels.clone();
    cm.push_new_state(s);
    assert_eq!(cm.current().pixels, expected_pixels);
}
