use chip8::display::Display;
use chip8::display::ON_COLOR;

#[test]
fn toggle_turns_pixel_on_then_off() {
    let mut d = Display::new();
    let first = d.set_pixel(3, 5);
    assert!(!first);
    let snap = d.snapshot();
    assert!(snap[5 * 64 + 3]);
    let second = d.set_pixel(3, 5);
    assert!(second);
    let snap = d.snapshot();
    assert!(!snap[5 * 64 + 3]);
}

#[test]
fn wraparound_64_0_behaves_as_0_0() {
    let mut d = Display::new();
    let first = d.set_pixel(64, 0);
    assert!(!first);
    assert!(d.snapshot()[0]);
    // The second toggle lands on the same cell, so it reports a collision.
    let second = d.set_pixel(0, 0);
    assert!(second);
    assert!(!d.snapshot()[0]);
}

#[test]
fn wraparound_on_y_axis() {
    let mut d = Display::new();
    d.set_pixel(7, 32);
    assert!(d.snapshot()[7]);
    let coll = d.set_pixel(7, 0);
    assert!(coll);
}

#[test]
fn clear_turns_every_cell_off() {
    let mut d = Display::new();
    d.set_pixel(0, 0);
    d.set_pixel(63, 31);
    d.set_pixel(10, 20);
    d.clear();
    let snap = d.snapshot();
    assert_eq!(snap.len(), 2048);
    assert!(snap.iter().all(|p| !p));
}

#[test]
fn snapshot_has_one_cell_per_pixel() {
    let d = Display::new();
    assert_eq!(d.snapshot().len(), 64 * 32);
}

#[test]
fn render_at_scale_one_maps_cells_to_colors() {
    let mut d = Display::new();
    d.set_pixel(0, 0);
    d.set_pixel(2, 1);
    let buf = d.render(1);
    assert_eq!(buf.len(), 2048);
    assert_eq!(buf[0], ON_COLOR);
    assert_eq!(buf[1], 0);
    assert_eq!(buf[64 + 2], ON_COLOR);
}

#[test]
fn render_replicates_blocks_at_scale_two() {
    let mut d = Display::new();
    d.set_pixel(1, 0);
    let buf = d.render(2);
    let width = 64 * 2;
    assert_eq!(buf.len(), width * 32 * 2);
    assert_eq!(buf[0], 0);
    assert_eq!(buf[2], ON_COLOR);
    assert_eq!(buf[3], ON_COLOR);
    assert_eq!(buf[width + 2], ON_COLOR);
    assert_eq!(buf[width + 3], ON_COLOR);
    assert_eq!(buf[width + 4], 0);
}

#[test]
fn draw_sprite_sets_bits_and_reports_no_collision_on_blank() {
    let mut d = Display::new();
    let mem: Vec<u8> = vec![0x80];
    let coll = d.draw_sprite(&mem, 0, 1, 0, 0);
    assert!(!coll);
    assert!(d.snapshot()[0]);
}

#[test]
fn draw_sprite_twice_restores_and_reports_collision() {
    let mut d = Display::new();
    let mem: Vec<u8> = vec![0xFF, 0x81];
    let first = d.draw_sprite(&mem, 0, 2, 5, 3);
    assert!(!first);
    let second = d.draw_sprite(&mem, 0, 2, 5, 3);
    assert!(second);
    assert!(d.snapshot().iter().all(|p| !p));
}

#[test]
fn draw_sprite_wraps_around_the_right_edge() {
    let mut d = Display::new();
    let mem: Vec<u8> = vec![0xC0];
    d.draw_sprite(&mem, 0, 1, 63, 0);
    let snap = d.snapshot();
    assert!(snap[63]);
    assert!(snap[0]);
}
