use chip8::{Screen, CHIP8_FB_H, CHIP8_FB_W};

#[test]
fn new_screen_is_blank_and_inverted() {
    let mut s = Screen::new();
    assert_eq!(s.data().len(), CHIP8_FB_W * CHIP8_FB_H);
    assert!(s.data().iter().all(|&p| p == 0));
    assert_eq!(s.dims(), (64, 32));
    assert_eq!(s.width(), 64);
    assert_eq!(s.height(), 32);
    // Rows are counted from the last row of the buffer.
    s.xor_pixel((0, 0), 1);
    assert_eq!(s.data()[31 * 64], 1);
}

#[test]
fn xor_pixel_reports_collision_iff_both_nonzero() {
    let mut s = Screen::new();
    assert!(!s.xor_pixel((5, 6), 0xFFFF_FFFF));
    assert!(s.xor_pixel((5, 6), 0xFFFF_FFFF));
    assert!(!s.xor_pixel((5, 6), 0));
    s.xor_pixel((5, 6), 0x10);
    assert!(!s.xor_pixel((5, 6), 0));
    assert!(s.xor_pixel((5, 6), 0x01));
}

#[test]
fn xor_pixel_twice_restores_the_pixel() {
    let mut s = Screen::new();
    s.set_inverted_y(false);
    s.set_pixel((10, 20), 0x1234_5678);
    let before: Vec<u32> = s.data().to_vec();
    s.xor_pixel((10, 20), 0xFFFF_FFFF);
    assert_eq!(s.data()[20 * 64 + 10], !0x1234_5678u32);
    s.xor_pixel((10, 20), 0xFFFF_FFFF);
    assert_eq!(s.data(), &before[..]);
}

#[test]
fn clear_fills_every_pixel() {
    let mut s = Screen::new();
    s.xor_pixel((1, 1), 7);
    s.xor_pixel((63, 31), 9);
    s.clear(0);
    assert!(s.data().iter().all(|&p| p == 0));
    s.clear(0xAABB_CCDD);
    assert!(s.data().iter().all(|&p| p == 0xAABB_CCDD));
    assert_eq!(s.data().len(), 2048);
}

#[test]
fn inversion_flips_rows_only() {
    let mut s = Screen::new();
    s.set_inverted_y(true);
    s.xor_pixel((3, 0), 1);
    s.xor_pixel((3, 31), 2);
    s.xor_pixel((63, 10), 3);
    assert_eq!(s.data()[31 * 64 + 3], 1);
    assert_eq!(s.data()[3], 2);
    assert_eq!(s.data()[21 * 64 + 63], 3);
    let mut t = Screen::new();
    t.set_inverted_y(false);
    t.xor_pixel((3, 0), 1);
    t.xor_pixel((3, 31), 2);
    t.xor_pixel((63, 10), 3);
    assert_eq!(t.data()[3], 1);
    assert_eq!(t.data()[31 * 64 + 3], 2);
    assert_eq!(t.data()[10 * 64 + 63], 3);
}

#[test]
fn set_inverted_y_keeps_the_buffer() {
    let mut s = Screen::new();
    s.xor_pixel((4, 4), 5);
    let before: Vec<u32> = s.data().to_vec();
    s.set_inverted_y(false);
    assert_eq!(s.data(), &before[..]);
}

#[test]
fn set_pixel_overwrites_by_buffer_row() {
    let mut s = Screen::new();
    s.set_pixel((2, 3), 0xDEAD_BEEF);
    assert_eq!(s.data()[3 * 64 + 2], 0xDEAD_BEEF);
    s.set_pixel((2, 3), 1);
    assert_eq!(s.data()[3 * 64 + 2], 1);
    assert_eq!(s.data().iter().filter(|&&p| p != 0).count(), 1);
    // With inverted rows the logical pixel of that place is on row 28.
    assert!(s.xor_pixel((2, 28), 1));
    assert_eq!(s.data()[3 * 64 + 2], 0);
}

#[test]
fn corners_are_inside() {
    let mut s = Screen::new();
    s.xor_pixel((0, 0), 1);
    s.xor_pixel((63, 0), 2);
    s.xor_pixel((0, 31), 3);
    s.xor_pixel((63, 31), 4);
    assert_eq!(s.data()[31 * 64], 1);
    assert_eq!(s.data()[31 * 64 + 63], 2);
    assert_eq!(s.data()[0], 3);
    assert_eq!(s.data()[63], 4);
}
