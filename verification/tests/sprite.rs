use chip8::sprite::draw_sprite;
use chip8::{Chip8Cpu, Chip8Peripherals, Insn, Screen};

const LIT: u32 = 0xFFFF_FFFF;

fn lit_pixels(s: &Screen) -> Vec<(usize, usize)> {
    let mut v = Vec::new();
    for (k, &p) in s.data().iter().enumerate() {
        if p != 0 {
            assert_eq!(p, LIT);
            v.push((k % 64, k / 64));
        }
    }
    v
}

#[test]
fn draws_msb_leftmost() {
    let mut s = Screen::new();
    s.set_inverted_y(false);
    let mut mem = [0u8; 4096];
    mem[0x300] = 0b1010_0001;
    assert!(!draw_sprite(&mut s, &mem, 0x300, 1, 4, 2));
    assert_eq!(lit_pixels(&s), vec![(4, 2), (6, 2), (11, 2)]);
}

#[test]
fn drawing_twice_erases_and_collides() {
    let mut s = Screen::new();
    let mut mem = [0u8; 4096];
    mem[0x300] = 0xFF;
    mem[0x301] = 0x81;
    assert!(!draw_sprite(&mut s, &mem, 0x300, 2, 10, 10));
    assert_eq!(lit_pixels(&s).len(), 10);
    assert!(draw_sprite(&mut s, &mem, 0x300, 2, 10, 10));
    assert!(lit_pixels(&s).is_empty());
}

#[test]
fn wraps_around_both_edges() {
    let mut s = Screen::new();
    s.set_inverted_y(false);
    let mut mem = [0u8; 4096];
    mem[0] = 0xFF;
    mem[1] = 0xFF;
    assert!(!draw_sprite(&mut s, &mem, 0, 2, 60, 31));
    let mut expected = Vec::new();
    for y in [0usize, 31] {
        for x in [0usize, 1, 2, 3, 60, 61, 62, 63] {
            expected.push((x, y));
        }
    }
    expected.sort_by_key(|&(x, y)| y * 64 + x);
    assert_eq!(lit_pixels(&s), expected);
}

#[test]
fn coordinates_wrap_modulo_the_display() {
    let mut a = Screen::new();
    let mut b = Screen::new();
    let mut mem = [0u8; 4096];
    mem[0] = 0xC3;
    draw_sprite(&mut a, &mem, 0, 1, 64 + 5, 32 + 7);
    draw_sprite(&mut b, &mem, 0, 1, 5, 7);
    assert_eq!(a.data(), b.data());
    let mut c = Screen::new();
    draw_sprite(&mut c, &mem, 0, 1, 255, 255);
    c.set_inverted_y(false);
    // Column 255 is column 63, row 255 is row 31, which the inverted
    // display keeps in the first row of the buffer.
    assert_eq!(lit_pixels(&c), vec![(0, 0), (5, 0), (6, 0), (63, 0)]);
}

#[test]
fn collision_only_where_a_lit_bit_meets_a_lit_pixel() {
    let mut s = Screen::new();
    s.set_inverted_y(false);
    let mut mem = [0u8; 4096];
    mem[0] = 0xF0;
    mem[1] = 0x0F;
    assert!(!draw_sprite(&mut s, &mem, 0, 1, 0, 0));
    // The second sprite's lit bits fall beside the lit pixels.
    assert!(!draw_sprite(&mut s, &mem, 1, 1, 0, 0));
    assert_eq!(lit_pixels(&s).len(), 8);
    // One column of overlap.
    assert!(draw_sprite(&mut s, &mem, 0, 1, 7, 0));
    assert_eq!(lit_pixels(&s), vec![
        (0, 0), (1, 0), (2, 0), (3, 0), (4, 0), (5, 0), (6, 0), (8, 0), (9, 0), (10, 0)
    ]);
}

#[test]
fn empty_sprite_draws_nothing() {
    let mut s = Screen::new();
    let mem = [0xFFu8; 4096];
    assert!(!draw_sprite(&mut s, &mem, 0, 0, 3, 3));
    assert!(lit_pixels(&s).is_empty());
    assert!(!draw_sprite(&mut s, &mem, 4096, 0, 3, 3));
}

#[test]
fn inverts_pixels_of_any_colour() {
    let mut s = Screen::new();
    s.set_inverted_y(false);
    s.set_pixel((0, 0), 0x0000_00FF);
    let mut mem = [0u8; 4096];
    mem[0] = 0x80;
    assert!(draw_sprite(&mut s, &mem, 0, 1, 0, 0));
    assert_eq!(s.data()[0], 0xFFFF_FF00);
}

#[test]
fn draw_instruction_sets_the_collision_flag() {
    let mut cpu = Chip8Cpu::new(0x200);
    let mut p = Chip8Peripherals::new();
    p.screen.set_inverted_y(false);
    cpu.write_gpr(1, 8);
    cpu.write_gpr(2, 4);
    cpu.write_gpr(3, 0);
    assert_eq!(cpu.exec_insn(Insn::SpriteLoc(3), &mut p), Ok(None));
    cpu.write_vf(9);
    assert_eq!(cpu.exec_insn(Insn::DrawSprite(1, 2, 5), &mut p), Ok(None));
    assert_eq!(cpu.read_gpr(15), 0);
    // The glyph of the digit 0: F0 90 90 90 F0.
    let mut expected = Vec::new();
    for (dy, row) in [0xF0u8, 0x90, 0x90, 0x90, 0xF0].iter().enumerate() {
        for dx in 0..8 {
            if row & (0x80 >> dx) != 0 {
                expected.push((8 + dx, 4 + dy));
            }
        }
    }
    assert_eq!(lit_pixels(&p.screen), expected);
    assert_eq!(cpu.exec_insn(Insn::DrawSprite(1, 2, 5), &mut p), Ok(None));
    assert_eq!(cpu.read_gpr(15), 1);
    assert!(lit_pixels(&p.screen).is_empty());
}
