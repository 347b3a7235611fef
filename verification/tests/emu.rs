use chip8::cpu::{CpuError, CpuStatus};
use chip8::emu::EmuError;
use chip8::{Chip8Emulator, Chip8Peripherals, CHIP8_PERIPH_HZ};

const FONT: [u8; 80] = [
    0xF0, 0x90, 0x90, 0x90, 0xF0, 0x20, 0x60, 0x20, 0x20, 0x70, 0xF0, 0x10, 0xF0, 0x80, 0xF0, 0xF0,
    0x10, 0xF0, 0x10, 0xF0, 0x90, 0x90, 0xF0, 0x10, 0x10, 0xF0, 0x80, 0xF0, 0x10, 0xF0, 0xF0, 0x80,
    0xF0, 0x90, 0xF0, 0xF0, 0x10, 0x20, 0x40, 0x40, 0xF0, 0x90, 0xF0, 0x90, 0xF0, 0xF0, 0x90, 0xF0,
    0x10, 0xF0, 0xF0, 0x90, 0xF0, 0x90, 0x90, 0xE0, 0x90, 0xE0, 0x90, 0xE0, 0xF0, 0x80, 0x80, 0x80,
    0xF0, 0xE0, 0x90, 0x90, 0x90, 0xE0, 0xF0, 0x80, 0xF0, 0x80, 0xF0, 0xF0, 0x80, 0xF0, 0x80, 0x80,
];

/// A program that jumps to itself.
const SPIN: [u8; 2] = [0x12, 0x00];

#[test]
fn peripherals_at_power_on() {
    let p = Chip8Peripherals::new();
    assert_eq!(&p.memory[..80], &FONT[..]);
    assert!(p.memory[80..].iter().all(|&b| b == 0));
    assert!(p.screen.data().iter().all(|&px| px == 0));
    assert_eq!(p.keypad.first_key_pressed(), None);
    assert_eq!(p.delay_timer, 0);
    assert_eq!(p.sound_timer, 0);
}

#[test]
fn peripheral_tick_counts_down_to_zero() {
    let mut p = Chip8Peripherals::new();
    p.delay_timer = 2;
    p.sound_timer = 1;
    p.tick();
    assert_eq!((p.delay_timer, p.sound_timer), (1, 0));
    p.tick();
    assert_eq!((p.delay_timer, p.sound_timer), (0, 0));
    p.tick();
    assert_eq!((p.delay_timer, p.sound_timer), (0, 0));
}

#[test]
fn emulator_at_power_on() {
    let emu = Chip8Emulator::new(500);
    assert_eq!(emu.cpu().pc(), 0x200);
    assert_eq!(emu.cpu().cycles(), 0);
    assert_eq!(emu.cpu().status(), CpuStatus::Running);
    assert_eq!(&emu.peripherals().memory[..80], &FONT[..]);
    assert_eq!(emu.framebuffer_dims(), (64, 32));
    assert_eq!(emu.framebuffer().len(), 2048);
    assert!(emu.framebuffer().iter().all(|&px| px == 0));
    assert_eq!(emu.sound_timer(), 0);
    assert_eq!(emu.delay_timer(), 0);
    assert_eq!(CHIP8_PERIPH_HZ, 60);
}

#[test]
fn load_rom_copies_at_0x200() {
    let mut emu = Chip8Emulator::new(500);
    assert_eq!(emu.load_rom(&[1, 2, 3, 4, 5]), Ok(()));
    let mem = &emu.peripherals().memory;
    assert_eq!(&mem[0x200..0x206], &[1, 2, 3, 4, 5, 0]);
    assert_eq!(mem[0x1FF], 0);
    assert_eq!(&mem[..80], &FONT[..]);
    assert_eq!(emu.load_rom(&[9]), Ok(()));
    assert_eq!(&emu.peripherals().memory[0x200..0x206], &[9, 2, 3, 4, 5, 0]);
    assert_eq!(emu.load_rom(&[]), Ok(()));
    assert_eq!(&emu.peripherals().memory[0x200..0x206], &[9, 2, 3, 4, 5, 0]);
}

#[test]
fn load_rom_rejects_what_does_not_fit() {
    let mut emu = Chip8Emulator::new(500);
    let full = vec![0xAAu8; 4096 - 0x200];
    assert_eq!(emu.load_rom(&full), Ok(()));
    assert!(emu.peripherals().memory[0x200..].iter().all(|&b| b == 0xAA));
    assert_eq!(&emu.peripherals().memory[..80], &FONT[..]);
    let too_large = vec![0x55u8; 4096 - 0x200 + 1];
    assert_eq!(emu.load_rom(&too_large), Err(EmuError::RomTooLarge));
    assert!(emu.peripherals().memory[0x200..].iter().all(|&b| b == 0xAA));
}

#[test]
fn set_cpu_hz_rejects_below_peripheral_rate() {
    let mut emu = Chip8Emulator::new(500);
    emu.load_rom(&SPIN).unwrap();
    assert_eq!(emu.set_cpu_hz(59), Err(EmuError::InvalidCpuHz));
    assert_eq!(emu.set_cpu_hz(0), Err(EmuError::InvalidCpuHz));
    // Still 500 Hz: a second is worth 500 steps.
    assert_eq!(emu.advance_ms(1000), Ok(()));
    assert_eq!(emu.cpu().cycles(), 500);
    assert_eq!(emu.cpu_hz(), 500);
    assert_eq!(emu.set_cpu_hz(60), Ok(()));
    assert_eq!(emu.cpu_hz(), 60);
    assert_eq!(emu.advance_ms(1000), Ok(()));
    assert_eq!(emu.cpu().cycles(), 560);
    assert_eq!(emu.set_cpu_hz(1000), Ok(()));
    assert_eq!(emu.advance_ms(1), Ok(()));
    assert_eq!(emu.cpu().cycles(), 561);
}

#[test]
fn cycles_truncate_per_call() {
    let mut emu = Chip8Emulator::new(500);
    emu.load_rom(&SPIN).unwrap();
    let mut total = 0;
    for (ms, steps) in [(16u32, 8u64), (17, 8), (16, 8)] {
        assert_eq!(emu.advance_ms(ms), Ok(()));
        total += steps;
        assert_eq!(emu.cpu().cycles(), total);
    }
    assert_eq!(emu.cpu().cycles(), 24);
    assert_eq!(emu.advance_ms(1), Ok(()));
    assert_eq!(emu.cpu().cycles(), 24);
    assert_eq!(emu.advance_ms(0), Ok(()));
    assert_eq!(emu.cpu().cycles(), 24);
    assert_eq!(emu.advance_ms(2), Ok(()));
    assert_eq!(emu.cpu().cycles(), 25);
}

#[test]
fn large_products_do_not_wrap() {
    // 4_000_000 * 2_000 overflows 32 bits; the step count is 8_000_000.
    let mut emu = Chip8Emulator::new(4_000_000);
    emu.load_rom(&SPIN).unwrap();
    assert_eq!(emu.advance_ms(2_000), Ok(()));
    assert_eq!(emu.cpu().cycles(), 8_000_000);
}

#[test]
fn timers_tick_at_sixty_hertz() {
    // V0 = 200; delay = V0; sound = V0; spin.
    let rom = [0x60, 200, 0xF0, 0x15, 0xF0, 0x18, 0x12, 0x06];
    let mut emu = Chip8Emulator::new(600);
    emu.load_rom(&rom).unwrap();
    // 5 ms are 3 steps: the timers are set and no peripheral tick has come.
    assert_eq!(emu.advance_ms(5), Ok(()));
    assert_eq!(emu.delay_timer(), 200);
    assert_eq!(emu.sound_timer(), 200);
    // 600 more steps bring 60 peripheral ticks.
    assert_eq!(emu.advance_ms(1000), Ok(()));
    assert_eq!(emu.cpu().cycles(), 603);
    assert_eq!(emu.delay_timer(), 140);
    assert_eq!(emu.sound_timer(), 140);
}

#[test]
fn divider_is_exact_for_a_ratio_that_is_not_whole() {
    // At 100 Hz the peripherals tick on steps 2, 4, 5, 7, 9, 10, ...: 3 ticks
    // every 5 steps.
    let rom = [0x60, 100, 0xF0, 0x15, 0x12, 0x04];
    let mut emu = Chip8Emulator::new(100);
    emu.load_rom(&rom).unwrap();
    assert_eq!(emu.advance_ms(20), Ok(()));
    // Step 1 loads V0, step 2 sets the timer and then brings a tick.
    assert_eq!(emu.delay_timer(), 99);
    let mut seen = Vec::new();
    for _ in 0..10 {
        assert_eq!(emu.advance_ms(10), Ok(()));
        seen.push(emu.delay_timer());
    }
    assert_eq!(seen, vec![99, 98, 97, 97, 96, 96, 95, 94, 94, 93]);
}

#[test]
fn one_peripheral_tick_per_step_at_sixty_hertz() {
    let rom = [0x60, 50, 0xF0, 0x15, 0x12, 0x04];
    let mut emu = Chip8Emulator::new(60);
    emu.load_rom(&rom).unwrap();
    assert_eq!(emu.advance_ms(1000), Ok(()));
    assert_eq!(emu.cpu().cycles(), 60);
    // The timer is set on step 2 and ticks on that step and the 58 after it.
    assert_eq!(emu.delay_timer(), 0);
    let mut emu = Chip8Emulator::new(60);
    emu.load_rom(&rom).unwrap();
    assert_eq!(emu.advance_ms(200), Ok(()));
    assert_eq!(emu.cpu().cycles(), 12);
    assert_eq!(emu.delay_timer(), 50 - 11);
}

#[test]
fn fault_stops_the_call_and_keeps_what_was_done() {
    // V1 = 7, then a word that is no instruction.
    let rom = [0x61, 0x07, 0xFF, 0xFF, 0x62, 0x09];
    let mut emu = Chip8Emulator::new(1000);
    emu.load_rom(&rom).unwrap();
    assert_eq!(emu.advance_ms(10), Err(CpuError::InvalidInstruction));
    assert_eq!(emu.cpu().read_gpr(1), 7);
    assert_eq!(emu.cpu().read_gpr(2), 0);
    assert_eq!(emu.cpu().pc(), 0x202);
    assert_eq!(emu.cpu().cycles(), 2);
    assert_eq!(emu.advance_ms(10), Err(CpuError::InvalidInstruction));
    assert_eq!(emu.cpu().pc(), 0x202);
    assert_eq!(emu.cpu().cycles(), 3);
}

#[test]
fn fault_keeps_the_divider() {
    // At 100 Hz: step 1 accumulates 60, step 2 faults. After the host mends
    // the program the very next step brings the tick that was half due.
    let rom = [0x60, 9, 0xFF, 0xFF];
    let mut emu = Chip8Emulator::new(100);
    emu.load_rom(&rom).unwrap();
    assert_eq!(emu.advance_ms(100), Err(CpuError::InvalidInstruction));
    assert_eq!(emu.cpu().cycles(), 2);
    emu.load_rom(&[0x60, 9, 0xF0, 0x15, 0x12, 0x04]).unwrap();
    assert_eq!(emu.advance_ms(10), Ok(()));
    assert_eq!(emu.delay_timer(), 8);
}

#[test]
fn stack_overflow_through_the_emulator() {
    // call 0x200: the program calls itself for ever.
    let mut emu = Chip8Emulator::new(1000);
    emu.load_rom(&[0x22, 0x00]).unwrap();
    assert_eq!(emu.advance_ms(16), Ok(()));
    assert_eq!(emu.cpu().stack_depth(), 16);
    assert_eq!(emu.advance_ms(1), Err(CpuError::StackOverflow));
    assert_eq!(emu.cpu().stack_depth(), 16);
    assert_eq!(emu.cpu().cycles(), 17);
    let mut emu = Chip8Emulator::new(1000);
    emu.load_rom(&[0x00, 0xEE]).unwrap();
    assert_eq!(emu.advance_ms(1), Err(CpuError::PopEmptyStack));
}

#[test]
fn memory_fault_when_running_off_the_end() {
    let mut emu = Chip8Emulator::new(1000);
    emu.load_rom(&[0x1F, 0xFE]).unwrap();
    emu.peripherals_mut().memory[0xFFE] = 0x00;
    emu.peripherals_mut().memory[0xFFF] = 0xE0;
    assert_eq!(emu.advance_ms(10), Err(CpuError::MemoryError));
    assert_eq!(emu.cpu().pc(), 0x1000);
    assert_eq!(emu.cpu().cycles(), 3);
}

#[test]
fn wait_for_key_stalls_until_a_key_is_down() {
    // V5 = key; spin.
    let rom = [0xF5, 0x0A, 0x12, 0x02];
    let mut emu = Chip8Emulator::new(500);
    emu.load_rom(&rom).unwrap();
    for _ in 0..5 {
        assert_eq!(emu.advance_ms(16), Ok(()));
        assert_eq!(emu.cpu().pc(), 0x200);
        assert_eq!(emu.cpu().status(), CpuStatus::WaitEvent);
    }
    assert_eq!(emu.cpu().cycles(), 40);
    emu.key_down(0xB);
    emu.key_down(0x4);
    emu.key_down(0xE);
    assert_eq!(emu.advance_ms(2), Ok(()));
    assert_eq!(emu.cpu().read_gpr(5), 0x4);
    assert_eq!(emu.cpu().status(), CpuStatus::Running);
    assert_eq!(emu.cpu().pc(), 0x202);
}

#[test]
fn key_down_and_up_reach_the_keypad() {
    let mut emu = Chip8Emulator::new(500);
    emu.key_down(3);
    assert_eq!(emu.peripherals().keypad.key_state(3), 1);
    emu.key_up(3);
    assert_eq!(emu.peripherals().keypad.key_state(3), 0);
    emu.peripherals_mut().keypad.key_pressed(6);
    assert_eq!(emu.peripherals().keypad.first_key_pressed(), Some(6));
}

#[test]
fn peripherals_mut_changes_the_emulator() {
    let mut emu = Chip8Emulator::new(500);
    emu.peripherals_mut().sound_timer = 3;
    emu.peripherals_mut().screen.set_inverted_y(false);
    emu.peripherals_mut().screen.set_pixel((1, 0), 5);
    assert_eq!(emu.sound_timer(), 3);
    assert_eq!(emu.framebuffer()[1], 5);
}

#[test]
fn rng_seed_selects_the_stream() {
    // V1 = random & 0xFF; spin.
    let rom = [0xC1, 0xFF, 0x12, 0x02];
    let mut emu = Chip8Emulator::new(1000);
    emu.load_rom(&rom).unwrap();
    emu.set_cpu_rng_seed(0);
    assert_eq!(emu.advance_ms(1), Ok(()));
    assert_eq!(emu.cpu().read_gpr(1), 0x3E);
    let mut emu = Chip8Emulator::new(1000);
    emu.load_rom(&rom).unwrap();
    emu.set_cpu_rng_seed(0x1_2345_6789);
    assert_eq!(emu.advance_ms(1), Ok(()));
    assert_eq!(emu.cpu().read_gpr(1), 0x7A);
}

#[test]
fn program_draws_a_glyph() {
    // V0 = 3; I = glyph(V0); V1 = 0; draw 5 rows at (V1, V1); spin.
    let rom = [0x60, 0x03, 0xF0, 0x29, 0x61, 0x00, 0xD1, 0x15, 0x12, 0x08];
    let mut emu = Chip8Emulator::new(1000);
    emu.peripherals_mut().screen.set_inverted_y(false);
    emu.load_rom(&rom).unwrap();
    assert_eq!(emu.advance_ms(4), Ok(()));
    assert_eq!(emu.cpu().reg_i(), 15);
    let fb = emu.framebuffer();
    for (row, bits) in [0xF0u8, 0x10, 0xF0, 0x10, 0xF0].iter().enumerate() {
        for col in 0..8 {
            let lit = bits & (0x80 >> col) != 0;
            assert_eq!(fb[row * 64 + col], if lit { 0xFFFF_FFFF } else { 0 });
        }
    }
    assert_eq!(fb.iter().filter(|&&p| p != 0).count(), 4 + 1 + 4 + 1 + 4);
}
