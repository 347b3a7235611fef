pub mod cpu;
pub mod emu;
pub mod keypad;
pub mod screen;
pub mod sprite;
pub mod utils;

pub use cpu::{Chip8Cpu, Insn};
pub use emu::{Chip8Emulator, Chip8Peripherals, CHIP8_PERIPH_HZ};
pub use keypad::Keypad;
pub use screen::{Chip8Fb, Screen, CHIP8_FB_H, CHIP8_FB_W};
pub use utils::Pcg32;
