use crate::cpu::{
    fetch_spec, lemma_decode_wf, lemma_tick_frame, lemma_wait_for_key_takes,
    lemma_wait_for_key_tick, overlaid, tick_spec, waits_for_key, Chip8Cpu, CpuError, CpuStatus,
    CpuView, RNG_SEQUENCE,
};
use crate::keypad::{keys_in_range, Keypad, KEY_COUNT};
use crate::screen::{Screen, ScreenView, CHIP8_FB_H, CHIP8_FB_LEN, CHIP8_FB_W};
use crate::utils::PcgState;
use vstd::arithmetic::div_mod::{lemma_mod_sub_multiples_vanish, lemma_small_mod};
use vstd::prelude::*;

verus! {

/// Rate of the peripheral clock, in ticks per second.
pub const CHIP8_PERIPH_HZ: u32 = 60;

/// Number of addressable bytes.
pub const MEMORY_SIZE: usize = 4096;

/// Address at which a program is loaded and started.
pub const PROGRAM_START: u16 = 0x200;

/// Number of bytes of one glyph of the built-in font.
pub const GLYPH_SIZE: u16 = 5;

/// The built-in font: five bytes for each of the hexadecimal digits 0 to F.
pub open spec fn font_sprites() -> Seq<u8> {
    seq![
        0xF0u8, 0x90u8, 0x90u8, 0x90u8, 0xF0u8,
        0x20u8, 0x60u8, 0x20u8, 0x20u8, 0x70u8,
        0xF0u8, 0x10u8, 0xF0u8, 0x80u8, 0xF0u8,
        0xF0u8, 0x10u8, 0xF0u8, 0x10u8, 0xF0u8,
        0x90u8, 0x90u8, 0xF0u8, 0x10u8, 0x10u8,
        0xF0u8, 0x80u8, 0xF0u8, 0x10u8, 0xF0u8,
        0xF0u8, 0x80u8, 0xF0u8, 0x90u8, 0xF0u8,
        0xF0u8, 0x10u8, 0x20u8, 0x40u8, 0x40u8,
        0xF0u8, 0x90u8, 0xF0u8, 0x90u8, 0xF0u8,
        0xF0u8, 0x90u8, 0xF0u8, 0x10u8, 0xF0u8,
        0xF0u8, 0x90u8, 0xF0u8, 0x90u8, 0x90u8,
        0xE0u8, 0x90u8, 0xE0u8, 0x90u8, 0xE0u8,
        0xF0u8, 0x80u8, 0x80u8, 0x80u8, 0xF0u8,
        0xE0u8, 0x90u8, 0x90u8, 0x90u8, 0xE0u8,
        0xF0u8, 0x80u8, 0xF0u8, 0x80u8, 0xF0u8,
        0xF0u8, 0x80u8, 0xF0u8, 0x80u8, 0x80u8,
    ]
}

/// The abstract value of the peripherals.
pub struct PeriphView {
    pub memory: Seq<u8>,
    pub screen: ScreenView,
    pub keypad: Set<u8>,
    pub delay_timer: u16,
    pub sound_timer: u16,
}

impl PeriphView {
    /// The memory holds 4096 bytes, the display one value for each pixel,
    /// and only the sixteen keys can be held.
    pub open spec fn wf(self) -> bool {
        self.memory.len() == MEMORY_SIZE && self.screen.wf() && keys_in_range(self.keypad)
    }

    /// The peripherals at power-on: the font at the start of a memory that is
    /// zero elsewhere, a blank display, no key held, both timers at rest.
    pub open spec fn initial() -> PeriphView {
        PeriphView {
            memory: Seq::new(
                MEMORY_SIZE as nat,
                |a: int| if a < font_sprites().len() { font_sprites()[a] } else { 0u8 },
            ),
            screen: ScreenView {
                inverted_y: true,
                fb: Seq::new(CHIP8_FB_LEN as nat, |i: int| 0u32),
            },
            keypad: Set::empty(),
            delay_timer: 0,
            sound_timer: 0,
        }
    }

    /// The peripherals after one tick of their clock: each timer that is
    /// not at rest has counted down by one.
    pub open spec fn ticked(self) -> PeriphView {
        PeriphView {
            delay_timer: if self.delay_timer > 0 { (self.delay_timer - 1) as u16 } else { 0 },
            sound_timer: if self.sound_timer > 0 { (self.sound_timer - 1) as u16 } else { 0 },
            ..self
        }
    }
}

/// Memory, display, keypad and the two timers.
#[derive(Clone)]
pub struct Chip8Peripherals {
    pub memory: [u8; 4096],
    pub screen: Screen,
    pub keypad: Keypad,
    pub delay_timer: u16,
    pub sound_timer: u16,
}

impl View for Chip8Peripherals {
    type V = PeriphView;

    open spec fn view(&self) -> PeriphView {
        PeriphView {
            memory: self.memory@,
            screen: self.screen@,
            keypad: self.keypad@,
            delay_timer: self.delay_timer,
            sound_timer: self.sound_timer,
        }
    }
}

impl Chip8Peripherals {
    /// The peripherals at power-on.
    pub fn new() -> (r: Self)
        ensures
            r@ == PeriphView::initial(),
    {
        let sprites: [u8; 80] = [
            0xF0, 0x90, 0x90, 0x90, 0xF0,
            0x20, 0x60, 0x20, 0x20, 0x70,
            0xF0, 0x10, 0xF0, 0x80, 0xF0,
            0xF0, 0x10, 0xF0, 0x10, 0xF0,
            0x90, 0x90, 0xF0, 0x10, 0x10,
            0xF0, 0x80, 0xF0, 0x10, 0xF0,
            0xF0, 0x80, 0xF0, 0x90, 0xF0,
            0xF0, 0x10, 0x20, 0x40, 0x40,
            0xF0, 0x90, 0xF0, 0x90, 0xF0,
            0xF0, 0x90, 0xF0, 0x10, 0xF0,
            0xF0, 0x90, 0xF0, 0x90, 0x90,
            0xE0, 0x90, 0xE0, 0x90, 0xE0,
            0xF0, 0x80, 0x80, 0x80, 0xF0,
            0xE0, 0x90, 0x90, 0x90, 0xE0,
            0xF0, 0x80, 0xF0, 0x80, 0xF0,
            0xF0, 0x80, 0xF0, 0x80, 0x80,
        ];
        assert(sprites@ =~= font_sprites());
        let mut memory: [u8; 4096] = [0u8;4096];
        let mut i: usize = 0;
        while i < 80
            invariant
                i <= 80,
                sprites@ == font_sprites(),
                forall|a: int| 0 <= a < i ==> memory@[a] == font_sprites()[a],
                forall|a: int| i <= a < MEMORY_SIZE ==> memory@[a] == 0u8,
            decreases 80 - i,
        {
            memory[i] = sprites[i];
            i += 1;
        }
        let mut screen = Screen::new();
        screen.clear(0);
        let r = Chip8Peripherals {
            memory,
            screen,
            keypad: Keypad::new(),
            delay_timer: 0,
            sound_timer: 0,
        };
        proof {
            assert(r@.memory =~= PeriphView::initial().memory);
            assert(r@.screen.fb =~= PeriphView::initial().screen.fb);
        }
        r
    }

    /// The memory always holds 4096 bytes and the display one value for
    /// each pixel, and only the sixteen keys can be held.
    pub proof fn lemma_wf(&self)
        ensures
            self@.wf(),
    {
        self.screen.lemma_wf();
        self.keypad.lemma_keys_in_range();
    }

    /// One tick of the peripheral clock.
    pub fn tick(&mut self)
        ensures
            final(self)@ == old(self)@.ticked(),
    {
        if self.delay_timer > 0 {
            self.delay_timer -= 1;
        }
        if self.sound_timer > 0 {
            self.sound_timer -= 1;
        }
    }
}

/// Why the emulator turned a request of its host down.
#[derive(Debug, Clone, Copy, PartialEq, Eq, Structural)]
pub enum EmuError {
    /// The program does not fit between the load address and the end of memory.
    RomTooLarge,
    /// The processor would run slower than the peripheral clock.
    InvalidCpuHz,
}

/// Number of bytes between the load address and the end of memory.
pub const ROM_CAPACITY: usize = 3584;

/// The abstract value of the emulator: the rate of the processor, what the
/// clock divider has accumulated, the processor and the peripherals.
pub struct EmuView {
    pub cpu_hz: u32,
    pub acc: u32,
    pub cpu: CpuView,
    pub periph: PeriphView,
}

/// The number of processor steps that `ms` milliseconds are worth at
/// `cpu_hz` steps per second; the fraction of a step is dropped.
pub open spec fn cpu_steps(cpu_hz: u32, ms: u32) -> nat {
    ((cpu_hz as nat) * (ms as nat)) / 1000
}

impl EmuView {
    /// The processor is no slower than the peripheral clock, and both
    /// parts of the machine are well formed.
    pub open spec fn wf(self) -> bool {
        self.cpu_hz >= CHIP8_PERIPH_HZ && self.cpu.wf() && self.periph.wf()
    }

    /// The emulator at power-on, with a processor of `cpu_hz` steps per second.
    pub open spec fn initial(cpu_hz: u32) -> EmuView {
        EmuView {
            cpu_hz,
            acc: 0,
            cpu: CpuView::initial(PROGRAM_START),
            periph: PeriphView::initial(),
        }
    }

    /// The clock divider after one step of the processor: the peripheral
    /// rate is added to what has accumulated, and once that reaches the
    /// rate of the processor the peripherals tick once and the rate of the
    /// processor is taken off.
    pub open spec fn divided(self) -> EmuView {
        let acc = self.acc + CHIP8_PERIPH_HZ;
        if acc >= self.cpu_hz {
            EmuView { acc: (acc - self.cpu_hz) as u32, periph: self.periph.ticked(), ..self }
        } else {
            EmuView { acc: acc as u32, ..self }
        }
    }

    /// One step of the emulator: a step of the processor and, unless that
    /// faulted, a step of the clock divider.
    pub open spec fn step(self) -> (EmuView, Result<(), CpuError>) {
        let t = tick_spec(self.cpu, self.periph);
        let stepped = EmuView { cpu: t.cpu, periph: t.periph, ..self };
        match t.result {
            Err(e) => (stepped, Err(e)),
            Ok(_) => (stepped.divided(), Ok(())),
        }
    }

    /// Up to `n` steps of the emulator: the first fault ends the run, and
    /// the steps before it stay done.
    pub open spec fn run(self, n: nat) -> (EmuView, Result<(), CpuError>)
        decreases n,
    {
        if n == 0 {
            (self, Ok(()))
        } else {
            let (stepped, r) = self.step();
            if r is Err {
                (stepped, r)
            } else {
                stepped.run((n - 1) as nat)
            }
        }
    }
}

/// A run leaves a well-formed emulator well formed and keeps the rate of
/// its processor. Each step counts one tick: a run of `n` steps that ends
/// without a fault has counted `n`, and one that a fault ends has counted
/// the faulting step and the steps before it.
pub proof fn lemma_run_frame(s: EmuView, n: nat)
    requires
        s.wf(),
    ensures
        s.run(n).0.wf(),
        s.run(n).0.cpu_hz == s.cpu_hz,
        s.run(n).1 is Ok ==> s.run(n).0.cpu.cycles == s.cpu.cycles + n,
        s.run(n).1 is Err ==> s.cpu.cycles < s.run(n).0.cpu.cycles <= s.cpu.cycles + n,
    decreases n,
{
    if n > 0 {
        lemma_tick_frame(s.cpu, s.periph);
        let (stepped, r) = s.step();
        if r is Ok {
            lemma_run_frame(stepped, (n - 1) as nat);
        }
    }
}

/// Two runs one after the other, the first of which ends without a fault,
/// are one run of as many steps as both together.
pub proof fn lemma_run_split(s: EmuView, n: nat, m: nat)
    requires
        s.run(n).1 is Ok,
    ensures
        s.run(n).0.run(m) == s.run(n + m),
    decreases n,
{
    if n > 0 {
        let (stepped, r) = s.step();
        lemma_run_split(stepped, (n - 1) as nat, m);
    }
}

/// As long as no fault ends the run, what the clock divider has
/// accumulated after `n` steps is the rest of dividing the peripheral rate
/// times `n`, and what had accumulated before, by the rate of the processor.
pub proof fn lemma_divider_exact(s: EmuView, n: nat)
    requires
        s.wf(),
        s.acc < s.cpu_hz,
        s.run(n).1 is Ok,
    ensures
        s.run(n).0.acc == (s.acc + CHIP8_PERIPH_HZ * n) % (s.cpu_hz as int),
    decreases n,
{
    let hz = s.cpu_hz as int;
    if n == 0 {
        lemma_small_mod(s.acc as nat, s.cpu_hz as nat);
    } else {
        lemma_tick_frame(s.cpu, s.periph);
        let (stepped, r) = s.step();
        lemma_divider_exact(stepped, (n - 1) as nat);
        let rest = CHIP8_PERIPH_HZ * (n - 1);
        if s.acc + CHIP8_PERIPH_HZ >= s.cpu_hz {
            assert(stepped.acc + rest == -hz + (s.acc + CHIP8_PERIPH_HZ * n));
            lemma_mod_sub_multiples_vanish(s.acc + CHIP8_PERIPH_HZ * n, hz);
        } else {
            assert(stepped.acc + rest == s.acc + CHIP8_PERIPH_HZ * n);
        }
    }
}

/// Whether the instruction at the program counter waits for a key and
/// puts its code into register `rx`.
pub open spec fn at_wait_for_key(s: EmuView, rx: u8) -> bool {
    waits_for_key(s.cpu, s.periph, rx)
}

/// While no key is held, a processor that waits for a key stays at that
/// instruction however long it runs: no step faults, each is counted, the
/// processor is marked as waiting, and the program counter, the registers,
/// the stack, the memory, the display and the keypad stay as they are. The
/// emulator is then as ready to stall through the next run as it was for
/// this one.
pub proof fn lemma_wait_for_key_stalls(s: EmuView, rx: u8, n: nat)
    requires
        s.wf(),
        at_wait_for_key(s, rx),
        forall|k: u8| !s.periph.keypad.contains(k),
    ensures
        s.run(n).1 is Ok,
        s.run(n).0.cpu == (CpuView {
            status: if n > 0 { CpuStatus::WaitEvent } else { s.cpu.status },
            cycles: s.cpu.cycles + n,
            ..s.cpu
        }),
        s.run(n).0.cpu.pc == s.cpu.pc,
        s.run(n).0.cpu.gpr == s.cpu.gpr,
        s.run(n).0.cpu.reg_i == s.cpu.reg_i,
        s.run(n).0.cpu.stack == s.cpu.stack,
        s.run(n).0.periph.memory == s.periph.memory,
        s.run(n).0.periph.screen == s.periph.screen,
        s.run(n).0.periph.keypad == s.periph.keypad,
        s.run(n).0.cpu_hz == s.cpu_hz,
        s.run(n).0.wf(),
        at_wait_for_key(s.run(n).0, rx),
    decreases n,
{
    if n > 0 {
        lemma_wait_for_key_tick(s.cpu, s.periph, rx);
        lemma_tick_frame(s.cpu, s.periph);
        let (stepped, r) = s.step();
        assert(r is Ok);
        assert(at_wait_for_key(stepped, rx));
        lemma_wait_for_key_stalls(stepped, rx, (n - 1) as nat);
    }
}

/// Once keys are held, the next step of a processor that waits for a key
/// puts the lowest of their codes into the register and goes on with the
/// following instruction.
pub proof fn lemma_wait_for_key_resumes(s: EmuView, rx: u8, key: u8)
    requires
        s.wf(),
        at_wait_for_key(s, rx),
        s.periph.keypad.contains(key),
        forall|j: u8| j < key ==> !s.periph.keypad.contains(j),
    ensures
        s.step().1 is Ok,
        s.step().0.cpu.pc == s.cpu.pc + 2,
        s.step().0.cpu.gpr == s.cpu.gpr.update(rx as int, key),
        s.step().0.cpu.status == CpuStatus::Running,
        key < KEY_COUNT,
{
    reveal(tick_spec);
    lemma_decode_wf(fetch_spec(s.periph.memory, s.cpu.pc));
    lemma_wait_for_key_takes(CpuView { cycles: s.cpu.cycles + 1, ..s.cpu }, s.periph, rx, key);
}

/// A processor and its peripherals, driven by elapsed time.
#[derive(Clone)]
pub struct Chip8Emulator {
    cpu_hz: u32,
    cpu: Chip8Cpu,
    periph: Chip8Peripherals,
    sim_ms: u32,
}

impl View for Chip8Emulator {
    type V = EmuView;

    closed spec fn view(&self) -> EmuView {
        EmuView { cpu_hz: self.cpu_hz, acc: self.sim_ms, cpu: self.cpu@, periph: self.periph@ }
    }
}

impl Chip8Emulator {
    /// The processor is no slower than the peripheral clock, and its call
    /// stack holds at most sixteen return addresses.
    pub open spec fn wf(&self) -> bool {
        self@.wf()
    }

    /// An emulator at power-on, whose processor makes `cpu_hz` steps per second.
    pub fn new(cpu_hz: u32) -> (r: Self)
        requires
            cpu_hz >= CHIP8_PERIPH_HZ,
        ensures
            r.wf(),
            r@ == EmuView::initial(cpu_hz),
    {
        let r = Chip8Emulator {
            cpu_hz,
            cpu: Chip8Cpu::new(PROGRAM_START),
            periph: Chip8Peripherals::new(),
            sim_ms: 0,
        };
        proof {
            r.periph.lemma_wf();
        }
        r
    }

    /// The peripherals of an emulator are always well formed, whatever
    /// the host has done to them.
    pub proof fn lemma_periph_wf(&self)
        ensures
            self@.periph.wf(),
    {
        self.periph.lemma_wf();
    }

    /// The rate of the processor, in steps per second.
    pub fn cpu_hz(&self) -> (r: u32)
        ensures
            r == self@.cpu_hz,
    {
        self.cpu_hz
    }

    /// The processor.
    pub fn cpu(&self) -> (r: &Chip8Cpu)
        ensures
            r@ == self@.cpu,
    {
        &self.cpu
    }

    /// The peripherals.
    pub fn peripherals(&self) -> (r: &Chip8Peripherals)
        ensures
            r@ == self@.periph,
    {
        &self.periph
    }

    /// The peripherals, for the host to change; the rest of the emulator
    /// stays as it is.
    pub fn peripherals_mut(&mut self) -> (r: &mut Chip8Peripherals)
        ensures
            r@ == old(self)@.periph,
            final(self)@ == (EmuView { periph: final(r)@, ..old(self)@ }),
    {
        &mut self.periph
    }

    /// Sets the rate of the processor, unless it is below the peripheral rate.
    pub fn set_cpu_hz(&mut self, hz: u32) -> (r: Result<(), EmuError>)
        ensures
            hz < CHIP8_PERIPH_HZ ==> r == Err::<(), EmuError>(EmuError::InvalidCpuHz)
                && final(self)@ == old(self)@,
            hz >= CHIP8_PERIPH_HZ ==> r == Ok::<(), EmuError>(()) && final(self)@ == (EmuView {
                cpu_hz: hz,
                ..old(self)@
            }),
            old(self).wf() ==> final(self).wf(),
    {
        if hz < CHIP8_PERIPH_HZ {
            return Err(EmuError::InvalidCpuHz);
        }
        self.cpu_hz = hz;
        Ok(())
    }

    /// Restarts the random generator of the processor on the stream that `seed` selects.
    pub fn set_cpu_rng_seed(&mut self, seed: u64)
        ensures
            final(self)@ == (EmuView {
                cpu: CpuView {
                    rng: PcgState::seeded(seed, RNG_SEQUENCE),
                    ..old(self)@.cpu
                },
                ..old(self)@
            }),
            old(self).wf() ==> final(self).wf(),
    {
        self.cpu.set_rng_seed(seed);
    }

    /// Width and height of the display.
    pub fn framebuffer_dims(&self) -> (r: (u32, u32))
        ensures
            r.0 == CHIP8_FB_W,
            r.1 == CHIP8_FB_H,
    {
        let screen = &self.periph.screen;
        (screen.width(), screen.height())
    }

    /// The pixel buffer of the display, row after row.
    pub fn framebuffer(&self) -> (r: &[u32])
        ensures
            r@ == self@.periph.screen.fb,
    {
        self.periph.screen.data()
    }

    /// The value of the sound timer; a tone is due while it is not zero.
    pub fn sound_timer(&self) -> (r: u16)
        ensures
            r == self@.periph.sound_timer,
    {
        self.periph.sound_timer
    }

    /// The value of the delay timer.
    pub fn delay_timer(&self) -> (r: u16)
        ensures
            r == self@.periph.delay_timer,
    {
        self.periph.delay_timer
    }

    /// Marks the key `code` as held down.
    pub fn key_down(&mut self, code: u8)
        requires
            code < KEY_COUNT,
        ensures
            final(self)@ == (EmuView {
                periph: PeriphView {
                    keypad: old(self)@.periph.keypad.insert(code),
                    ..old(self)@.periph
                },
                ..old(self)@
            }),
            old(self).wf() ==> final(self).wf(),
    {
        proof {
            self.periph.lemma_wf();
        }
        self.periph.keypad.key_pressed(code);
    }

    /// Marks the key `code` as released.
    pub fn key_up(&mut self, code: u8)
        requires
            code < KEY_COUNT,
        ensures
            final(self)@ == (EmuView {
                periph: PeriphView {
                    keypad: old(self)@.periph.keypad.remove(code),
                    ..old(self)@.periph
                },
                ..old(self)@
            }),
            old(self).wf() ==> final(self).wf(),
    {
        proof {
            self.periph.lemma_wf();
        }
        self.periph.keypad.key_released(code);
    }

    /// Copies the program `data` into memory from the load address on,
    /// unless it does not fit there.
    pub fn load_rom(&mut self, data: &[u8]) -> (r: Result<(), EmuError>)
        ensures
            data@.len() > ROM_CAPACITY ==> r == Err::<(), EmuError>(EmuError::RomTooLarge)
                && final(self)@ == old(self)@,
            data@.len() <= ROM_CAPACITY ==> r == Ok::<(), EmuError>(()) && final(self)@ == (
            EmuView {
                periph: PeriphView {
                    memory: overlaid(old(self)@.periph.memory, PROGRAM_START as int, data@),
                    ..old(self)@.periph
                },
                ..old(self)@
            }),
            old(self).wf() ==> final(self).wf(),
    {
        proof {
            self.periph.lemma_wf();
        }
        let n: usize = data.len();
        if n > ROM_CAPACITY {
            return Err(EmuError::RomTooLarge);
        }
        let mut i: usize = 0;
        proof {
            assert(self.periph@.memory =~= overlaid(
                self.periph@.memory,
                PROGRAM_START as int,
                data@.subrange(0, 0),
            ));
        }
        while i < n
            invariant
                i <= n <= ROM_CAPACITY,
                n == data@.len(),
                self@ == (EmuView {
                    periph: PeriphView {
                        memory: overlaid(
                            old(self)@.periph.memory,
                            PROGRAM_START as int,
                            data@.subrange(0, i as int),
                        ),
                        ..old(self)@.periph
                    },
                    ..old(self)@
                }),
            decreases n - i,
        {
            self.periph.memory[0x200 + i] = data[i];
            proof {
                assert(self.periph@.memory =~= overlaid(
                    old(self)@.periph.memory,
                    PROGRAM_START as int,
                    data@.subrange(0, i + 1),
                ));
            }
            i += 1;
        }
        proof {
            assert(data@.subrange(0, n as int) =~= data@);
        }
        Ok(())
    }

    /// Lets `ms` milliseconds pass: the processor makes the steps that this
    /// time is worth, and after each of them the clock divider moves on.
    /// The first fault ends the call; what was done before it stays done.
    pub fn advance_ms(&mut self, ms: u32) -> (r: Result<(), CpuError>)
        requires
            old(self).wf(),
            old(self)@.cpu.cycles + cpu_steps(old(self)@.cpu_hz, ms) <= u64::MAX,
        ensures
            final(self).wf(),
            (final(self)@, r) == old(self)@.run(cpu_steps(old(self)@.cpu_hz, ms)),
            final(self)@.cpu_hz == old(self)@.cpu_hz,
            r is Ok ==> final(self)@.cpu.cycles == old(self)@.cpu.cycles + cpu_steps(
                old(self)@.cpu_hz,
                ms,
            ),
    {
        let cpu_hz: u64 = self.cpu_hz as u64;
        assert(cpu_hz * (ms as u64) <= 0xFFFF_FFFF * 0xFFFF_FFFF) by (nonlinear_arith)
            requires
                cpu_hz <= 0xFFFF_FFFF,
                ms <= 0xFFFF_FFFF,
        ;
        let steps: u64 = cpu_hz * (ms as u64) / 1000;
        let mut done: u64 = 0;
        while done < steps
            invariant
                self.wf(),
                done <= steps,
                steps == cpu_steps(old(self)@.cpu_hz, ms),
                cpu_hz == self@.cpu_hz == old(self)@.cpu_hz,
                self@.cpu.cycles == old(self)@.cpu.cycles + done,
                old(self)@.cpu.cycles + steps <= u64::MAX,
                old(self)@.run(steps as nat) == self@.run((steps - done) as nat),
            decreases steps - done,
        {
            let ghost before = self@;
            proof {
                self.periph.lemma_wf();
                lemma_tick_frame(before.cpu, before.periph);
            }
            match self.cpu.tick(&mut self.periph) {
                Err(e) => {
                    proof {
                        assert(before.step() == (self@, Err::<(), CpuError>(e)));
                        assert(before.run((steps - done) as nat) == before.step());
                    }
                    return Err(e);
                },
                Ok(_) => {},
            }
            let acc: u64 = self.sim_ms as u64 + CHIP8_PERIPH_HZ as u64;
            if acc >= cpu_hz {
                self.periph.tick();
                self.sim_ms = (acc - cpu_hz) as u32;
            } else {
                self.sim_ms = acc as u32;
            }
            proof {
                assert(before.step() == (self@, Ok::<(), CpuError>(())));
                assert(before.run((steps - done) as nat) == self@.run((steps - done - 1) as nat));
            }
            done += 1;
        }
        Ok(())
    }
}

} // verus!
