use crate::emu::{Chip8Peripherals, PeriphView, GLYPH_SIZE, MEMORY_SIZE};
use crate::keypad::{lemma_lowest_key, lowest_key, Keypad, KEY_COUNT};
use crate::sprite::draw_sprite;
use crate::utils::{pcg_output, Pcg32, PcgState};
use vstd::prelude::*;

verus! {

/// Number of general-purpose registers.
pub const REG_COUNT: u8 = 16;

/// Index of the register that doubles as the flag register.
pub const FLAG_REG: u8 = 15;

/// Number of return addresses that the call stack holds.
pub const STACK_DEPTH: u16 = 16;

/// The stream selector with which the processor seeds its random generator.
pub const RNG_SEQUENCE: u64 = 42;

/// One decoded instruction. Register operands are below 16, addresses
/// below 4096 and the row count of a sprite below 16.
#[derive(Debug, Clone, PartialEq, Eq, Structural)]
pub enum Insn {
    Cls,
    Ret,
    Jump(u16),
    JumpV0(u16),
    Call(u16),
    SkipEqI(u8, u8),
    SkipNeqI(u8, u8),
    SkipEq(u8, u8),
    SkipNeq(u8, u8),
    LoadI(u8, u8),
    AddI(u8, u8),
    Move(u8, u8),
    Or(u8, u8),
    And(u8, u8),
    Xor(u8, u8),
    Add(u8, u8),
    Sub(u8, u8),
    Shr(u8, u8),
    SubN(u8, u8),
    Shl(u8, u8),
    LoadA(u16),
    AddA(u8),
    RndAnd(u8, u8),
    DrawSprite(u8, u8, u8),
    SkipKeyPressed(u8),
    SkipKeyNPressed(u8),
    LoadTimer(u8),
    WaitForKey(u8),
    SetDelayTimer(u8),
    SetSoundTimer(u8),
    SpriteLoc(u8),
    StoreBCD(u8),
    StoreRegs(u8),
    LoadRegs(u8),
}

/// The highest four bits of an instruction word.
pub open spec fn word_group(w: u16) -> u8 {
    (w / 0x1000) as u8
}

/// The first register operand of an instruction word: bits 8 to 11.
pub open spec fn word_rx(w: u16) -> u8 {
    ((w / 0x100) % 16) as u8
}

/// The second register operand of an instruction word: bits 4 to 7.
pub open spec fn word_ry(w: u16) -> u8 {
    ((w / 0x10) % 16) as u8
}

/// The lowest four bits of an instruction word.
pub open spec fn word_low(w: u16) -> u8 {
    (w % 16) as u8
}

/// The low byte of an instruction word.
pub open spec fn word_imm(w: u16) -> u8 {
    (w % 0x100) as u8
}

/// The address operand of an instruction word: its low twelve bits.
pub open spec fn word_addr(w: u16) -> u16 {
    w % 0x1000
}

/// The instruction that the word `w` encodes, if it encodes one.
pub open spec fn decode_spec(w: u16) -> Option<Insn> {
    let rx = word_rx(w);
    let ry = word_ry(w);
    let imm = word_imm(w);
    let low = word_low(w);
    let addr = word_addr(w);
    let group = word_group(w);
    if group == 0x0 {
        if w == 0x00E0 {
            Some(Insn::Cls)
        } else if w == 0x00EE {
            Some(Insn::Ret)
        } else {
            None
        }
    } else if group == 0x1 {
        Some(Insn::Jump(addr))
    } else if group == 0x2 {
        Some(Insn::Call(addr))
    } else if group == 0x3 {
        Some(Insn::SkipEqI(rx, imm))
    } else if group == 0x4 {
        Some(Insn::SkipNeqI(rx, imm))
    } else if group == 0x5 {
        if low == 0 {
            Some(Insn::SkipEq(rx, ry))
        } else {
            None
        }
    } else if group == 0x6 {
        Some(Insn::LoadI(rx, imm))
    } else if group == 0x7 {
        Some(Insn::AddI(rx, imm))
    } else if group == 0x8 {
        if low == 0x0 {
            Some(Insn::Move(rx, ry))
        } else if low == 0x1 {
            Some(Insn::Or(rx, ry))
        } else if low == 0x2 {
            Some(Insn::And(rx, ry))
        } else if low == 0x3 {
            Some(Insn::Xor(rx, ry))
        } else if low == 0x4 {
            Some(Insn::Add(rx, ry))
        } else if low == 0x5 {
            Some(Insn::Sub(rx, ry))
        } else if low == 0x6 {
            Some(Insn::Shr(rx, ry))
        } else if low == 0x7 {
            Some(Insn::SubN(rx, ry))
        } else if low == 0xE {
            Some(Insn::Shl(rx, ry))
        } else {
            None
        }
    } else if group == 0x9 {
        if low == 0 {
            Some(Insn::SkipNeq(rx, ry))
        } else {
            None
        }
    } else if group == 0xA {
        Some(Insn::LoadA(addr))
    } else if group == 0xB {
        Some(Insn::JumpV0(addr))
    } else if group == 0xC {
        Some(Insn::RndAnd(rx, imm))
    } else if group == 0xD {
        Some(Insn::DrawSprite(rx, ry, low))
    } else if group == 0xE {
        if imm == 0x9E {
            Some(Insn::SkipKeyPressed(rx))
        } else if imm == 0xA1 {
            Some(Insn::SkipKeyNPressed(rx))
        } else {
            None
        }
    } else {
        if imm == 0x07 {
            Some(Insn::LoadTimer(rx))
        } else if imm == 0x0A {
            Some(Insn::WaitForKey(rx))
        } else if imm == 0x15 {
            Some(Insn::SetDelayTimer(rx))
        } else if imm == 0x18 {
            Some(Insn::SetSoundTimer(rx))
        } else if imm == 0x1E {
            Some(Insn::AddA(rx))
        } else if imm == 0x29 {
            Some(Insn::SpriteLoc(rx))
        } else if imm == 0x33 {
            Some(Insn::StoreBCD(rx))
        } else if imm == 0x55 {
            Some(Insn::StoreRegs(rx))
        } else if imm == 0x65 {
            Some(Insn::LoadRegs(rx))
        } else {
            None
        }
    }
}

/// The word that encodes `insn`.
pub open spec fn encode_spec(insn: Insn) -> u16 {
    match insn {
        Insn::Cls => 0x00E0,
        Insn::Ret => 0x00EE,
        Insn::Jump(a) => (0x1000 + a) as u16,
        Insn::Call(a) => (0x2000 + a) as u16,
        Insn::SkipEqI(rx, v) => (0x3000 + rx * 0x100 + v) as u16,
        Insn::SkipNeqI(rx, v) => (0x4000 + rx * 0x100 + v) as u16,
        Insn::SkipEq(rx, ry) => (0x5000 + rx * 0x100 + ry * 0x10) as u16,
        Insn::LoadI(rx, v) => (0x6000 + rx * 0x100 + v) as u16,
        Insn::AddI(rx, v) => (0x7000 + rx * 0x100 + v) as u16,
        Insn::Move(rx, ry) => (0x8000 + rx * 0x100 + ry * 0x10) as u16,
        Insn::Or(rx, ry) => (0x8001 + rx * 0x100 + ry * 0x10) as u16,
        Insn::And(rx, ry) => (0x8002 + rx * 0x100 + ry * 0x10) as u16,
        Insn::Xor(rx, ry) => (0x8003 + rx * 0x100 + ry * 0x10) as u16,
        Insn::Add(rx, ry) => (0x8004 + rx * 0x100 + ry * 0x10) as u16,
        Insn::Sub(rx, ry) => (0x8005 + rx * 0x100 + ry * 0x10) as u16,
        Insn::Shr(rx, ry) => (0x8006 + rx * 0x100 + ry * 0x10) as u16,
        Insn::SubN(rx, ry) => (0x8007 + rx * 0x100 + ry * 0x10) as u16,
        Insn::Shl(rx, ry) => (0x800E + rx * 0x100 + ry * 0x10) as u16,
        Insn::SkipNeq(rx, ry) => (0x9000 + rx * 0x100 + ry * 0x10) as u16,
        Insn::LoadA(a) => (0xA000 + a) as u16,
        Insn::JumpV0(a) => (0xB000 + a) as u16,
        Insn::RndAnd(rx, v) => (0xC000 + rx * 0x100 + v) as u16,
        Insn::DrawSprite(rx, ry, n) => (0xD000 + rx * 0x100 + ry * 0x10 + n) as u16,
        Insn::SkipKeyPressed(rx) => (0xE09E + rx * 0x100) as u16,
        Insn::SkipKeyNPressed(rx) => (0xE0A1 + rx * 0x100) as u16,
        Insn::LoadTimer(rx) => (0xF007 + rx * 0x100) as u16,
        Insn::WaitForKey(rx) => (0xF00A + rx * 0x100) as u16,
        Insn::SetDelayTimer(rx) => (0xF015 + rx * 0x100) as u16,
        Insn::SetSoundTimer(rx) => (0xF018 + rx * 0x100) as u16,
        Insn::AddA(rx) => (0xF01E + rx * 0x100) as u16,
        Insn::SpriteLoc(rx) => (0xF029 + rx * 0x100) as u16,
        Insn::StoreBCD(rx) => (0xF033 + rx * 0x100) as u16,
        Insn::StoreRegs(rx) => (0xF055 + rx * 0x100) as u16,
        Insn::LoadRegs(rx) => (0xF065 + rx * 0x100) as u16,
    }
}

/// A word is made of its four nibbles, and its low byte and its address
/// operand of the lower two and three of them.
pub proof fn lemma_word_fields(w: u16)
    ensures
        w == word_group(w) * 0x1000 + word_rx(w) * 0x100 + word_ry(w) * 0x10 + word_low(w),
        word_imm(w) == word_ry(w) * 0x10 + word_low(w),
        word_addr(w) == word_rx(w) * 0x100 + word_imm(w),
        word_group(w) < 16,
        word_rx(w) < 16,
        word_ry(w) < 16,
        word_low(w) < 16,
{
}

/// The word made of four nibbles has them as its fields.
pub proof fn lemma_word_of_fields(group: int, rx: int, ry: int, low: int)
    requires
        0 <= group < 16,
        0 <= rx < 16,
        0 <= ry < 16,
        0 <= low < 16,
    ensures
        ({
            let w = (group * 0x1000 + rx * 0x100 + ry * 0x10 + low) as u16;
            &&& w == group * 0x1000 + rx * 0x100 + ry * 0x10 + low
            &&& word_group(w) == group
            &&& word_rx(w) == rx
            &&& word_ry(w) == ry
            &&& word_low(w) == low
            &&& word_imm(w) == ry * 0x10 + low
            &&& word_addr(w) == rx * 0x100 + ry * 0x10 + low
        }),
{
    lemma_nibbles(group as u16, rx as u16, ry as u16, low as u16);
}

proof fn lemma_nibbles(group: u16, rx: u16, ry: u16, low: u16)
    by (bit_vector)
    requires
        group < 16,
        rx < 16,
        ry < 16,
        low < 16,
    ensures
        group * 0x1000 + rx * 0x100 + ry * 0x10 + low < 0x10000,
        (group * 0x1000 + rx * 0x100 + ry * 0x10 + low) / 0x1000 == group,
        ((group * 0x1000 + rx * 0x100 + ry * 0x10 + low) / 0x100) % 16 == rx,
        ((group * 0x1000 + rx * 0x100 + ry * 0x10 + low) / 0x10) % 16 == ry,
        (group * 0x1000 + rx * 0x100 + ry * 0x10 + low) % 16 == low,
        (group * 0x1000 + rx * 0x100 + ry * 0x10 + low) % 0x100 == ry * 0x10 + low,
        (group * 0x1000 + rx * 0x100 + ry * 0x10 + low) % 0x1000 == rx * 0x100 + ry * 0x10 + low,
{
}

/// Decoding the word that encodes an instruction gives the instruction back.
pub proof fn lemma_decode_encode(insn: Insn)
    requires
        insn.wf(),
    ensures
        decode_spec(encode_spec(insn)) == Some(insn),
{
    match insn {
        Insn::Cls => {},
        Insn::Ret => {},
        Insn::Jump(a) => lemma_word_of_fields(0x1, a as int / 0x100, (a as int / 0x10) % 16, a as int % 16),
        Insn::Call(a) => lemma_word_of_fields(0x2, a as int / 0x100, (a as int / 0x10) % 16, a as int % 16),
        Insn::SkipEqI(rx, v) => lemma_word_of_fields(0x3, rx as int, v as int / 16, v as int % 16),
        Insn::SkipNeqI(rx, v) => lemma_word_of_fields(0x4, rx as int, v as int / 16, v as int % 16),
        Insn::SkipEq(rx, ry) => lemma_word_of_fields(0x5, rx as int, ry as int, 0),
        Insn::LoadI(rx, v) => lemma_word_of_fields(0x6, rx as int, v as int / 16, v as int % 16),
        Insn::AddI(rx, v) => lemma_word_of_fields(0x7, rx as int, v as int / 16, v as int % 16),
        Insn::Move(rx, ry) => lemma_word_of_fields(0x8, rx as int, ry as int, 0x0),
        Insn::Or(rx, ry) => lemma_word_of_fields(0x8, rx as int, ry as int, 0x1),
        Insn::And(rx, ry) => lemma_word_of_fields(0x8, rx as int, ry as int, 0x2),
        Insn::Xor(rx, ry) => lemma_word_of_fields(0x8, rx as int, ry as int, 0x3),
        Insn::Add(rx, ry) => lemma_word_of_fields(0x8, rx as int, ry as int, 0x4),
        Insn::Sub(rx, ry) => lemma_word_of_fields(0x8, rx as int, ry as int, 0x5),
        Insn::Shr(rx, ry) => lemma_word_of_fields(0x8, rx as int, ry as int, 0x6),
        Insn::SubN(rx, ry) => lemma_word_of_fields(0x8, rx as int, ry as int, 0x7),
        Insn::Shl(rx, ry) => lemma_word_of_fields(0x8, rx as int, ry as int, 0xE),
        Insn::SkipNeq(rx, ry) => lemma_word_of_fields(0x9, rx as int, ry as int, 0),
        Insn::LoadA(a) => lemma_word_of_fields(0xA, a as int / 0x100, (a as int / 0x10) % 16, a as int % 16),
        Insn::JumpV0(a) => lemma_word_of_fields(0xB, a as int / 0x100, (a as int / 0x10) % 16, a as int % 16),
        Insn::RndAnd(rx, v) => lemma_word_of_fields(0xC, rx as int, v as int / 16, v as int % 16),
        Insn::DrawSprite(rx, ry, n) => lemma_word_of_fields(0xD, rx as int, ry as int, n as int),
        Insn::SkipKeyPressed(rx) => lemma_word_of_fields(0xE, rx as int, 0x9, 0xE),
        Insn::SkipKeyNPressed(rx) => lemma_word_of_fields(0xE, rx as int, 0xA, 0x1),
        Insn::LoadTimer(rx) => lemma_word_of_fields(0xF, rx as int, 0x0, 0x7),
        Insn::WaitForKey(rx) => lemma_word_of_fields(0xF, rx as int, 0x0, 0xA),
        Insn::SetDelayTimer(rx) => lemma_word_of_fields(0xF, rx as int, 0x1, 0x5),
        Insn::SetSoundTimer(rx) => lemma_word_of_fields(0xF, rx as int, 0x1, 0x8),
        Insn::AddA(rx) => lemma_word_of_fields(0xF, rx as int, 0x1, 0xE),
        Insn::SpriteLoc(rx) => lemma_word_of_fields(0xF, rx as int, 0x2, 0x9),
        Insn::StoreBCD(rx) => lemma_word_of_fields(0xF, rx as int, 0x3, 0x3),
        Insn::StoreRegs(rx) => lemma_word_of_fields(0xF, rx as int, 0x5, 0x5),
        Insn::LoadRegs(rx) => lemma_word_of_fields(0xF, rx as int, 0x6, 0x5),
    }
}

/// A word that decodes to an instruction is the word that encodes it, so
/// no two words decode to the same instruction.
pub proof fn lemma_encode_decode(w: u16)
    ensures
        decode_spec(w) matches Some(insn) ==> insn.wf() && encode_spec(insn) == w,
{
    lemma_word_fields(w);
}

fn get_b0(x: u16) -> (r: u8)
    ensures
        r == word_imm(x),
{
    assert(x & 0xFF == x % 0x100) by (bit_vector);
    assert(x & 0xFF < 0x100) by (bit_vector);
    (x & 0xFF) as u8
}

fn get_hb0(x: u16) -> (r: u16)
    ensures
        r == word_low(x),
{
    assert(x & 0xF == x % 16) by (bit_vector);
    x & 0xF
}

fn get_hb1(x: u16) -> (r: u16)
    ensures
        r == word_ry(x),
{
    assert((x >> 4) & 0xF == (x / 0x10) % 16) by (bit_vector);
    (x >> 4) & 0xF
}

fn get_hb2(x: u16) -> (r: u16)
    ensures
        r == word_rx(x),
{
    assert((x >> 8) & 0xF == (x / 0x100) % 16) by (bit_vector);
    (x >> 8) & 0xF
}

fn get_hb3(x: u16) -> (r: u16)
    ensures
        r == word_group(x),
{
    assert((x >> 12) & 0xF == x / 0x1000) by (bit_vector);
    (x >> 12) & 0xF
}

fn get_addr(x: u16) -> (r: u16)
    ensures
        r == word_addr(x),
{
    assert(x & 0xFFF == x % 0x1000) by (bit_vector);
    x & 0xFFF
}

/// The 16-bit word whose high byte is `hi` and whose low byte is `lo`.
pub fn be_word(hi: u8, lo: u8) -> (r: u16)
    ensures
        r == be_word_spec(hi, lo),
{
    (hi as u16) * 256 + (lo as u16)
}

fn bool_to_bit(b: bool) -> (r: u8)
    ensures
        r == if b { 1u8 } else { 0u8 },
{
    if b {
        1
    } else {
        0
    }
}

impl Insn {
    /// The operands are in their ranges: registers below 16, addresses
    /// below 4096, the row count of a sprite below 16.
    pub open spec fn wf(self) -> bool {
        match self {
            Insn::Cls => true,
            Insn::Ret => true,
            Insn::Jump(a) => a < 0x1000,
            Insn::JumpV0(a) => a < 0x1000,
            Insn::Call(a) => a < 0x1000,
            Insn::SkipEqI(rx, _) => rx < REG_COUNT,
            Insn::SkipNeqI(rx, _) => rx < REG_COUNT,
            Insn::SkipEq(rx, ry) => rx < REG_COUNT && ry < REG_COUNT,
            Insn::SkipNeq(rx, ry) => rx < REG_COUNT && ry < REG_COUNT,
            Insn::LoadI(rx, _) => rx < REG_COUNT,
            Insn::AddI(rx, _) => rx < REG_COUNT,
            Insn::Move(rx, ry) => rx < REG_COUNT && ry < REG_COUNT,
            Insn::Or(rx, ry) => rx < REG_COUNT && ry < REG_COUNT,
            Insn::And(rx, ry) => rx < REG_COUNT && ry < REG_COUNT,
            Insn::Xor(rx, ry) => rx < REG_COUNT && ry < REG_COUNT,
            Insn::Add(rx, ry) => rx < REG_COUNT && ry < REG_COUNT,
            Insn::Sub(rx, ry) => rx < REG_COUNT && ry < REG_COUNT,
            Insn::Shr(rx, ry) => rx < REG_COUNT && ry < REG_COUNT,
            Insn::SubN(rx, ry) => rx < REG_COUNT && ry < REG_COUNT,
            Insn::Shl(rx, ry) => rx < REG_COUNT && ry < REG_COUNT,
            Insn::LoadA(a) => a < 0x1000,
            Insn::AddA(rx) => rx < REG_COUNT,
            Insn::RndAnd(rx, _) => rx < REG_COUNT,
            Insn::DrawSprite(rx, ry, n) => rx < REG_COUNT && ry < REG_COUNT && n < 16,
            Insn::SkipKeyPressed(rx) => rx < REG_COUNT,
            Insn::SkipKeyNPressed(rx) => rx < REG_COUNT,
            Insn::LoadTimer(rx) => rx < REG_COUNT,
            Insn::WaitForKey(rx) => rx < REG_COUNT,
            Insn::SetDelayTimer(rx) => rx < REG_COUNT,
            Insn::SetSoundTimer(rx) => rx < REG_COUNT,
            Insn::SpriteLoc(rx) => rx < REG_COUNT,
            Insn::StoreBCD(rx) => rx < REG_COUNT,
            Insn::StoreRegs(rx) => rx < REG_COUNT,
            Insn::LoadRegs(rx) => rx < REG_COUNT,
        }
    }

    /// Whether the instruction decides where execution goes on without a
    /// condition on registers or keys: a jump, a call, a return, or the
    /// wait for a key.
    pub open spec fn is_flow(self) -> bool {
        self is Ret || self is Jump || self is JumpV0 || self is Call || self is WaitForKey
    }

    /// Whether the instruction skips the next one on a condition.
    pub open spec fn is_skip(self) -> bool {
        self is SkipEqI || self is SkipNeqI || self is SkipEq || self is SkipNeq
            || self is SkipKeyPressed || self is SkipKeyNPressed
    }

    /// Whether the instruction loads a register or the index register and
    /// leaves the flag alone.
    pub open spec fn is_load(self) -> bool {
        self is LoadI || self is AddI || self is Move || self is LoadA || self is AddA
            || self is RndAnd || self is LoadTimer || self is SpriteLoc || self is LoadRegs
    }

    /// Whether the instruction combines two registers.
    pub open spec fn is_alu(self) -> bool {
        self is Or || self is And || self is Xor || self is Add || self is Sub || self is SubN
            || self is Shr || self is Shl
    }

    /// Whether the instruction writes to the display, the timers or the memory.
    pub open spec fn is_io(self) -> bool {
        self is Cls || self is SetDelayTimer || self is SetSoundTimer || self is DrawSprite
            || self is StoreBCD || self is StoreRegs
    }

    /// Splits an instruction word into its operation and operands; a word
    /// outside the instruction set gives nothing.
    pub fn decode(insn: u16) -> (r: Option<Self>)
        ensures
            r == decode_spec(insn),
            r matches Some(i) ==> i.wf(),
    {
        let rx: u8 = get_hb2(insn) as u8;
        let ry: u8 = get_hb1(insn) as u8;
        match get_hb3(insn) {
            0 => {
                if insn == 0x00E0 {
                    Some(Insn::Cls)
                } else if insn == 0x00EE {
                    Some(Insn::Ret)
                } else {
                    None
                }
            },
            1 => Some(Insn::Jump(get_addr(insn))),
            2 => Some(Insn::Call(get_addr(insn))),
            3 => Some(Insn::SkipEqI(rx, get_b0(insn))),
            4 => Some(Insn::SkipNeqI(rx, get_b0(insn))),
            5 => {
                if get_hb0(insn) != 0 {
                    return None;
                }
                Some(Insn::SkipEq(rx, ry))
            },
            6 => Some(Insn::LoadI(rx, get_b0(insn))),
            7 => Some(Insn::AddI(rx, get_b0(insn))),
            8 => {
                match get_hb0(insn) {
                    0 => Some(Insn::Move(rx, ry)),
                    1 => Some(Insn::Or(rx, ry)),
                    2 => Some(Insn::And(rx, ry)),
                    3 => Some(Insn::Xor(rx, ry)),
                    4 => Some(Insn::Add(rx, ry)),
                    5 => Some(Insn::Sub(rx, ry)),
                    6 => Some(Insn::Shr(rx, ry)),
                    7 => Some(Insn::SubN(rx, ry)),
                    0xE => Some(Insn::Shl(rx, ry)),
                    _ => None,
                }
            },
            9 => {
                if get_hb0(insn) != 0 {
                    return None;
                }
                Some(Insn::SkipNeq(rx, ry))
            },
            0xA => Some(Insn::LoadA(get_addr(insn))),
            0xB => Some(Insn::JumpV0(get_addr(insn))),
            0xC => Some(Insn::RndAnd(rx, get_b0(insn))),
            0xD => Some(Insn::DrawSprite(rx, ry, get_hb0(insn) as u8)),
            0xE => {
                match get_b0(insn) {
                    0x9E => Some(Insn::SkipKeyPressed(rx)),
                    0xA1 => Some(Insn::SkipKeyNPressed(rx)),
                    _ => None,
                }
            },
            0xF => {
                match get_b0(insn) {
                    0x07 => Some(Insn::LoadTimer(rx)),
                    0x0A => Some(Insn::WaitForKey(rx)),
                    0x15 => Some(Insn::SetDelayTimer(rx)),
                    0x18 => Some(Insn::SetSoundTimer(rx)),
                    0x1E => Some(Insn::AddA(rx)),
                    0x29 => Some(Insn::SpriteLoc(rx)),
                    0x33 => Some(Insn::StoreBCD(rx)),
                    0x55 => Some(Insn::StoreRegs(rx)),
                    0x65 => Some(Insn::LoadRegs(rx)),
                    _ => None,
                }
            },
            _ => None,
        }
    }
}

/// The instructions of a program, word by word: entry `i` is what the two
/// bytes at `2 * i` and `2 * i + 1` encode, high byte first. A last byte
/// without a partner is left out.
pub fn disassemble(rom: &[u8]) -> (r: Vec<Option<Insn>>)
    ensures
        r@.len() == rom@.len() / 2,
        forall|i: int|
            0 <= i < r@.len() ==> #[trigger] r@[i] == decode_spec(
                be_word_spec(rom@[2 * i], rom@[2 * i + 1]),
            ),
{
    let len: usize = rom.len();
    let words: usize = len / 2;
    let mut listing: Vec<Option<Insn>> = Vec::new();
    let mut i: usize = 0;
    while i < words
        invariant
            i <= words,
            len == rom@.len(),
            words == len / 2,
            listing@.len() == i,
            forall|j: int|
                0 <= j < i ==> #[trigger] listing@[j] == decode_spec(
                    be_word_spec(rom@[2 * j], rom@[2 * j + 1]),
                ),
        decreases words - i,
    {
        listing.push(Insn::decode(be_word(rom[2 * i], rom[2 * i + 1])));
        i += 1;
    }
    listing
}

/// What the processor is doing.
#[derive(Debug, Clone, Copy, PartialEq, Eq, Structural)]
pub enum CpuStatus {
    Running,
    WaitEvent,
    Halted,
}

/// Why an instruction could not be executed.
#[derive(Debug, Clone, Copy, PartialEq, Eq, Structural)]
pub enum CpuError {
    InvalidInstruction,
    NotImplemented,
    MemoryError,
    PopEmptyStack,
    StackOverflow,
    InvalidSprite,
}

/// The abstract value of the processor: its registers, the live part of its
/// call stack with the latest return address last, the number of ticks it
/// has gone through, and its random generator.
pub struct CpuView {
    pub status: CpuStatus,
    pub gpr: Seq<u8>,
    pub reg_i: u16,
    pub stack: Seq<u16>,
    pub pc: u16,
    pub cycles: nat,
    pub rng: PcgState,
}

/// `dst` with `src` copied over it from position `at` on.
pub open spec fn overlaid<T>(dst: Seq<T>, at: int, src: Seq<T>) -> Seq<T> {
    Seq::new(dst.len(), |i: int| if at <= i < at + src.len() { src[i - at] } else { dst[i] })
}

/// The first `sp` entries of `slots`: the return addresses that are in use.
pub open spec fn live_stack(slots: Seq<u16>, sp: u16) -> Seq<u16> {
    Seq::new(sp as nat, |i: int| slots[i])
}

/// The three decimal digits of `v`: hundreds, tens, units.
pub open spec fn bcd_digits(v: u8) -> Seq<u8> {
    seq![v / 100, (v / 10) % 10, v % 10]
}

impl CpuView {
    /// There are sixteen registers and at most sixteen return addresses.
    pub open spec fn wf(self) -> bool {
        self.gpr.len() == REG_COUNT && self.stack.len() <= STACK_DEPTH
    }

    /// The processor at power-on, about to execute the instruction at `boot_addr`.
    pub open spec fn initial(boot_addr: u16) -> CpuView {
        CpuView {
            status: CpuStatus::Running,
            gpr: Seq::new(REG_COUNT as nat, |i: int| 0u8),
            reg_i: 0,
            stack: Seq::empty(),
            pc: boot_addr,
            cycles: 0,
            rng: PcgState { state: 0, inc: 0 },
        }
    }

    /// The value of register `r`.
    pub open spec fn reg(self, r: u8) -> u8 {
        self.gpr[r as int]
    }

    /// The processor with `value` in register `r`.
    pub open spec fn with_reg(self, r: u8, value: u8) -> CpuView {
        CpuView { gpr: self.gpr.update(r as int, value), ..self }
    }

    /// The processor with the flag register set to 1 if `flag` holds and to 0 if not.
    pub open spec fn with_flag(self, flag: bool) -> CpuView {
        self.with_reg(FLAG_REG, if flag { 1u8 } else { 0u8 })
    }

    /// The address of the instruction after the next one.
    pub open spec fn skip_target(self) -> u16 {
        (self.pc + 4) as u16
    }
}

/// The state in which an instruction leaves the machine, and what the
/// processor is to do next: go on with the following instruction
/// (`Ok(None)`), go on at an address (`Ok(Some(..))`), or stop on a fault.
pub struct ExecOutcome {
    pub cpu: CpuView,
    pub periph: PeriphView,
    pub result: Result<Option<u16>, CpuError>,
}

impl ExecOutcome {
    /// Execution goes on with the following instruction.
    pub open spec fn next(cpu: CpuView, periph: PeriphView) -> ExecOutcome {
        ExecOutcome { cpu, periph, result: Ok(None) }
    }

    /// Execution goes on at `target`.
    pub open spec fn jump(cpu: CpuView, periph: PeriphView, target: u16) -> ExecOutcome {
        ExecOutcome { cpu, periph, result: Ok(Some(target)) }
    }

    /// The following instruction is skipped if `taken` holds.
    pub open spec fn skip_if(cpu: CpuView, periph: PeriphView, taken: bool) -> ExecOutcome {
        if taken {
            ExecOutcome::jump(cpu, periph, cpu.skip_target())
        } else {
            ExecOutcome::next(cpu, periph)
        }
    }

    /// Execution stops on the fault `e`.
    pub open spec fn fault(cpu: CpuView, periph: PeriphView, e: CpuError) -> ExecOutcome {
        ExecOutcome { cpu, periph, result: Err(e) }
    }
}

/// What executing `insn` does to the processor `cpu` and the peripherals
/// `periph`. A fault leaves both as they were. An instruction that sets a
/// register and the flag sets the flag last. An instruction that would read
/// or write memory beyond its end faults with `MemoryError`.
#[verifier::opaque]
pub open spec fn exec_spec(cpu: CpuView, periph: PeriphView, insn: Insn) -> ExecOutcome {
    match insn {
        Insn::Cls => ExecOutcome::next(
            cpu,
            PeriphView { screen: periph.screen.filled(0), ..periph },
        ),
        Insn::Ret => if cpu.stack.len() == 0 {
            ExecOutcome::fault(cpu, periph, CpuError::PopEmptyStack)
        } else {
            ExecOutcome::jump(
                CpuView { stack: cpu.stack.drop_last(), ..cpu },
                periph,
                cpu.stack.last(),
            )
        },
        Insn::Jump(target) => ExecOutcome::jump(cpu, periph, target),
        Insn::JumpV0(target) => ExecOutcome::jump(cpu, periph, (cpu.reg(0) + target) as u16),
        Insn::Call(target) => if cpu.stack.len() >= STACK_DEPTH {
            ExecOutcome::fault(cpu, periph, CpuError::StackOverflow)
        } else {
            ExecOutcome::jump(
                CpuView { stack: cpu.stack.push((cpu.pc + 2) as u16), ..cpu },
                periph,
                target,
            )
        },
        Insn::SkipEqI(rx, value) => ExecOutcome::skip_if(cpu, periph, cpu.reg(rx) == value),
        Insn::SkipNeqI(rx, value) => ExecOutcome::skip_if(cpu, periph, cpu.reg(rx) != value),
        Insn::SkipEq(rx, ry) => ExecOutcome::skip_if(cpu, periph, cpu.reg(rx) == cpu.reg(ry)),
        Insn::SkipNeq(rx, ry) => ExecOutcome::skip_if(cpu, periph, cpu.reg(rx) != cpu.reg(ry)),
        Insn::LoadI(rx, value) => ExecOutcome::next(cpu.with_reg(rx, value), periph),
        Insn::AddI(rx, value) => ExecOutcome::next(
            cpu.with_reg(rx, cpu.reg(rx).wrapping_add(value)),
            periph,
        ),
        Insn::Move(rx, ry) => ExecOutcome::next(cpu.with_reg(rx, cpu.reg(ry)), periph),
        Insn::Or(rx, ry) => ExecOutcome::next(cpu.with_reg(rx, cpu.reg(rx) | cpu.reg(ry)), periph),
        Insn::And(rx, ry) => ExecOutcome::next(cpu.with_reg(rx, cpu.reg(rx) & cpu.reg(ry)), periph),
        Insn::Xor(rx, ry) => ExecOutcome::next(cpu.with_reg(rx, cpu.reg(rx) ^ cpu.reg(ry)), periph),
        Insn::Add(rx, ry) => {
            let sum = cpu.reg(rx) + cpu.reg(ry);
            ExecOutcome::next(cpu.with_reg(rx, (sum % 256) as u8).with_flag(sum >= 256), periph)
        },
        Insn::Sub(rx, ry) => {
            let x = cpu.reg(rx);
            let y = cpu.reg(ry);
            ExecOutcome::next(cpu.with_reg(rx, x.wrapping_sub(y)).with_flag(x > y), periph)
        },
        Insn::SubN(rx, ry) => {
            let x = cpu.reg(rx);
            let y = cpu.reg(ry);
            ExecOutcome::next(cpu.with_reg(rx, y.wrapping_sub(x)).with_flag(y > x), periph)
        },
        Insn::Shr(rx, _) => {
            let x = cpu.reg(rx);
            ExecOutcome::next(cpu.with_reg(rx, x >> 1).with_flag(x & 1 == 1), periph)
        },
        Insn::Shl(rx, _) => {
            let x = cpu.reg(rx);
            ExecOutcome::next(cpu.with_reg(rx, x << 1).with_flag(x >> 7 == 1), periph)
        },
        Insn::LoadA(value) => ExecOutcome::next(CpuView { reg_i: value, ..cpu }, periph),
        Insn::AddA(rx) => ExecOutcome::next(
            CpuView { reg_i: cpu.reg_i.wrapping_add(cpu.reg(rx) as u16), ..cpu },
            periph,
        ),
        Insn::RndAnd(rx, value) => ExecOutcome::next(
            CpuView { rng: cpu.rng.step(), ..cpu }.with_reg(
                rx,
                ((pcg_output(cpu.rng.state) % 256) as u8) & value,
            ),
            periph,
        ),
        Insn::DrawSprite(rx, ry, n) => if cpu.reg_i + n > MEMORY_SIZE {
            ExecOutcome::fault(cpu, periph, CpuError::MemoryError)
        } else {
            let rows = periph.memory.subrange(cpu.reg_i as int, cpu.reg_i + n);
            let x = cpu.reg(rx) as int;
            let y = cpu.reg(ry) as int;
            ExecOutcome::next(
                cpu.with_flag(periph.screen.sprite_collides(rows, x, y)),
                PeriphView { screen: periph.screen.with_sprite(rows, x, y), ..periph },
            )
        },
        Insn::SkipKeyPressed(rx) => ExecOutcome::skip_if(
            cpu,
            periph,
            periph.keypad.contains(cpu.reg(rx)),
        ),
        Insn::SkipKeyNPressed(rx) => ExecOutcome::skip_if(
            cpu,
            periph,
            !periph.keypad.contains(cpu.reg(rx)),
        ),
        Insn::LoadTimer(rx) => ExecOutcome::next(
            cpu.with_reg(rx, (periph.delay_timer % 256) as u8),
            periph,
        ),
        Insn::WaitForKey(rx) => match lowest_key(periph.keypad) {
            Some(key) => ExecOutcome::next(
                CpuView { status: CpuStatus::Running, ..cpu }.with_reg(rx, key),
                periph,
            ),
            None => ExecOutcome::jump(
                CpuView { status: CpuStatus::WaitEvent, ..cpu },
                periph,
                cpu.pc,
            ),
        },
        Insn::SetDelayTimer(rx) => ExecOutcome::next(
            cpu,
            PeriphView { delay_timer: cpu.reg(rx) as u16, ..periph },
        ),
        Insn::SetSoundTimer(rx) => ExecOutcome::next(
            cpu,
            PeriphView { sound_timer: cpu.reg(rx) as u16, ..periph },
        ),
        Insn::SpriteLoc(rx) => if cpu.reg(rx) >= 16 {
            ExecOutcome::fault(cpu, periph, CpuError::InvalidSprite)
        } else {
            ExecOutcome::next(CpuView { reg_i: (GLYPH_SIZE * cpu.reg(rx)) as u16, ..cpu }, periph)
        },
        Insn::StoreBCD(rx) => if cpu.reg_i + 3 > MEMORY_SIZE {
            ExecOutcome::fault(cpu, periph, CpuError::MemoryError)
        } else {
            ExecOutcome::next(
                cpu,
                PeriphView {
                    memory: overlaid(periph.memory, cpu.reg_i as int, bcd_digits(cpu.reg(rx))),
                    ..periph
                },
            )
        },
        Insn::StoreRegs(n) => if cpu.reg_i + n + 1 > MEMORY_SIZE {
            ExecOutcome::fault(cpu, periph, CpuError::MemoryError)
        } else {
            ExecOutcome::next(
                cpu,
                PeriphView {
                    memory: overlaid(periph.memory, cpu.reg_i as int, cpu.gpr.subrange(0, n + 1)),
                    ..periph
                },
            )
        },
        Insn::LoadRegs(n) => if cpu.reg_i + n + 1 > MEMORY_SIZE {
            ExecOutcome::fault(cpu, periph, CpuError::MemoryError)
        } else {
            ExecOutcome::next(
                CpuView {
                    gpr: overlaid(
                        cpu.gpr,
                        0,
                        periph.memory.subrange(cpu.reg_i as int, cpu.reg_i + n + 1),
                    ),
                    ..cpu
                },
                periph,
            )
        },
    }
}

/// No instruction moves the program counter or counts a tick by itself, a
/// fault leaves the machine as it was, and a machine that is well formed
/// stays so.
pub proof fn lemma_exec_frame(cpu: CpuView, periph: PeriphView, insn: Insn)
    requires
        cpu.wf(),
        periph.wf(),
        insn.wf(),
    ensures
        exec_spec(cpu, periph, insn).cpu.pc == cpu.pc,
        exec_spec(cpu, periph, insn).cpu.cycles == cpu.cycles,
        exec_spec(cpu, periph, insn).cpu.wf(),
        exec_spec(cpu, periph, insn).periph.wf(),
        exec_spec(cpu, periph, insn).result is Err ==> exec_spec(cpu, periph, insn).cpu == cpu
            && exec_spec(cpu, periph, insn).periph == periph,
{
    if insn.is_flow() || insn.is_skip() {
        lemma_exec_frame_control(cpu, periph, insn);
    } else if insn.is_load() {
        lemma_exec_frame_load(cpu, periph, insn);
    } else if insn.is_alu() {
        lemma_exec_frame_alu(cpu, periph, insn);
    } else {
        lemma_exec_frame_io(cpu, periph, insn);
    }
}

/// What `lemma_exec_frame` states of an instruction.
spec fn exec_framed(cpu: CpuView, periph: PeriphView, insn: Insn) -> bool {
    let done = exec_spec(cpu, periph, insn);
    &&& done.cpu.pc == cpu.pc
    &&& done.cpu.cycles == cpu.cycles
    &&& done.cpu.wf()
    &&& done.periph.wf()
    &&& done.result is Err ==> done.cpu == cpu && done.periph == periph
}

proof fn lemma_exec_frame_control(cpu: CpuView, periph: PeriphView, insn: Insn)
    requires
        cpu.wf(),
        periph.wf(),
        insn.wf(),
        insn.is_flow() || insn.is_skip(),
    ensures
        exec_framed(cpu, periph, insn),
{
    reveal(exec_spec);
}

proof fn lemma_exec_frame_load(cpu: CpuView, periph: PeriphView, insn: Insn)
    requires
        cpu.wf(),
        periph.wf(),
        insn.wf(),
        insn.is_load(),
    ensures
        exec_framed(cpu, periph, insn),
{
    reveal(exec_spec);
}

proof fn lemma_exec_frame_alu(cpu: CpuView, periph: PeriphView, insn: Insn)
    requires
        cpu.wf(),
        periph.wf(),
        insn.wf(),
        insn.is_alu(),
    ensures
        exec_framed(cpu, periph, insn),
{
    reveal(exec_spec);
}

proof fn lemma_exec_frame_io(cpu: CpuView, periph: PeriphView, insn: Insn)
    requires
        cpu.wf(),
        periph.wf(),
        insn.wf(),
        insn.is_io(),
    ensures
        exec_framed(cpu, periph, insn),
{
    reveal(exec_spec);
}

/// A call followed at once by a return goes on behind the call and leaves
/// the processor as it was before the call.
pub proof fn lemma_call_then_ret(cpu: CpuView, periph: PeriphView, target: u16)
    requires
        cpu.wf(),
        cpu.stack.len() < STACK_DEPTH,
        cpu.pc + 2 <= u16::MAX,
    ensures
        ({
            let called = exec_spec(cpu, periph, Insn::Call(target));
            let back = exec_spec(called.cpu, called.periph, Insn::Ret);
            &&& called.result == Ok::<Option<u16>, CpuError>(Some(target))
            &&& called.cpu.stack.len() == cpu.stack.len() + 1
            &&& back.result == Ok::<Option<u16>, CpuError>(Some((cpu.pc + 2) as u16))
            &&& back.cpu == cpu
            &&& back.periph == periph
        }),
{
    reveal(exec_spec);
    assert(cpu.stack.push((cpu.pc + 2) as u16).drop_last() =~= cpu.stack);
}

/// A call faults exactly when the stack is full, a return exactly when it
/// is empty, and no other instruction touches the stack.
pub proof fn lemma_stack_faults(cpu: CpuView, periph: PeriphView, insn: Insn)
    requires
        cpu.wf(),
    ensures
        exec_spec(cpu, periph, insn).result == Err::<Option<u16>, CpuError>(
            CpuError::StackOverflow,
        ) <==> insn is Call && cpu.stack.len() == STACK_DEPTH,
        exec_spec(cpu, periph, insn).result == Err::<Option<u16>, CpuError>(
            CpuError::PopEmptyStack,
        ) <==> insn is Ret && cpu.stack.len() == 0,
        !(insn is Call) && !(insn is Ret) ==> exec_spec(cpu, periph, insn).cpu.stack == cpu.stack,
{
    reveal(exec_spec);
}

/// Only the wait for a key changes what the processor is doing: it marks
/// the processor as running if a key is held and as waiting if none is. No
/// instruction halts the processor.
pub proof fn lemma_status_transitions(cpu: CpuView, periph: PeriphView, insn: Insn)
    ensures
        !(insn is WaitForKey) ==> exec_spec(cpu, periph, insn).cpu.status == cpu.status,
        insn is WaitForKey ==> exec_spec(cpu, periph, insn).cpu.status == if exists|k: u8|
            periph.keypad.contains(k) {
            CpuStatus::Running
        } else {
            CpuStatus::WaitEvent
        },
        exec_spec(cpu, periph, insn).cpu.status is Halted ==> cpu.status is Halted,
{
    reveal(exec_spec);
    lemma_lowest_key(periph.keypad);
}

/// Whether the processor stands at an instruction that waits for a key and
/// puts its code into register `rx`.
pub open spec fn waits_for_key(cpu: CpuView, periph: PeriphView, rx: u8) -> bool {
    cpu.pc + 2 <= MEMORY_SIZE && decode_spec(fetch_spec(periph.memory, cpu.pc)) == Some(
        Insn::WaitForKey(rx),
    )
}

/// The wait for a key, executed while no key is held, asks to be executed
/// again: it marks the processor as waiting and leaves every register, the
/// stack and the peripherals as they are.
pub proof fn lemma_wait_for_key_exec(cpu: CpuView, periph: PeriphView, rx: u8)
    requires
        forall|k: u8| !periph.keypad.contains(k),
    ensures
        exec_spec(cpu, periph, Insn::WaitForKey(rx)) == ExecOutcome::jump(
            CpuView { status: CpuStatus::WaitEvent, ..cpu },
            periph,
            cpu.pc,
        ),
{
    reveal(exec_spec);
    lemma_lowest_key(periph.keypad);
}

/// The wait for a key, executed while keys are held, puts the lowest of
/// their codes into the register, marks the processor as running and goes
/// on with the following instruction; on well-formed peripherals that code
/// is below sixteen.
pub proof fn lemma_wait_for_key_takes(cpu: CpuView, periph: PeriphView, rx: u8, key: u8)
    requires
        periph.keypad.contains(key),
        forall|j: u8| j < key ==> !periph.keypad.contains(j),
    ensures
        exec_spec(cpu, periph, Insn::WaitForKey(rx)) == ExecOutcome::next(
            (CpuView { status: CpuStatus::Running, ..cpu }).with_reg(rx, key),
            periph,
        ),
        periph.wf() ==> key < KEY_COUNT,
{
    reveal(exec_spec);
    lemma_lowest_key(periph.keypad);
}

/// After an addition the destination and the flag together hold the whole
/// sum, unless the destination is the flag register itself.
pub proof fn lemma_add_carry(cpu: CpuView, periph: PeriphView, rx: u8, ry: u8)
    requires
        cpu.wf(),
        rx < FLAG_REG,
        ry < REG_COUNT,
    ensures
        ({
            let after = exec_spec(cpu, periph, Insn::Add(rx, ry)).cpu;
            &&& after.reg(rx) + 256 * after.reg(FLAG_REG) == cpu.reg(rx) + cpu.reg(ry)
            &&& after.reg(FLAG_REG) <= 1
        }),
{
    reveal(exec_spec);
}

/// The state in which one step of the processor leaves the machine, and
/// whether the step ended in a fault.
pub struct TickOutcome {
    pub cpu: CpuView,
    pub periph: PeriphView,
    pub result: Result<(), CpuError>,
}

/// The 16-bit word whose high byte is `hi` and whose low byte is `lo`.
pub open spec fn be_word_spec(hi: u8, lo: u8) -> u16 {
    (hi * 256 + lo) as u16
}

/// The instruction word that `memory` holds at `pc`, high byte first.
pub open spec fn fetch_spec(memory: Seq<u8>, pc: u16) -> u16 {
    be_word_spec(memory[pc as int], memory[pc + 1])
}

/// What one step of the processor does. The tick is counted first. If the
/// two bytes at the program counter do not both lie in memory the step
/// faults with `MemoryError`; if they encode no instruction, with
/// `InvalidInstruction`; if the instruction faults, with its fault. A fault
/// leaves the program counter where it is. Else the instruction is executed
/// and the program counter set to where execution goes on.
#[verifier::opaque]
pub open spec fn tick_spec(cpu: CpuView, periph: PeriphView) -> TickOutcome {
    let counted = CpuView { cycles: cpu.cycles + 1, ..cpu };
    if cpu.pc + 2 > MEMORY_SIZE {
        TickOutcome { cpu: counted, periph, result: Err(CpuError::MemoryError) }
    } else {
        match decode_spec(fetch_spec(periph.memory, cpu.pc)) {
            None => TickOutcome { cpu: counted, periph, result: Err(CpuError::InvalidInstruction) },
            Some(insn) => {
                let done = exec_spec(counted, periph, insn);
                match done.result {
                    Err(e) => TickOutcome { cpu: done.cpu, periph: done.periph, result: Err(e) },
                    Ok(Some(target)) => TickOutcome {
                        cpu: CpuView { pc: target, ..done.cpu },
                        periph: done.periph,
                        result: Ok(()),
                    },
                    Ok(None) => TickOutcome {
                        cpu: CpuView { pc: (cpu.pc + 2) as u16, ..done.cpu },
                        periph: done.periph,
                        result: Ok(()),
                    },
                }
            },
        }
    }
}

/// A step of the processor counts one tick, and leaves a machine that is
/// well formed so.
pub proof fn lemma_tick_frame(cpu: CpuView, periph: PeriphView)
    requires
        cpu.wf(),
        periph.wf(),
    ensures
        tick_spec(cpu, periph).cpu.cycles == cpu.cycles + 1,
        tick_spec(cpu, periph).cpu.wf(),
        tick_spec(cpu, periph).periph.wf(),
        tick_spec(cpu, periph).result is Err ==> tick_spec(cpu, periph).cpu.pc == cpu.pc
            && tick_spec(cpu, periph).periph == periph,
{
    reveal(tick_spec);
    let counted = CpuView { cycles: cpu.cycles + 1, ..cpu };
    if cpu.pc + 2 <= MEMORY_SIZE {
        match decode_spec(fetch_spec(periph.memory, cpu.pc)) {
            None => {},
            Some(insn) => {
                lemma_decode_wf(fetch_spec(periph.memory, cpu.pc));
                lemma_exec_frame(counted, periph, insn);
            },
        }
    }
}

/// One step of a processor that waits for a key while no key is held:
/// the tick is counted, the processor is marked as waiting, and all else
/// stays as it is, the program counter too.
pub proof fn lemma_wait_for_key_tick(cpu: CpuView, periph: PeriphView, rx: u8)
    requires
        waits_for_key(cpu, periph, rx),
        forall|k: u8| !periph.keypad.contains(k),
    ensures
        tick_spec(cpu, periph) == (TickOutcome {
            cpu: CpuView { status: CpuStatus::WaitEvent, cycles: cpu.cycles + 1, ..cpu },
            periph,
            result: Ok(()),
        }),
{
    reveal(tick_spec);
    lemma_wait_for_key_exec(CpuView { cycles: cpu.cycles + 1, ..cpu }, periph, rx);
}

/// Up to `n` steps of the processor on peripherals that nothing else
/// touches: the first fault ends them.
pub open spec fn ticks_spec(cpu: CpuView, periph: PeriphView, n: nat) -> TickOutcome
    decreases n,
{
    if n == 0 {
        TickOutcome { cpu, periph, result: Ok(()) }
    } else {
        let t = tick_spec(cpu, periph);
        if t.result is Err {
            t
        } else {
            ticks_spec(t.cpu, t.periph, (n - 1) as nat)
        }
    }
}

/// However many steps a processor makes that waits for a key while no key
/// is held, none of them faults, each is counted, and the program counter,
/// the registers, the stack and the peripherals stay as they are.
pub proof fn lemma_wait_for_key_ticks(cpu: CpuView, periph: PeriphView, rx: u8, n: nat)
    requires
        waits_for_key(cpu, periph, rx),
        forall|k: u8| !periph.keypad.contains(k),
    ensures
        ticks_spec(cpu, periph, n) == (TickOutcome {
            cpu: CpuView {
                status: if n > 0 { CpuStatus::WaitEvent } else { cpu.status },
                cycles: cpu.cycles + n,
                ..cpu
            },
            periph,
            result: Ok(()),
        }),
    decreases n,
{
    if n > 0 {
        lemma_wait_for_key_tick(cpu, periph, rx);
        let t = tick_spec(cpu, periph);
        lemma_wait_for_key_ticks(t.cpu, t.periph, rx, (n - 1) as nat);
    }
}

/// Every instruction that a word encodes has its operands in their ranges.
pub proof fn lemma_decode_wf(w: u16)
    ensures
        decode_spec(w) matches Some(insn) ==> insn.wf(),
{
}

/// The processor: sixteen 8-bit registers, an index register, a program
/// counter, a call stack of sixteen return addresses, and a random generator.
#[derive(Debug, Clone, PartialEq, Eq)]
pub struct Chip8Cpu {
    status: CpuStatus,
    gpr: [u8; 16],
    reg_i: u16,
    stack: [u16; 16],
    pc: u16,
    sp: u16,
    rng: Pcg32,
    cycles: u64,
}

impl View for Chip8Cpu {
    type V = CpuView;

    closed spec fn view(&self) -> CpuView {
        CpuView {
            status: self.status,
            gpr: self.gpr@,
            reg_i: self.reg_i,
            stack: live_stack(self.stack@, self.sp),
            pc: self.pc,
            cycles: self.cycles as nat,
            rng: self.rng@,
        }
    }
}

impl Chip8Cpu {
    /// The call stack holds at most sixteen return addresses.
    pub open spec fn wf(&self) -> bool {
        self@.wf()
    }

    /// A processor at power-on, about to execute the instruction at `boot_addr`.
    pub fn new(boot_addr: u16) -> (r: Self)
        ensures
            r.wf(),
            r@ == CpuView::initial(boot_addr),
    {
        let r = Chip8Cpu {
            status: CpuStatus::Running,
            gpr: [0u8;16],
            pc: boot_addr,
            reg_i: 0,
            sp: 0,
            stack: [0u16;16],
            rng: Pcg32::default(),
            cycles: 0,
        };
        proof {
            assert(r@.gpr =~= CpuView::initial(boot_addr).gpr);
            assert(r@.stack =~= CpuView::initial(boot_addr).stack);
        }
        r
    }

    /// The value of register `r`.
    pub fn read_gpr(&self, r: u8) -> (value: u8)
        requires
            r < REG_COUNT,
        ensures
            value == self@.reg(r),
    {
        self.gpr[r as usize]
    }

    /// Puts `value` into register `r`.
    pub fn write_gpr(&mut self, r: u8, value: u8)
        requires
            r < REG_COUNT,
        ensures
            final(self)@ == old(self)@.with_reg(r, value),
    {
        self.gpr[r as usize] = value;
    }

    /// Puts `value` into the flag register.
    pub fn write_vf(&mut self, value: u8)
        ensures
            final(self)@ == old(self)@.with_reg(FLAG_REG, value),
    {
        self.write_gpr(0xF, value);
    }

    /// Sets the flag register to 1 if `value` holds and to 0 if not.
    pub fn write_vf_flag(&mut self, value: bool)
        ensures
            final(self)@ == old(self)@.with_flag(value),
    {
        self.write_gpr(0xF, bool_to_bit(value));
    }

    /// Restarts the random generator on the stream that `seed` selects.
    pub fn set_rng_seed(&mut self, seed: u64)
        ensures
            final(self)@ == (CpuView { rng: PcgState::seeded(seed, RNG_SEQUENCE), ..old(self)@ }),
    {
        self.rng.reset(seed, RNG_SEQUENCE);
    }

    /// The address of the instruction that is executed next.
    pub fn pc(&self) -> (r: u16)
        ensures
            r == self@.pc,
    {
        self.pc
    }

    /// The value of the index register.
    pub fn reg_i(&self) -> (r: u16)
        ensures
            r == self@.reg_i,
    {
        self.reg_i
    }

    /// The number of ticks that the processor has gone through.
    pub fn cycles(&self) -> (r: u64)
        ensures
            r == self@.cycles,
    {
        self.cycles
    }

    /// What the processor is doing.
    pub fn status(&self) -> (r: CpuStatus)
        ensures
            r == self@.status,
    {
        self.status
    }

    /// The number of return addresses on the call stack.
    pub fn stack_depth(&self) -> (r: u16)
        ensures
            r == self@.stack.len(),
    {
        self.sp
    }

    fn pop_return(&mut self) -> (r: Result<Option<u16>, CpuError>)
        requires
            old(self).wf(),
        ensures
            final(self).wf(),
            old(self)@.stack.len() == 0 ==> r == Err::<Option<u16>, CpuError>(
                CpuError::PopEmptyStack,
            ) && final(self)@ == old(self)@,
            old(self)@.stack.len() > 0 ==> r == Ok::<Option<u16>, CpuError>(
                Some(old(self)@.stack.last()),
            ) && final(self)@ == (CpuView { stack: old(self)@.stack.drop_last(), ..old(self)@ }),
    {
        if self.sp == 0 {
            return Err(CpuError::PopEmptyStack);
        }
        self.sp -= 1;
        let target: u16 = self.stack[self.sp as usize];
        proof {
            assert(self@.stack =~= old(self)@.stack.drop_last());
        }
        Ok(Some(target))
    }

    fn push_return(&mut self, target: u16) -> (r: Result<Option<u16>, CpuError>)
        requires
            old(self).wf(),
            old(self)@.pc + 2 <= u16::MAX,
        ensures
            final(self).wf(),
            old(self)@.stack.len() >= STACK_DEPTH ==> r == Err::<Option<u16>, CpuError>(
                CpuError::StackOverflow,
            ) && final(self)@ == old(self)@,
            old(self)@.stack.len() < STACK_DEPTH ==> r == Ok::<Option<u16>, CpuError>(
                Some(target),
            ) && final(self)@ == (CpuView {
                stack: old(self)@.stack.push((old(self)@.pc + 2) as u16),
                ..old(self)@
            }),
    {
        if self.sp >= STACK_DEPTH {
            return Err(CpuError::StackOverflow);
        }
        self.stack[self.sp as usize] = self.pc + 2;
        self.sp += 1;
        proof {
            assert(self@.stack =~= old(self)@.stack.push((old(self)@.pc + 2) as u16));
        }
        Ok(Some(target))
    }

    fn skip_if(&self, taken: bool) -> (r: Result<Option<u16>, CpuError>)
        requires
            self@.pc + 4 <= u16::MAX,
        ensures
            r == if taken {
                Ok::<Option<u16>, CpuError>(Some(self@.skip_target()))
            } else {
                Ok::<Option<u16>, CpuError>(None)
            },
    {
        if taken {
            Ok(Some(self.pc + 4))
        } else {
            Ok(None)
        }
    }

    fn write_result(&mut self, rx: u8, value: u8, flag: bool)
        requires
            rx < REG_COUNT,
        ensures
            final(self)@ == old(self)@.with_reg(rx, value).with_flag(flag),
    {
        self.write_gpr(rx, value);
        self.write_vf_flag(flag);
    }

    fn random_and(&mut self, rx: u8, value: u8)
        requires
            rx < REG_COUNT,
        ensures
            final(self)@ == (CpuView { rng: old(self)@.rng.step(), ..old(self)@ }).with_reg(
                rx,
                ((pcg_output(old(self)@.rng.state) % 256) as u8) & value,
            ),
    {
        let rnd: u32 = self.rng.generate();
        self.write_gpr(rx, ((rnd % 256) as u8) & value);
    }

    fn wait_for_key(&mut self, keys: &Keypad, rx: u8) -> (r: Result<Option<u16>, CpuError>)
        requires
            rx < REG_COUNT,
        ensures
            match lowest_key(keys@) {
                Some(key) => r == Ok::<Option<u16>, CpuError>(None) && final(self)@ == (CpuView {
                    status: CpuStatus::Running,
                    ..old(self)@
                }).with_reg(rx, key),
                None => r == Ok::<Option<u16>, CpuError>(Some(old(self)@.pc)) && final(self)@ == (
                CpuView { status: CpuStatus::WaitEvent, ..old(self)@ }),
            },
    {
        if let Some(key) = keys.first_key_pressed() {
            self.status = CpuStatus::Running;
            self.write_gpr(rx, key);
            Ok(None)
        } else {
            self.status = CpuStatus::WaitEvent;
            Ok(Some(self.pc))
        }
    }

    fn sprite_loc(&mut self, rx: u8) -> (r: Result<Option<u16>, CpuError>)
        requires
            rx < REG_COUNT,
        ensures
            old(self)@.reg(rx) >= 16 ==> r == Err::<Option<u16>, CpuError>(
                CpuError::InvalidSprite,
            ) && final(self)@ == old(self)@,
            old(self)@.reg(rx) < 16 ==> r == Ok::<Option<u16>, CpuError>(None) && final(self)@ == (
            CpuView { reg_i: (GLYPH_SIZE * old(self)@.reg(rx)) as u16, ..old(self)@ }),
    {
        let x: u8 = self.read_gpr(rx);
        if x >= 16 {
            return Err(CpuError::InvalidSprite);
        }
        self.reg_i = GLYPH_SIZE * (x as u16);
        Ok(None)
    }

    fn draw(&mut self, periph: &mut Chip8Peripherals, rx: u8, ry: u8, n: u8) -> (r: Result<
        Option<u16>,
        CpuError,
    >)
        requires
            rx < REG_COUNT,
            ry < REG_COUNT,
            n < 16,
        ensures
            final(self)@ == exec_spec(old(self)@, old(periph)@, Insn::DrawSprite(rx, ry, n)).cpu,
            final(periph)@ == exec_spec(
                old(self)@,
                old(periph)@,
                Insn::DrawSprite(rx, ry, n),
            ).periph,
            r == exec_spec(old(self)@, old(periph)@, Insn::DrawSprite(rx, ry, n)).result,
    {
        proof {
            reveal(exec_spec);
        }
        let x: u8 = self.read_gpr(rx);
        let y: u8 = self.read_gpr(ry);
        let base: usize = self.reg_i as usize;
        if base + n as usize > MEMORY_SIZE {
            return Err(CpuError::MemoryError);
        }
        let erased = draw_sprite(&mut periph.screen, &periph.memory, base, n, x, y);
        self.write_vf_flag(erased);
        Ok(None)
    }

    fn store_bcd(&self, periph: &mut Chip8Peripherals, rx: u8) -> (r: Result<Option<u16>, CpuError>)
        requires
            rx < REG_COUNT,
        ensures
            self@ == exec_spec(self@, old(periph)@, Insn::StoreBCD(rx)).cpu,
            final(periph)@ == exec_spec(self@, old(periph)@, Insn::StoreBCD(rx)).periph,
            r == exec_spec(self@, old(periph)@, Insn::StoreBCD(rx)).result,
    {
        proof {
            reveal(exec_spec);
        }
        let base: usize = self.reg_i as usize;
        if base + 3 > MEMORY_SIZE {
            return Err(CpuError::MemoryError);
        }
        let value: u8 = self.read_gpr(rx);
        periph.memory[base] = value / 100;
        periph.memory[base + 1] = (value / 10) % 10;
        periph.memory[base + 2] = value % 10;
        proof {
            assert(periph@.memory =~= overlaid(
                old(periph)@.memory,
                self@.reg_i as int,
                bcd_digits(value),
            ));
        }
        Ok(None)
    }

    fn store_regs(&self, periph: &mut Chip8Peripherals, n: u8) -> (r: Result<Option<u16>, CpuError>)
        requires
            n < REG_COUNT,
        ensures
            self@ == exec_spec(self@, old(periph)@, Insn::StoreRegs(n)).cpu,
            final(periph)@ == exec_spec(self@, old(periph)@, Insn::StoreRegs(n)).periph,
            r == exec_spec(self@, old(periph)@, Insn::StoreRegs(n)).result,
    {
        proof {
            reveal(exec_spec);
        }
        let base: usize = self.reg_i as usize;
        if base + n as usize + 1 > MEMORY_SIZE {
            return Err(CpuError::MemoryError);
        }
        let mut i: usize = 0;
        proof {
            assert(periph@.memory =~= overlaid(
                periph@.memory,
                base as int,
                self.gpr@.subrange(0, 0),
            ));
        }
        while i <= n as usize
            invariant
                i <= n + 1,
                n < REG_COUNT,
                base == self.reg_i,
                base + n + 1 <= MEMORY_SIZE,
                periph@ == (PeriphView {
                    memory: overlaid(
                        old(periph)@.memory,
                        base as int,
                        self.gpr@.subrange(0, i as int),
                    ),
                    ..old(periph)@
                }),
            decreases n + 1 - i,
        {
            periph.memory[base + i] = self.gpr[i];
            proof {
                assert(periph@.memory =~= overlaid(
                    old(periph)@.memory,
                    base as int,
                    self.gpr@.subrange(0, i + 1),
                ));
            }
            i += 1;
        }
        Ok(None)
    }

    fn load_regs(&mut self, periph: &Chip8Peripherals, n: u8) -> (r: Result<Option<u16>, CpuError>)
        requires
            n < REG_COUNT,
        ensures
            final(self)@ == exec_spec(old(self)@, periph@, Insn::LoadRegs(n)).cpu,
            r == exec_spec(old(self)@, periph@, Insn::LoadRegs(n)).result,
    {
        proof {
            reveal(exec_spec);
        }
        let base: usize = self.reg_i as usize;
        if base + n as usize + 1 > MEMORY_SIZE {
            return Err(CpuError::MemoryError);
        }
        let mut i: usize = 0;
        proof {
            assert(self@.gpr =~= overlaid(
                self@.gpr,
                0,
                periph@.memory.subrange(base as int, base as int),
            ));
        }
        while i <= n as usize
            invariant
                i <= n + 1,
                n < REG_COUNT,
                base == self.reg_i,
                base + n + 1 <= MEMORY_SIZE,
                self@ == (CpuView {
                    gpr: overlaid(
                        old(self)@.gpr,
                        0,
                        periph@.memory.subrange(base as int, base + i),
                    ),
                    ..old(self)@
                }),
            decreases n + 1 - i,
        {
            self.gpr[i] = periph.memory[base + i];
            proof {
                assert(self@.gpr =~= overlaid(
                    old(self)@.gpr,
                    0,
                    periph@.memory.subrange(base as int, base + i + 1),
                ));
            }
            i += 1;
        }
        Ok(None)
    }

    fn exec_flow(&mut self, insn: Insn, periph: &Chip8Peripherals) -> (r: Result<
        Option<u16>,
        CpuError,
    >)
        requires
            old(self).wf(),
            insn.wf(),
            insn.is_flow(),
            insn is Call ==> old(self)@.pc + 2 <= u16::MAX,
        ensures
            final(self).wf(),
            final(self)@ == exec_spec(old(self)@, periph@, insn).cpu,
            periph@ == exec_spec(old(self)@, periph@, insn).periph,
            r == exec_spec(old(self)@, periph@, insn).result,
    {
        proof {
            reveal(exec_spec);
        }
        match insn {
            Insn::Ret => self.pop_return(),
            Insn::Jump(target) => Ok(Some(target)),
            Insn::JumpV0(target) => Ok(Some(self.read_gpr(0) as u16 + target)),
            Insn::Call(target) => self.push_return(target),
            Insn::WaitForKey(rx) => self.wait_for_key(&periph.keypad, rx),
            _ => Ok(None),
        }
    }

    fn exec_skip(&self, insn: Insn, periph: &Chip8Peripherals) -> (r: Result<
        Option<u16>,
        CpuError,
    >)
        requires
            insn.wf(),
            insn.is_skip(),
            self@.pc + 4 <= u16::MAX,
        ensures
            self@ == exec_spec(self@, periph@, insn).cpu,
            periph@ == exec_spec(self@, periph@, insn).periph,
            r == exec_spec(self@, periph@, insn).result,
    {
        proof {
            reveal(exec_spec);
        }
        match insn {
            Insn::SkipEqI(rx, value) => self.skip_if(self.read_gpr(rx) == value),
            Insn::SkipNeqI(rx, value) => self.skip_if(self.read_gpr(rx) != value),
            Insn::SkipEq(rx, ry) => self.skip_if(self.read_gpr(rx) == self.read_gpr(ry)),
            Insn::SkipNeq(rx, ry) => self.skip_if(self.read_gpr(rx) != self.read_gpr(ry)),
            Insn::SkipKeyPressed(rx) => self.skip_if(
                periph.keypad.key_state(self.read_gpr(rx)) == 1,
            ),
            Insn::SkipKeyNPressed(rx) => self.skip_if(
                periph.keypad.key_state(self.read_gpr(rx)) == 0,
            ),
            _ => Ok(None),
        }
    }

    fn exec_load(&mut self, insn: Insn, periph: &Chip8Peripherals) -> (r: Result<
        Option<u16>,
        CpuError,
    >)
        requires
            insn.wf(),
            insn.is_load(),
        ensures
            final(self)@ == exec_spec(old(self)@, periph@, insn).cpu,
            periph@ == exec_spec(old(self)@, periph@, insn).periph,
            r == exec_spec(old(self)@, periph@, insn).result,
    {
        proof {
            reveal(exec_spec);
        }
        match insn {
            Insn::LoadI(rx, value) => self.write_gpr(rx, value),
            Insn::AddI(rx, value) => {
                let x: u8 = self.read_gpr(rx);
                self.write_gpr(rx, x.wrapping_add(value));
            },
            Insn::Move(rx, ry) => {
                let y: u8 = self.read_gpr(ry);
                self.write_gpr(rx, y);
            },
            Insn::LoadA(value) => {
                self.reg_i = value;
            },
            Insn::AddA(rx) => {
                self.reg_i = self.reg_i.wrapping_add(self.read_gpr(rx) as u16);
            },
            Insn::RndAnd(rx, value) => self.random_and(rx, value),
            Insn::LoadTimer(rx) => self.write_gpr(rx, (periph.delay_timer % 256) as u8),
            Insn::SpriteLoc(rx) => {
                return self.sprite_loc(rx);
            },
            Insn::LoadRegs(n) => {
                return self.load_regs(periph, n);
            },
            _ => {},
        }
        Ok(None)
    }

    fn exec_alu(&mut self, insn: Insn, periph: &Chip8Peripherals) -> (r: Result<
        Option<u16>,
        CpuError,
    >)
        requires
            insn.wf(),
            insn.is_alu(),
        ensures
            final(self)@ == exec_spec(old(self)@, periph@, insn).cpu,
            periph@ == exec_spec(old(self)@, periph@, insn).periph,
            r == exec_spec(old(self)@, periph@, insn).result,
    {
        proof {
            reveal(exec_spec);
        }
        match insn {
            Insn::Or(rx, ry) => {
                let x: u8 = self.read_gpr(rx);
                let y: u8 = self.read_gpr(ry);
                self.write_gpr(rx, x | y);
            },
            Insn::And(rx, ry) => {
                let x: u8 = self.read_gpr(rx);
                let y: u8 = self.read_gpr(ry);
                self.write_gpr(rx, x & y);
            },
            Insn::Xor(rx, ry) => {
                let x: u8 = self.read_gpr(rx);
                let y: u8 = self.read_gpr(ry);
                self.write_gpr(rx, x ^ y);
            },
            Insn::Add(rx, ry) => {
                let sum: u16 = self.read_gpr(rx) as u16 + self.read_gpr(ry) as u16;
                self.write_result(rx, (sum % 256) as u8, sum >= 256);
            },
            Insn::Sub(rx, ry) => {
                let x: u8 = self.read_gpr(rx);
                let y: u8 = self.read_gpr(ry);
                self.write_result(rx, x.wrapping_sub(y), x > y);
            },
            Insn::SubN(rx, ry) => {
                let x: u8 = self.read_gpr(rx);
                let y: u8 = self.read_gpr(ry);
                self.write_result(rx, y.wrapping_sub(x), y > x);
            },
            Insn::Shr(rx, _) => {
                let x: u8 = self.read_gpr(rx);
                self.write_result(rx, x >> 1, x & 1 == 1);
            },
            Insn::Shl(rx, _) => {
                let x: u8 = self.read_gpr(rx);
                self.write_result(rx, x << 1, x >> 7 == 1);
            },
            _ => {},
        }
        Ok(None)
    }

    fn exec_io(&mut self, insn: Insn, periph: &mut Chip8Peripherals) -> (r: Result<
        Option<u16>,
        CpuError,
    >)
        requires
            insn.wf(),
            insn.is_io(),
        ensures
            final(self)@ == exec_spec(old(self)@, old(periph)@, insn).cpu,
            final(periph)@ == exec_spec(old(self)@, old(periph)@, insn).periph,
            r == exec_spec(old(self)@, old(periph)@, insn).result,
    {
        match insn {
            Insn::Cls => {
                proof {
                    reveal(exec_spec);
                }
                periph.screen.clear(0);
                Ok(None)
            },
            Insn::SetDelayTimer(rx) => {
                proof {
                    reveal(exec_spec);
                }
                periph.delay_timer = self.read_gpr(rx) as u16;
                Ok(None)
            },
            Insn::SetSoundTimer(rx) => {
                proof {
                    reveal(exec_spec);
                }
                periph.sound_timer = self.read_gpr(rx) as u16;
                Ok(None)
            },
            Insn::DrawSprite(rx, ry, n) => self.draw(periph, rx, ry, n),
            Insn::StoreBCD(rx) => self.store_bcd(periph, rx),
            Insn::StoreRegs(n) => self.store_regs(periph, n),
            _ => Ok(None),
        }
    }

    /// Executes `insn`, which stands at the address in the program counter,
    /// and tells where execution goes on: at the following instruction
    /// (`Ok(None)`) or at an address (`Ok(Some(..))`). The program counter
    /// itself is left as it is.
    pub fn exec_insn(&mut self, insn: Insn, periph: &mut Chip8Peripherals) -> (r: Result<
        Option<u16>,
        CpuError,
    >)
        requires
            old(self).wf(),
            insn.wf(),
            insn.is_skip() ==> old(self)@.pc + 4 <= u16::MAX,
            insn is Call ==> old(self)@.pc + 2 <= u16::MAX,
        ensures
            final(self).wf(),
            final(self)@ == exec_spec(old(self)@, old(periph)@, insn).cpu,
            final(periph)@ == exec_spec(old(self)@, old(periph)@, insn).periph,
            r == exec_spec(old(self)@, old(periph)@, insn).result,
    {
        proof {
            periph.lemma_wf();
            lemma_exec_frame(self@, periph@, insn);
        }
        match insn {
            Insn::Ret | Insn::Jump(_) | Insn::JumpV0(_) | Insn::Call(_) | Insn::WaitForKey(_) => {
                self.exec_flow(insn, periph)
            },
            Insn::SkipEqI(_, _)
            | Insn::SkipNeqI(_, _)
            | Insn::SkipEq(_, _)
            | Insn::SkipNeq(_, _)
            | Insn::SkipKeyPressed(_)
            | Insn::SkipKeyNPressed(_) => self.exec_skip(insn, periph),
            Insn::LoadI(_, _)
            | Insn::AddI(_, _)
            | Insn::Move(_, _)
            | Insn::LoadA(_)
            | Insn::AddA(_)
            | Insn::RndAnd(_, _)
            | Insn::LoadTimer(_)
            | Insn::SpriteLoc(_)
            | Insn::LoadRegs(_) => self.exec_load(insn, periph),
            Insn::Or(_, _)
            | Insn::And(_, _)
            | Insn::Xor(_, _)
            | Insn::Add(_, _)
            | Insn::Sub(_, _)
            | Insn::SubN(_, _)
            | Insn::Shr(_, _)
            | Insn::Shl(_, _) => self.exec_alu(insn, periph),
            Insn::Cls
            | Insn::SetDelayTimer(_)
            | Insn::SetSoundTimer(_)
            | Insn::DrawSprite(_, _, _)
            | Insn::StoreBCD(_)
            | Insn::StoreRegs(_) => self.exec_io(insn, periph),
        }
    }

    /// One step of the processor: counts the tick, fetches the instruction
    /// word at the program counter, decodes it, executes it, and moves the
    /// program counter on. On a fault the program counter stays where it is.
    pub fn tick(&mut self, periph: &mut Chip8Peripherals) -> (r: Result<(), CpuError>)
        requires
            old(self).wf(),
            old(self)@.cycles < u64::MAX,
        ensures
            final(self).wf(),
            final(self)@ == tick_spec(old(self)@, old(periph)@).cpu,
            final(periph)@ == tick_spec(old(self)@, old(periph)@).periph,
            r == tick_spec(old(self)@, old(periph)@).result,
    {
        proof {
            reveal(tick_spec);
        }
        self.cycles += 1;
        let pc: usize = self.pc as usize;
        if pc + 2 > MEMORY_SIZE {
            return Err(CpuError::MemoryError);
        }
        let insn_raw: u16 = be_word(periph.memory[pc], periph.memory[pc + 1]);
        let insn = match Insn::decode(insn_raw) {
            Some(insn) => insn,
            None => {
                return Err(CpuError::InvalidInstruction);
            },
        };
        proof {
            periph.lemma_wf();
            lemma_exec_frame(self@, periph@, insn);
        }
        match self.exec_insn(insn, periph) {
            Err(e) => {
                return Err(e);
            },
            Ok(Some(new_pc)) => {
                self.pc = new_pc;
            },
            Ok(None) => {
                self.pc += 2;
            },
        }
        Ok(())
    }
}

} // verus!
