//! Instruction decode: a 16-bit opcode word is split into four 4-bit nibbles
//! and mapped to a closed enumeration of instruction variants with extracted
//! operands, so that decoding can be reasoned about (and tested) apart from
//! execution.

use vstd::prelude::*;

verus! {

/// One decoded instruction. Register operands are 4-bit indices into the
/// 16-entry register file, `addr` operands are the low 12 bits of the opcode,
/// byte operands the low 8.
#[derive(Clone, Copy, Debug, PartialEq, Eq, Structural)]
pub enum Instr {
    /// 00E0: clear the framebuffer.
    Cls,
    /// 00EE: pop the return address off the stack into the program counter.
    Ret,
    /// 1nnn: jump to `addr`.
    Jp(u16),
    /// 2nnn: push the program counter, then jump to `addr`.
    Call(u16),
    /// 3xkk: skip the next instruction if `reg[x] == kk`.
    SeByte(u8, u8),
    /// 4xkk: skip the next instruction if `reg[x] != kk`.
    SneByte(u8, u8),
    /// 5xy0: skip the next instruction if `reg[x] == reg[y]`.
    SeReg(u8, u8),
    /// 6xkk: `reg[x] = kk`.
    LdByte(u8, u8),
    /// 7xkk: `reg[x] += kk`, wrapping, no flag.
    AddByte(u8, u8),
    /// 8xy0: `reg[x] = reg[y]`.
    LdReg(u8, u8),
    /// 8xy1: `reg[x] |= reg[y]`.
    Or(u8, u8),
    /// 8xy2: `reg[x] &= reg[y]`.
    And(u8, u8),
    /// 8xy3: `reg[x] ^= reg[y]`.
    Xor(u8, u8),
    /// 8xy4: `reg[x] += reg[y]` wrapping; `reg[0xF]` is the carry.
    AddReg(u8, u8),
    /// 8xy5: `reg[x] -= reg[y]` wrapping; `reg[0xF]` is 1 when no borrow.
    Sub(u8, u8),
    /// 8xy6: `reg[0xF]` is the low bit of `reg[x]`; then `reg[x] >>= 1`.
    Shr(u8),
    /// 8xy7: `reg[x] = reg[y] - reg[x]` wrapping; `reg[0xF]` is 1 when no borrow.
    Subn(u8, u8),
    /// 8xyE: `reg[0xF]` is written twice (low bit, then the high bit of the
    /// intermediate value); then `reg[x] <<= 1`.
    Shl(u8),
    /// 9xy0: skip the next instruction if `reg[x] != reg[y]`.
    SneReg(u8, u8),
    /// Annn: `ireg = addr`.
    LdI(u16),
    /// Bnnn: jump to `reg[0] + addr`.
    JpV0(u16),
    /// Cxkk: `reg[x] = random byte & kk`.
    Rnd(u8, u8),
    /// Dxyn: draw the n-byte sprite at `mem[ireg..]` at `(reg[x], reg[y])`,
    /// wrapping coordinates; `reg[0xF]` reports whether a set pixel was erased.
    Drw(u8, u8, u8),
    /// Ex9E: skip the next instruction if key `reg[x]` is pressed.
    Skp(u8),
    /// ExA1: skip the next instruction if key `reg[x]` is released.
    Sknp(u8),
    /// Fx07: `reg[x] = delay timer`.
    LdRegDt(u8),
    /// Fx0A: block until a key is pressed, then `reg[x] = lowest pressed key`.
    LdKey(u8),
    /// Fx15: `delay timer = reg[x]`.
    LdDtReg(u8),
    /// Fx18: `sound timer = reg[x]`.
    LdStReg(u8),
    /// Fx1E: `ireg += reg[x]`, wrapping.
    AddI(u8),
    /// Fx29: `ireg = reg[x] * 5`, the glyph font base address.
    LdFont(u8),
    /// Fx33: store the decimal digits of `reg[x]` at `mem[ireg..ireg+3]`.
    LdBcd(u8),
    /// Fx55: copy `reg[0..=x]` into memory starting at `ireg`.
    StoreRegs(u8),
    /// Fx65: copy memory starting at `ireg` into `reg[0..=x]`.
    LoadRegs(u8),
}

/// A fatal execution fault. The reference semantics treat these as
/// unrecoverable; `tick` surfaces them as an explicit result and leaves the
/// machine unchanged, letting the host decide whether to halt.
#[derive(Clone, Copy, Debug, PartialEq, Eq, Structural)]
pub enum Fault {
    /// The fetched word matches no opcode pattern.
    UnknownOpcode(u16),
    /// The program counter does not point at two bytes of memory.
    PcOutOfBounds,
    /// A return was executed with an empty call stack.
    StackUnderflow,
    /// A call was executed with all 16 stack slots in use.
    StackOverflow,
    /// An opcode addressed memory beyond its 4096 bytes.
    MemOutOfBounds,
    /// A key-skip opcode named a key index above 15.
    KeyOutOfRange,
}

/// Decoded operands are in range: register indices and the draw height fit in
/// a nibble, addresses in 12 bits.
pub open spec fn instr_wf(i: Instr) -> bool {
    match i {
        Instr::Cls => true,
        Instr::Ret => true,
        Instr::Jp(nnn) => nnn < 0x1000,
        Instr::Call(nnn) => nnn < 0x1000,
        Instr::SeByte(x, _kk) => x < 16,
        Instr::SneByte(x, _kk) => x < 16,
        Instr::SeReg(x, y) => x < 16 && y < 16,
        Instr::LdByte(x, _kk) => x < 16,
        Instr::AddByte(x, _kk) => x < 16,
        Instr::LdReg(x, y) => x < 16 && y < 16,
        Instr::Or(x, y) => x < 16 && y < 16,
        Instr::And(x, y) => x < 16 && y < 16,
        Instr::Xor(x, y) => x < 16 && y < 16,
        Instr::AddReg(x, y) => x < 16 && y < 16,
        Instr::Sub(x, y) => x < 16 && y < 16,
        Instr::Shr(x) => x < 16,
        Instr::Subn(x, y) => x < 16 && y < 16,
        Instr::Shl(x) => x < 16,
        Instr::SneReg(x, y) => x < 16 && y < 16,
        Instr::LdI(nnn) => nnn < 0x1000,
        Instr::JpV0(nnn) => nnn < 0x1000,
        Instr::Rnd(x, _kk) => x < 16,
        Instr::Drw(x, y, n) => x < 16 && y < 16 && n < 16,
        Instr::Skp(x) => x < 16,
        Instr::Sknp(x) => x < 16,
        Instr::LdRegDt(x) => x < 16,
        Instr::LdKey(x) => x < 16,
        Instr::LdDtReg(x) => x < 16,
        Instr::LdStReg(x) => x < 16,
        Instr::AddI(x) => x < 16,
        Instr::LdFont(x) => x < 16,
        Instr::LdBcd(x) => x < 16,
        Instr::StoreRegs(x) => x < 16,
        Instr::LoadRegs(x) => x < 16,
    }
}

/// The instruction encoded by the opcode word `op`, or `None` when `op`
/// matches no pattern of the instruction table.
pub open spec fn decode(op: u16) -> Option<Instr> {
    let a = op >> 12;
    let x = ((op >> 8) & 0xf) as u8;
    let y = ((op >> 4) & 0xf) as u8;
    let d = op & 0xf;
    let nnn = op & 0xfff;
    let kk = (op & 0xff) as u8;
    if op == 0x00E0 {
        Some(Instr::Cls)
    } else if op == 0x00EE {
        Some(Instr::Ret)
    } else if a == 0x1 {
        Some(Instr::Jp(nnn))
    } else if a == 0x2 {
        Some(Instr::Call(nnn))
    } else if a == 0x3 {
        Some(Instr::SeByte(x, kk))
    } else if a == 0x4 {
        Some(Instr::SneByte(x, kk))
    } else if a == 0x5 && d == 0x0 {
        Some(Instr::SeReg(x, y))
    } else if a == 0x6 {
        Some(Instr::LdByte(x, kk))
    } else if a == 0x7 {
        Some(Instr::AddByte(x, kk))
    } else if a == 0x8 && d == 0x0 {
        Some(Instr::LdReg(x, y))
    } else if a == 0x8 && d == 0x1 {
        Some(Instr::Or(x, y))
    } else if a == 0x8 && d == 0x2 {
        Some(Instr::And(x, y))
    } else if a == 0x8 && d == 0x3 {
        Some(Instr::Xor(x, y))
    } else if a == 0x8 && d == 0x4 {
        Some(Instr::AddReg(x, y))
    } else if a == 0x8 && d == 0x5 {
        Some(Instr::Sub(x, y))
    } else if a == 0x8 && d == 0x6 {
        Some(Instr::Shr(x))
    } else if a == 0x8 && d == 0x7 {
        Some(Instr::Subn(x, y))
    } else if a == 0x8 && d == 0xE {
        Some(Instr::Shl(x))
    } else if a == 0x9 && d == 0x0 {
        Some(Instr::SneReg(x, y))
    } else if a == 0xA {
        Some(Instr::LdI(nnn))
    } else if a == 0xB {
        Some(Instr::JpV0(nnn))
    } else if a == 0xC {
        Some(Instr::Rnd(x, kk))
    } else if a == 0xD {
        Some(Instr::Drw(x, y, d as u8))
    } else if a == 0xE && (op & 0xff) == 0x9E {
        Some(Instr::Skp(x))
    } else if a == 0xE && (op & 0xff) == 0xA1 {
        Some(Instr::Sknp(x))
    } else if a == 0xF && (op & 0xff) == 0x07 {
        Some(Instr::LdRegDt(x))
    } else if a == 0xF && (op & 0xff) == 0x0A {
        Some(Instr::LdKey(x))
    } else if a == 0xF && (op & 0xff) == 0x15 {
        Some(Instr::LdDtReg(x))
    } else if a == 0xF && (op & 0xff) == 0x18 {
        Some(Instr::LdStReg(x))
    } else if a == 0xF && (op & 0xff) == 0x1E {
        Some(Instr::AddI(x))
    } else if a == 0xF && (op & 0xff) == 0x29 {
        Some(Instr::LdFont(x))
    } else if a == 0xF && (op & 0xff) == 0x33 {
        Some(Instr::LdBcd(x))
    } else if a == 0xF && (op & 0xff) == 0x55 {
        Some(Instr::StoreRegs(x))
    } else if a == 0xF && (op & 0xff) == 0x65 {
        Some(Instr::LoadRegs(x))
    } else {
        None
    }
}

/// Every decoded instruction has in-range operands.
pub proof fn lemma_decode_wf(op: u16)
    ensures
        decode(op) matches Some(i) ==> instr_wf(i),
{
    assert((op >> 12) < 16 && ((op >> 8) & 0xf) < 16 && ((op >> 4) & 0xf) < 16 && (op & 0xf) < 16
        && (op & 0xfff) < 0x1000) by (bit_vector);
}

/// Decodes one opcode word.
pub fn decode_exec(op: u16) -> (r: Option<Instr>)
    ensures
        r == decode(op),
        r matches Some(i) ==> instr_wf(i),
{
    proof {
        lemma_decode_wf(op);
    }
    let a = op >> 12;
    let x = ((op >> 8) & 0xf) as u8;
    let y = ((op >> 4) & 0xf) as u8;
    let d = op & 0xf;
    let nnn = op & 0xfff;
    let kk = (op & 0xff) as u8;
    if op == 0x00E0 {
        Some(Instr::Cls)
    } else if op == 0x00EE {
        Some(Instr::Ret)
    } else if a == 0x1 {
        Some(Instr::Jp(nnn))
    } else if a == 0x2 {
        Some(Instr::Call(nnn))
    } else if a == 0x3 {
        Some(Instr::SeByte(x, kk))
    } else if a == 0x4 {
        Some(Instr::SneByte(x, kk))
    } else if a == 0x5 && d == 0x0 {
        Some(Instr::SeReg(x, y))
    } else if a == 0x6 {
        Some(Instr::LdByte(x, kk))
    } else if a == 0x7 {
        Some(Instr::AddByte(x, kk))
    } else if a == 0x8 && d == 0x0 {
        Some(Instr::LdReg(x, y))
    } else if a == 0x8 && d == 0x1 {
        Some(Instr::Or(x, y))
    } else if a == 0x8 && d == 0x2 {
        Some(Instr::And(x, y))
    } else if a == 0x8 && d == 0x3 {
        Some(Instr::Xor(x, y))
    } else if a == 0x8 && d == 0x4 {
        Some(Instr::AddReg(x, y))
    } else if a == 0x8 && d == 0x5 {
        Some(Instr::Sub(x, y))
    } else if a == 0x8 && d == 0x6 {
        Some(Instr::Shr(x))
    } else if a == 0x8 && d == 0x7 {
        Some(Instr::Subn(x, y))
    } else if a == 0x8 && d == 0xE {
        Some(Instr::Shl(x))
    } else if a == 0x9 && d == 0x0 {
        Some(Instr::SneReg(x, y))
    } else if a == 0xA {
        Some(Instr::LdI(nnn))
    } else if a == 0xB {
        Some(Instr::JpV0(nnn))
    } else if a == 0xC {
        Some(Instr::Rnd(x, kk))
    } else if a == 0xD {
        Some(Instr::Drw(x, y, d as u8))
    } else if a == 0xE && (op & 0xff) == 0x9E {
        Some(Instr::Skp(x))
    } else if a == 0xE && (op & 0xff) == 0xA1 {
        Some(Instr::Sknp(x))
    } else if a == 0xF && (op & 0xff) == 0x07 {
        Some(Instr::LdRegDt(x))
    } else if a == 0xF && (op & 0xff) == 0x0A {
        Some(Instr::LdKey(x))
    } else if a == 0xF && (op & 0xff) == 0x15 {
        Some(Instr::LdDtReg(x))
    } else if a == 0xF && (op & 0xff) == 0x18 {
        Some(Instr::LdStReg(x))
    } else if a == 0xF && (op & 0xff) == 0x1E {
        Some(Instr::AddI(x))
    } else if a == 0xF && (op & 0xff) == 0x29 {
        Some(Instr::LdFont(x))
    } else if a == 0xF && (op & 0xff) == 0x33 {
        Some(Instr::LdBcd(x))
    } else if a == 0xF && (op & 0xff) == 0x55 {
        Some(Instr::StoreRegs(x))
    } else if a == 0xF && (op & 0xff) == 0x65 {
        Some(Instr::LoadRegs(x))
    } else {
        None
    }
}

} // verus!
