//! The interpreter: program memory, registers, call stack, timers and
//! keyboard state around a framebuffer, executing one instruction per `tick`.
//!
//! The machine's contracts are stated over [`VmView`], a mathematical model of
//! the whole machine state, and [`step`], a specification-level transition
//! function that gives the meaning of one tick: fetch two bytes at the program
//! counter, advance it, decode, and execute. `tick` is proved to implement
//! `step` exactly, up to the choice of the random byte drawn by the `Cxkk`
//! opcode.

use crate::font::{font, font_seq};
use crate::instr::{decode, decode_exec, instr_wf, Fault, Instr};
use crate::video_buffer::VideoBuffer;
use vstd::pervasive::VecAdditionalExecFns;
use vstd::prelude::*;

verus! {

/// The error surfaced when a program image does not fit in memory.
#[derive(Clone, Copy, Debug, PartialEq, Eq, Structural)]
pub enum LoadError {
    /// The image is larger than the 3584 bytes available from 0x200 up.
    TooLarge,
}

/// The mathematical model of the machine: every field of the interpreter as a
/// plain value or sequence.
#[verifier::ext_equal]
pub ghost struct VmView {
    /// Program counter.
    pub pc: u16,
    /// The 4096 bytes of memory.
    pub mem: Seq<u8>,
    /// The 16 general-purpose registers.
    pub reg: Seq<u8>,
    /// Index register.
    pub ireg: u16,
    /// Stack pointer: number of return addresses on the stack.
    pub sp: u16,
    /// The 16 call-stack slots.
    pub stack: Seq<u16>,
    /// The 16 key states.
    pub kb: Seq<bool>,
    /// Delay timer.
    pub dt: u8,
    /// Sound timer.
    pub st: u8,
    /// The 2048 framebuffer pixels, indexed by `y * 64 + x`.
    pub screen: Seq<bool>,
}

/// The sequences of a view have their fixed machine sizes and the stack
/// pointer stays within the 16 slots.
pub open spec fn view_wf(v: VmView) -> bool {
    &&& v.mem.len() == 4096
    &&& v.reg.len() == 16
    &&& v.stack.len() == 16
    &&& v.kb.len() == 16
    &&& v.screen.len() == 2048
    &&& v.sp <= 16
}

/// An all-black screen.
pub open spec fn blank_screen() -> Seq<bool> {
    Seq::new(2048, |i: int| false)
}

/// 8-bit wrapping addition.
pub open spec fn wrap_add8(x: u8, y: u8) -> u8 {
    if x + y > 255 {
        (x + y - 256) as u8
    } else {
        (x + y) as u8
    }
}

/// 8-bit wrapping subtraction.
pub open spec fn wrap_sub8(x: u8, y: u8) -> u8 {
    if x - y < 0 {
        (x - y + 256) as u8
    } else {
        (x - y) as u8
    }
}

/// 16-bit wrapping addition.
pub open spec fn wrap_add16(x: u16, y: u16) -> u16 {
    if x + y > 65535 {
        (x + y - 65536) as u16
    } else {
        (x + y) as u16
    }
}

/// The index of the lowest-numbered pressed key at or after `i`, or 16 when
/// none is pressed there.
pub open spec fn first_pressed(kb: Seq<bool>, i: int) -> int
    decreases 16 - i,
{
    if i >= 16 {
        16
    } else if kb[i] {
        i
    } else {
        first_pressed(kb, i + 1)
    }
}

/// `first_pressed` returns 16 exactly when no key is pressed, and otherwise
/// the lowest-numbered pressed key.
pub proof fn lemma_first_pressed(kb: Seq<bool>, i: int)
    requires
        0 <= i <= 16,
        kb.len() == 16,
    ensures
        i <= first_pressed(kb, i) <= 16,
        (first_pressed(kb, i) == 16) <==> (forall|j: int| i <= j < 16 ==> !kb[j]),
        first_pressed(kb, i) < 16 ==> kb[first_pressed(kb, i)] && (forall|j: int|
            i <= j < first_pressed(kb, i) ==> !kb[j]),
    decreases 16 - i,
{
    if i < 16 && !kb[i] {
        lemma_first_pressed(kb, i + 1);
    }
}

/// The view with the program counter advanced past the next instruction slot
/// when `cond` holds, unchanged otherwise: the "skip next instruction" form.
pub open spec fn skip_if(v: VmView, cond: bool) -> VmView {
    if cond {
        VmView { pc: (v.pc + 2) as u16, ..v }
    } else {
        v
    }
}

/// The view with register `x` set to `val`.
pub open spec fn with_reg(v: VmView, x: int, val: u8) -> VmView {
    VmView { reg: v.reg.update(x, val), ..v }
}

/// The meaning of one decoded instruction on view `v`, whose program counter
/// has already been advanced past the instruction. `rnd` is the byte drawn by
/// the random opcode; no other instruction reads it. An `Err` means the
/// reference machine would have died here; no fault depends on `rnd`.
pub open spec fn step_instr(v: VmView, i: Instr, rnd: u8) -> Result<VmView, Fault> {
    match i {
        Instr::Cls => Ok(VmView { screen: blank_screen(), ..v }),
        Instr::Ret => if v.sp == 0 {
            Err(Fault::StackUnderflow)
        } else {
            Ok(VmView { pc: v.stack[v.sp - 1], sp: (v.sp - 1) as u16, ..v })
        },
        Instr::Jp(nnn) => Ok(VmView { pc: nnn, ..v }),
        Instr::Call(nnn) => if v.sp >= 16 {
            Err(Fault::StackOverflow)
        } else {
            Ok(
                VmView {
                    stack: v.stack.update(v.sp as int, v.pc),
                    sp: (v.sp + 1) as u16,
                    pc: nnn,
                    ..v
                },
            )
        },
        Instr::SeByte(x, kk) => Ok(skip_if(v, v.reg[x as int] == kk)),
        Instr::SneByte(x, kk) => Ok(skip_if(v, v.reg[x as int] != kk)),
        Instr::SeReg(x, y) => Ok(skip_if(v, v.reg[x as int] == v.reg[y as int])),
        Instr::LdByte(x, kk) => Ok(with_reg(v, x as int, kk)),
        Instr::AddByte(x, kk) => Ok(with_reg(v, x as int, wrap_add8(v.reg[x as int], kk))),
        Instr::LdReg(x, y) => Ok(with_reg(v, x as int, v.reg[y as int])),
        Instr::Or(x, y) => Ok(with_reg(v, x as int, v.reg[x as int] | v.reg[y as int])),
        Instr::And(x, y) => Ok(with_reg(v, x as int, v.reg[x as int] & v.reg[y as int])),
        Instr::Xor(x, y) => Ok(with_reg(v, x as int, v.reg[x as int] ^ v.reg[y as int])),
        Instr::AddReg(x, y) => {
            let sum = v.reg[x as int] + v.reg[y as int];
            let carry: u8 = if sum > 255 {
                1
            } else {
                0
            };
            Ok(
                VmView {
                    reg: v.reg.update(x as int, wrap_add8(v.reg[x as int], v.reg[y as int])).update(
                        15,
                        carry,
                    ),
                    ..v
                },
            )
        },
        Instr::Sub(x, y) => {
            let flag: u8 = if v.reg[x as int] >= v.reg[y as int] {
                1
            } else {
                0
            };
            Ok(
                VmView {
                    reg: v.reg.update(x as int, wrap_sub8(v.reg[x as int], v.reg[y as int])).update(
                        15,
                        flag,
                    ),
                    ..v
                },
            )
        },
        Instr::Shr(x) => {
            // The flag is written before the shift, so shifting the flag
            // register itself shifts the freshly written flag.
            let r1 = v.reg.update(15, (v.reg[x as int] % 2) as u8);
            let r2 = r1.update(x as int, (r1[x as int] / 2) as u8);
            Ok(VmView { reg: r2, ..v })
        },
        Instr::Subn(x, y) => {
            let flag: u8 = if v.reg[y as int] >= v.reg[x as int] {
                1
            } else {
                0
            };
            Ok(
                VmView {
                    reg: v.reg.update(x as int, wrap_sub8(v.reg[y as int], v.reg[x as int])).update(
                        15,
                        flag,
                    ),
                    ..v
                },
            )
        },
        Instr::Shl(x) => {
            // The flag register is written twice before the shift; when `x`
            // is the flag register itself those writes feed the shift.
            let r1 = v.reg.update(15, (v.reg[x as int] % 2) as u8);
            let r2 = r1.update(15, (r1[x as int] / 128) as u8);
            let r3 = r2.update(x as int, wrap_add8(r2[x as int], r2[x as int]));
            Ok(VmView { reg: r3, ..v })
        },
        Instr::SneReg(x, y) => Ok(skip_if(v, v.reg[x as int] != v.reg[y as int])),
        Instr::LdI(nnn) => Ok(VmView { ireg: nnn, ..v }),
        Instr::JpV0(nnn) => Ok(VmView { pc: (v.reg[0] + nnn) as u16, ..v }),
        Instr::Rnd(x, kk) => Ok(with_reg(v, x as int, rnd & kk)),
        Instr::Drw(x, y, n) => {
            if n > 0 && v.ireg + n > 4096 {
                Err(Fault::MemOutOfBounds)
            } else {
                let xo = v.reg[x as int];
                let yo = v.reg[y as int];
                let coll = draw_collision(v.screen, v.mem, v.ireg as int, xo, yo, n as int);
                Ok(
                    VmView {
                        screen: draw_screen(v.screen, v.mem, v.ireg as int, xo, yo, n as int),
                        reg: v.reg.update(
                            15,
                            if coll {
                                1u8
                            } else {
                                0u8
                            },
                        ),
                        ..v
                    },
                )
            }
        },
        Instr::Skp(x) => {
            let k = v.reg[x as int];
            if k >= 16 {
                Err(Fault::KeyOutOfRange)
            } else {
                Ok(skip_if(v, v.kb[k as int]))
            }
        },
        Instr::Sknp(x) => {
            let k = v.reg[x as int];
            if k >= 16 {
                Err(Fault::KeyOutOfRange)
            } else {
                Ok(skip_if(v, !v.kb[k as int]))
            }
        },
        Instr::LdRegDt(x) => Ok(with_reg(v, x as int, v.dt)),
        Instr::LdKey(x) => {
            let fk = first_pressed(v.kb, 0);
            if fk < 16 {
                Ok(with_reg(v, x as int, fk as u8))
            } else {
                // Rewind to retry this instruction on the next tick.
                Ok(VmView { pc: (v.pc - 2) as u16, ..v })
            }
        },
        Instr::LdDtReg(x) => Ok(VmView { dt: v.reg[x as int], ..v }),
        Instr::LdStReg(x) => Ok(VmView { st: v.reg[x as int], ..v }),
        Instr::AddI(x) => Ok(VmView { ireg: wrap_add16(v.ireg, v.reg[x as int] as u16), ..v }),
        Instr::LdFont(x) => Ok(VmView { ireg: (v.reg[x as int] * 5) as u16, ..v }),
        Instr::LdBcd(x) => {
            if v.ireg + 2 >= 4096 {
                Err(Fault::MemOutOfBounds)
            } else {
                let val = v.reg[x as int];
                Ok(
                    VmView {
                        mem: v.mem.update(v.ireg as int, (val / 100) as u8).update(
                            v.ireg + 1,
                            ((val % 100) / 10) as u8,
                        ).update(v.ireg + 2, (val % 10) as u8),
                        ..v
                    },
                )
            }
        },
        Instr::StoreRegs(x) => {
            if v.ireg + x >= 4096 {
                Err(Fault::MemOutOfBounds)
            } else {
                Ok(
                    VmView {
                        mem: Seq::new(
                            4096,
                            |j: int|
                                if v.ireg <= j <= v.ireg + x {
                                    v.reg[j - v.ireg]
                                } else {
                                    v.mem[j]
                                },
                        ),
                        ..v
                    },
                )
            }
        },
        Instr::LoadRegs(x) => {
            if v.ireg + x >= 4096 {
                Err(Fault::MemOutOfBounds)
            } else {
                Ok(
                    VmView {
                        reg: Seq::new(
                            16,
                            |j: int|
                                if 0 <= j <= x {
                                    v.mem[v.ireg + j]
                                } else {
                                    v.reg[j]
                                },
                        ),
                        ..v
                    },
                )
            }
        },
    }
}

/// The opcode word fetched big-endian at the program counter of `v`.
pub open spec fn fetched(v: VmView) -> u16 {
    ((v.mem[v.pc as int] as u16) << 8) | (v.mem[v.pc as int + 1] as u16)
}

/// The meaning of executing opcode word `op` on view `v`, whose program
/// counter has already been advanced past the instruction.
pub open spec fn step_op(v: VmView, op: u16, rnd: u8) -> Result<VmView, Fault> {
    match decode(op) {
        None => Err(Fault::UnknownOpcode(op)),
        Some(i) => step_instr(v, i, rnd),
    }
}

/// The meaning of one whole tick on view `v`: fetch, advance the program
/// counter by 2, decode and execute.
pub open spec fn step(v: VmView, rnd: u8) -> Result<VmView, Fault> {
    if v.pc + 1 >= 4096 {
        Err(Fault::PcOutOfBounds)
    } else {
        step_op(VmView { pc: (v.pc + 2) as u16, ..v }, fetched(v), rnd)
    }
}

/// Memory as first written at construction, reset and load: the glyph font in
/// the first 80 bytes, zeroes elsewhere.
pub open spec fn init_mem() -> Seq<u8> {
    Seq::new(
        4096,
        |i: int|
            if i < 80 {
                font_seq()[i]
            } else {
                0u8
            },
    )
}

/// The machine state after construction or reset.
pub open spec fn init_view() -> VmView {
    VmView {
        pc: 0x200,
        mem: init_mem(),
        reg: Seq::new(16, |i: int| 0u8),
        ireg: 0,
        sp: 0,
        stack: Seq::new(16, |i: int| 0u16),
        kb: Seq::new(16, |i: int| false),
        dt: 0,
        st: 0,
        screen: blank_screen(),
    }
}

/// The machine state after a successful load: a reset machine with the
/// program image copied verbatim from 0x200 up.
pub open spec fn load_view(rom: Seq<u8>) -> VmView {
    VmView {
        mem: Seq::new(
            4096,
            |i: int|
                if 0x200 <= i < 0x200 + rom.len() {
                    rom[i - 0x200]
                } else {
                    init_mem()[i]
                },
        ),
        ..init_view()
    }
}

/// The interpreter. All state is owned exclusively; the framebuffer is
/// exposed for the host to read between ticks.
pub struct Vm {
    /// The framebuffer, mutated only by the draw and clear opcodes (and
    /// reset), read by the presentation side.
    pub vb: VideoBuffer,
    pc: u16,
    mem: Vec<u8>,
    reg: Vec<u8>,
    ireg: u16,
    sp: u16,
    stack: Vec<u16>,
    kb: Vec<bool>,
    dt: u8,
    /// The sound timer, read once per frame by the audio side.
    pub st: u8,
}

impl View for Vm {
    type V = VmView;

    closed spec fn view(&self) -> VmView {
        VmView {
            pc: self.pc,
            mem: self.mem@,
            reg: self.reg@,
            ireg: self.ireg,
            sp: self.sp,
            stack: self.stack@,
            kb: self.kb@,
            dt: self.dt,
            st: self.st,
            screen: self.vb@,
        }
    }
}

impl Vm {
    /// The concrete machine is well formed: its view is, and the framebuffer
    /// storage holds its 2048 bits.
    pub closed spec fn wf(&self) -> bool {
        view_wf(self@) && self.vb.wf()
    }

    /// A well-formed machine has a well-formed view.
    pub proof fn lemma_wf_view(&self)
        requires
            self.wf(),
        ensures
            view_wf(self@),
    {
    }

    /// A fresh machine: zeroed registers, stack, keyboard, timers and screen,
    /// the glyph font in low memory, and the program counter at 0x200.
    pub fn new() -> (r: Self)
        ensures
            r.wf(),
            r@ == init_view(),
    {
        let mut mem = font();
        while mem.len() < 4096
            invariant
                80 <= mem@.len() <= 4096,
                forall|i: int| 0 <= i < 80 ==> mem@[i] == font_seq()[i],
                forall|i: int| 80 <= i < mem@.len() ==> mem@[i] == 0u8,
            decreases 4096 - mem@.len(),
        {
            mem.push(0);
        }
        let mut reg: Vec<u8> = Vec::new();
        while reg.len() < 16
            invariant
                reg@.len() <= 16,
                forall|i: int| 0 <= i < reg@.len() ==> reg@[i] == 0u8,
            decreases 16 - reg@.len(),
        {
            reg.push(0);
        }
        let mut stack: Vec<u16> = Vec::new();
        while stack.len() < 16
            invariant
                stack@.len() <= 16,
                forall|i: int| 0 <= i < stack@.len() ==> stack@[i] == 0u16,
            decreases 16 - stack@.len(),
        {
            stack.push(0);
        }
        let mut kb: Vec<bool> = Vec::new();
        while kb.len() < 16
            invariant
                kb@.len() <= 16,
                forall|i: int| 0 <= i < kb@.len() ==> !kb@[i],
            decreases 16 - kb@.len(),
        {
            kb.push(false);
        }
        let r = Vm {
            vb: VideoBuffer::default(),
            pc: 0x200,
            mem,
            reg,
            ireg: 0,
            sp: 0,
            stack,
            kb,
            dt: 0,
            st: 0,
        };
        proof {
            assert(r@.mem =~= init_mem());
            assert(r@.reg =~= Seq::new(16, |i: int| 0u8));
            assert(r@.stack =~= Seq::new(16, |i: int| 0u16));
            assert(r@.kb =~= Seq::new(16, |i: int| false));
            assert(r@ =~= init_view());
        }
        r
    }

    /// Returns the machine to its freshly constructed state.
    pub fn reset(&mut self)
        ensures
            final(self).wf(),
            final(self)@ == init_view(),
    {
        *self = Vm::new();
    }

    /// Loads a program image: resets the machine, then copies `rom` verbatim
    /// into memory from 0x200 up. An image larger than the 3584 available
    /// bytes is rejected with the machine left untouched.
    pub fn load_bin(&mut self, rom: &[u8]) -> (r: Result<(), LoadError>)
        requires
            old(self).wf(),
        ensures
            final(self).wf(),
            rom@.len() <= 3584 ==> r == Ok::<(), LoadError>(()) && final(self)@ == load_view(rom@),
            rom@.len() > 3584 ==> r == Err::<(), LoadError>(LoadError::TooLarge) && *final(self)
                == *old(self),
    {
        if rom.len() > 3584 {
            return Err(LoadError::TooLarge);
        }
        self.reset();
        let mut i: usize = 0;
        while i < rom.len()
            invariant
                rom@.len() <= 3584,
                i <= rom@.len(),
                self.wf(),
                self@ == (VmView { mem: self@.mem, ..init_view() }),
                self@.mem.len() == 4096,
                forall|j: int| 0 <= j < 0x200 ==> self@.mem[j] == init_mem()[j],
                forall|j: int| 0x200 <= j < 0x200 + i ==> self@.mem[j] == rom@[j - 0x200],
                forall|j: int| 0x200 + i <= j < 4096 ==> self@.mem[j] == init_mem()[j],
            decreases rom@.len() - i,
        {
            let b = rom[i];
            self.mem.set(0x200 + i, b);
            i = i + 1;
        }
        proof {
            assert(self@.mem =~= load_view(rom@).mem);
            assert(self@ =~= load_view(rom@));
        }
        Ok(())
    }

    /// Decrements the delay timer by 1 when it is above 0; a no-op at 0.
    /// Intended to be called once per 60 Hz frame.
    pub fn delay_timer(&mut self)
        requires
            old(self).wf(),
        ensures
            final(self).wf(),
            final(self)@ == (VmView {
                dt: if old(self)@.dt > 0 {
                    (old(self)@.dt - 1) as u8
                } else {
                    0
                },
                ..old(self)@
            }),
    {
        if self.dt > 0 {
            self.dt = self.dt - 1;
        }
        proof {
            assert(self@ =~= (VmView {
                dt: if old(self)@.dt > 0 {
                    (old(self)@.dt - 1) as u8
                } else {
                    0
                },
                ..old(self)@
            }));
        }
    }

    /// Decrements the sound timer by 1 when it is above 0; a no-op at 0.
    /// Intended to be called once per 60 Hz frame.
    pub fn sound_timer(&mut self)
        requires
            old(self).wf(),
        ensures
            final(self).wf(),
            final(self)@ == (VmView {
                st: if old(self)@.st > 0 {
                    (old(self)@.st - 1) as u8
                } else {
                    0
                },
                ..old(self)@
            }),
    {
        if self.st > 0 {
            self.st = self.st - 1;
        }
        proof {
            assert(self@ =~= (VmView {
                st: if old(self)@.st > 0 {
                    (old(self)@.st - 1) as u8
                } else {
                    0
                },
                ..old(self)@
            }));
        }
    }

    /// Sets the state of one of the 16 keys.
    pub fn set_kb(&mut self, key: usize, state: bool)
        requires
            old(self).wf(),
            key < 16,
        ensures
            final(self).wf(),
            final(self)@ == (VmView { kb: old(self)@.kb.update(key as int, state), ..old(self)@ }),
    {
        self.kb.set(key, state);
        proof {
            assert(self@ =~= (VmView {
                kb: old(self)@.kb.update(key as int, state),
                ..old(self)@
            }));
        }
    }

    /// Reads register `i`.
    pub fn get_reg(&self, i: usize) -> (r: u8)
        requires
            self.wf(),
            i < 16,
        ensures
            r == self@.reg[i as int],
    {
        self.reg[i]
    }

    /// Reads the program counter.
    pub fn get_pc(&self) -> (r: u16)
        ensures
            r == self@.pc,
    {
        self.pc
    }

    /// Reads the index register.
    pub fn get_ireg(&self) -> (r: u16)
        ensures
            r == self@.ireg,
    {
        self.ireg
    }

    /// Reads the stack pointer.
    pub fn get_sp(&self) -> (r: u16)
        ensures
            r == self@.sp,
    {
        self.sp
    }

    /// Reads the delay timer.
    pub fn get_dt(&self) -> (r: u8)
        ensures
            r == self@.dt,
    {
        self.dt
    }

    /// Reads the sound timer.
    pub fn get_st(&self) -> (r: u8)
        ensures
            r == self@.st,
    {
        self.st
    }

    /// Reads the byte at memory address `addr`.
    pub fn get_mem(&self, addr: usize) -> (r: u8)
        requires
            self.wf(),
            addr < 4096,
        ensures
            r == self@.mem[addr as int],
    {
        self.mem[addr]
    }

    /// Pushes a return address; the caller has checked for a free slot.
    fn push(&mut self, val: u16)
        requires
            old(self).wf(),
            old(self)@.sp < 16,
        ensures
            final(self).wf(),
            final(self)@ == (VmView {
                stack: old(self)@.stack.update(old(self)@.sp as int, val),
                sp: (old(self)@.sp + 1) as u16,
                ..old(self)@
            }),
    {
        let idx = self.sp as usize;
        self.stack.set(idx, val);
        self.sp = self.sp + 1;
        proof {
            assert(self@ =~= (VmView {
                stack: old(self)@.stack.update(old(self)@.sp as int, val),
                sp: (old(self)@.sp + 1) as u16,
                ..old(self)@
            }));
        }
    }

    /// Pops a return address; the caller has checked the stack is non-empty.
    fn pop(&mut self) -> (r: u16)
        requires
            old(self).wf(),
            old(self)@.sp > 0,
        ensures
            final(self).wf(),
            r == old(self)@.stack[old(self)@.sp - 1],
            final(self)@ == (VmView { sp: (old(self)@.sp - 1) as u16, ..old(self)@ }),
    {
        self.sp = self.sp - 1;
        let r = self.stack[self.sp as usize];
        proof {
            assert(self@ =~= (VmView { sp: (old(self)@.sp - 1) as u16, ..old(self)@ }));
        }
        r
    }
}

/// Relies on rand::random::<u8>: draws one byte from the thread-local
/// generator. Nothing is promised of its value.
#[verifier::external_body]
fn random_byte() -> u8 {
    rand::random()
}

/// Scans the keyboard for the lowest-numbered pressed key; 16 when none is.
fn first_key(kb: &Vec<bool>) -> (r: usize)
    requires
        kb@.len() == 16,
    ensures
        r == first_pressed(kb@, 0),
{
    let mut k: usize = 0;
    while k < 16
        invariant
            k <= 16,
            kb@.len() == 16,
            first_pressed(kb@, 0) == first_pressed(kb@, k as int),
            forall|j: int| 0 <= j < k ==> !kb@[j],
        decreases 16 - k,
    {
        if kb[k] {
            return k;
        }
        k = k + 1;
    }
    16
}

/// Where the loop that fills the screen for the draw opcode has got to: pair
/// `(r, c)` (sprite row `r`, sprite column `c`) has been applied when it
/// comes before the pair `(ri, ci)` in row-major order.
pub open spec fn pair_before(r: int, c: int, ri: int, ci: int) -> bool {
    r < ri || (r == ri && c < ci)
}

/// Sprite bit for row `r`, column `c` of the sprite at `mem[ireg..]`:
/// bit `7 - c` of the row byte, so column 0 is the most significant bit.
pub open spec fn sprite_bit(mem: Seq<u8>, ireg: int, r: int, c: int) -> bool {
    crate::video_buffer::byte_bit(mem[ireg + r], (7 - c) as u32)
}

/// The flat screen index that sprite pair `(r, c)` lands on when the sprite
/// is drawn at origin `(xo, yo)`: both coordinates wrap around the screen.
pub open spec fn draw_target(xo: u8, yo: u8, r: int, c: int) -> int {
    ((yo + r) % 32) * 64 + ((xo + c) % 64)
}

/// The screen after the draw loop has applied every sprite pair before
/// `(ri, ci)`: each targeted pixel has its sprite bit XORed in, every other
/// pixel of `s` is untouched.
pub open spec fn draw_screen_upto(
    s: Seq<bool>,
    mem: Seq<u8>,
    ireg: int,
    xo: u8,
    yo: u8,
    ri: int,
    ci: int,
) -> Seq<bool> {
    Seq::new(
        2048,
        |p: int|
            if exists|r: int, c: int|
                0 <= r && 0 <= c < 8 && pair_before(r, c, ri, ci) && #[trigger] draw_target(
                    xo,
                    yo,
                    r,
                    c,
                ) == p {
                let (r, c) = choose|r: int, c: int|
                    0 <= r && 0 <= c < 8 && pair_before(r, c, ri, ci) && #[trigger] draw_target(
                        xo,
                        yo,
                        r,
                        c,
                    ) == p;
                s[p] != sprite_bit(mem, ireg, r, c)
            } else {
                s[p]
            },
    )
}

/// Whether the draw loop has seen a collision (a set screen pixel hit by a
/// set sprite bit) among the pairs before `(ri, ci)`.
pub open spec fn draw_collision_upto(
    s: Seq<bool>,
    mem: Seq<u8>,
    ireg: int,
    xo: u8,
    yo: u8,
    ri: int,
    ci: int,
) -> bool {
    exists|r: int, c: int|
        0 <= r && 0 <= c < 8 && pair_before(r, c, ri, ci) && (#[trigger] sprite_bit(
            mem,
            ireg,
            r,
            c,
        )) && s[draw_target(xo, yo, r, c)]
}

/// The screen after drawing the whole `n`-row sprite at `mem[ireg..]` at
/// origin `(xo, yo)`.
pub open spec fn draw_screen(s: Seq<bool>, mem: Seq<u8>, ireg: int, xo: u8, yo: u8, n: int) -> Seq<
    bool,
> {
    draw_screen_upto(s, mem, ireg, xo, yo, n, 0)
}

/// Whether drawing the whole `n`-row sprite erases any previously set pixel.
pub open spec fn draw_collision(
    s: Seq<bool>,
    mem: Seq<u8>,
    ireg: int,
    xo: u8,
    yo: u8,
    n: int,
) -> bool {
    draw_collision_upto(s, mem, ireg, xo, yo, n, 0)
}

proof fn lemma_mod_distinct_64(x: u16, a: u16, b: u16)
    by (bit_vector)
    requires
        x < 256,
        a < 8,
        b < 8,
        a != b,
    ensures
        (x + a) % 64 != (x + b) % 64,
{
}

proof fn lemma_mod_distinct_32(x: u16, a: u16, b: u16)
    by (bit_vector)
    requires
        x < 256,
        a < 16,
        b < 16,
        a != b,
    ensures
        (x + a) % 32 != (x + b) % 32,
{
}

proof fn lemma_byte_bit_test(b: u8, k: u32)
    by (bit_vector)
    requires
        k < 8,
    ensures
        ((b >> k) & 1 != 0) == crate::video_buffer::byte_bit(b, k),
{
}

/// A sprite pair's target pixel index is on the screen, and its row and
/// column can be read back off the flat index.
pub(crate) proof fn lemma_target_bounds(xo: u8, yo: u8, r: int, c: int)
    requires
        0 <= r < 16,
        0 <= c < 8,
    ensures
        0 <= draw_target(xo, yo, r, c) < 2048,
        draw_target(xo, yo, r, c) % 64 == (xo + c) % 64,
        draw_target(xo, yo, r, c) / 64 == (yo + r) % 32,
{
    let px = (xo + c) % 64;
    let py = (yo + r) % 32;
    assert(0 <= px < 64);
    assert(0 <= py < 32);
    assert((py * 64 + px) % 64 == px);
    assert((py * 64 + px) / 64 == py);
}

/// Distinct sprite pairs of one draw land on distinct pixels: the eight
/// columns stay distinct modulo 64 and the at most sixteen rows stay
/// distinct modulo 32.
proof fn lemma_target_unique(xo: u8, yo: u8, r1: int, c1: int, r2: int, c2: int)
    requires
        0 <= r1 < 16,
        0 <= c1 < 8,
        0 <= r2 < 16,
        0 <= c2 < 8,
        !(r1 == r2 && c1 == c2),
    ensures
        draw_target(xo, yo, r1, c1) != draw_target(xo, yo, r2, c2),
{
    lemma_target_bounds(xo, yo, r1, c1);
    lemma_target_bounds(xo, yo, r2, c2);
    if c1 != c2 {
        lemma_mod_distinct_64(xo as u16, c1 as u16, c2 as u16);
        assert(c1 as u16 == c1 && c2 as u16 == c2 && xo as u16 == xo);
    } else {
        lemma_mod_distinct_32(yo as u16, r1 as u16, r2 as u16);
        assert(r1 as u16 == r1 && r2 as u16 == r2 && yo as u16 == yo);
    }
}

/// Two sprite pairs that hit the same pixel are the same pair.
pub(crate) proof fn lemma_hit_unique(xo: u8, yo: u8, r1: int, c1: int, r2: int, c2: int, p: int)
    requires
        0 <= r1 < 16,
        0 <= c1 < 8,
        0 <= r2 < 16,
        0 <= c2 < 8,
        draw_target(xo, yo, r1, c1) == p,
        draw_target(xo, yo, r2, c2) == p,
    ensures
        r1 == r2 && c1 == c2,
{
    if !(r1 == r2 && c1 == c2) {
        lemma_target_unique(xo, yo, r1, c1, r2, c2);
    }
}

/// Applying one more sprite pair `(ri, ci)`: its target pixel was untouched
/// by the earlier pairs, the screen gains exactly that pixel XORed with the
/// sprite bit, and the collision flag picks up that pixel's old value ANDed
/// with the sprite bit.
proof fn lemma_draw_step(s: Seq<bool>, mem: Seq<u8>, ireg: int, xo: u8, yo: u8, ri: int, ci: int)
    requires
        s.len() == 2048,
        0 <= ri < 16,
        0 <= ci < 8,
    ensures
        ({
            let t = draw_target(xo, yo, ri, ci);
            let bit = sprite_bit(mem, ireg, ri, ci);
            let pre = draw_screen_upto(s, mem, ireg, xo, yo, ri, ci);
            &&& pre[t] == s[t]
            &&& draw_screen_upto(s, mem, ireg, xo, yo, ri, ci + 1) == pre.update(t, s[t] != bit)
            &&& draw_collision_upto(s, mem, ireg, xo, yo, ri, ci + 1) == (draw_collision_upto(
                s,
                mem,
                ireg,
                xo,
                yo,
                ri,
                ci,
            ) || (bit && s[t]))
        }),
{
    let t = draw_target(xo, yo, ri, ci);
    let bit = sprite_bit(mem, ireg, ri, ci);
    let pre = draw_screen_upto(s, mem, ireg, xo, yo, ri, ci);
    let post = draw_screen_upto(s, mem, ireg, xo, yo, ri, ci + 1);
    lemma_target_bounds(xo, yo, ri, ci);

    // No earlier pair hits the new target.
    if exists|r: int, c: int|
        0 <= r && 0 <= c < 8 && pair_before(r, c, ri, ci) && #[trigger] draw_target(xo, yo, r, c)
            == t {
        let (r, c) = choose|r: int, c: int|
            0 <= r && 0 <= c < 8 && pair_before(r, c, ri, ci) && #[trigger] draw_target(
                xo,
                yo,
                r,
                c,
            ) == t;
        lemma_hit_unique(xo, yo, r, c, ri, ci, t);
        assert(false);
    }
    assert(pre[t] == s[t]);

    assert forall|p: int| 0 <= p < 2048 implies post[p] == pre.update(t, s[t] != bit)[p] by {
        if p == t {
            assert(pair_before(ri, ci, ri, ci + 1) && draw_target(xo, yo, ri, ci) == t);
            let (r, c) = choose|r: int, c: int|
                0 <= r && 0 <= c < 8 && pair_before(r, c, ri, ci + 1) && #[trigger] draw_target(
                    xo,
                    yo,
                    r,
                    c,
                ) == t;
            lemma_hit_unique(xo, yo, r, c, ri, ci, t);
            assert(post[p] == (s[t] != bit));
        } else {
            if exists|r: int, c: int|
                0 <= r && 0 <= c < 8 && pair_before(r, c, ri, ci) && #[trigger] draw_target(
                    xo,
                    yo,
                    r,
                    c,
                ) == p {
                let (r1, c1) = choose|r: int, c: int|
                    0 <= r && 0 <= c < 8 && pair_before(r, c, ri, ci) && #[trigger] draw_target(
                        xo,
                        yo,
                        r,
                        c,
                    ) == p;
                assert(pair_before(r1, c1, ri, ci + 1));
                let (r2, c2) = choose|r: int, c: int|
                    0 <= r && 0 <= c < 8 && pair_before(r, c, ri, ci + 1) && #[trigger] draw_target(
                        xo,
                        yo,
                        r,
                        c,
                    ) == p;
                lemma_hit_unique(xo, yo, r1, c1, r2, c2, p);
            } else if exists|r: int, c: int|
                0 <= r && 0 <= c < 8 && pair_before(r, c, ri, ci + 1) && #[trigger] draw_target(
                    xo,
                    yo,
                    r,
                    c,
                ) == p {
                let (r2, c2) = choose|r: int, c: int|
                    0 <= r && 0 <= c < 8 && pair_before(r, c, ri, ci + 1) && #[trigger] draw_target(
                        xo,
                        yo,
                        r,
                        c,
                    ) == p;
                // The only pair before (ri, ci + 1) but not before (ri, ci)
                // is (ri, ci) itself, which hits t, not p.
                assert(r2 == ri && c2 == ci);
                assert(false);
            }
        }
    }
    assert(post =~= pre.update(t, s[t] != bit));

    // Collision grows by exactly this pair's contribution.
    if draw_collision_upto(s, mem, ireg, xo, yo, ri, ci) {
        assert(draw_collision_upto(s, mem, ireg, xo, yo, ri, ci + 1));
    }
    if bit && s[t] {
        assert(pair_before(ri, ci, ri, ci + 1) && sprite_bit(mem, ireg, ri, ci) && s[draw_target(
            xo,
            yo,
            ri,
            ci,
        )]);
        assert(draw_collision_upto(s, mem, ireg, xo, yo, ri, ci + 1));
    }
    if draw_collision_upto(s, mem, ireg, xo, yo, ri, ci + 1) {
        let (r, c) = choose|r: int, c: int|
            0 <= r && 0 <= c < 8 && pair_before(r, c, ri, ci + 1) && (#[trigger] sprite_bit(
                mem,
                ireg,
                r,
                c,
            )) && s[draw_target(xo, yo, r, c)];
        if pair_before(r, c, ri, ci) {
            assert(draw_collision_upto(s, mem, ireg, xo, yo, ri, ci));
        } else {
            assert(r == ri && c == ci);
            assert(bit && s[t]);
        }
    }
}

/// Finishing a row: the pairs before `(ri, 8)` are exactly those before
/// `(ri + 1, 0)`.
proof fn lemma_draw_row_boundary(s: Seq<bool>, mem: Seq<u8>, ireg: int, xo: u8, yo: u8, ri: int)
    requires
        s.len() == 2048,
        0 <= ri < 16,
    ensures
        draw_screen_upto(s, mem, ireg, xo, yo, ri, 8) == draw_screen_upto(
            s,
            mem,
            ireg,
            xo,
            yo,
            ri + 1,
            0,
        ),
        draw_collision_upto(s, mem, ireg, xo, yo, ri, 8) == draw_collision_upto(
            s,
            mem,
            ireg,
            xo,
            yo,
            ri + 1,
            0,
        ),
{
    assert forall|r: int, c: int| 0 <= c < 8 implies pair_before(r, c, ri, 8) == pair_before(
        r,
        c,
        ri + 1,
        0,
    ) by {}
    let a = draw_screen_upto(s, mem, ireg, xo, yo, ri, 8);
    let b = draw_screen_upto(s, mem, ireg, xo, yo, ri + 1, 0);
    assert forall|p: int| 0 <= p < 2048 implies a[p] == b[p] by {
        if exists|r: int, c: int|
            0 <= r && 0 <= c < 8 && pair_before(r, c, ri, 8) && #[trigger] draw_target(xo, yo, r, c)
                == p {
            let (r1, c1) = choose|r: int, c: int|
                0 <= r && 0 <= c < 8 && pair_before(r, c, ri, 8) && #[trigger] draw_target(
                    xo,
                    yo,
                    r,
                    c,
                ) == p;
            assert(pair_before(r1, c1, ri + 1, 0));
            let (r2, c2) = choose|r: int, c: int|
                0 <= r && 0 <= c < 8 && pair_before(r, c, ri + 1, 0) && #[trigger] draw_target(
                    xo,
                    yo,
                    r,
                    c,
                ) == p;
            assert(pair_before(r2, c2, ri, 8));
            lemma_hit_unique(xo, yo, r1, c1, r2, c2, p);
        } else if exists|r: int, c: int|
            0 <= r && 0 <= c < 8 && pair_before(r, c, ri + 1, 0) && #[trigger] draw_target(
                xo,
                yo,
                r,
                c,
            ) == p {
            let (r1, c1) = choose|r: int, c: int|
                0 <= r && 0 <= c < 8 && pair_before(r, c, ri + 1, 0) && #[trigger] draw_target(
                    xo,
                    yo,
                    r,
                    c,
                ) == p;
            assert(pair_before(r1, c1, ri, 8));
            assert(false);
        }
    }
    assert(a =~= b);
    if draw_collision_upto(s, mem, ireg, xo, yo, ri, 8) {
        assert(draw_collision_upto(s, mem, ireg, xo, yo, ri + 1, 0));
    }
    if draw_collision_upto(s, mem, ireg, xo, yo, ri + 1, 0) {
        assert(draw_collision_upto(s, mem, ireg, xo, yo, ri, 8));
    }
}

impl Vm {
    /// Draws the `n`-row sprite at `mem[ireg..]` at origin `(xo, yo)`,
    /// XORing each sprite bit into the (wrapped) target pixel, and sets
    /// register 0xF to 1 exactly when a set pixel was erased.
    fn exec_draw(&mut self, xo: u8, yo: u8, n: u8)
        requires
            old(self).wf(),
            n < 16,
            n > 0 ==> old(self)@.ireg + n <= 4096,
        ensures
            final(self).wf(),
            final(self)@ == (VmView {
                screen: draw_screen(
                    old(self)@.screen,
                    old(self)@.mem,
                    old(self)@.ireg as int,
                    xo,
                    yo,
                    n as int,
                ),
                reg: old(self)@.reg.update(
                    15,
                    if draw_collision(
                        old(self)@.screen,
                        old(self)@.mem,
                        old(self)@.ireg as int,
                        xo,
                        yo,
                        n as int,
                    ) {
                        1u8
                    } else {
                        0u8
                    },
                ),
                ..old(self)@
            }),
    {
        let ghost v0 = self@;
        let mut flipped = false;
        let mut r: usize = 0;
        while r < n as usize
            invariant
                self.wf(),
                r <= n as usize,
                n < 16,
                n > 0 ==> v0.ireg + n <= 4096,
                v0.screen.len() == 2048,
                self@.pc == v0.pc,
                self@.mem == v0.mem,
                self@.reg == v0.reg,
                self@.ireg == v0.ireg,
                self@.sp == v0.sp,
                self@.stack == v0.stack,
                self@.kb == v0.kb,
                self@.dt == v0.dt,
                self@.st == v0.st,
                self@.screen == draw_screen_upto(v0.screen, v0.mem, v0.ireg as int, xo, yo, r as int, 0),
                flipped == draw_collision_upto(v0.screen, v0.mem, v0.ireg as int, xo, yo, r as int, 0),
            decreases n as int - r,
        {
            let addr = self.ireg as usize + r;
            let row_byte = self.mem[addr];
            let mut c: usize = 0;
            while c < 8
                invariant
                    self.wf(),
                    r < n as usize,
                    c <= 8,
                    n < 16,
                    v0.ireg + n <= 4096,
                    v0.screen.len() == 2048,
                    row_byte == v0.mem[v0.ireg + r],
                    self@.pc == v0.pc,
                    self@.mem == v0.mem,
                    self@.reg == v0.reg,
                    self@.ireg == v0.ireg,
                    self@.sp == v0.sp,
                    self@.stack == v0.stack,
                    self@.kb == v0.kb,
                    self@.dt == v0.dt,
                    self@.st == v0.st,
                    self@.screen == draw_screen_upto(
                        v0.screen,
                        v0.mem,
                        v0.ireg as int,
                        xo,
                        yo,
                        r as int,
                        c as int,
                    ),
                    flipped == draw_collision_upto(
                        v0.screen,
                        v0.mem,
                        v0.ireg as int,
                        xo,
                        yo,
                        r as int,
                        c as int,
                    ),
                decreases 8 - c,
            {
                let px = (xo as usize + c) % 64;
                let py = (yo as usize + r) % 32;
                let sbit = (row_byte >> ((7 - c) as u32)) & 1 != 0;
                proof {
                    lemma_byte_bit_test(row_byte, (7 - c) as u32);
                    assert(sbit == sprite_bit(v0.mem, v0.ireg as int, r as int, c as int));
                    lemma_target_bounds(xo, yo, r as int, c as int);
                    assert(py * 64 + px == draw_target(xo, yo, r as int, c as int));
                    lemma_draw_step(v0.screen, v0.mem, v0.ireg as int, xo, yo, r as int, c as int);
                }
                let was_on = self.vb.xor_pixel(px, py, sbit);
                if was_on && sbit {
                    flipped = true;
                }
                c = c + 1;
            }
            proof {
                lemma_draw_row_boundary(v0.screen, v0.mem, v0.ireg as int, xo, yo, r as int);
            }
            r = r + 1;
        }
        let flag: u8 = if flipped {
            1
        } else {
            0
        };
        self.reg.set(15, flag);
        proof {
            assert(self@ =~= (VmView {
                screen: draw_screen(v0.screen, v0.mem, v0.ireg as int, xo, yo, n as int),
                reg: v0.reg.update(
                    15,
                    if draw_collision(v0.screen, v0.mem, v0.ireg as int, xo, yo, n as int) {
                        1u8
                    } else {
                        0u8
                    },
                ),
                ..v0
            }));
        }
    }

    /// Executes exactly one instruction: fetch the big-endian opcode word at
    /// the program counter, advance the counter by 2, decode and execute.
    ///
    /// On `Ok` the machine has taken exactly one step of [`step`], for some
    /// value of the random byte (which only the random opcode reads). On
    /// `Err` the machine is unchanged and `step` faults the same way for
    /// every random byte.
    #[verifier::rlimit(100)]
    pub fn tick(&mut self) -> (r: Result<(), Fault>)
        requires
            old(self).wf(),
        ensures
            final(self).wf(),
            (match r {
                Ok(()) => exists|rnd: u8|
                    #[trigger] step(old(self)@, rnd) == Ok::<VmView, Fault>(final(self)@),
                Err(f) => final(self)@ == old(self)@ && forall|rnd: u8|
                    #[trigger] step(old(self)@, rnd) == Err::<VmView, Fault>(f),
            }),
    {
        let ghost v0 = self@;
        if self.pc as usize + 1 >= 4096 {
            proof {
                assert forall|rnd: u8| #[trigger] step(v0, rnd) == Err::<VmView, Fault>(
                    Fault::PcOutOfBounds,
                ) by {}
            }
            return Err(Fault::PcOutOfBounds);
        }
        let pc0 = self.pc as usize;
        let left = self.mem[pc0] as u16;
        let right = self.mem[pc0 + 1] as u16;
        let op = (left << 8) | right;
        self.pc = self.pc + 2;
        let ghost vf = self@;
        proof {
            assert(vf =~= (VmView { pc: (v0.pc + 2) as u16, ..v0 }));
            assert(op == fetched(v0));
        }
        let instr = match decode_exec(op) {
            Some(i) => i,
            None => {
                self.pc = self.pc - 2;
                proof {
                    assert(self@ =~= v0);
                    assert forall|rnd: u8| #[trigger] step(v0, rnd) == Err::<VmView, Fault>(
                        Fault::UnknownOpcode(op),
                    ) by {}
                }
                return Err(Fault::UnknownOpcode(op));
            },
        };
        match instr {
            Instr::Cls => {
                self.vb.clear();
                proof {
                    assert(self@.screen =~= blank_screen());
                    assert(self@ =~= (VmView { screen: blank_screen(), ..vf }));
                    assert(step(v0, 0u8) == Ok::<VmView, Fault>(self@));
                }
                Ok(())
            },
            Instr::Ret => {
                if self.sp == 0 {
                    self.pc = self.pc - 2;
                    proof {
                        assert(self@ =~= v0);
                        assert forall|rnd: u8| #[trigger] step(v0, rnd) == Err::<VmView, Fault>(
                            Fault::StackUnderflow,
                        ) by {}
                    }
                    return Err(Fault::StackUnderflow);
                }
                let a = self.pop();
                self.pc = a;
                proof {
                    assert(self@ =~= (VmView {
                        pc: vf.stack[vf.sp - 1],
                        sp: (vf.sp - 1) as u16,
                        ..vf
                    }));
                    assert(step(v0, 0u8) == Ok::<VmView, Fault>(self@));
                }
                Ok(())
            },
            Instr::Jp(nnn) => {
                self.pc = nnn;
                proof {
                    assert(step(v0, 0u8) == Ok::<VmView, Fault>(self@));
                }
                Ok(())
            },
            Instr::Call(nnn) => {
                if self.sp >= 16 {
                    self.pc = self.pc - 2;
                    proof {
                        assert(self@ =~= v0);
                        assert forall|rnd: u8| #[trigger] step(v0, rnd) == Err::<VmView, Fault>(
                            Fault::StackOverflow,
                        ) by {}
                    }
                    return Err(Fault::StackOverflow);
                }
                let ret = self.pc;
                self.push(ret);
                self.pc = nnn;
                proof {
                    assert(self@ =~= (VmView {
                        stack: vf.stack.update(vf.sp as int, vf.pc),
                        sp: (vf.sp + 1) as u16,
                        pc: nnn,
                        ..vf
                    }));
                    assert(step(v0, 0u8) == Ok::<VmView, Fault>(self@));
                }
                Ok(())
            },
            Instr::SeByte(x, kk) => {
                if self.reg[x as usize] == kk {
                    self.pc = self.pc + 2;
                }
                proof {
                    assert(self@ =~= skip_if(vf, vf.reg[x as int] == kk));
                    assert(step(v0, 0u8) == Ok::<VmView, Fault>(self@));
                }
                Ok(())
            },
            Instr::SneByte(x, kk) => {
                if self.reg[x as usize] != kk {
                    self.pc = self.pc + 2;
                }
                proof {
                    assert(self@ =~= skip_if(vf, vf.reg[x as int] != kk));
                    assert(step(v0, 0u8) == Ok::<VmView, Fault>(self@));
                }
                Ok(())
            },
            Instr::SeReg(x, y) => {
                if self.reg[x as usize] == self.reg[y as usize] {
                    self.pc = self.pc + 2;
                }
                proof {
                    assert(self@ =~= skip_if(vf, vf.reg[x as int] == vf.reg[y as int]));
                    assert(step(v0, 0u8) == Ok::<VmView, Fault>(self@));
                }
                Ok(())
            },
            Instr::LdByte(x, kk) => {
                self.reg.set(x as usize, kk);
                proof {
                    assert(self@ =~= with_reg(vf, x as int, kk));
                    assert(step(v0, 0u8) == Ok::<VmView, Fault>(self@));
                }
                Ok(())
            },
            Instr::AddByte(x, kk) => {
                let rx = self.reg[x as usize];
                self.reg.set(x as usize, rx.wrapping_add(kk));
                proof {
                    assert(self@ =~= with_reg(vf, x as int, wrap_add8(vf.reg[x as int], kk)));
                    assert(step(v0, 0u8) == Ok::<VmView, Fault>(self@));
                }
                Ok(())
            },
            Instr::LdReg(x, y) => {
                let ry = self.reg[y as usize];
                self.reg.set(x as usize, ry);
                proof {
                    assert(self@ =~= with_reg(vf, x as int, vf.reg[y as int]));
                    assert(step(v0, 0u8) == Ok::<VmView, Fault>(self@));
                }
                Ok(())
            },
            Instr::Or(x, y) => {
                let rx = self.reg[x as usize];
                let ry = self.reg[y as usize];
                self.reg.set(x as usize, rx | ry);
                proof {
                    assert(self@ =~= with_reg(vf, x as int, vf.reg[x as int] | vf.reg[y as int]));
                    assert(step(v0, 0u8) == Ok::<VmView, Fault>(self@));
                }
                Ok(())
            },
            Instr::And(x, y) => {
                let rx = self.reg[x as usize];
                let ry = self.reg[y as usize];
                self.reg.set(x as usize, rx & ry);
                proof {
                    assert(self@ =~= with_reg(vf, x as int, vf.reg[x as int] & vf.reg[y as int]));
                    assert(step(v0, 0u8) == Ok::<VmView, Fault>(self@));
                }
                Ok(())
            },
            Instr::Xor(x, y) => {
                let rx = self.reg[x as usize];
                let ry = self.reg[y as usize];
                self.reg.set(x as usize, rx ^ ry);
                proof {
                    assert(self@ =~= with_reg(vf, x as int, vf.reg[x as int] ^ vf.reg[y as int]));
                    assert(step(v0, 0u8) == Ok::<VmView, Fault>(self@));
                }
                Ok(())
            },
            Instr::AddReg(x, y) => {
                let rx = self.reg[x as usize];
                let ry = self.reg[y as usize];
                let carry: u8 = if (rx as u16) + (ry as u16) > 255 {
                    1
                } else {
                    0
                };
                self.reg.set(x as usize, rx.wrapping_add(ry));
                self.reg.set(15, carry);
                proof {
                    assert(step(v0, 0u8) == Ok::<VmView, Fault>(self@));
                }
                Ok(())
            },
            Instr::Sub(x, y) => {
                let rx = self.reg[x as usize];
                let ry = self.reg[y as usize];
                let flag: u8 = if rx >= ry {
                    1
                } else {
                    0
                };
                self.reg.set(x as usize, rx.wrapping_sub(ry));
                self.reg.set(15, flag);
                proof {
                    assert(step(v0, 0u8) == Ok::<VmView, Fault>(self@));
                }
                Ok(())
            },
            Instr::Shr(x) => {
                let rx = self.reg[x as usize];
                self.reg.set(15, rx % 2);
                let mid = self.reg[x as usize];
                self.reg.set(x as usize, mid / 2);
                proof {
                    assert(step(v0, 0u8) == Ok::<VmView, Fault>(self@));
                }
                Ok(())
            },
            Instr::Subn(x, y) => {
                let rx = self.reg[x as usize];
                let ry = self.reg[y as usize];
                let flag: u8 = if ry >= rx {
                    1
                } else {
                    0
                };
                self.reg.set(x as usize, ry.wrapping_sub(rx));
                self.reg.set(15, flag);
                proof {
                    assert(step(v0, 0u8) == Ok::<VmView, Fault>(self@));
                }
                Ok(())
            },
            Instr::Shl(x) => {
                let rx = self.reg[x as usize];
                self.reg.set(15, rx % 2);
                let mid = self.reg[x as usize];
                self.reg.set(15, mid / 128);
                let mid2 = self.reg[x as usize];
                self.reg.set(x as usize, mid2.wrapping_add(mid2));
                proof {
                    assert(step(v0, 0u8) == Ok::<VmView, Fault>(self@));
                }
                Ok(())
            },
            Instr::SneReg(x, y) => {
                if self.reg[x as usize] != self.reg[y as usize] {
                    self.pc = self.pc + 2;
                }
                proof {
                    assert(self@ =~= skip_if(vf, vf.reg[x as int] != vf.reg[y as int]));
                    assert(step(v0, 0u8) == Ok::<VmView, Fault>(self@));
                }
                Ok(())
            },
            Instr::LdI(nnn) => {
                self.ireg = nnn;
                proof {
                    assert(step(v0, 0u8) == Ok::<VmView, Fault>(self@));
                }
                Ok(())
            },
            Instr::JpV0(nnn) => {
                let r0 = self.reg[0];
                self.pc = (r0 as u16) + nnn;
                proof {
                    assert(step(v0, 0u8) == Ok::<VmView, Fault>(self@));
                }
                Ok(())
            },
            Instr::Rnd(x, kk) => {
                let rnd = random_byte();
                self.reg.set(x as usize, rnd & kk);
                proof {
                    assert(self@ =~= with_reg(vf, x as int, rnd & kk));
                    assert(step(v0, rnd) == Ok::<VmView, Fault>(self@));
                }
                Ok(())
            },
            Instr::Drw(x, y, n) => {
                if n > 0 && self.ireg as usize + n as usize > 4096 {
                    self.pc = self.pc - 2;
                    proof {
                        assert(self@ =~= v0);
                        assert forall|rnd: u8| #[trigger] step(v0, rnd) == Err::<VmView, Fault>(
                            Fault::MemOutOfBounds,
                        ) by {}
                    }
                    return Err(Fault::MemOutOfBounds);
                }
                let xo = self.reg[x as usize];
                let yo = self.reg[y as usize];
                self.exec_draw(xo, yo, n);
                proof {
                    assert(step(v0, 0u8) == Ok::<VmView, Fault>(self@));
                }
                Ok(())
            },
            Instr::Skp(x) => {
                let key = self.reg[x as usize];
                if key >= 16 {
                    self.pc = self.pc - 2;
                    proof {
                        assert(self@ =~= v0);
                        assert forall|rnd: u8| #[trigger] step(v0, rnd) == Err::<VmView, Fault>(
                            Fault::KeyOutOfRange,
                        ) by {}
                    }
                    return Err(Fault::KeyOutOfRange);
                }
                if self.kb[key as usize] {
                    self.pc = self.pc + 2;
                }
                proof {
                    assert(self@ =~= skip_if(vf, vf.kb[vf.reg[x as int] as int]));
                    assert(step(v0, 0u8) == Ok::<VmView, Fault>(self@));
                }
                Ok(())
            },
            Instr::Sknp(x) => {
                let key = self.reg[x as usize];
                if key >= 16 {
                    self.pc = self.pc - 2;
                    proof {
                        assert(self@ =~= v0);
                        assert forall|rnd: u8| #[trigger] step(v0, rnd) == Err::<VmView, Fault>(
                            Fault::KeyOutOfRange,
                        ) by {}
                    }
                    return Err(Fault::KeyOutOfRange);
                }
                if !self.kb[key as usize] {
                    self.pc = self.pc + 2;
                }
                proof {
                    assert(self@ =~= skip_if(vf, !vf.kb[vf.reg[x as int] as int]));
                    assert(step(v0, 0u8) == Ok::<VmView, Fault>(self@));
                }
                Ok(())
            },
            Instr::LdRegDt(x) => {
                let d = self.dt;
                self.reg.set(x as usize, d);
                proof {
                    assert(self@ =~= with_reg(vf, x as int, vf.dt));
                    assert(step(v0, 0u8) == Ok::<VmView, Fault>(self@));
                }
                Ok(())
            },
            Instr::LdKey(x) => {
                let fk = first_key(&self.kb);
                if fk < 16 {
                    self.reg.set(x as usize, fk as u8);
                    proof {
                        assert(self@ =~= with_reg(vf, x as int, first_pressed(vf.kb, 0) as u8));
                        assert(step(v0, 0u8) == Ok::<VmView, Fault>(self@));
                    }
                } else {
                    self.pc = self.pc - 2;
                    proof {
                        assert(self@ =~= (VmView { pc: (vf.pc - 2) as u16, ..vf }));
                        assert(step(v0, 0u8) == Ok::<VmView, Fault>(self@));
                    }
                }
                Ok(())
            },
            Instr::LdDtReg(x) => {
                self.dt = self.reg[x as usize];
                proof {
                    assert(step(v0, 0u8) == Ok::<VmView, Fault>(self@));
                }
                Ok(())
            },
            Instr::LdStReg(x) => {
                self.st = self.reg[x as usize];
                proof {
                    assert(step(v0, 0u8) == Ok::<VmView, Fault>(self@));
                }
                Ok(())
            },
            Instr::AddI(x) => {
                let rx = self.reg[x as usize];
                self.ireg = self.ireg.wrapping_add(rx as u16);
                proof {
                    assert(step(v0, 0u8) == Ok::<VmView, Fault>(self@));
                }
                Ok(())
            },
            Instr::LdFont(x) => {
                let rx = self.reg[x as usize];
                self.ireg = (rx as u16) * 5;
                proof {
                    assert(step(v0, 0u8) == Ok::<VmView, Fault>(self@));
                }
                Ok(())
            },
            Instr::LdBcd(x) => {
                if self.ireg as usize + 2 >= 4096 {
                    self.pc = self.pc - 2;
                    proof {
                        assert(self@ =~= v0);
                        assert forall|rnd: u8| #[trigger] step(v0, rnd) == Err::<VmView, Fault>(
                            Fault::MemOutOfBounds,
                        ) by {}
                    }
                    return Err(Fault::MemOutOfBounds);
                }
                let val = self.reg[x as usize];
                let base = self.ireg as usize;
                self.mem.set(base, val / 100);
                self.mem.set(base + 1, (val % 100) / 10);
                self.mem.set(base + 2, val % 10);
                proof {
                    assert(step(v0, 0u8) == Ok::<VmView, Fault>(self@));
                }
                Ok(())
            },
            Instr::StoreRegs(x) => {
                if self.ireg as usize + x as usize >= 4096 {
                    self.pc = self.pc - 2;
                    proof {
                        assert(self@ =~= v0);
                        assert forall|rnd: u8| #[trigger] step(v0, rnd) == Err::<VmView, Fault>(
                            Fault::MemOutOfBounds,
                        ) by {}
                    }
                    return Err(Fault::MemOutOfBounds);
                }
                let base = self.ireg as usize;
                let mut i: usize = 0;
                while i <= x as usize
                    invariant
                        x < 16,
                        i <= x as usize + 1,
                        vf.ireg + x < 4096,
                        base == vf.ireg as usize,
                        view_wf(vf),
                        self.wf(),
                        self@ == (VmView { mem: self@.mem, ..vf }),
                        forall|j: int|
                            0 <= j < 4096 && !(vf.ireg <= j < vf.ireg + i) ==> self@.mem[j]
                                == vf.mem[j],
                        forall|j: int|
                            vf.ireg <= j < vf.ireg + i ==> self@.mem[j] == vf.reg[j - vf.ireg],
                    decreases x as int + 1 - i,
                {
                    let rv = self.reg[i];
                    self.mem.set(base + i, rv);
                    i = i + 1;
                }
                proof {
                    assert(self@.mem =~= Seq::new(
                        4096,
                        |j: int|
                            if vf.ireg <= j <= vf.ireg + x {
                                vf.reg[j - vf.ireg]
                            } else {
                                vf.mem[j]
                            },
                    ));
                    assert(self@ =~= (VmView {
                        mem: Seq::new(
                            4096,
                            |j: int|
                                if vf.ireg <= j <= vf.ireg + x {
                                    vf.reg[j - vf.ireg]
                                } else {
                                    vf.mem[j]
                                },
                        ),
                        ..vf
                    }));
                    assert(step(v0, 0u8) == Ok::<VmView, Fault>(self@));
                }
                Ok(())
            },
            Instr::LoadRegs(x) => {
                if self.ireg as usize + x as usize >= 4096 {
                    self.pc = self.pc - 2;
                    proof {
                        assert(self@ =~= v0);
                        assert forall|rnd: u8| #[trigger] step(v0, rnd) == Err::<VmView, Fault>(
                            Fault::MemOutOfBounds,
                        ) by {}
                    }
                    return Err(Fault::MemOutOfBounds);
                }
                let base = self.ireg as usize;
                let mut i: usize = 0;
                while i <= x as usize
                    invariant
                        x < 16,
                        i <= x as usize + 1,
                        vf.ireg + x < 4096,
                        base == vf.ireg as usize,
                        view_wf(vf),
                        self.wf(),
                        self@ == (VmView { reg: self@.reg, ..vf }),
                        forall|j: int| i <= j < 16 ==> self@.reg[j] == vf.reg[j],
                        forall|j: int| 0 <= j < i ==> self@.reg[j] == vf.mem[vf.ireg + j],
                    decreases x as int + 1 - i,
                {
                    let mv = self.mem[base + i];
                    self.reg.set(i, mv);
                    i = i + 1;
                }
                proof {
                    assert(self@.reg =~= Seq::new(
                        16,
                        |j: int|
                            if 0 <= j <= x {
                                vf.mem[vf.ireg + j]
                            } else {
                                vf.reg[j]
                            },
                    ));
                    assert(self@ =~= (VmView {
                        reg: Seq::new(
                            16,
                            |j: int|
                                if 0 <= j <= x {
                                    vf.mem[vf.ireg + j]
                                } else {
                                    vf.reg[j]
                                },
                        ),
                        ..vf
                    }));
                    assert(step(v0, 0u8) == Ok::<VmView, Fault>(self@));
                }
                Ok(())
            },
        }
    }
}

} // verus!
