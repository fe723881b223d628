//! Laws of the instruction semantics that relate several opcodes or several
//! executions, stated over the specification-level transition functions
//! [`step_op`] and [`step`] that `Vm::tick` is proved to implement.

use crate::instr::{decode, Fault, Instr};
use crate::vm::{
    blank_screen, draw_collision, draw_screen, draw_target, fetched, first_pressed,
    lemma_first_pressed, lemma_hit_unique, lemma_target_bounds, pair_before, sprite_bit, step,
    step_instr, step_op, view_wf, VmView,
};
use vstd::prelude::*;

verus! {

proof fn lemma_encode_xkk(a: u16, x: u8, kk: u8)
    by (bit_vector)
    requires
        a < 16,
        a != 0,
        x < 16,
    ensures
        ({
            let op = (a << 12) | ((x as u16) << 8) | (kk as u16);
            &&& (op >> 12) == a
            &&& (((op >> 8) & 0xf) as u8) == x
            &&& ((op & 0xff) as u8) == kk
            &&& (op & 0xfff) == ((x as u16) << 8) | (kk as u16)
            &&& op != 0x00E0
            &&& op != 0x00EE
        }),
{
}

proof fn lemma_encode_addr(a: u16, nnn: u16)
    by (bit_vector)
    requires
        a < 16,
        a != 0,
        nnn < 0x1000,
    ensures
        ({
            let op = (a << 12) | nnn;
            &&& (op >> 12) == a
            &&& (op & 0xfff) == nnn
            &&& op != 0x00E0
            &&& op != 0x00EE
        }),
{
}

proof fn lemma_encode_drw(x: u8, y: u8, n: u8)
    by (bit_vector)
    requires
        x < 16,
        y < 16,
        n < 16,
    ensures
        ({
            let op = 0xD000u16 | ((x as u16) << 8) | ((y as u16) << 4) | (n as u16);
            &&& (op >> 12) == 0xD
            &&& (((op >> 8) & 0xf) as u8) == x
            &&& (((op >> 4) & 0xf) as u8) == y
            &&& ((op & 0xf) as u8) == n
            &&& op != 0x00E0
            &&& op != 0x00EE
        }),
{
}

proof fn lemma_fx0a_parts(x: u8)
    by (bit_vector)
    requires
        x < 16,
    ensures
        ({
            let op = (((0xF0u8 | x) as u16) << 8) | (0x0Au8 as u16);
            &&& (op >> 12) == 0xF
            &&& (((op >> 8) & 0xf) as u8) == x
            &&& (op & 0xff) == 0x0A
            &&& op != 0x00E0
            &&& op != 0x00EE
        }),
{
}

/// Loading a byte and then adding a second byte accumulates modulo 256 with
/// no flag side effect: executing opcode `0x6xkk` and then `0x7xkk2` sets
/// register `x` to `(kk + kk2) % 256` and leaves every other register,
/// the flag register 0xF included, unchanged.
pub proof fn lemma_ld_then_add(v: VmView, x: u8, kk: u8, kk2: u8, rnd1: u8, rnd2: u8)
    requires
        view_wf(v),
        x < 16,
    ensures
        ({
            let op1 = (0x6u16 << 12) | ((x as u16) << 8) | (kk as u16);
            let op2 = (0x7u16 << 12) | ((x as u16) << 8) | (kk2 as u16);
            let r1 = step_op(v, op1, rnd1);
            &&& r1 is Ok
            &&& step_op(r1->Ok_0, op2, rnd2) is Ok
            &&& ({
                let v2 = step_op(r1->Ok_0, op2, rnd2)->Ok_0;
                &&& v2.reg[x as int] == (kk + kk2) % 256
                &&& forall|j: int| 0 <= j < 16 && j != x ==> v2.reg[j] == v.reg[j]
            })
        }),
{
    lemma_encode_xkk(0x6, x, kk);
    lemma_encode_xkk(0x7, x, kk2);
    let op1 = (0x6u16 << 12) | ((x as u16) << 8) | (kk as u16);
    let op2 = (0x7u16 << 12) | ((x as u16) << 8) | (kk2 as u16);
    assert(decode(op1) == Some(Instr::LdByte(x, kk)));
    assert(decode(op2) == Some(Instr::AddByte(x, kk2)));
}

/// The jump, call and return round trip: `0x2nnn` pushes the current program
/// counter and jumps to `nnn`; a later `0x00EE` pops it back, whatever the
/// program counter did in between, restoring the address immediately after
/// the call and the old stack depth.
pub proof fn lemma_call_then_ret(v: VmView, nnn: u16, mid_pc: u16, rnd1: u8, rnd2: u8)
    requires
        view_wf(v),
        nnn < 0x1000,
        v.sp < 16,
    ensures
        ({
            let r1 = step_op(v, (0x2u16 << 12) | nnn, rnd1);
            &&& r1 is Ok
            &&& r1->Ok_0.pc == nnn
            &&& ({
                let v1 = VmView { pc: mid_pc, ..r1->Ok_0 };
                let r2 = step_op(v1, 0x00EEu16, rnd2);
                &&& r2 is Ok
                &&& r2->Ok_0.pc == v.pc
                &&& r2->Ok_0.sp == v.sp
            })
        }),
{
    lemma_encode_addr(0x2, nnn);
    assert(decode((0x2u16 << 12) | nnn) == Some(Instr::Call(nnn)));
    assert(decode(0x00EEu16) == Some(Instr::Ret));
}

/// Drawing a non-empty sprite on a blank screen reports no collision; drawing
/// it a second time at the same origin XORs the screen back to blank and
/// reports a collision. The origin registers must not be the flag register,
/// which the first draw overwrites.
pub proof fn lemma_draw_twice(v: VmView, x: u8, y: u8, n: u8, rnd1: u8, rnd2: u8)
    requires
        view_wf(v),
        x < 16,
        y < 16,
        n < 16,
        x != 15,
        y != 15,
        0 < n,
        v.ireg + n <= 4096,
        v.screen == blank_screen(),
        exists|r: int, c: int|
            0 <= r < n && 0 <= c < 8 && #[trigger] sprite_bit(v.mem, v.ireg as int, r, c),
    ensures
        ({
            let op = 0xD000u16 | ((x as u16) << 8) | ((y as u16) << 4) | (n as u16);
            let r1 = step_op(v, op, rnd1);
            &&& r1 is Ok
            &&& r1->Ok_0.reg[15] == 0
            &&& ({
                let r2 = step_op(r1->Ok_0, op, rnd2);
                &&& r2 is Ok
                &&& r2->Ok_0.reg[15] == 1
                &&& r2->Ok_0.screen == blank_screen()
            })
        }),
{
    lemma_encode_drw(x, y, n);
    let op = 0xD000u16 | ((x as u16) << 8) | ((y as u16) << 4) | (n as u16);
    assert(decode(op) == Some(Instr::Drw(x, y, n)));
    let ireg = v.ireg as int;
    let xo = v.reg[x as int];
    let yo = v.reg[y as int];
    let nn = n as int;

    // First draw: no collision against a blank background.
    if draw_collision(v.screen, v.mem, ireg, xo, yo, nn) {
        let (r, c) = choose|r: int, c: int|
            0 <= r && 0 <= c < 8 && pair_before(r, c, nn, 0) && (#[trigger] sprite_bit(
                v.mem,
                ireg,
                r,
                c,
            )) && v.screen[draw_target(xo, yo, r, c)];
        lemma_target_bounds(xo, yo, r, c);
        assert(false);
    }
    let r1 = step_op(v, op, rnd1);
    let v1 = r1->Ok_0;
    let s1 = draw_screen(v.screen, v.mem, ireg, xo, yo, nn);

    // After the first draw, each targeted pixel holds exactly its sprite bit.
    assert forall|r: int, c: int| 0 <= r < nn && 0 <= c < 8 implies s1[#[trigger] draw_target(
        xo,
        yo,
        r,
        c,
    )] == sprite_bit(v.mem, ireg, r, c) by {
        lemma_target_bounds(xo, yo, r, c);
        let t = draw_target(xo, yo, r, c);
        assert(0 <= r && 0 <= c < 8 && pair_before(r, c, nn, 0) && draw_target(xo, yo, r, c) == t);
        let (r2, c2) = choose|r2: int, c2: int|
            0 <= r2 && 0 <= c2 < 8 && pair_before(r2, c2, nn, 0) && #[trigger] draw_target(
                xo,
                yo,
                r2,
                c2,
            ) == t;
        lemma_hit_unique(xo, yo, r2, c2, r, c, t);
        assert(s1[t] == (v.screen[t] != sprite_bit(v.mem, ireg, r, c)));
    }

    // The second draw sees its own pixels lit, so the non-empty sprite
    // collides.
    let (rw, cw) = choose|r: int, c: int|
        0 <= r < n && 0 <= c < 8 && #[trigger] sprite_bit(v.mem, v.ireg as int, r, c);
    lemma_target_bounds(xo, yo, rw, cw);
    assert(s1[draw_target(xo, yo, rw, cw)] == sprite_bit(v.mem, ireg, rw, cw));
    assert(pair_before(rw, cw, nn, 0));
    assert(draw_collision(s1, v.mem, ireg, xo, yo, nn));

    // The origin and the sprite are unchanged by the first draw (only the
    // flag register and the screen moved), so the second draw XORs the same
    // bits back off.
    assert(v1.reg[x as int] == xo && v1.reg[y as int] == yo && v1.mem == v.mem && v1.ireg
        == v.ireg);
    let s2 = draw_screen(s1, v.mem, ireg, xo, yo, nn);
    assert forall|p: int| 0 <= p < 2048 implies s2[p] == blank_screen()[p] by {
        if exists|r: int, c: int|
            0 <= r && 0 <= c < 8 && pair_before(r, c, nn, 0) && #[trigger] draw_target(
                xo,
                yo,
                r,
                c,
            ) == p {
            let (r, c) = choose|r: int, c: int|
                0 <= r && 0 <= c < 8 && pair_before(r, c, nn, 0) && #[trigger] draw_target(
                    xo,
                    yo,
                    r,
                    c,
                ) == p;
            lemma_target_bounds(xo, yo, r, c);
            assert(s1[p] == sprite_bit(v.mem, ireg, r, c));
            assert(s2[p] == (s1[p] != sprite_bit(v.mem, ireg, r, c)));
        } else {
            assert(s2[p] == s1[p] && s1[p] == v.screen[p]);
        }
    }
    assert(s2 =~= blank_screen());
}

/// Key-wait blocks by retrying: when the two bytes at the program counter
/// encode `Fx0A` and no key is pressed, a whole step leaves the machine
/// exactly as it was; once any key is pressed, register `x` receives the
/// lowest-numbered pressed key index and the program counter advances
/// normally.
pub proof fn lemma_key_wait(v: VmView, x: u8, rnd: u8)
    requires
        view_wf(v),
        x < 16,
        v.pc + 1 < 4096,
        v.mem[v.pc as int] == (0xF0u8 | x),
        v.mem[v.pc as int + 1] == 0x0Au8,
    ensures
        (forall|j: int| 0 <= j < 16 ==> !v.kb[j]) ==> step(v, rnd) == Ok::<VmView, Fault>(v),
        (exists|j: int| 0 <= j < 16 && v.kb[j]) ==> ({
            let r = step(v, rnd);
            &&& r is Ok
            &&& r->Ok_0.pc == (v.pc + 2) as u16
            &&& r->Ok_0.reg[x as int] == first_pressed(v.kb, 0)
            &&& v.kb[first_pressed(v.kb, 0)]
            &&& (forall|j: int| 0 <= j < first_pressed(v.kb, 0) ==> !v.kb[j])
            &&& r->Ok_0.mem == v.mem && r->Ok_0.screen == v.screen && r->Ok_0.sp == v.sp
        }),
{
    lemma_fx0a_parts(x);
    let op = (((0xF0u8 | x) as u16) << 8) | (0x0Au8 as u16);
    assert(decode(op) == Some(Instr::LdKey(x)));
    lemma_first_pressed(v.kb, 0);
    let vf = VmView { pc: (v.pc + 2) as u16, ..v };
    if forall|j: int| 0 <= j < 16 ==> !v.kb[j] {
        assert(first_pressed(v.kb, 0) == 16);
        assert(step(v, rnd) == Ok::<VmView, Fault>(VmView { pc: (vf.pc - 2) as u16, ..vf }));
        assert((VmView { pc: (vf.pc - 2) as u16, ..vf }) =~= v);
    }
    if exists|j: int| 0 <= j < 16 && v.kb[j] {
        let j = choose|j: int| 0 <= j < 16 && v.kb[j];
        assert(first_pressed(v.kb, 0) != 16);
    }
}

/// Only the random opcode reads the random byte: when the word at the
/// program counter does not decode to `Cxkk`, every random byte gives the
/// same step, so `Vm::tick`'s contract determines the machine's next state.
pub proof fn lemma_step_deterministic(v: VmView, rnd1: u8, rnd2: u8)
    requires
        !(decode(fetched(v)) matches Some(Instr::Rnd(_, _))),
    ensures
        step(v, rnd1) == step(v, rnd2),
{
    if v.pc + 1 < 4096 {
        match decode(fetched(v)) {
            Some(i) => {
                let vf = VmView { pc: (v.pc + 2) as u16, ..v };
                assert(step_instr(vf, i, rnd1) == step_instr(vf, i, rnd2));
            },
            None => {},
        }
    }
}

} // verus!
