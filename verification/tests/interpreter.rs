use chip8::instr::{decode_exec, Fault, Instr};
use chip8::vm::{LoadError, Vm};

fn load(program: &[u8]) -> Vm {
    let mut vm = Vm::new();
    vm.load_bin(program).unwrap();
    vm
}

#[test]
fn fresh_machine_state() {
    let vm = Vm::new();
    assert_eq!(vm.get_pc(), 0x200);
    assert_eq!(vm.get_ireg(), 0);
    assert_eq!(vm.get_sp(), 0);
    assert_eq!(vm.get_dt(), 0);
    assert_eq!(vm.get_st(), 0);
    for i in 0..16 {
        assert_eq!(vm.get_reg(i), 0);
    }
    // The glyph for digit 0 sits at the bottom of memory.
    assert_eq!(vm.get_mem(0), 0xF0);
    assert_eq!(vm.get_mem(1), 0x90);
    assert_eq!(vm.get_mem(4), 0xF0);
    // The last font byte and the first byte past the font.
    assert_eq!(vm.get_mem(79), 0x80);
    assert_eq!(vm.get_mem(80), 0x00);
}

#[test]
fn ld_then_add_accumulates_mod_256() {
    let mut vm = load(&[0x60, 0x05, 0x70, 0x07]);
    vm.tick().unwrap();
    vm.tick().unwrap();
    assert_eq!(vm.get_reg(0), 12);
    assert_eq!(vm.get_reg(0xF), 0);

    // Wrapping: 200 + 100 leaves 44 and still no flag.
    let mut vm = load(&[0x60, 0xC8, 0x70, 0x64]);
    vm.tick().unwrap();
    vm.tick().unwrap();
    assert_eq!(vm.get_reg(0), 44);
    assert_eq!(vm.get_reg(0xF), 0);
}

#[test]
fn add_with_carry() {
    // reg0 = 250, reg1 = 10: sum wraps to 4 with carry set.
    let mut vm = load(&[0x60, 0xFA, 0x61, 0x0A, 0x80, 0x14]);
    vm.tick().unwrap();
    vm.tick().unwrap();
    vm.tick().unwrap();
    assert_eq!(vm.get_reg(0), 4);
    assert_eq!(vm.get_reg(0xF), 1);

    // reg0 = 10, reg1 = 10: no carry.
    let mut vm = load(&[0x60, 0x0A, 0x61, 0x0A, 0x80, 0x14]);
    vm.tick().unwrap();
    vm.tick().unwrap();
    vm.tick().unwrap();
    assert_eq!(vm.get_reg(0), 20);
    assert_eq!(vm.get_reg(0xF), 0);
}

#[test]
fn sub_with_borrow() {
    // reg0 = 10, reg1 = 3: 7, flag 1 (no borrow).
    let mut vm = load(&[0x60, 0x0A, 0x61, 0x03, 0x80, 0x15]);
    vm.tick().unwrap();
    vm.tick().unwrap();
    vm.tick().unwrap();
    assert_eq!(vm.get_reg(0), 7);
    assert_eq!(vm.get_reg(0xF), 1);

    // reg0 = 3, reg1 = 10: wraps to 249, flag 0 (borrow).
    let mut vm = load(&[0x60, 0x03, 0x61, 0x0A, 0x80, 0x15]);
    vm.tick().unwrap();
    vm.tick().unwrap();
    vm.tick().unwrap();
    assert_eq!(vm.get_reg(0), 249);
    assert_eq!(vm.get_reg(0xF), 0);
}

#[test]
fn subn_reverse_subtract() {
    // reg0 = 3, reg1 = 10: reg0 = 10 - 3 = 7, flag 1.
    let mut vm = load(&[0x60, 0x03, 0x61, 0x0A, 0x80, 0x17]);
    vm.tick().unwrap();
    vm.tick().unwrap();
    vm.tick().unwrap();
    assert_eq!(vm.get_reg(0), 7);
    assert_eq!(vm.get_reg(0xF), 1);
}

#[test]
fn bitwise_ops() {
    // reg0 = 0x0F, reg1 = 0x35.
    let mut vm = load(&[0x60, 0x0F, 0x61, 0x35, 0x80, 0x11]);
    vm.tick().unwrap();
    vm.tick().unwrap();
    vm.tick().unwrap();
    assert_eq!(vm.get_reg(0), 0x3F); // OR

    let mut vm = load(&[0x60, 0x0F, 0x61, 0x35, 0x80, 0x12]);
    vm.tick().unwrap();
    vm.tick().unwrap();
    vm.tick().unwrap();
    assert_eq!(vm.get_reg(0), 0x05); // AND

    let mut vm = load(&[0x60, 0x0F, 0x61, 0x35, 0x80, 0x13]);
    vm.tick().unwrap();
    vm.tick().unwrap();
    vm.tick().unwrap();
    assert_eq!(vm.get_reg(0), 0x3A); // XOR
}

#[test]
fn shifts_and_flags() {
    // SHR: reg0 = 5 becomes 2, flag gets the dropped low bit.
    let mut vm = load(&[0x60, 0x05, 0x80, 0x06]);
    vm.tick().unwrap();
    vm.tick().unwrap();
    assert_eq!(vm.get_reg(0), 2);
    assert_eq!(vm.get_reg(0xF), 1);

    // SHL: reg0 = 0x81 becomes 0x02 (wrapping), flag gets the high bit.
    let mut vm = load(&[0x60, 0x81, 0x80, 0x0E]);
    vm.tick().unwrap();
    vm.tick().unwrap();
    assert_eq!(vm.get_reg(0), 0x02);
    assert_eq!(vm.get_reg(0xF), 1);
}

#[test]
fn skip_opcodes_move_pc() {
    // 3xkk skips when equal.
    let mut vm = load(&[0x60, 0x07, 0x30, 0x07]);
    vm.tick().unwrap();
    vm.tick().unwrap();
    assert_eq!(vm.get_pc(), 0x206);

    // 4xkk skips when unequal.
    let mut vm = load(&[0x60, 0x07, 0x40, 0x07]);
    vm.tick().unwrap();
    vm.tick().unwrap();
    assert_eq!(vm.get_pc(), 0x204);

    // 5xy0 skips when registers match.
    let mut vm = load(&[0x60, 0x07, 0x61, 0x07, 0x50, 0x10]);
    vm.tick().unwrap();
    vm.tick().unwrap();
    vm.tick().unwrap();
    assert_eq!(vm.get_pc(), 0x208);

    // 9xy0 skips when registers differ.
    let mut vm = load(&[0x60, 0x07, 0x61, 0x08, 0x90, 0x10]);
    vm.tick().unwrap();
    vm.tick().unwrap();
    vm.tick().unwrap();
    assert_eq!(vm.get_pc(), 0x208);
}

#[test]
fn jumps() {
    let mut vm = load(&[0x12, 0x40]);
    vm.tick().unwrap();
    assert_eq!(vm.get_pc(), 0x240);

    // Bnnn jumps to reg0 + addr.
    let mut vm = load(&[0x60, 0x04, 0xB2, 0x0A]);
    vm.tick().unwrap();
    vm.tick().unwrap();
    assert_eq!(vm.get_pc(), 0x20E);
}

#[test]
fn call_and_ret_round_trip() {
    // 0x200: CALL 0x204; 0x202: (dead); 0x204: RET.
    let mut vm = load(&[0x22, 0x04, 0x00, 0x00, 0x00, 0xEE]);
    vm.tick().unwrap();
    assert_eq!(vm.get_pc(), 0x204);
    assert_eq!(vm.get_sp(), 1);
    vm.tick().unwrap();
    assert_eq!(vm.get_pc(), 0x202);
    assert_eq!(vm.get_sp(), 0);
}

#[test]
fn draw_twice_xors_back_to_blank() {
    // I = 0 (the glyph for digit 0), draw 5 rows at (reg0, reg0) = (0, 0),
    // twice.
    let mut vm = load(&[0xA0, 0x00, 0xD0, 0x05, 0xD0, 0x05]);
    vm.tick().unwrap();
    vm.tick().unwrap();
    // Glyph row 0 is 0xF0: pixels (0..4, 0) set, (4..8, 0) clear.
    assert!(vm.vb.get_pixel(0, 0));
    assert!(vm.vb.get_pixel(3, 0));
    assert!(!vm.vb.get_pixel(4, 0));
    assert_eq!(vm.get_reg(0xF), 0);
    vm.tick().unwrap();
    assert_eq!(vm.get_reg(0xF), 1);
    assert!(vm.vb.as_bytes().iter().all(|&b| b == 0));
}

#[test]
fn draw_wraps_around_edges() {
    // reg0 = 62, reg1 = 31: a sprite at the bottom-right corner wraps to the
    // opposite edges.
    let mut vm = load(&[0x60, 0x3E, 0x61, 0x1F, 0xA0, 0x00, 0xD0, 0x12]);
    vm.tick().unwrap();
    vm.tick().unwrap();
    vm.tick().unwrap();
    vm.tick().unwrap();
    // Glyph row 0 (0xF0) lands on row 31, columns 62, 63, 0, 1.
    assert!(vm.vb.get_pixel(62, 31));
    assert!(vm.vb.get_pixel(63, 31));
    assert!(vm.vb.get_pixel(0, 31));
    assert!(vm.vb.get_pixel(1, 31));
    // Glyph row 1 (0x90) wraps to row 0: columns 62 and 1.
    assert!(vm.vb.get_pixel(62, 0));
    assert!(!vm.vb.get_pixel(63, 0));
    assert!(!vm.vb.get_pixel(0, 0));
    assert!(vm.vb.get_pixel(1, 0));
}

#[test]
fn key_wait_blocks_until_a_key() {
    let mut vm = load(&[0xF0, 0x0A]);
    // No key pressed: the program counter nets to no movement, tick after
    // tick.
    vm.tick().unwrap();
    assert_eq!(vm.get_pc(), 0x200);
    vm.tick().unwrap();
    assert_eq!(vm.get_pc(), 0x200);
    assert_eq!(vm.get_reg(0), 0);
    // Press keys 5 and 3: the lowest-numbered pressed key wins.
    vm.set_kb(5, true);
    vm.set_kb(3, true);
    vm.tick().unwrap();
    assert_eq!(vm.get_pc(), 0x202);
    assert_eq!(vm.get_reg(0), 3);
}

#[test]
fn key_skip_opcodes() {
    // Ex9E skips when the key is pressed.
    let mut vm = load(&[0x60, 0x04, 0xE0, 0x9E]);
    vm.set_kb(4, true);
    vm.tick().unwrap();
    vm.tick().unwrap();
    assert_eq!(vm.get_pc(), 0x206);

    // ExA1 skips when the key is released.
    let mut vm = load(&[0x60, 0x04, 0xE0, 0xA1]);
    vm.tick().unwrap();
    vm.tick().unwrap();
    assert_eq!(vm.get_pc(), 0x206);
}

#[test]
fn timers_load_read_and_clamp() {
    // dt = 2 via Fx15, read back via Fx07; st = 2 via Fx18.
    let mut vm = load(&[0x60, 0x02, 0xF0, 0x15, 0xF0, 0x18, 0xF1, 0x07]);
    vm.tick().unwrap();
    vm.tick().unwrap();
    vm.tick().unwrap();
    vm.tick().unwrap();
    assert_eq!(vm.get_dt(), 2);
    assert_eq!(vm.get_st(), 2);
    assert_eq!(vm.get_reg(1), 2);

    // Decrementing clamps at 0, however often it is called.
    for _ in 0..5 {
        vm.delay_timer();
        vm.sound_timer();
    }
    assert_eq!(vm.get_dt(), 0);
    assert_eq!(vm.get_st(), 0);
}

#[test]
fn random_opcode_masks() {
    // Cx00 masks the random byte with 0: the register must become 0.
    let mut vm = load(&[0x60, 0x55, 0xC0, 0x00]);
    vm.tick().unwrap();
    vm.tick().unwrap();
    assert_eq!(vm.get_reg(0), 0);

    // Cx0F keeps only the low nibble.
    let mut vm = load(&[0xC0, 0x0F]);
    vm.tick().unwrap();
    assert!(vm.get_reg(0) < 16);
}

#[test]
fn index_register_opcodes() {
    // Annn, then Fx1E adds a register into I.
    let mut vm = load(&[0xA1, 0x23, 0x60, 0x10, 0xF0, 0x1E]);
    vm.tick().unwrap();
    assert_eq!(vm.get_ireg(), 0x123);
    vm.tick().unwrap();
    vm.tick().unwrap();
    assert_eq!(vm.get_ireg(), 0x133);

    // Fx29 points I at the 5-byte glyph of the digit in the register.
    let mut vm = load(&[0x60, 0x0B, 0xF0, 0x29]);
    vm.tick().unwrap();
    vm.tick().unwrap();
    assert_eq!(vm.get_ireg(), 55);
}

#[test]
fn bcd_and_register_file_round_trip() {
    // reg0 = 217; store its digits at 0x300; then read three registers back.
    let mut vm = load(&[0x60, 0xD9, 0xA3, 0x00, 0xF0, 0x33, 0xF2, 0x65]);
    vm.tick().unwrap();
    vm.tick().unwrap();
    vm.tick().unwrap();
    assert_eq!(vm.get_mem(0x300), 2);
    assert_eq!(vm.get_mem(0x301), 1);
    assert_eq!(vm.get_mem(0x302), 7);
    vm.tick().unwrap();
    assert_eq!(vm.get_reg(0), 2);
    assert_eq!(vm.get_reg(1), 1);
    assert_eq!(vm.get_reg(2), 7);
}

#[test]
fn store_registers_to_memory() {
    let mut vm = load(&[0x60, 0x11, 0x61, 0x22, 0x62, 0x33, 0xA3, 0x00, 0xF1, 0x55]);
    for _ in 0..5 {
        vm.tick().unwrap();
    }
    assert_eq!(vm.get_mem(0x300), 0x11);
    assert_eq!(vm.get_mem(0x301), 0x22);
    // Only registers 0..=1 were stored.
    assert_eq!(vm.get_mem(0x302), 0x00);
}

#[test]
fn load_too_large_fails_without_mutation() {
    let mut vm = Vm::new();
    vm.load_bin(&[1, 2, 3]).unwrap();
    assert_eq!(vm.get_mem(0x200), 1);

    // One byte too many: rejected, and the machine is exactly as it was.
    let oversized = vec![0xAB; 3585];
    assert_eq!(vm.load_bin(&oversized), Err(LoadError::TooLarge));
    assert_eq!(vm.get_pc(), 0x200);
    assert_eq!(vm.get_mem(0x200), 1);
    assert_eq!(vm.get_mem(0x201), 2);
    assert_eq!(vm.get_mem(0x202), 3);

    // The largest image that fits is accepted and copied verbatim.
    let exact = vec![0xCD; 3584];
    assert_eq!(vm.load_bin(&exact), Ok(()));
    assert_eq!(vm.get_mem(0x200), 0xCD);
    assert_eq!(vm.get_mem(4095), 0xCD);
}

#[test]
fn reset_restores_initial_state() {
    let mut vm = load(&[0x60, 0x05, 0xA1, 0x23]);
    vm.tick().unwrap();
    vm.tick().unwrap();
    vm.set_kb(2, true);
    vm.reset();
    assert_eq!(vm.get_pc(), 0x200);
    assert_eq!(vm.get_reg(0), 0);
    assert_eq!(vm.get_ireg(), 0);
    assert_eq!(vm.get_mem(0x200), 0);
    assert_eq!(vm.get_mem(0), 0xF0);
}

#[test]
fn unknown_opcode_faults_without_mutation() {
    let mut vm = load(&[0x5F, 0xF1]);
    assert_eq!(vm.tick(), Err(Fault::UnknownOpcode(0x5FF1)));
    assert_eq!(vm.get_pc(), 0x200);

    let mut vm = load(&[0x00, 0xE1]);
    assert_eq!(vm.tick(), Err(Fault::UnknownOpcode(0x00E1)));
}

#[test]
fn stack_underflow_and_overflow_fault() {
    let mut vm = load(&[0x00, 0xEE]);
    assert_eq!(vm.tick(), Err(Fault::StackUnderflow));
    assert_eq!(vm.get_pc(), 0x200);

    // A subroutine that calls itself fills all 16 slots, then faults.
    let mut vm = load(&[0x22, 0x00]);
    for _ in 0..16 {
        vm.tick().unwrap();
    }
    assert_eq!(vm.get_sp(), 16);
    assert_eq!(vm.tick(), Err(Fault::StackOverflow));
    assert_eq!(vm.get_sp(), 16);
    assert_eq!(vm.get_pc(), 0x200);
}

#[test]
fn memory_faults() {
    // BCD with I = 0xFFF would write past the end of memory.
    let mut vm = load(&[0xAF, 0xFF, 0xF0, 0x33]);
    vm.tick().unwrap();
    assert_eq!(vm.tick(), Err(Fault::MemOutOfBounds));
    assert_eq!(vm.get_pc(), 0x202);

    // A draw whose sprite runs past the end of memory.
    let mut vm = load(&[0xAF, 0xFF, 0xD0, 0x05]);
    vm.tick().unwrap();
    assert_eq!(vm.tick(), Err(Fault::MemOutOfBounds));
}

#[test]
fn key_index_fault() {
    let mut vm = load(&[0x60, 0x10, 0xE0, 0x9E]);
    vm.tick().unwrap();
    assert_eq!(vm.tick(), Err(Fault::KeyOutOfRange));
}

#[test]
fn pc_runs_off_memory() {
    let mut vm = load(&[0x1F, 0xFF]);
    vm.tick().unwrap();
    assert_eq!(vm.get_pc(), 0xFFF);
    assert_eq!(vm.tick(), Err(Fault::PcOutOfBounds));
    assert_eq!(vm.get_pc(), 0xFFF);
}

#[test]
fn decode_covers_the_instruction_table() {
    assert_eq!(decode_exec(0x00E0), Some(Instr::Cls));
    assert_eq!(decode_exec(0x00EE), Some(Instr::Ret));
    assert_eq!(decode_exec(0x1234), Some(Instr::Jp(0x234)));
    assert_eq!(decode_exec(0x2345), Some(Instr::Call(0x345)));
    assert_eq!(decode_exec(0x3A7F), Some(Instr::SeByte(0xA, 0x7F)));
    assert_eq!(decode_exec(0x4A7F), Some(Instr::SneByte(0xA, 0x7F)));
    assert_eq!(decode_exec(0x5AB0), Some(Instr::SeReg(0xA, 0xB)));
    assert_eq!(decode_exec(0x6A7F), Some(Instr::LdByte(0xA, 0x7F)));
    assert_eq!(decode_exec(0x7A7F), Some(Instr::AddByte(0xA, 0x7F)));
    assert_eq!(decode_exec(0x8AB0), Some(Instr::LdReg(0xA, 0xB)));
    assert_eq!(decode_exec(0x8AB1), Some(Instr::Or(0xA, 0xB)));
    assert_eq!(decode_exec(0x8AB2), Some(Instr::And(0xA, 0xB)));
    assert_eq!(decode_exec(0x8AB3), Some(Instr::Xor(0xA, 0xB)));
    assert_eq!(decode_exec(0x8AB4), Some(Instr::AddReg(0xA, 0xB)));
    assert_eq!(decode_exec(0x8AB5), Some(Instr::Sub(0xA, 0xB)));
    assert_eq!(decode_exec(0x8AB6), Some(Instr::Shr(0xA)));
    assert_eq!(decode_exec(0x8AB7), Some(Instr::Subn(0xA, 0xB)));
    assert_eq!(decode_exec(0x8ABE), Some(Instr::Shl(0xA)));
    assert_eq!(decode_exec(0x9AB0), Some(Instr::SneReg(0xA, 0xB)));
    assert_eq!(decode_exec(0xA123), Some(Instr::LdI(0x123)));
    assert_eq!(decode_exec(0xB123), Some(Instr::JpV0(0x123)));
    assert_eq!(decode_exec(0xCA55), Some(Instr::Rnd(0xA, 0x55)));
    assert_eq!(decode_exec(0xDAB5), Some(Instr::Drw(0xA, 0xB, 5)));
    assert_eq!(decode_exec(0xEA9E), Some(Instr::Skp(0xA)));
    assert_eq!(decode_exec(0xEAA1), Some(Instr::Sknp(0xA)));
    assert_eq!(decode_exec(0xFA07), Some(Instr::LdRegDt(0xA)));
    assert_eq!(decode_exec(0xFA0A), Some(Instr::LdKey(0xA)));
    assert_eq!(decode_exec(0xFA15), Some(Instr::LdDtReg(0xA)));
    assert_eq!(decode_exec(0xFA18), Some(Instr::LdStReg(0xA)));
    assert_eq!(decode_exec(0xFA1E), Some(Instr::AddI(0xA)));
    assert_eq!(decode_exec(0xFA29), Some(Instr::LdFont(0xA)));
    assert_eq!(decode_exec(0xFA33), Some(Instr::LdBcd(0xA)));
    assert_eq!(decode_exec(0xFA55), Some(Instr::StoreRegs(0xA)));
    assert_eq!(decode_exec(0xFA65), Some(Instr::LoadRegs(0xA)));
    // Holes in the table are rejected.
    assert_eq!(decode_exec(0x0000), None);
    assert_eq!(decode_exec(0x5AB1), None);
    assert_eq!(decode_exec(0x8AB8), None);
    assert_eq!(decode_exec(0x9AB1), None);
    assert_eq!(decode_exec(0xEA00), None);
    assert_eq!(decode_exec(0xFAFF), None);
}

#[test]
fn register_move_and_dead_skip() {
    // 8xy0 copies, and an unequal 3xkk does not skip.
    let mut vm = load(&[0x61, 0x2A, 0x80, 0x10, 0x30, 0x00]);
    vm.tick().unwrap();
    vm.tick().unwrap();
    assert_eq!(vm.get_reg(0), 0x2A);
    vm.tick().unwrap();
    assert_eq!(vm.get_pc(), 0x206);
}
