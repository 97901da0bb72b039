//! Tests of the instruction set, one scenario per behaviour of the table.

use chip8::instr::{decode_opcode, dump_opcodes, Instr};
use chip8::state::{Chip8Error, ChipKey, CPU};

fn booted(rom: &[u8]) -> CPU {
    let mut cpu = CPU::new();
    cpu.initialize();
    cpu.load_program(&rom.to_vec()).expect("ROM fits");
    cpu
}

fn run(cpu: &mut CPU, cycles: usize) {
    for _ in 0..cycles {
        cpu.emulate_cycle().expect("cycle succeeds");
    }
}

#[test]
fn set_then_add_immediate_wraps_and_keeps_flag() {
    // 62C8: V2 = 200; 72C8: V2 += 200, wrapping, no flag.
    let mut cpu = booted(&[0x62, 0xC8, 0x72, 0xC8]);
    run(&mut cpu, 2);
    assert_eq!(cpu.reg(2), 144); // (200 + 200) mod 256
    assert_eq!(cpu.flag(), 0);
    assert_eq!(cpu.pc, 0x204);
}

#[test]
fn set_then_add_immediate_targeting_the_flag_register() {
    // With X = 0xF the target register is VF itself, so the pair leaves
    // VF = NN + NN rather than an untouched flag.
    let mut cpu = booted(&[0x6F, 0x05, 0x7F, 0x05]);
    run(&mut cpu, 2);
    assert_eq!(cpu.flag(), 10);
}

#[test]
fn add_registers_detects_overflow() {
    // V0 = 0xFF, V1 = 0x01, 8014: V0 += V1.
    let mut cpu = booted(&[0x60, 0xFF, 0x61, 0x01, 0x80, 0x14]);
    run(&mut cpu, 3);
    assert_eq!(cpu.reg(0), 0x00);
    assert_eq!(cpu.flag(), 1);
}

#[test]
fn add_registers_without_overflow_clears_flag() {
    let mut cpu = booted(&[0x60, 0x20, 0x61, 0x22, 0x80, 0x14]);
    run(&mut cpu, 3);
    assert_eq!(cpu.reg(0), 0x42);
    assert_eq!(cpu.flag(), 0);
}

#[test]
fn sub_registers_reports_borrow() {
    // V0 = 0x01, V1 = 0x02, 8015: V0 -= V1 borrows.
    let mut cpu = booted(&[0x60, 0x01, 0x61, 0x02, 0x80, 0x15]);
    run(&mut cpu, 3);
    assert_eq!(cpu.reg(0), 0xFF);
    assert_eq!(cpu.flag(), 0);
}

#[test]
fn sub_registers_without_borrow_sets_flag() {
    let mut cpu = booted(&[0x60, 0x05, 0x61, 0x02, 0x80, 0x15]);
    run(&mut cpu, 3);
    assert_eq!(cpu.reg(0), 0x03);
    assert_eq!(cpu.flag(), 1);
}

#[test]
fn sub_from_reverses_the_operands() {
    // 8017: V0 = V1 - V0.
    let mut cpu = booted(&[0x60, 0x01, 0x61, 0x05, 0x80, 0x17]);
    run(&mut cpu, 3);
    assert_eq!(cpu.reg(0), 0x04);
    assert_eq!(cpu.flag(), 1);
    let mut cpu = booted(&[0x60, 0x05, 0x61, 0x01, 0x80, 0x17]);
    run(&mut cpu, 3);
    assert_eq!(cpu.reg(0), 0xFC);
    assert_eq!(cpu.flag(), 0);
}

#[test]
fn copy_and_bitwise_ops() {
    // V0 = 0x5A, V1 = 0x0F: 8210 copies, then or/and/xor into V3..V5.
    let mut cpu = booted(&[
        0x60, 0x5A, // V0 = 0x5A
        0x61, 0x0F, // V1 = 0x0F
        0x82, 0x00, // V2 = V0
        0x83, 0x00, 0x83, 0x11, // V3 = V0 | V1
        0x84, 0x00, 0x84, 0x12, // V4 = V0 & V1
        0x85, 0x00, 0x85, 0x13, // V5 = V0 ^ V1
    ]);
    run(&mut cpu, 9);
    assert_eq!(cpu.reg(2), 0x5A);
    assert_eq!(cpu.reg(3), 0x5A | 0x0F);
    assert_eq!(cpu.reg(4), 0x5A & 0x0F);
    assert_eq!(cpu.reg(5), 0x5A ^ 0x0F);
}

#[test]
fn shifts_expose_the_shifted_bit() {
    // 8106: V1 >>= 1 with VF = old low bit.
    let mut cpu = booted(&[0x61, 0x05, 0x81, 0x06]);
    run(&mut cpu, 2);
    assert_eq!(cpu.reg(1), 0x02);
    assert_eq!(cpu.flag(), 1);
    // 810E: V1 <<= 1 with VF = old high bit.
    let mut cpu = booted(&[0x61, 0x81, 0x81, 0x0E]);
    run(&mut cpu, 2);
    assert_eq!(cpu.reg(1), 0x02);
    assert_eq!(cpu.flag(), 1);
}

#[test]
fn skip_instructions_take_the_right_branch() {
    // 3XNN skips when equal.
    let mut cpu = booted(&[0x60, 0x07, 0x30, 0x07]);
    run(&mut cpu, 2);
    assert_eq!(cpu.pc, 0x206);
    // 3XNN falls through when not equal.
    let mut cpu = booted(&[0x60, 0x07, 0x30, 0x08]);
    run(&mut cpu, 2);
    assert_eq!(cpu.pc, 0x204);
    // 4XNN skips when not equal.
    let mut cpu = booted(&[0x60, 0x07, 0x40, 0x08]);
    run(&mut cpu, 2);
    assert_eq!(cpu.pc, 0x206);
    // 5XY0 skips when registers match.
    let mut cpu = booted(&[0x60, 0x07, 0x61, 0x07, 0x50, 0x10]);
    run(&mut cpu, 3);
    assert_eq!(cpu.pc, 0x208);
    // 9XY0 skips when registers differ.
    let mut cpu = booted(&[0x60, 0x07, 0x61, 0x08, 0x90, 0x10]);
    run(&mut cpu, 3);
    assert_eq!(cpu.pc, 0x208);
}

#[test]
fn jump_and_jump_plus_v0() {
    let mut cpu = booted(&[0x12, 0x06]);
    run(&mut cpu, 1);
    assert_eq!(cpu.pc, 0x206);
    // B204 with V0 = 4 jumps to 0x208.
    let mut cpu = booted(&[0x60, 0x04, 0xB2, 0x04]);
    run(&mut cpu, 2);
    assert_eq!(cpu.pc, 0x208);
}

#[test]
fn call_and_return_round_trip() {
    // 2206 calls a subroutine holding 00EE; the return lands after the call.
    let mut cpu = booted(&[0x22, 0x06, 0x00, 0x00, 0x00, 0x00, 0x00, 0xEE]);
    run(&mut cpu, 1);
    assert_eq!(cpu.pc, 0x206);
    assert_eq!(cpu.stack, vec![0x202]);
    run(&mut cpu, 1);
    assert_eq!(cpu.pc, 0x202);
    assert!(cpu.stack.is_empty());
}

#[test]
fn return_with_empty_stack_is_fatal() {
    let mut cpu = booted(&[0x00, 0xEE]);
    assert_eq!(cpu.emulate_cycle(), Err(Chip8Error::StackUnderflow));
    assert_eq!(cpu.pc, 0x200);
}

#[test]
fn seventeenth_nested_call_overflows_the_stack() {
    // 2200 calls address 0x200 over and over: each cycle pushes once.
    let mut cpu = booted(&[0x22, 0x00]);
    for _ in 0..16 {
        cpu.emulate_cycle().expect("room on the stack");
    }
    assert_eq!(cpu.stack.len(), 16);
    assert_eq!(cpu.emulate_cycle(), Err(Chip8Error::StackOverflow));
}

#[test]
fn set_index_and_add_index() {
    let mut cpu = booted(&[0xA1, 0x23, 0x60, 0x02, 0xF0, 0x1E]);
    run(&mut cpu, 3);
    assert_eq!(cpu.i, 0x125);
}

#[test]
fn random_masked_with_zero_is_zero() {
    // C300: whatever byte the generator hands back, the mask forces 0.
    let mut cpu = booted(&[0x63, 0xFF, 0xC3, 0x00]);
    run(&mut cpu, 2);
    assert_eq!(cpu.reg(3), 0);
}

#[test]
fn random_stays_within_its_mask() {
    let mut cpu = booted(&[0xC3, 0x0F]);
    run(&mut cpu, 1);
    assert!(cpu.reg(3) <= 0x0F);
}

#[test]
fn font_address_uses_low_nibble_of_register() {
    // V4 = 0xA7: the glyph address is for digit 7.
    let mut cpu = booted(&[0x64, 0xA7, 0xF4, 0x29]);
    run(&mut cpu, 2);
    assert_eq!(cpu.i, 0x50 + 5 * 7);
}

#[test]
fn bcd_splits_decimal_digits() {
    let mut cpu = booted(&[0x66, 0xFE, 0xA3, 0x00, 0xF6, 0x33]);
    run(&mut cpu, 3);
    // V6 = 254.
    assert_eq!(&cpu.memory[0x300..0x303], &[2, 5, 4]);
}

#[test]
fn bcd_past_end_of_memory_is_fatal() {
    let mut cpu = booted(&[0xAF, 0xFE, 0xF0, 0x33]);
    run(&mut cpu, 1);
    assert_eq!(cpu.emulate_cycle(), Err(Chip8Error::MemoryOutOfBounds));
}

#[test]
fn store_then_load_registers_round_trips() {
    let mut cpu = booted(&[
        0x60, 0x11, // V0
        0x61, 0x22, // V1
        0x62, 0x33, // V2
        0x63, 0x44, // V3
        0xA3, 0x00, // I = 0x300
        0xF3, 0x55, // store V0..V3
        0x60, 0x00, 0x61, 0x00, 0x62, 0x00, 0x63, 0x00, // zero the registers
        0xF3, 0x65, // load V0..V3 back
    ]);
    run(&mut cpu, 6);
    assert_eq!(&cpu.memory[0x300..0x304], &[0x11, 0x22, 0x33, 0x44]);
    run(&mut cpu, 4);
    assert_eq!([cpu.reg(0), cpu.reg(1), cpu.reg(2), cpu.reg(3)], [0, 0, 0, 0]);
    run(&mut cpu, 1);
    assert_eq!(
        [cpu.reg(0), cpu.reg(1), cpu.reg(2), cpu.reg(3)],
        [0x11, 0x22, 0x33, 0x44]
    );
}

#[test]
fn store_registers_past_end_of_memory_is_fatal() {
    let mut cpu = booted(&[0xAF, 0xFE, 0xF3, 0x55]);
    run(&mut cpu, 1);
    assert_eq!(cpu.emulate_cycle(), Err(Chip8Error::MemoryOutOfBounds));
}

#[test]
fn fetch_past_end_of_memory_is_fatal() {
    let mut cpu = booted(&[0x1F, 0xFF]);
    run(&mut cpu, 1);
    assert_eq!(cpu.pc, 0xFFF);
    assert_eq!(cpu.emulate_cycle(), Err(Chip8Error::MemoryOutOfBounds));
}

#[test]
fn unknown_opcode_is_a_fatal_decode_error() {
    // 0x0123 — the literal 0NNN "call machine code" form — matches no
    // defined pattern and must not be silently ignored.
    let mut cpu = booted(&[0x01, 0x23]);
    assert_eq!(
        cpu.emulate_cycle(),
        Err(Chip8Error::UnknownOpcode { opcode: 0x0123 })
    );
    assert_eq!(cpu.pc, 0x200);
}

#[test]
fn other_undefined_patterns_are_fatal_too() {
    for rom in [
        [0x00u8, 0x00], // 0000
        [0x50, 0x11],   // 5XY1
        [0x80, 0x18],   // 8XY8
        [0x90, 0x13],   // 9XY3
        [0xE0, 0x9F],   // EX9F
        [0xF0, 0x66],   // FX66
    ] {
        let mut cpu = booted(&rom);
        let opcode = u16::from_be_bytes(rom);
        assert_eq!(
            cpu.emulate_cycle(),
            Err(Chip8Error::UnknownOpcode { opcode }),
            "opcode {opcode:#06x} must be fatal"
        );
    }
}

#[test]
fn skip_if_key_reads_the_latch() {
    // E19E with V1 = 5 skips only while key 5 is down.
    let mut cpu = booted(&[0x61, 0x05, 0xE1, 0x9E]);
    cpu.handle_key_event(ChipKey::K5, true);
    run(&mut cpu, 2);
    assert_eq!(cpu.pc, 0x206);
    let mut cpu = booted(&[0x61, 0x05, 0xE1, 0x9E]);
    run(&mut cpu, 2);
    assert_eq!(cpu.pc, 0x204);
    // E1A1 skips while the key is up.
    let mut cpu = booted(&[0x61, 0x05, 0xE1, 0xA1]);
    run(&mut cpu, 2);
    assert_eq!(cpu.pc, 0x206);
}

#[test]
fn wait_for_key_suspends_until_a_press() {
    // F30A: wait for a key into V3.
    let mut cpu = booted(&[0xF3, 0x0A, 0x00, 0xE0]);
    run(&mut cpu, 1);
    assert!(cpu.is_waiting());
    let pc = cpu.pc;
    // Repeated cycles are no-ops while waiting.
    for _ in 0..5 {
        cpu.emulate_cycle().unwrap();
        assert_eq!(cpu.pc, pc);
        assert!(cpu.is_waiting());
    }
    // A release does not resolve the wait...
    cpu.handle_key_event(ChipKey::KB, false);
    assert!(cpu.is_waiting());
    // ...a press does: the key value lands in V3 and stepping resumes.
    cpu.handle_key_event(ChipKey::KB, true);
    assert!(!cpu.is_waiting());
    assert_eq!(cpu.reg(3), 0xB);
    cpu.emulate_cycle().unwrap();
    assert_eq!(cpu.pc, pc + 2);
    assert!(cpu.draw_flag);
}

#[test]
fn decode_classifies_each_family() {
    assert_eq!(decode_opcode(0x00E0), Some(Instr::ClearScreen));
    assert_eq!(decode_opcode(0x00EE), Some(Instr::Return));
    assert_eq!(decode_opcode(0x1ABC), Some(Instr::Jump { nnn: 0xABC }));
    assert_eq!(decode_opcode(0x2ABC), Some(Instr::CallSub { nnn: 0xABC }));
    assert_eq!(decode_opcode(0x3A7F), Some(Instr::SkipEqImm { x: 0xA, nn: 0x7F }));
    assert_eq!(decode_opcode(0x4A7F), Some(Instr::SkipNeImm { x: 0xA, nn: 0x7F }));
    assert_eq!(decode_opcode(0x5AB0), Some(Instr::SkipEqReg { x: 0xA, y: 0xB }));
    assert_eq!(decode_opcode(0x6A7F), Some(Instr::SetImm { x: 0xA, nn: 0x7F }));
    assert_eq!(decode_opcode(0x7A7F), Some(Instr::AddImm { x: 0xA, nn: 0x7F }));
    assert_eq!(decode_opcode(0x8AB0), Some(Instr::Copy { x: 0xA, y: 0xB }));
    assert_eq!(decode_opcode(0x8AB1), Some(Instr::BitOr { x: 0xA, y: 0xB }));
    assert_eq!(decode_opcode(0x8AB2), Some(Instr::BitAnd { x: 0xA, y: 0xB }));
    assert_eq!(decode_opcode(0x8AB3), Some(Instr::BitXor { x: 0xA, y: 0xB }));
    assert_eq!(decode_opcode(0x8AB4), Some(Instr::AddReg { x: 0xA, y: 0xB }));
    assert_eq!(decode_opcode(0x8AB5), Some(Instr::SubReg { x: 0xA, y: 0xB }));
    assert_eq!(decode_opcode(0x8AB6), Some(Instr::ShiftRight { x: 0xA }));
    assert_eq!(decode_opcode(0x8AB7), Some(Instr::SubFrom { x: 0xA, y: 0xB }));
    assert_eq!(decode_opcode(0x8ABE), Some(Instr::ShiftLeft { x: 0xA }));
    assert_eq!(decode_opcode(0x9AB0), Some(Instr::SkipNeReg { x: 0xA, y: 0xB }));
    assert_eq!(decode_opcode(0xAABC), Some(Instr::SetIndex { nnn: 0xABC }));
    assert_eq!(decode_opcode(0xBABC), Some(Instr::JumpPlusV0 { nnn: 0xABC }));
    assert_eq!(decode_opcode(0xCA7F), Some(Instr::Random { x: 0xA, nn: 0x7F }));
    assert_eq!(decode_opcode(0xDAB7), Some(Instr::DrawSprite { x: 0xA, y: 0xB, n: 7 }));
    assert_eq!(decode_opcode(0xEA9E), Some(Instr::SkipIfKey { x: 0xA }));
    assert_eq!(decode_opcode(0xEAA1), Some(Instr::SkipIfNotKey { x: 0xA }));
    assert_eq!(decode_opcode(0xFA07), Some(Instr::ReadDelay { x: 0xA }));
    assert_eq!(decode_opcode(0xFA0A), Some(Instr::WaitKey { x: 0xA }));
    assert_eq!(decode_opcode(0xFA15), Some(Instr::SetDelay { x: 0xA }));
    assert_eq!(decode_opcode(0xFA18), Some(Instr::SetSound { x: 0xA }));
    assert_eq!(decode_opcode(0xFA1E), Some(Instr::AddIndex { x: 0xA }));
    assert_eq!(decode_opcode(0xFA29), Some(Instr::FontAddr { x: 0xA }));
    assert_eq!(decode_opcode(0xFA33), Some(Instr::StoreBcd { x: 0xA }));
    assert_eq!(decode_opcode(0xFA55), Some(Instr::StoreRegs { x: 0xA }));
    assert_eq!(decode_opcode(0xFA65), Some(Instr::LoadRegs { x: 0xA }));
    assert_eq!(decode_opcode(0x0123), None);
    assert_eq!(decode_opcode(0x5AB1), None);
    assert_eq!(decode_opcode(0x8AB8), None);
    assert_eq!(decode_opcode(0xEAFF), None);
    assert_eq!(decode_opcode(0xFAFF), None);
}

#[test]
fn dump_opcodes_lists_program_memory() {
    let cpu = booted(&[0x6A, 0x07, 0x01, 0x23]);
    let listing = dump_opcodes(&cpu);
    assert_eq!(listing.len(), (4096 - 0x200) / 2);
    assert_eq!(listing[0], Some(Instr::SetImm { x: 0xA, nn: 0x07 }));
    assert_eq!(listing[1], None); // 0x0123 matches no pattern
    assert_eq!(listing[2], None); // empty memory decodes to nothing
}
