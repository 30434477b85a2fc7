//! Tests of the opcode semantics, driven through `execute`.
use chip_8_core::{Emu, EmuError};

#[test]
fn add_with_carry_sets_vf_on_overflow() {
    let mut emu = Emu::new();
    emu.execute(0x61C8).unwrap(); // V1 = 200
    emu.execute(0x6264).unwrap(); // V2 = 100
    emu.execute(0x8124).unwrap(); // V1 += V2
    assert_eq!(emu.vreg(1), 44); // (200 + 100) % 256
    assert_eq!(emu.vreg(0xF), 1);
}

#[test]
fn add_without_carry_clears_vf() {
    let mut emu = Emu::new();
    emu.execute(0x6105).unwrap(); // V1 = 5
    emu.execute(0x620A).unwrap(); // V2 = 10
    emu.execute(0x8124).unwrap(); // V1 += V2
    assert_eq!(emu.vreg(1), 15);
    assert_eq!(emu.vreg(0xF), 0);
}

#[test]
fn sub_without_borrow_sets_vf() {
    let mut emu = Emu::new();
    emu.execute(0x610A).unwrap(); // V1 = 10
    emu.execute(0x6203).unwrap(); // V2 = 3
    emu.execute(0x8125).unwrap(); // V1 -= V2
    assert_eq!(emu.vreg(1), 7);
    assert_eq!(emu.vreg(0xF), 1);
}

#[test]
fn sub_with_borrow_clears_vf() {
    let mut emu = Emu::new();
    emu.execute(0x6103).unwrap(); // V1 = 3
    emu.execute(0x620A).unwrap(); // V2 = 10
    emu.execute(0x8125).unwrap(); // V1 -= V2
    assert_eq!(emu.vreg(1), 249); // (3 - 10) mod 256
    assert_eq!(emu.vreg(0xF), 0);
}

#[test]
fn rsb_vy_minus_vx() {
    let mut emu = Emu::new();
    emu.execute(0x6103).unwrap(); // V1 = 3
    emu.execute(0x620A).unwrap(); // V2 = 10
    emu.execute(0x8127).unwrap(); // V1 = V2 - V1
    assert_eq!(emu.vreg(1), 7);
    assert_eq!(emu.vreg(0xF), 1);
}

#[test]
fn bit_ops() {
    let mut emu = Emu::new();
    emu.execute(0x610C).unwrap(); // V1 = 0b1100
    emu.execute(0x620A).unwrap(); // V2 = 0b1010
    emu.execute(0x8121).unwrap(); // V1 |= V2
    assert_eq!(emu.vreg(1), 0b1110);
    emu.execute(0x610C).unwrap();
    emu.execute(0x8122).unwrap(); // V1 &= V2
    assert_eq!(emu.vreg(1), 0b1000);
    emu.execute(0x610C).unwrap();
    emu.execute(0x8123).unwrap(); // V1 ^= V2
    assert_eq!(emu.vreg(1), 0b0110);
}

#[test]
fn right_shift_reports_dropped_bit() {
    let mut emu = Emu::new();
    emu.execute(0x6105).unwrap(); // V1 = 5
    emu.execute(0x8106).unwrap(); // V1 >>= 1
    assert_eq!(emu.vreg(1), 2);
    assert_eq!(emu.vreg(0xF), 1);
}

#[test]
fn left_shift_reports_dropped_bit() {
    let mut emu = Emu::new();
    emu.execute(0x6181).unwrap(); // V1 = 0x81
    emu.execute(0x810E).unwrap(); // V1 <<= 1
    assert_eq!(emu.vreg(1), 0x02);
    assert_eq!(emu.vreg(0xF), 1);
}

#[test]
fn add_immediate_wraps_without_flag() {
    let mut emu = Emu::new();
    emu.execute(0x60FA).unwrap(); // V0 = 250
    emu.execute(0x6F63).unwrap(); // VF = 99, to see it untouched
    emu.execute(0x700A).unwrap(); // V0 += 10
    assert_eq!(emu.vreg(0), 4);
    assert_eq!(emu.vreg(0xF), 99);
}

#[test]
fn skips_compare_register_and_immediate() {
    let mut emu = Emu::new();
    emu.execute(0x6105).unwrap(); // V1 = 5
    let pc = emu.pc();
    emu.execute(0x3105).unwrap(); // skip, V1 == 5
    assert_eq!(emu.pc(), pc + 2);
    emu.execute(0x3106).unwrap(); // no skip, V1 != 6
    assert_eq!(emu.pc(), pc + 2);
    emu.execute(0x4106).unwrap(); // skip, V1 != 6
    assert_eq!(emu.pc(), pc + 4);
    emu.execute(0x4105).unwrap(); // no skip
    assert_eq!(emu.pc(), pc + 4);
}

#[test]
fn skips_compare_two_registers() {
    let mut emu = Emu::new();
    emu.execute(0x6107).unwrap(); // V1 = 7
    emu.execute(0x6207).unwrap(); // V2 = 7
    emu.execute(0x6309).unwrap(); // V3 = 9
    let pc = emu.pc();
    emu.execute(0x5120).unwrap(); // skip, V1 == V2
    assert_eq!(emu.pc(), pc + 2);
    emu.execute(0x5130).unwrap(); // no skip, V1 != V3
    assert_eq!(emu.pc(), pc + 2);
    emu.execute(0x9130).unwrap(); // skip, V1 != V3
    assert_eq!(emu.pc(), pc + 4);
}

#[test]
fn jumps_set_program_counter() {
    let mut emu = Emu::new();
    emu.execute(0x1ABC).unwrap();
    assert_eq!(emu.pc(), 0xABC);
    emu.execute(0x6005).unwrap(); // V0 = 5
    emu.execute(0xB300).unwrap(); // jump to V0 + 0x300
    assert_eq!(emu.pc(), 0x305);
}

#[test]
fn stack_round_trip_restores_pc() {
    let mut emu = Emu::new();
    let pc = emu.pc();
    emu.execute(0x2ABC).unwrap(); // call
    assert_eq!(emu.pc(), 0xABC);
    assert_eq!(emu.stack_depth(), 1);
    emu.execute(0x00EE).unwrap(); // return
    assert_eq!(emu.pc(), pc);
    assert_eq!(emu.stack_depth(), 0);
}

#[test]
fn return_on_empty_stack_underflows() {
    let mut emu = Emu::new();
    let pc = emu.pc();
    assert_eq!(emu.execute(0x00EE), Err(EmuError::StackUnderflow));
    assert_eq!(emu.pc(), pc);
    assert_eq!(emu.stack_depth(), 0);
}

#[test]
fn bcd_of_234() {
    let mut emu = Emu::new();
    emu.execute(0x65EA).unwrap(); // V5 = 234
    emu.execute(0xA300).unwrap(); // I = 0x300
    emu.execute(0xF533).unwrap(); // BCD of V5 at I
    assert_eq!(emu.ram[0x300], 2);
    assert_eq!(emu.ram[0x301], 3);
    assert_eq!(emu.ram[0x302], 4);
}

#[test]
fn bcd_near_end_of_memory_is_rejected() {
    let mut emu = Emu::new();
    emu.execute(0x65EA).unwrap(); // V5 = 234
    emu.execute(0xAFFF).unwrap(); // I = 0xFFF
    assert_eq!(emu.execute(0xF533), Err(EmuError::OutOfMemory));
    assert_eq!(emu.ram[0xFFF], 0);
}

#[test]
fn font_address_of_digit_a() {
    let mut emu = Emu::new();
    emu.execute(0x600A).unwrap(); // V0 = 0xA
    emu.execute(0xF029).unwrap(); // I = glyph address of V0
    assert_eq!(emu.ireg, 0x32); // 10 * 5
}

#[test]
fn index_register_instructions() {
    let mut emu = Emu::new();
    emu.execute(0xA123).unwrap();
    assert_eq!(emu.ireg, 0x123);
    emu.execute(0x6005).unwrap(); // V0 = 5
    emu.execute(0xF01E).unwrap(); // I += V0
    assert_eq!(emu.ireg, 0x128);
}

#[test]
fn timer_transfer_instructions() {
    let mut emu = Emu::new();
    emu.execute(0x6030).unwrap(); // V0 = 0x30
    emu.execute(0xF015).unwrap(); // delay timer = V0
    emu.execute(0xF018).unwrap(); // sound timer = V0
    assert_eq!(emu.delay_timer(), 0x30);
    assert_eq!(emu.sound_timer(), 0x30);
    emu.execute(0xF107).unwrap(); // V1 = delay timer
    assert_eq!(emu.vreg(1), 0x30);
}

#[test]
fn store_and_load_registers() {
    let mut emu = Emu::new();
    emu.execute(0x600A).unwrap(); // V0 = 10
    emu.execute(0x6114).unwrap(); // V1 = 20
    emu.execute(0x621E).unwrap(); // V2 = 30
    emu.execute(0xA400).unwrap(); // I = 0x400
    emu.execute(0xF255).unwrap(); // store V0..V2 at I
    assert_eq!(emu.ram[0x400], 10);
    assert_eq!(emu.ram[0x401], 20);
    assert_eq!(emu.ram[0x402], 30);
    assert_eq!(emu.ram[0x403], 0);
    emu.execute(0x6000).unwrap();
    emu.execute(0x6100).unwrap();
    emu.execute(0x6200).unwrap();
    emu.execute(0xF265).unwrap(); // load V0..V2 from I
    assert_eq!(emu.vreg(0), 10);
    assert_eq!(emu.vreg(1), 20);
    assert_eq!(emu.vreg(2), 30);
}

#[test]
fn store_registers_near_end_of_memory_is_rejected() {
    let mut emu = Emu::new();
    emu.execute(0xAFFE).unwrap(); // I = 0xFFE
    assert_eq!(emu.execute(0xF255), Err(EmuError::OutOfMemory));
}

#[test]
fn random_byte_is_masked() {
    let mut emu = Emu::new();
    emu.execute(0x6177).unwrap(); // V1 = 0x77, then overwritten
    emu.execute(0xC100).unwrap(); // V1 = random & 0x00
    assert_eq!(emu.vreg(1), 0);
    emu.execute(0xC20F).unwrap(); // V2 = random & 0x0F
    assert!(emu.vreg(2) <= 0x0F);
}

#[test]
fn unknown_opcode_reports_word_and_fields() {
    let mut emu = Emu::new();
    let pc = emu.pc();
    let r = emu.execute(0xFFFF);
    assert_eq!(
        r,
        Err(EmuError::UnknownOpcode { op: 0xFFFF, d1: 0xF, d2: 0xF, d3: 0xF, d4: 0xF })
    );
    assert_eq!(emu.pc(), pc);
    for i in 0..16 {
        assert_eq!(emu.vreg(i), 0);
    }
    assert_eq!(emu.stack_depth(), 0);
}

#[test]
fn unknown_opcode_in_undefined_groups() {
    let mut emu = Emu::new();
    assert!(matches!(
        emu.execute(0x5121),
        Err(EmuError::UnknownOpcode { op: 0x5121, .. })
    ));
    assert!(matches!(
        emu.execute(0x0123),
        Err(EmuError::UnknownOpcode { op: 0x0123, .. })
    ));
    assert!(matches!(
        emu.execute(0x8008),
        Err(EmuError::UnknownOpcode { op: 0x8008, .. })
    ));
}

#[test]
fn key_skips_test_the_key_in_vx() {
    let mut emu = Emu::new();
    emu.execute(0x6107).unwrap(); // V1 = 7
    emu.set_key(7, true).unwrap();
    let pc = emu.pc();
    emu.execute(0xE19E).unwrap(); // skip, key 7 pressed
    assert_eq!(emu.pc(), pc + 2);
    emu.execute(0xE1A1).unwrap(); // no skip
    assert_eq!(emu.pc(), pc + 2);
    emu.set_key(7, false).unwrap();
    emu.execute(0xE19E).unwrap(); // no skip
    assert_eq!(emu.pc(), pc + 2);
    emu.execute(0xE1A1).unwrap(); // skip
    assert_eq!(emu.pc(), pc + 4);
}

#[test]
fn key_skip_with_register_above_15_is_invalid() {
    let mut emu = Emu::new();
    emu.execute(0x6110).unwrap(); // V1 = 16
    assert_eq!(emu.execute(0xE19E), Err(EmuError::InvalidKey));
    assert_eq!(emu.execute(0xE1A1), Err(EmuError::InvalidKey));
}
