//! Tests of the machine lifecycle, the cycle, the draw instruction, the
//! timers and the coordinate helpers.
use chip_8_core::{decode, encode, reconstruct_op, Emu, EmuError, SCREEN_HEIGHT, SCREEN_WIDTH};

#[test]
fn new_machine_has_font_and_cleared_state() {
    let emu = Emu::new();
    assert_eq!(emu.pc(), 0x200);
    assert_eq!(emu.ireg, 0);
    assert_eq!(emu.delay_timer(), 0);
    assert_eq!(emu.sound_timer(), 0);
    assert_eq!(emu.stack_depth(), 0);
    assert_eq!(emu.ram.len(), 4096);
    assert_eq!(emu.screen.len(), SCREEN_WIDTH * SCREEN_HEIGHT);
    // The first glyph (digit 0) and the last (digit F).
    assert_eq!(&emu.ram[0..5], &[0xF0, 0x90, 0x90, 0x90, 0xF0]);
    assert_eq!(&emu.ram[75..80], &[0xF0, 0x80, 0xF0, 0x80, 0x80]);
    assert!(emu.ram[80..].iter().all(|&b| b == 0));
    assert!(emu.screen.iter().all(|&p| !p));
    for i in 0..16 {
        assert_eq!(emu.vreg(i), 0);
    }
}

#[test]
fn load_rom_copies_at_load_address() {
    let mut emu = Emu::new();
    let rom = vec![0x60, 0x2A, 0x12, 0x00];
    emu.load_rom(&rom).unwrap();
    assert_eq!(&emu.ram[0x200..0x204], &[0x60, 0x2A, 0x12, 0x00]);
    assert_eq!(emu.ram[0x204], 0);
    assert_eq!(&emu.ram[0..5], &[0xF0, 0x90, 0x90, 0x90, 0xF0]);
}

#[test]
fn load_rom_too_large_is_rejected_whole() {
    let mut emu = Emu::new();
    let rom = vec![0xAB; 4096 - 0x200 + 1];
    assert_eq!(emu.load_rom(&rom), Err(EmuError::OutOfMemory));
    assert!(emu.ram[0x200..].iter().all(|&b| b == 0));
    let rom = vec![0xAB; 4096 - 0x200];
    assert_eq!(emu.load_rom(&rom), Ok(()));
    assert_eq!(emu.ram[4095], 0xAB);
}

#[test]
fn tick_fetches_big_endian_and_advances() {
    let mut emu = Emu::new();
    emu.load_rom(&vec![0x60, 0x2A]).unwrap(); // V0 = 0x2A
    emu.tick().unwrap();
    assert_eq!(emu.vreg(0), 0x2A);
    assert_eq!(emu.pc(), 0x202);
}

#[test]
fn tick_on_unknown_opcode_leaves_machine_unchanged() {
    let mut emu = Emu::new();
    emu.load_rom(&vec![0xFF, 0xFF]).unwrap();
    let r = emu.tick();
    assert_eq!(
        r,
        Err(EmuError::UnknownOpcode { op: 0xFFFF, d1: 0xF, d2: 0xF, d3: 0xF, d4: 0xF })
    );
    assert_eq!(emu.pc(), 0x200);
}

#[test]
fn tick_with_pc_past_end_of_memory_is_rejected() {
    let mut emu = Emu::new();
    emu.execute(0x1FFF).unwrap(); // jump to 0xFFF
    assert_eq!(emu.tick(), Err(EmuError::OutOfMemory));
    assert_eq!(emu.pc(), 0xFFF);
}

#[test]
fn fetch_op_combines_and_advances() {
    let mut emu = Emu::new();
    emu.load_rom(&vec![0xAB, 0xCD]).unwrap();
    let op = emu.fetch_op();
    assert_eq!(op, 0xABCD);
    assert_eq!(emu.pc(), 0x202);
}

#[test]
fn reset_restores_initial_state() {
    let mut emu = Emu::new();
    emu.load_rom(&vec![0x60, 0x2A]).unwrap();
    emu.tick().unwrap();
    emu.execute(0x2ABC).unwrap();
    emu.execute(0xF015).unwrap();
    emu.set_key(3, true).unwrap();
    emu.reset();
    assert_eq!(emu.pc(), 0x200);
    assert_eq!(emu.stack_depth(), 0);
    assert_eq!(emu.delay_timer(), 0);
    assert_eq!(emu.vreg(0), 0);
    assert!(emu.ram[80..].iter().all(|&b| b == 0));
    assert_eq!(&emu.ram[0..5], &[0xF0, 0x90, 0x90, 0x90, 0xF0]);
}

#[test]
fn draw_sets_pixels_and_reports_no_collision_on_clear_screen() {
    let mut emu = Emu::new();
    // I = 0: the glyph for digit 0, whose top byte is 0xF0.
    emu.execute(0xA000).unwrap();
    emu.execute(0xD015).unwrap(); // draw 5 rows at (V0, V1) = (0, 0)
    assert_eq!(emu.vreg(0xF), 0);
    assert!(emu.screen[encode(0, 0, SCREEN_WIDTH)]);
    assert!(emu.screen[encode(3, 0, SCREEN_WIDTH)]);
    assert!(!emu.screen[encode(4, 0, SCREEN_WIDTH)]);
    assert!(emu.screen[encode(0, 1, SCREEN_WIDTH)]);
    assert!(!emu.screen[encode(1, 1, SCREEN_WIDTH)]);
    assert!(emu.screen[encode(3, 1, SCREEN_WIDTH)]);
}

#[test]
fn drawing_twice_clears_and_reports_collision() {
    let mut emu = Emu::new();
    emu.execute(0xA000).unwrap();
    emu.execute(0xD015).unwrap();
    assert_eq!(emu.vreg(0xF), 0);
    emu.execute(0xD015).unwrap(); // same sprite, same place
    assert_eq!(emu.vreg(0xF), 1);
    assert!(emu.screen.iter().all(|&p| !p));
}

#[test]
fn draw_wraps_around_the_right_edge() {
    let mut emu = Emu::new();
    emu.execute(0x603F).unwrap(); // V0 = 63 = W - 1
    emu.execute(0xA000).unwrap(); // glyph 0, top byte 0xF0
    emu.execute(0xD015).unwrap(); // draw at (63, 0)
    // Sprite column 0 lands at x = 63, column 1 wraps to x = 0.
    assert!(emu.screen[encode(63, 0, SCREEN_WIDTH)]);
    assert!(emu.screen[encode(0, 0, SCREEN_WIDTH)]);
    assert!(emu.screen[encode(1, 0, SCREEN_WIDTH)]);
    assert!(emu.screen[encode(2, 0, SCREEN_WIDTH)]);
    assert!(!emu.screen[encode(3, 0, SCREEN_WIDTH)]);
}

#[test]
fn draw_past_end_of_memory_is_rejected() {
    let mut emu = Emu::new();
    emu.execute(0xAFFF).unwrap(); // I = 0xFFF
    assert_eq!(emu.execute(0xD015), Err(EmuError::OutOfMemory));
    assert!(emu.screen.iter().all(|&p| !p));
}

#[test]
fn clear_screen_clears_every_pixel() {
    let mut emu = Emu::new();
    emu.execute(0xA000).unwrap();
    emu.execute(0xD015).unwrap();
    assert!(emu.screen.iter().any(|&p| p));
    emu.execute(0x00E0).unwrap();
    assert!(emu.screen.iter().all(|&p| !p));
}

#[test]
fn noop_changes_nothing() {
    let mut emu = Emu::new();
    let pc = emu.pc();
    emu.execute(0x0000).unwrap();
    assert_eq!(emu.pc(), pc);
    assert_eq!(emu.stack_depth(), 0);
}

#[test]
fn timers_count_down_to_zero_and_stop() {
    let mut emu = Emu::new();
    emu.execute(0x6005).unwrap(); // V0 = 5
    emu.execute(0xF015).unwrap(); // delay timer = 5
    emu.execute(0x6003).unwrap(); // V0 = 3
    emu.execute(0xF018).unwrap(); // sound timer = 3
    for n in 1..=7u8 {
        let beep = emu.inc_timers();
        assert_eq!(emu.delay_timer(), 5u8.saturating_sub(n));
        assert_eq!(emu.sound_timer(), 3u8.saturating_sub(n));
        // The audible cue comes exactly when the sound timer hits zero.
        assert_eq!(beep, n == 3);
    }
    assert_eq!(emu.delay_timer(), 0);
    assert_eq!(emu.sound_timer(), 0);
}

#[test]
fn wait_for_key_blocks_until_pressed() {
    let mut emu = Emu::new();
    emu.load_rom(&vec![0xF5, 0x0A]).unwrap(); // V5 = key, blocking
    emu.tick().unwrap();
    assert_eq!(emu.pc(), 0x200); // rewound: still the same instruction
    emu.tick().unwrap();
    emu.tick().unwrap();
    assert_eq!(emu.pc(), 0x200);
    emu.set_key(0xB, true).unwrap();
    emu.set_key(0x4, true).unwrap();
    emu.tick().unwrap();
    assert_eq!(emu.pc(), 0x202); // advanced past the instruction
    assert_eq!(emu.vreg(5), 0x4); // the lowest-numbered pressed key
}

#[test]
fn set_key_rejects_indices_past_the_pad() {
    let mut emu = Emu::new();
    assert_eq!(emu.set_key(15, true), Ok(()));
    assert_eq!(emu.set_key(16, true), Err(EmuError::InvalidKey));
    assert_eq!(emu.set_key(100, false), Err(EmuError::InvalidKey));
}

#[test]
fn coordinate_helpers_invert_each_other() {
    assert_eq!(encode(3, 2, SCREEN_WIDTH), 131);
    assert_eq!(decode(131, SCREEN_WIDTH), (3, 2));
    for idx in [0usize, 1, 63, 64, 2047] {
        let (x, y) = decode(idx, SCREEN_WIDTH);
        assert_eq!(encode(x, y, SCREEN_WIDTH), idx);
    }
}

#[test]
fn reconstruct_op_reassembles_nibbles() {
    assert_eq!(reconstruct_op(0xA, 0xB, 0xC, 0xD), 0xABCD);
    assert_eq!(reconstruct_op(0, 0, 0xE, 0), 0x00E0);
    assert_eq!(reconstruct_op(1, 2, 3, 4), 0x1234);
}
