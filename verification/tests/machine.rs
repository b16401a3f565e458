use chip8::emulator::create_emulator;
use chip8::emulator::Emulator;

fn fresh() -> Emulator {
    create_emulator()
}

#[test]
fn power_on_state() {
    let mut e = fresh();
    assert_eq!(e.cursor(), 0x200);
    assert_eq!(e.index(), 0);
    assert_eq!(e.call_depth(), 0);
    for x in 0..16u8 {
        assert_eq!(e.register(x), 0);
    }
    for r in 0..32 {
        for c in 0..64 {
            assert!(!e.pixel(r, c));
        }
    }
    assert!(!e.take_frame());
    // the font glyph region: glyph 0 starts with 0xF0, glyph F ends with 0x80
    assert_eq!(e.read_byte(0x50), 0xF0);
    assert_eq!(e.read_byte(0x50 + 79), 0x80);
    assert_eq!(e.read_byte(0x200), 0);
}

#[test]
fn load_program_roundtrip() {
    let mut e = fresh();
    e.load_program(&vec![1, 2, 3]);
    assert_eq!(e.read_byte(0x200), 1);
    assert_eq!(e.read_byte(0x201), 2);
    assert_eq!(e.read_byte(0x202), 3);
    assert_eq!(e.cursor(), 0x200);
    let m = e.get_pgrm_mem();
    assert_eq!(&m[0..3], &[1, 2, 3]);
    assert_eq!(m.len(), 4096 - 0x200);
}

#[test]
fn register_set_then_read() {
    for x in 0..16u16 {
        let mut e = fresh();
        e.register_set(0x6000 | (x << 8) | 0x42);
        assert_eq!(e.register(x as u8), 0x42);
    }
}

#[test]
fn register_add_wraps() {
    let mut e = fresh();
    e.register_set(0x60FA); // V0 = 250
    e.register_add(0x7010); // V0 += 16
    assert_eq!(e.register(0), 10);
    assert_eq!(e.register(15), 0); // no carry flag on 0x7XNN
}

#[test]
fn alu_add_sets_carry() {
    let mut e = fresh();
    e.register_set(0x60FA); // V0 = 250
    e.register_set(0x610A); // V1 = 10
    e.logic_cmd(0x8014); // V0 += V1 with carry
    assert_eq!(e.register(0), 4);
    assert_eq!(e.register(15), 1);
}

#[test]
fn alu_add_no_carry() {
    let mut e = fresh();
    e.register_set(0x6005);
    e.register_set(0x610A);
    e.logic_cmd(0x8014);
    assert_eq!(e.register(0), 15);
    assert_eq!(e.register(15), 0);
}

#[test]
fn alu_subtract_wraps_and_clears_flag() {
    let mut e = fresh();
    e.register_set(0x6005); // V0 = 5
    e.register_set(0x610A); // V1 = 10
    e.logic_cmd(0x8015); // V0 -= V1
    assert_eq!(e.register(0), 251);
    assert_eq!(e.register(15), 0); // VF = 1 only when the difference > 0
}

#[test]
fn alu_subtract_positive_sets_flag() {
    let mut e = fresh();
    e.register_set(0x600A);
    e.register_set(0x6105);
    e.logic_cmd(0x8015);
    assert_eq!(e.register(0), 5);
    assert_eq!(e.register(15), 1);
}

#[test]
fn alu_subtract_reversed() {
    let mut e = fresh();
    e.register_set(0x6005); // V0 = 5
    e.register_set(0x610A); // V1 = 10
    e.logic_cmd(0x8017); // V0 = V1 - V0
    assert_eq!(e.register(0), 5);
    assert_eq!(e.register(15), 1);
}

#[test]
fn alu_shift_right() {
    let mut e = fresh();
    e.register_set(0x6003); // V0 = 0b00000011
    e.logic_cmd(0x8016);
    assert_eq!(e.register(0), 0b00000001);
    assert_eq!(e.register(15), 1);
}

#[test]
fn alu_shift_left() {
    let mut e = fresh();
    e.register_set(0x6081); // V0 = 0b10000001
    e.logic_cmd(0x801E);
    assert_eq!(e.register(0), 0b00000010);
    assert_eq!(e.register(15), 1);
}

#[test]
fn alu_bitwise_and_copy() {
    let mut e = fresh();
    e.register_set(0x60CC);
    e.register_set(0x61AA);
    e.logic_cmd(0x8012); // and
    assert_eq!(e.register(0), 0x88);
    e.register_set(0x60CC);
    e.logic_cmd(0x8011); // or
    assert_eq!(e.register(0), 0xEE);
    e.register_set(0x60CC);
    e.logic_cmd(0x8013); // xor
    assert_eq!(e.register(0), 0x66);
    e.logic_cmd(0x8010); // copy
    assert_eq!(e.register(0), 0xAA);
}

#[test]
fn jumps_move_the_cursor() {
    let mut e = fresh();
    e.jump_cmd(0x1234);
    assert_eq!(e.cursor(), 0x234);
    e.register_set(0x6004); // V0 = 4
    e.jump_offset_cmd(0xB234);
    assert_eq!(e.cursor(), 0x238);
}

#[test]
fn skips_advance_one_instruction() {
    let mut e = fresh();
    e.register_set(0x6542); // V5 = 0x42
    e.skip_cmd(0x3542); // equal: skip
    assert_eq!(e.cursor(), 0x202);
    e.skip_cmd(0x3541); // not equal: stay
    assert_eq!(e.cursor(), 0x202);
    e.skip_cmd(0x4541); // not equal: skip
    assert_eq!(e.cursor(), 0x204);
    e.register_set(0x6642); // V6 = 0x42 too
    e.skip_cmd(0x5560); // V5 == V6: skip
    assert_eq!(e.cursor(), 0x206);
    e.skip_cmd(0x9560); // V5 != V6 is false: stay
    assert_eq!(e.cursor(), 0x206);
}

#[test]
fn key_skips_follow_the_keypad() {
    let mut e = fresh();
    let mut keys = vec![false; 16];
    keys[4] = true;
    e.set_keys(keys);
    e.register_set(0x6604); // V6 = 4
    e.skip_if_cmd(0xE69E); // held: skip
    assert_eq!(e.cursor(), 0x202);
    e.skip_if_cmd(0xE6A1); // not-held test fails: stay
    assert_eq!(e.cursor(), 0x202);
    e.register_set(0x6605); // V6 = 5, not held
    e.skip_if_cmd(0xE69E);
    assert_eq!(e.cursor(), 0x202);
    e.skip_if_cmd(0xE6A1);
    assert_eq!(e.cursor(), 0x204);
}

#[test]
fn index_and_font_addressing() {
    let mut e = fresh();
    e.index_set(0xA123);
    assert_eq!(e.index(), 0x123);
    e.register_set(0x600F); // V0 = 0xF
    e.bloated_cmd(0xF029);
    assert_eq!(e.index(), 0x50 + 15 * 5);
    // the glyph bytes for F
    assert_eq!(e.read_byte(e.index() as usize), 0xF0);
}

#[test]
fn index_add_masks_and_flags() {
    let mut e = fresh();
    e.index_set(0xAFFF);
    e.register_set(0x6001); // V0 = 1
    e.bloated_cmd(0xF01E);
    assert_eq!(e.index(), 0);
    assert_eq!(e.register(15), 1);
    e.index_set(0xA005);
    e.register_set(0x6002);
    e.bloated_cmd(0xF01E);
    assert_eq!(e.index(), 7);
    assert_eq!(e.register(15), 0);
}

#[test]
fn digit_decomposition() {
    let mut e = fresh();
    e.register_set(0x63CD); // V3 = 205
    e.index_set(0xA500);
    let before = e.cursor();
    e.bloated_cmd(0xF333);
    assert_eq!(e.read_byte(0x500), 2);
    assert_eq!(e.read_byte(0x501), 0);
    assert_eq!(e.read_byte(0x502), 5);
    assert_eq!(e.cursor(), before);
    assert_eq!(e.index(), 0x500);
}

#[test]
fn register_block_store_and_load() {
    let mut e = fresh();
    for x in 0..4u16 {
        e.register_set(0x6000 | (x << 8) | (10 + x)); // V0..V3 = 10..13
    }
    e.index_set(0xA400);
    let before = e.cursor();
    e.bloated_cmd(0xF355); // store V0..V3
    assert_eq!(e.cursor(), before); // the cursor is restored afterward
    assert_eq!(e.index(), 0x400); // the index register is not advanced
    for x in 0..4usize {
        assert_eq!(e.read_byte(0x400 + x), 10 + x as u8);
    }
    assert_eq!(e.read_byte(0x404), 0);
    for x in 0..4u16 {
        e.register_set(0x6000 | (x << 8)); // zero V0..V3
    }
    e.bloated_cmd(0xF365); // load V0..V3 back
    assert_eq!(e.index(), 0x400); // I itself is left unchanged
    for x in 0..4u8 {
        assert_eq!(e.register(x), 10 + x);
    }
    assert_eq!(e.register(4), 0);
}

#[test]
fn delay_timer_set_then_read() {
    let mut e = fresh();
    // without a ticking host task the counter sits still, so the value set
    // is the value read back
    e.register_set(0x6107); // V1 = 7
    e.bloated_cmd(0xF115); // delay timer = V1
    e.bloated_cmd(0xF207); // V2 = delay timer
    assert_eq!(e.register(2), 7);
    e.register_set(0x6305); // V3 = 5
    e.bloated_cmd(0xF318); // sound timer = V3, nothing readable back
    e.shutdown();
}

#[test]
fn timer_task_counts_down_and_stops() {
    let mut e = fresh();
    e.register_set(0x6107); // V1 = 7
    e.bloated_cmd(0xF115); // delay timer = 7
    assert!(chip8::emulator::timer::ticker_step(&e.delay_timer)); // one 60Hz tick
    e.bloated_cmd(0xF207); // V2 = delay timer
    assert_eq!(e.register(2), 6);
    let mut idle = fresh();
    assert!(chip8::emulator::timer::ticker_step(&idle.delay_timer)); // idle: keeps ticking
    idle.bloated_cmd(0xF307); // V3 = delay timer, still idle at zero
    assert_eq!(idle.register(3), 0);
    e.shutdown();
    assert!(!chip8::emulator::timer::ticker_step(&e.delay_timer)); // past terminal: stop
    assert!(!chip8::emulator::timer::ticker_step(&e.sound_timer));
}

#[test]
fn random_respects_the_mask() {
    let mut e = fresh();
    e.random(0xC0F0);
    assert_eq!(e.register(0) & 0x0F, 0);
    e.random(0xC100);
    assert_eq!(e.register(1), 0);
}

#[test]
fn draw_plots_and_draw_again_restores() {
    let mut e = fresh();
    // an 8x2 sprite: a full row and a hollow row
    e.load_program(&vec![0x00, 0x00, 0xFF, 0x81]);
    e.index_set(0xA202);
    e.register_set(0x600A); // V0 = 10, column
    e.register_set(0x6105); // V1 = 5, row
    e.display_cmd(0xD012);
    assert!(e.take_frame());
    assert_eq!(e.register(15), 0); // nothing was unset on a cleared buffer
    for c in 0..8 {
        assert!(e.pixel(5, 10 + c));
        assert_eq!(e.pixel(6, 10 + c), c == 0 || c == 7);
    }
    assert!(!e.pixel(5, 9));
    assert!(!e.pixel(5, 18));
    e.display_cmd(0xD012);
    assert_eq!(e.register(15), 1); // every set bit became unset
    for r in 0..32 {
        for c in 0..64 {
            assert!(!e.pixel(r, c));
        }
    }
}

#[test]
fn draw_clips_at_the_edges() {
    let mut e = fresh();
    e.load_program(&vec![0x00, 0x00, 0xFF, 0xFF, 0xFF]);
    e.index_set(0xA202);
    e.register_set(0x603C); // V0 = 60, column near the right edge
    e.register_set(0x611E); // V1 = 30, row near the bottom edge
    e.display_cmd(0xD013); // 3 rows asked for, 2 fit
    for r in 30..32 {
        for c in 60..64 {
            assert!(e.pixel(r, c));
        }
        assert!(!e.pixel(r, 59));
    }
    // nothing wrapped to the top or the left
    for c in 0..64 {
        assert!(!e.pixel(0, c));
    }
    for r in 0..30 {
        assert!(!e.pixel(r, 0));
    }
}

#[test]
fn draw_origin_wraps_modulo_grid() {
    let mut e = fresh();
    e.load_program(&vec![0x00, 0x00, 0x80]);
    e.index_set(0xA202);
    e.register_set(0x6040); // V0 = 64 wraps to column 0
    e.register_set(0x6120); // V1 = 32 wraps to row 0
    e.display_cmd(0xD011);
    assert!(e.pixel(0, 0));
}

#[test]
fn clear_unsets_the_whole_grid() {
    let mut e = fresh();
    e.load_program(&vec![0x00, 0x00, 0xFF]);
    e.index_set(0xA202);
    e.register_set(0x6000);
    e.register_set(0x6100);
    e.display_cmd(0xD011);
    assert!(e.pixel(0, 0));
    let cont = e.clear_cmd(0x00E0);
    assert!(cont);
    for r in 0..32 {
        for c in 0..64 {
            assert!(!e.pixel(r, c));
        }
    }
}

#[test]
fn subroutine_call_and_return_are_lifo() {
    let mut e = fresh();
    let mut prog = vec![0u8; 0x202];
    prog[0] = 0x23; // 0x200: call 0x300
    prog[1] = 0x00;
    prog[0x100] = 0x24; // 0x300: call 0x400
    prog[0x101] = 0x00;
    prog[0x200] = 0x00; // 0x400: return
    prog[0x201] = 0xEE;
    e.load_program(&prog);
    assert!(e.loop_run());
    assert_eq!(e.cursor(), 0x300);
    assert_eq!(e.call_depth(), 1);
    assert!(e.loop_run());
    assert_eq!(e.cursor(), 0x400);
    assert_eq!(e.call_depth(), 2);
    assert!(e.loop_run()); // return: innermost call first
    assert_eq!(e.cursor(), 0x302);
    assert_eq!(e.call_depth(), 1);
}

#[test]
fn return_with_no_call_halts() {
    let mut e = fresh();
    e.load_program(&vec![0x00, 0xEE]);
    assert!(!e.loop_run());
}

#[test]
fn run_drives_a_program_to_its_halt() {
    let mut e = fresh();
    // set V0, call a subroutine that adds V1, return, halt at top level
    let mut prog = vec![0u8; 0x0A];
    prog[0] = 0x60; // 0x200: V0 = 7
    prog[1] = 0x07;
    prog[2] = 0x22; // 0x202: call 0x208
    prog[3] = 0x08;
    prog[4] = 0x00; // 0x204: return at top level: halt
    prog[5] = 0xEE;
    prog[8] = 0x70; // 0x208: V0 += 1
    prog[9] = 0x01;
    // 0x20A: return from the subroutine
    prog.extend_from_slice(&[0x00, 0xEE]);
    e.load_program(&prog);
    e.run();
    assert_eq!(e.register(0), 8);
    assert_eq!(e.cursor(), 0x206);
}

#[test]
fn unknown_sub_opcodes_halt() {
    let mut e = fresh();
    e.load_program(&vec![0xF0, 0xFF]);
    assert!(!e.loop_run());
    let mut e2 = fresh();
    e2.load_program(&vec![0xE0, 0x55]);
    assert!(!e2.loop_run());
}

#[test]
fn key_wait_stalls_then_captures_the_key() {
    let mut e = fresh();
    e.load_program(&vec![0xF2, 0x0A]);
    assert!(e.loop_run());
    assert_eq!(e.cursor(), 0x200); // no key held: retry the same opcode
    assert!(e.loop_run());
    assert_eq!(e.cursor(), 0x200); // still nothing
    assert_eq!(e.register(2), 0);
    let mut keys = vec![false; 16];
    keys[7] = true;
    keys[9] = true;
    e.set_keys(keys);
    assert!(e.loop_run());
    assert_eq!(e.cursor(), 0x202); // advanced exactly once
    assert_eq!(e.register(2), 7); // the lowest held key's code
}
