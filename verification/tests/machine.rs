use chip8::chip8::FONTSET;
use chip8::{to_hex, Chip8, HEIGHT, WIDTH};

fn pixel(c: &Chip8, x: usize, y: usize) -> u8 {
    c.get_display()[y * WIDTH + x]
}

fn lit_count(c: &Chip8) -> usize {
    c.get_display().iter().filter(|&&p| p == 1).count()
}

#[test]
fn new_machine_has_font_and_start_address() {
    let c = Chip8::new();
    assert_eq!(c.pc(), 0x200);
    assert_eq!(c.index(), 0);
    assert_eq!(c.stack_depth(), 0);
    for r in 0..16 {
        assert_eq!(c.register(r), 0);
    }
    for i in 0..80 {
        assert_eq!(c.memory_byte(0x50 + i), FONTSET[i]);
    }
    assert_eq!(c.memory_byte(0x4F), 0);
    assert_eq!(c.memory_byte(0xA0), 0);
    assert_eq!(c.get_display().len(), WIDTH * HEIGHT);
    assert_eq!(lit_count(&c), 0);
}

#[test]
fn default_is_new() {
    let a = Chip8::default();
    assert_eq!(a.pc(), 0x200);
    assert_eq!(a.memory_byte(0x50), 0xF0);
}

#[test]
fn load_rom_copies_image_to_start_address() {
    let mut c = Chip8::new();
    c.load_rom(&[0x12, 0x34, 0x56]);
    assert_eq!(c.memory_byte(0x200), 0x12);
    assert_eq!(c.memory_byte(0x201), 0x34);
    assert_eq!(c.memory_byte(0x202), 0x56);
    assert_eq!(c.memory_byte(0x203), 0);
    assert_eq!(c.memory_byte(0x50), 0xF0);
}

#[test]
fn step_fetches_big_endian_and_advances() {
    let mut c = Chip8::new();
    c.load_rom(&[0x60, 0x2A, 0x71, 0x05]);
    assert_eq!(c.current_opcode(), Some(0x602A));
    assert!(c.can_step());
    assert_eq!(c.step(), 0x602A);
    assert_eq!(c.pc(), 0x202);
    assert_eq!(c.register(0), 0x2A);
    assert_eq!(c.step(), 0x7105);
    assert_eq!(c.register(1), 5);
    assert_eq!(c.pc(), 0x204);
}

#[test]
fn jump_and_jump_with_offset() {
    let mut c = Chip8::new();
    c.execute(0x1ABC);
    assert_eq!(c.pc(), 0xABC);
    c.execute(0x6010);
    c.execute(0xB300);
    assert_eq!(c.pc(), 0x310);
}

#[test]
fn call_then_return_restores_pc_and_stack() {
    let mut c = Chip8::new();
    c.execute(0x2400);
    assert_eq!(c.pc(), 0x400);
    assert_eq!(c.stack_depth(), 1);
    c.execute(0x2500);
    assert_eq!(c.stack_depth(), 2);
    c.execute(0x00EE);
    assert_eq!(c.pc(), 0x400);
    c.execute(0x00EE);
    assert_eq!(c.pc(), 0x200);
    assert_eq!(c.stack_depth(), 0);
}

#[test]
fn return_on_empty_stack_does_nothing() {
    let mut c = Chip8::new();
    c.execute(0x00EE);
    assert_eq!(c.pc(), 0x200);
    assert_eq!(c.stack_depth(), 0);
}

#[test]
fn skips_compare_registers_and_immediates() {
    let mut c = Chip8::new();
    c.execute(0x6307);
    c.execute(0x3307);
    assert_eq!(c.pc(), 0x202);
    c.execute(0x3308);
    assert_eq!(c.pc(), 0x202);
    c.execute(0x4308);
    assert_eq!(c.pc(), 0x204);
    c.execute(0x4307);
    assert_eq!(c.pc(), 0x204);
    c.execute(0x6407);
    c.execute(0x5340);
    assert_eq!(c.pc(), 0x206);
    c.execute(0x9340);
    assert_eq!(c.pc(), 0x206);
    c.execute(0x6409);
    c.execute(0x9340);
    assert_eq!(c.pc(), 0x208);
}

#[test]
fn add_immediate_wraps() {
    let mut c = Chip8::new();
    c.execute(0x6002);
    c.execute(0x70FF);
    assert_eq!(c.register(0), 1);
    assert_eq!(c.register(15), 0);
}

#[test]
fn add_registers_sets_carry() {
    let mut c = Chip8::new();
    c.execute(0x60C8);
    c.execute(0x6164);
    c.execute(0x8014);
    assert_eq!(c.register(0), 44);
    assert_eq!(c.register(15), 1);
    c.execute(0x6001);
    c.execute(0x8014);
    assert_eq!(c.register(0), 101);
    assert_eq!(c.register(15), 0);
}

#[test]
fn subtract_sets_no_borrow_flag() {
    let mut c = Chip8::new();
    c.execute(0x6005);
    c.execute(0x610A);
    c.execute(0x8015);
    assert_eq!(c.register(0), 251);
    assert_eq!(c.register(15), 0);
    c.execute(0x600A);
    c.execute(0x6105);
    c.execute(0x8015);
    assert_eq!(c.register(0), 5);
    assert_eq!(c.register(15), 1);
    c.execute(0x6003);
    c.execute(0x8017);
    assert_eq!(c.register(0), 2);
    assert_eq!(c.register(15), 1);
    c.execute(0x6009);
    c.execute(0x8017);
    assert_eq!(c.register(0), 252);
    assert_eq!(c.register(15), 0);
}

#[test]
fn logic_operations_clear_flag() {
    let mut c = Chip8::new();
    c.execute(0x6F01);
    c.execute(0x600C);
    c.execute(0x610A);
    c.execute(0x8011);
    assert_eq!(c.register(0), 0x0E);
    assert_eq!(c.register(15), 0);
    c.execute(0x6F01);
    c.execute(0x8012);
    assert_eq!(c.register(0), 0x0A);
    assert_eq!(c.register(15), 0);
    c.execute(0x6F01);
    c.execute(0x600C);
    c.execute(0x8013);
    assert_eq!(c.register(0), 0x06);
    assert_eq!(c.register(15), 0);
    c.execute(0x8210);
    assert_eq!(c.register(2), 0x0A);
}

#[test]
fn shifts_copy_vy_and_keep_the_lost_bit() {
    let mut c = Chip8::new();
    c.execute(0x6105);
    c.execute(0x8016);
    assert_eq!(c.register(0), 2);
    assert_eq!(c.register(15), 1);
    c.execute(0x6181);
    c.execute(0x801E);
    assert_eq!(c.register(0), 0x02);
    assert_eq!(c.register(15), 1);
    c.execute(0x6140);
    c.execute(0x801E);
    assert_eq!(c.register(0), 0x80);
    assert_eq!(c.register(15), 0);
}

#[test]
fn flag_register_as_destination_keeps_the_flag() {
    let mut c = Chip8::new();
    c.execute(0x6FC8);
    c.execute(0x6164);
    c.execute(0x8F14);
    assert_eq!(c.register(15), 1);
}

#[test]
fn index_register_instructions() {
    let mut c = Chip8::new();
    c.execute(0xA123);
    assert_eq!(c.index(), 0x123);
    c.execute(0x6010);
    c.execute(0xF01E);
    assert_eq!(c.index(), 0x133);
    c.execute(0x600A);
    c.execute(0xF029);
    assert_eq!(c.index(), 0x50 + 50);
}

#[test]
fn font_instruction_points_at_the_digit_glyph() {
    let mut c = Chip8::new();
    c.execute(0x6007);
    c.execute(0xF029);
    assert_eq!(c.index(), 0x73);
    assert_eq!(c.memory_byte(0x73), 0xF0);
    assert_eq!(c.memory_byte(0x74), 0x10);
    assert_eq!(c.memory_byte(0x77), 0x40);
    assert_eq!(c.register(0), 7);
}

#[test]
fn draw_reads_coordinates_before_writing_the_flag() {
    let mut c = Chip8::new();
    c.execute(0x6F08);
    c.execute(0xA050);
    c.execute(0xDF01);
    for x in 8..12 {
        assert_eq!(pixel(&c, x, 0), 1);
    }
    assert_eq!(pixel(&c, 0, 0), 0);
    assert_eq!(lit_count(&c), 4);
    assert_eq!(c.register(15), 0);
}

#[test]
fn bcd_stores_decimal_digits() {
    let mut c = Chip8::new();
    c.execute(0x65FE);
    c.execute(0xA300);
    c.execute(0xF533);
    assert_eq!(c.memory_byte(0x300), 2);
    assert_eq!(c.memory_byte(0x301), 5);
    assert_eq!(c.memory_byte(0x302), 4);
}

#[test]
fn dump_then_load_gives_back_registers() {
    let mut c = Chip8::new();
    for r in 0..4u16 {
        c.execute(0x6000 | (r << 8) | (r * 11 + 1));
    }
    c.execute(0xA400);
    c.execute(0xF355);
    assert_eq!(c.memory_byte(0x400), 1);
    assert_eq!(c.memory_byte(0x403), 34);
    assert_eq!(c.memory_byte(0x404), 0);
    for r in 0..4u16 {
        c.execute(0x6000 | (r << 8));
    }
    c.execute(0xF265);
    assert_eq!(c.register(0), 1);
    assert_eq!(c.register(1), 12);
    assert_eq!(c.register(2), 23);
    assert_eq!(c.register(3), 0);
}

#[test]
fn timers_are_set_read_and_count_down_to_zero() {
    let mut c = Chip8::new();
    c.execute(0x6002);
    c.execute(0xF015);
    c.execute(0xF018);
    assert_eq!(c.delay_timer(), 2);
    assert_eq!(c.sound_timer(), 2);
    c.tick_timers();
    c.execute(0xF107);
    assert_eq!(c.register(1), 1);
    c.tick_timers();
    c.tick_timers();
    assert_eq!(c.delay_timer(), 0);
    assert_eq!(c.sound_timer(), 0);
}

#[test]
fn clear_screen_turns_every_pixel_off() {
    let mut c = Chip8::new();
    c.execute(0xA050);
    c.execute(0xD005);
    assert!(lit_count(&c) > 0);
    c.execute(0x00E0);
    assert_eq!(lit_count(&c), 0);
}

#[test]
fn draw_font_digit_zero() {
    let mut c = Chip8::new();
    c.execute(0xA050);
    c.execute(0xD005);
    // 0xF0, 0x90, 0x90, 0x90, 0xF0
    for x in 0..4 {
        assert_eq!(pixel(&c, x, 0), 1);
        assert_eq!(pixel(&c, x, 4), 1);
    }
    assert_eq!(pixel(&c, 4, 0), 0);
    assert_eq!(pixel(&c, 0, 2), 1);
    assert_eq!(pixel(&c, 1, 2), 0);
    assert_eq!(pixel(&c, 3, 2), 1);
    assert_eq!(lit_count(&c), 14);
    assert_eq!(c.register(15), 0);
}

#[test]
fn drawing_twice_erases_and_reports_collision() {
    let mut c = Chip8::new();
    c.execute(0x6A0A);
    c.execute(0x6B05);
    c.execute(0xA05A);
    c.execute(0xDAB5);
    assert_eq!(c.register(15), 0);
    assert!(lit_count(&c) > 0);
    c.execute(0xDAB5);
    assert_eq!(c.register(15), 1);
    assert_eq!(lit_count(&c), 0);
    assert!(c.get_display().iter().all(|&p| p <= 1));
}

#[test]
fn draw_clips_at_the_right_and_bottom_edges() {
    let mut c = Chip8::new();
    c.execute(0x603E);
    c.execute(0x611E);
    c.execute(0xA050);
    c.execute(0xD015);
    // Columns 62 and 63 of rows 30 and 31 only: 0xF0 then 0x90.
    assert_eq!(lit_count(&c), 3);
    assert_eq!(pixel(&c, 62, 30), 1);
    assert_eq!(pixel(&c, 63, 30), 1);
    assert_eq!(pixel(&c, 62, 31), 1);
    assert_eq!(pixel(&c, 63, 31), 0);
    assert_eq!(pixel(&c, 0, 30), 0);
    assert_eq!(pixel(&c, 62, 0), 0);
}

#[test]
fn draw_wraps_the_start_position() {
    let mut c = Chip8::new();
    c.execute(0x6041);
    c.execute(0x6122);
    c.execute(0xA050);
    c.execute(0xD011);
    // (65, 34) starts at (1, 2).
    assert_eq!(pixel(&c, 1, 2), 1);
    assert_eq!(pixel(&c, 4, 2), 1);
    assert_eq!(pixel(&c, 5, 2), 0);
    assert_eq!(lit_count(&c), 4);
}

#[test]
fn key_skips_follow_the_keypad() {
    let mut c = Chip8::new();
    c.execute(0x6205);
    c.execute(0xE29E);
    assert_eq!(c.pc(), 0x200);
    c.execute(0xE2A1);
    assert_eq!(c.pc(), 0x202);
    c.toggle_key(5, true);
    c.execute(0xE29E);
    assert_eq!(c.pc(), 0x204);
    c.execute(0xE2A1);
    assert_eq!(c.pc(), 0x204);
}

#[test]
fn toggle_key_past_keypad_is_ignored() {
    let mut c = Chip8::new();
    c.toggle_key(16, true);
    c.toggle_key(usize::MAX, true);
    for k in 0..16u16 {
        c.execute(0x6000 | k);
        c.execute(0xE0A1);
    }
    assert_eq!(c.pc(), 0x200 + 32);
}

#[test]
fn wait_for_key_repeats_until_a_key_is_pressed_and_released() {
    let mut c = Chip8::new();
    c.load_rom(&[0xF3, 0x0A]);
    c.step();
    assert_eq!(c.pc(), 0x200);
    c.step();
    assert_eq!(c.pc(), 0x200);
    c.toggle_key(5, true);
    c.step();
    assert_eq!(c.pc(), 0x200);
    c.step();
    assert_eq!(c.pc(), 0x200);
    assert_eq!(c.register(3), 0);
    c.toggle_key(5, false);
    c.step();
    assert_eq!(c.pc(), 0x202);
    assert_eq!(c.register(3), 5);
}

#[test]
fn wait_for_key_stores_the_key_that_was_let_go() {
    let mut c = Chip8::new();
    c.load_rom(&[0xF4, 0x0A]);
    c.toggle_key(2, true);
    c.toggle_key(9, true);
    c.step();
    assert_eq!(c.pc(), 0x200);
    c.toggle_key(9, false);
    c.step();
    assert_eq!(c.pc(), 0x202);
    assert_eq!(c.register(4), 9);
}

#[test]
fn wait_for_key_ignores_keys_pressed_later() {
    let mut c = Chip8::new();
    c.load_rom(&[0xF1, 0x0A]);
    c.toggle_key(3, true);
    c.step();
    c.toggle_key(7, true);
    c.toggle_key(7, false);
    c.step();
    assert_eq!(c.pc(), 0x200);
    c.toggle_key(3, false);
    c.step();
    assert_eq!(c.register(1), 3);
}

#[test]
fn wait_for_key_with_no_key_down_repeats_forever() {
    let mut c = Chip8::new();
    c.load_rom(&[0xF0, 0x0A]);
    for _ in 0..1000 {
        c.step();
        assert_eq!(c.pc(), 0x200);
        assert_eq!(c.register(0), 0);
    }
}

#[test]
fn timers_reach_zero_and_stay_there() {
    let mut c = Chip8::new();
    c.execute(0x60FF);
    c.execute(0xF015);
    c.execute(0x6003);
    c.execute(0xF018);
    for k in 1..=300u32 {
        c.tick_timers();
        assert_eq!(c.delay_timer() as u32, 255u32.saturating_sub(k));
        assert_eq!(c.sound_timer() as u32, 3u32.saturating_sub(k));
    }
}

#[test]
fn random_byte_respects_mask_and_varies() {
    let mut c = Chip8::new();
    let mut seen = std::collections::HashSet::new();
    for _ in 0..200 {
        c.execute(0xC00F);
        assert!(c.register(0) <= 0x0F);
        c.execute(0xC1FF);
        seen.insert(c.register(1));
    }
    assert!(seen.len() > 1);
    c.execute(0xC200);
    assert_eq!(c.register(2), 0);
}

#[test]
fn execute_with_random_uses_the_given_byte() {
    let mut c = Chip8::new();
    c.execute_with_random(0xC33C, 0xFF);
    assert_eq!(c.register(3), 0x3C);
    c.execute_with_random(0xC3F0, 0x5A);
    assert_eq!(c.register(3), 0x50);
}

#[test]
fn undefined_instructions_are_not_executable() {
    let c = Chip8::new();
    assert!(!c.is_executable(0x0123));
    assert!(!c.is_executable(0x8008));
    assert!(!c.is_executable(0xE000));
    assert!(!c.is_executable(0xF0FF));
    assert!(c.is_executable(0x00E0));
    assert!(c.is_executable(0x8FFE));
    assert!(c.is_executable(0xD00F));
}

#[test]
fn bounds_are_checked_before_execution() {
    let mut c = Chip8::new();
    c.execute(0xAFFE);
    assert!(!c.is_executable(0xF033));
    assert!(c.is_executable(0xF055));
    assert!(!c.is_executable(0xF155));
    assert!(c.is_executable(0xD001));
    assert!(!c.is_executable(0xD002));
    c.execute(0x6010);
    assert!(!c.is_executable(0xE09E));
    c.execute(0x1FFE);
    assert_eq!(c.current_opcode(), None);
    assert!(!c.can_step());
    c.execute(0x1FFC);
    assert_eq!(c.current_opcode(), Some(0));
    assert!(!c.can_step());
}

#[test]
fn hex_formatting() {
    assert_eq!(to_hex(0x00E0), "0x00E0");
    assert_eq!(to_hex(0xABCD), "0xABCD");
    assert_eq!(to_hex(0), "0x0000");
    assert_eq!(to_hex(0xFFFF), "0xFFFF");
    assert_eq!(to_hex(0x12345), "0x12345");
    assert_eq!(to_hex(0x0Au8 as u64), format!("{:#06X}", 0x0Au8));
    for v in [1u64, 0x1234, 0x9F0A, 0x200, 0x10000, 0xDEADBEEF, u32::MAX as u64, u64::MAX] {
        assert_eq!(to_hex(v), format!("{:#06X}", v));
    }
}
