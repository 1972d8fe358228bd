use chip8::frontend::{
    game_path, key_binding, menu_down, menu_fits, menu_label, menu_up, run_frame, selected_game,
    STEPS_PER_FRAME,
};
use chip8::Chip8;

#[test]
fn key_layout_follows_the_keypad_grid() {
    let keypad = [0x1, 0x2, 0x3, 0xC, 0x4, 0x5, 0x6, 0xD, 0x7, 0x8, 0x9, 0xE, 0xA, 0x0, 0xB, 0xF];
    let keyboard = "1234qwerasdfzxcv";
    for (key, ch) in keypad.iter().zip(keyboard.chars()) {
        assert_eq!(key_binding(*key), Some(ch));
    }
    assert_eq!(key_binding(16), None);
}

#[test]
fn key_layout_is_one_to_one() {
    let mut chars: Vec<char> = (0..16).map(|k| key_binding(k).unwrap()).collect();
    chars.sort();
    chars.dedup();
    assert_eq!(chars.len(), 16);
}

#[test]
fn menu_wraps_at_both_ends() {
    assert_eq!(menu_up(0, 5), 4);
    assert_eq!(menu_up(3, 5), 2);
    assert_eq!(menu_down(4, 5), 0);
    assert_eq!(menu_down(1, 5), 2);
    for i in 0..5 {
        assert_eq!(menu_down(menu_up(i, 5), 5), i);
        assert_eq!(menu_up(menu_down(i, 5), 5), i);
    }
}

#[test]
fn menu_with_no_known_games() {
    assert_eq!(menu_up(0, 0), -1);
    assert_eq!(menu_down(0, 0), 0);
}

#[test]
fn menu_fits_thirteen_lines() {
    assert!(menu_fits(0));
    assert!(menu_fits(13));
    assert!(!menu_fits(14));
}

#[test]
fn frame_runs_twelve_steps_then_ticks() {
    let mut c = Chip8::new();
    let mut rom = vec![0x60, 0x05, 0xF0, 0x15];
    for _ in 0..10 {
        rom.extend_from_slice(&[0x70, 0x01]);
    }
    c.load_rom(&rom);
    let (ops, complete) = run_frame(&mut c);
    assert!(complete);
    assert_eq!(ops.len(), STEPS_PER_FRAME);
    assert_eq!(ops[0], 0x6005);
    assert_eq!(ops[1], 0xF015);
    assert_eq!(ops[11], 0x7001);
    assert_eq!(c.register(0), 15);
    assert_eq!(c.pc(), 0x200 + 24);
    assert_eq!(c.delay_timer(), 4);
}

#[test]
fn frame_stops_before_an_instruction_that_cannot_run() {
    let mut c = Chip8::new();
    c.load_rom(&[0x60, 0x07, 0x01, 0x23]);
    let (ops, complete) = run_frame(&mut c);
    assert!(!complete);
    assert_eq!(ops, vec![0x6007]);
    assert_eq!(c.pc(), 0x202);
    assert_eq!(c.current_opcode(), Some(0x0123));
    assert!(!c.can_step());
}

#[test]
fn selected_game_is_the_entry_at_the_selection() {
    let games = vec!["pong.ch8".to_string(), "tetris.ch8".to_string()];
    assert_eq!(selected_game(&games, 1), Some("tetris.ch8".to_string()));
    assert_eq!(selected_game(&games, 0), Some("pong.ch8".to_string()));
    assert_eq!(selected_game(&games, 2), None);
    assert_eq!(selected_game(&games, -1), None);
    assert_eq!(selected_game(&Vec::new(), 0), None);
}

#[test]
fn menu_label_marks_the_selected_game() {
    assert_eq!(menu_label("pong.ch8"), "> pong.ch8  ");
}

#[test]
fn game_path_is_in_the_games_directory() {
    assert_eq!(game_path("pong.ch8"), "games/pong.ch8");
}
