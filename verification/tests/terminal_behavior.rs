use vga_terminal::screen::BLANK_CHAR;
use vga_terminal::screen::DEFAULT_COLOR;
use vga_terminal::screen::SCREEN_BYTES;
use vga_terminal::screen::SCREEN_HEIGHT;
use vga_terminal::screen::SCREEN_WIDTH;
use vga_terminal::terminal::TerminalMode;
use vga_terminal::terminal::TerminalState;

fn feed(t: &mut TerminalState, bytes: &[u8]) {
    for &b in bytes {
        t.putc(b);
    }
}

fn cell(t: &TerminalState, x: usize, y: usize) -> (u8, u8) {
    let offset = (y * SCREEN_WIDTH + x) * 2;
    (t.screen_byte(offset), t.screen_byte(offset + 1))
}

#[test]
fn fresh_terminal_defaults() {
    let t = TerminalState::new();
    assert_eq!(t.current_mode(), TerminalMode::TextEditor);
    assert_eq!(t.cursor_col(), 0);
    assert_eq!(t.cursor_row(), 0);
    assert_eq!(t.current_color(), DEFAULT_COLOR);
    assert!(!t.escape_active());
    for i in 0..SCREEN_BYTES {
        let expected = if i % 2 == 0 { BLANK_CHAR } else { DEFAULT_COLOR };
        assert_eq!(t.screen_byte(i), expected);
    }
}

#[test]
fn set_mode_switches() {
    let mut t = TerminalState::new();
    t.set_mode(TerminalMode::Terminal);
    assert_eq!(t.current_mode(), TerminalMode::Terminal);
    t.set_mode(TerminalMode::TextEditor);
    assert_eq!(t.current_mode(), TerminalMode::TextEditor);
}

#[test]
fn cursor_stays_in_bounds_for_every_byte() {
    // a fresh terminal fed each byte value once
    for b in 0..=255u8 {
        let mut t = TerminalState::new();
        t.putc(b);
        assert!(t.cursor_col() < SCREEN_WIDTH);
        assert!(t.cursor_row() < SCREEN_HEIGHT);
    }
    // and one terminal fed all byte values in order
    let mut t = TerminalState::new();
    for b in 0..=255u8 {
        t.putc(b);
        assert!(t.cursor_col() < SCREEN_WIDTH);
        assert!(t.cursor_row() < SCREEN_HEIGHT);
    }
}

#[test]
fn clear_sequence_blanks_all_cells_with_current_color() {
    let mut t = TerminalState::new();
    feed(&mut t, b"\x1b[32m");  // green
    feed(&mut t, b"hello");
    feed(&mut t, b"\x1b[2J");
    assert_eq!(t.cursor_col(), 0);
    assert_eq!(t.cursor_row(), 0);
    for i in 0..SCREEN_BYTES {
        let expected = if i % 2 == 0 { BLANK_CHAR } else { 0x02 };
        assert_eq!(t.screen_byte(i), expected);
    }
}

#[test]
fn position_sequence_is_one_based() {
    let mut t = TerminalState::new();
    feed(&mut t, b"\x1b[5;10H");
    assert_eq!(t.cursor_col(), 9);
    assert_eq!(t.cursor_row(), 4);
}

#[test]
fn position_sequence_defaults_to_home() {
    let mut t = TerminalState::new();
    feed(&mut t, b"\x1b[5;10H");
    feed(&mut t, b"\x1b[H");
    assert_eq!(t.cursor_col(), 0);
    assert_eq!(t.cursor_row(), 0);
}

#[test]
fn out_of_range_row_clamps_to_last_row() {
    let mut t = TerminalState::new();
    feed(&mut t, b"\x1b[99H");
    assert_eq!(t.cursor_row(), SCREEN_HEIGHT - 1);
    assert_eq!(t.cursor_col(), 0);
}

#[test]
fn out_of_range_column_clamps_to_last_column() {
    let mut t = TerminalState::new();
    feed(&mut t, b"\x1b[3;200H");
    assert_eq!(t.cursor_row(), 2);
    assert_eq!(t.cursor_col(), SCREEN_WIDTH - 1);
}

#[test]
fn sgr_red_then_printable_writes_red_cell() {
    let mut t = TerminalState::new();
    feed(&mut t, b"\x1b[31m");
    assert_eq!(t.current_color(), 0x04);
    t.putc(b'A');
    assert_eq!(cell(&t, 0, 0), (b'A', 0x04));
}

#[test]
fn sgr_maps_the_whole_palette() {
    let codes: [(u8, u8); 8] = [
        (b'0', 0x00),
        (b'1', 0x04),
        (b'2', 0x02),
        (b'3', 0x06),
        (b'4', 0x01),
        (b'5', 0x05),
        (b'6', 0x03),
        (b'7', 0x07),
    ];
    for &(digit, attr) in codes.iter() {
        let mut t = TerminalState::new();
        feed(&mut t, &[27, b'[', b'3', digit, b'm']);
        assert_eq!(t.current_color(), attr);
    }
}

#[test]
fn sgr_reset_restores_default() {
    let mut t = TerminalState::new();
    feed(&mut t, b"\x1b[31m");
    feed(&mut t, b"\x1b[0m");
    assert_eq!(t.current_color(), DEFAULT_COLOR);
}

#[test]
fn sgr_unknown_code_keeps_color() {
    let mut t = TerminalState::new();
    feed(&mut t, b"\x1b[31m");
    feed(&mut t, b"\x1b[99m");
    assert_eq!(t.current_color(), 0x04);
}

#[test]
fn sgr_uses_last_numeric_parameter() {
    let mut t = TerminalState::new();
    feed(&mut t, b"\x1b[1;31m");
    assert_eq!(t.current_color(), 0x04);
}

#[test]
fn last_row_wrap_scrolls_exactly_once() {
    let mut t = TerminalState::new();
    t.putc(b'A');  // row 0
    feed(&mut t, b"\x1b[2;1H");
    t.putc(b'B');  // row 1
    feed(&mut t, b"\x1b[25;1H");
    for i in 0..SCREEN_WIDTH {
        t.putc(b'0' + (i % 10) as u8);
    }
    // one scroll: row 0 ('A') discarded, 'B' moved up, the 80 characters
    // now stand on the next-to-last row, and the last row is blank
    assert_eq!(cell(&t, 0, 0).0, b'B');
    for i in 0..SCREEN_WIDTH {
        assert_eq!(cell(&t, i, SCREEN_HEIGHT - 2).0, b'0' + (i % 10) as u8);
    }
    for i in 0..SCREEN_WIDTH {
        assert_eq!(cell(&t, i, SCREEN_HEIGHT - 1).0, BLANK_CHAR);
    }
    assert_eq!(t.cursor_col(), 0);
    assert_eq!(t.cursor_row(), SCREEN_HEIGHT - 1);
}

#[test]
fn wrap_mid_screen_does_not_scroll() {
    let mut t = TerminalState::new();
    t.putc(b'A');
    feed(&mut t, b"\x1b[1;2H");
    for _ in 0..SCREEN_WIDTH - 1 {
        t.putc(b'x');
    }
    assert_eq!(t.cursor_col(), 0);
    assert_eq!(t.cursor_row(), 1);
    assert_eq!(cell(&t, 0, 0).0, b'A');
}

#[test]
fn oversized_escape_sequence_is_absorbed() {
    let mut t = TerminalState::new();
    t.putc(27);
    for _ in 0..40 {
        t.putc(b'1');
    }
    // the buffer filled long ago; the terminator is dropped, nothing decodes
    t.putc(b'H');
    assert!(t.escape_active());
    assert_eq!(t.cursor_col(), 0);
    assert_eq!(t.cursor_row(), 0);
    // a fresh escape marker recovers the decoder
    feed(&mut t, b"\x1b[5;10H");
    assert_eq!(t.cursor_col(), 9);
    assert_eq!(t.cursor_row(), 4);
}

#[test]
fn short_escape_sequence_is_a_no_op() {
    let mut t = TerminalState::new();
    feed(&mut t, b"\x1b[3;7H");
    t.putc(27);
    t.putc(b'A');  // letter right after the marker: one-byte buffer, no decode
    assert!(!t.escape_active());
    assert_eq!(t.cursor_col(), 6);
    assert_eq!(t.cursor_row(), 2);
}

#[test]
fn non_csi_escape_sequence_is_a_no_op() {
    let mut t = TerminalState::new();
    feed(&mut t, b"\x1b[3;7H");
    feed(&mut t, b"\x1b;5A");  // does not begin with '['
    assert!(!t.escape_active());
    assert_eq!(t.cursor_col(), 6);
    assert_eq!(t.cursor_row(), 2);
}

#[test]
fn unsupported_terminator_is_a_no_op() {
    let mut t = TerminalState::new();
    feed(&mut t, b"\x1b[3;7H");
    feed(&mut t, b"\x1b[5Z");
    assert!(!t.escape_active());
    assert_eq!(t.cursor_col(), 6);
    assert_eq!(t.cursor_row(), 2);
}

#[test]
fn cursor_arrow_commands_move_one_cell_and_clamp() {
    let mut t = TerminalState::new();
    feed(&mut t, b"\x1b[3;7H");  // row 2, column 6
    feed(&mut t, b"\x1b[A");
    assert_eq!((t.cursor_col(), t.cursor_row()), (6, 1));
    feed(&mut t, b"\x1b[B");
    assert_eq!((t.cursor_col(), t.cursor_row()), (6, 2));
    feed(&mut t, b"\x1b[C");
    assert_eq!((t.cursor_col(), t.cursor_row()), (7, 2));
    feed(&mut t, b"\x1b[D");
    assert_eq!((t.cursor_col(), t.cursor_row()), (6, 2));
    // clamped at every edge
    feed(&mut t, b"\x1b[1;1H");
    feed(&mut t, b"\x1b[A");
    feed(&mut t, b"\x1b[D");
    assert_eq!((t.cursor_col(), t.cursor_row()), (0, 0));
    feed(&mut t, b"\x1b[25;80H");
    feed(&mut t, b"\x1b[B");
    feed(&mut t, b"\x1b[C");
    assert_eq!(
        (t.cursor_col(), t.cursor_row()),
        (SCREEN_WIDTH - 1, SCREEN_HEIGHT - 1),
    );
}

#[test]
fn newline_carriage_return_and_backspace() {
    let mut t = TerminalState::new();
    feed(&mut t, b"ab");
    t.putc(b'\n');
    assert_eq!((t.cursor_col(), t.cursor_row()), (0, 1));
    feed(&mut t, b"cd");
    t.putc(b'\r');
    assert_eq!((t.cursor_col(), t.cursor_row()), (0, 1));
    // backspace erases the cell it steps onto
    feed(&mut t, b"e");
    t.putc(8);
    assert_eq!((t.cursor_col(), t.cursor_row()), (0, 1));
    assert_eq!(cell(&t, 0, 1), (BLANK_CHAR, DEFAULT_COLOR));
    // at column 0 backspace does nothing
    t.putc(8);
    assert_eq!((t.cursor_col(), t.cursor_row()), (0, 1));
    assert_eq!(cell(&t, 1, 1).0, b'd');
}

#[test]
fn newline_on_last_row_scrolls() {
    let mut t = TerminalState::new();
    feed(&mut t, b"\x1b[2;1H");
    t.putc(b'Q');
    feed(&mut t, b"\x1b[25;1H");
    t.putc(b'\n');
    assert_eq!((t.cursor_col(), t.cursor_row()), (0, SCREEN_HEIGHT - 1));
    assert_eq!(cell(&t, 0, 0).0, b'Q');
}

#[test]
fn other_control_bytes_are_no_ops() {
    let mut t = TerminalState::new();
    feed(&mut t, b"\x1b[3;7H");
    t.putc(7);  // bell
    t.putc(127);  // delete: outside the printable range
    t.putc(1);
    assert_eq!((t.cursor_col(), t.cursor_row()), (6, 2));
    assert_eq!(cell(&t, 6, 2).0, BLANK_CHAR);
}

#[test]
fn clear_entry_point_uses_current_color() {
    let mut t = TerminalState::new();
    feed(&mut t, b"\x1b[34m");
    feed(&mut t, b"zz");
    t.clear_display();
    assert_eq!((t.cursor_col(), t.cursor_row()), (0, 0));
    for i in 0..SCREEN_BYTES {
        let expected = if i % 2 == 0 { BLANK_CHAR } else { 0x01 };
        assert_eq!(t.screen_byte(i), expected);
    }
}
