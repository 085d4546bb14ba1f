use vga_terminal::parse::parse_number;
use vga_terminal::screen::BLANK_CHAR;
use vga_terminal::screen::SCREEN_WIDTH;
use vga_terminal::terminal::TerminalState;

fn cell_char(t: &TerminalState, x: usize, y: usize) -> u8 {
    t.screen_byte((y * SCREEN_WIDTH + x) * 2)
}

#[test]
fn put_string_writes_bytes_in_order() {
    let mut t = TerminalState::new();
    t.put_string(b"Hi!");
    assert_eq!(cell_char(&t, 0, 0), b'H');
    assert_eq!(cell_char(&t, 1, 0), b'i');
    assert_eq!(cell_char(&t, 2, 0), b'!');
    assert_eq!(t.cursor_col(), 3);
    assert_eq!(t.cursor_row(), 0);
}

#[test]
fn put_string_stops_at_first_zero() {
    let mut t = TerminalState::new();
    t.put_string(b"AB\0CD");
    assert_eq!(cell_char(&t, 0, 0), b'A');
    assert_eq!(cell_char(&t, 1, 0), b'B');
    assert_eq!(cell_char(&t, 2, 0), BLANK_CHAR);
    assert_eq!(cell_char(&t, 3, 0), BLANK_CHAR);
    assert_eq!(t.cursor_col(), 2);
}

#[test]
fn put_string_with_leading_zero_does_nothing() {
    let mut t = TerminalState::new();
    t.put_string(b"\0AB");
    assert_eq!(cell_char(&t, 0, 0), BLANK_CHAR);
    assert_eq!(t.cursor_col(), 0);
}

#[test]
fn put_string_without_zero_takes_every_byte() {
    let mut t = TerminalState::new();
    t.put_string(b"\x1b[31mok");
    assert_eq!(t.current_color(), 0x04);
    assert_eq!(cell_char(&t, 0, 0), b'o');
    assert_eq!(cell_char(&t, 1, 0), b'k');
}

#[test]
fn put_string_on_empty_input_does_nothing() {
    let mut t = TerminalState::new();
    t.put_string(b"");
    assert_eq!(t.cursor_col(), 0);
    assert_eq!(t.cursor_row(), 0);
}

#[test]
fn parse_number_folds_digits_base_ten() {
    assert_eq!(parse_number(b"0"), 0);
    assert_eq!(parse_number(b"7"), 7);
    assert_eq!(parse_number(b"42"), 42);
    assert_eq!(parse_number(b"123"), 123);
    assert_eq!(parse_number(b"010"), 10);
}

#[test]
fn parse_number_skips_non_digits() {
    assert_eq!(parse_number(b""), 0);
    assert_eq!(parse_number(b";"), 0);
    assert_eq!(parse_number(b"a1b2"), 12);
}
