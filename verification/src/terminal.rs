//! The terminal state machine: byte dispatch, escape-sequence decoding, and
//! cursor/color state.
//!
//! Every entry point is total: each of the 256 byte values has defined
//! behavior, and no input makes the driver fail. The behavior of each
//! operation is pinned by `step`, a mathematical transition function over
//! `TermView`, the abstract state.

use vstd::prelude::*;

use crate::parse::is_digit;
use crate::parse::parse_num;
use crate::parse::parse_number;
use crate::screen::cleared;
use crate::screen::scrolled;
use crate::screen::with_cell;
use crate::screen::Screen;
use crate::screen::BLANK_CHAR;
use crate::screen::DEFAULT_COLOR;
use crate::screen::SCREEN_BYTES;
use crate::screen::SCREEN_HEIGHT;
use crate::screen::SCREEN_WIDTH;

verus! {

/// Most bytes an open escape sequence may accumulate; later bytes are
/// silently dropped.
pub const ESCAPE_CAPACITY: usize = 32;

/// Behavioral variant selector. Stored and settable; the byte-processing
/// logic itself does not branch on it.
#[derive(Debug, Clone, Copy, PartialEq, Eq, Structural)]
pub enum TerminalMode {
    /// Normal text editor mode.
    TextEditor,
    /// Terminal mode with ANSI escape sequences.
    Terminal,
}

/// The abstract state of the driver: cursor, color, escape accumulation,
/// and the display grid as a byte sequence.
#[verifier::ext_equal]
pub ghost struct TermView {
    pub mode: TerminalMode,
    pub x: int,
    pub y: int,
    pub color: u8,
    pub esc: Seq<u8>,
    pub in_escape: bool,
    pub screen: Seq<u8>,
}

impl TermView {
    /// Well-formedness: the cursor is on the grid, the escape buffer is
    /// within capacity, and the grid has its fixed size.
    pub open spec fn wf(self) -> bool {
        &&& 0 <= self.x < SCREEN_WIDTH
        &&& 0 <= self.y < SCREEN_HEIGHT
        &&& self.esc.len() <= ESCAPE_CAPACITY
        &&& self.screen.len() == SCREEN_BYTES
    }

    /// The state a fresh driver starts in.
    pub open spec fn init() -> TermView {
        TermView {
            mode: TerminalMode::TextEditor,
            x: 0,
            y: 0,
            color: DEFAULT_COLOR,
            esc: Seq::empty(),
            in_escape: false,
            screen: cleared(DEFAULT_COLOR),
        }
    }
}

/// Whether `b` is an ASCII letter, which terminates an escape sequence.
pub open spec fn is_letter(b: u8) -> bool {
    (65 <= b <= 90) || (97 <= b <= 122)
}

/// Whether `b` is in the printable range the driver writes to the grid.
pub open spec fn is_printable(b: u8) -> bool {
    32 <= b < 127
}

/// Convert a 1-based parameter to a 0-based coordinate, clamped to
/// `[0, dim)`.
pub open spec fn to_coord(n: nat, dim: nat) -> int {
    let z: int = if n > 0 {
        n - 1
    } else {
        0
    };
    if z >= dim {
        dim - 1
    } else {
        z
    }
}

/// Scan the parameter bytes of a cursor-position sequence left to right.
/// Digits collect into the current run `num` (at most three kept); `;` closes
/// the run into the row parameter; everything else is ignored. The run left
/// open at the end is the column parameter if a `;` was seen, the row
/// parameter otherwise. Returns the 1-based (row, column) pair, each
/// defaulting to 1.
pub open spec fn scan_position(s: Seq<u8>, i: int, num: Seq<u8>, row: nat, seen: bool) -> (nat, nat)
    decreases s.len() - i,
{
    if i < 0 || i >= s.len() {
        if num.len() == 0 {
            (row, 1 as nat)
        } else if seen {
            (row, parse_num(num))
        } else {
            (parse_num(num), 1 as nat)
        }
    } else if is_digit(s[i]) {
        if num.len() < 3 {
            scan_position(s, i + 1, num.push(s[i]), row, seen)
        } else {
            scan_position(s, i + 1, num, row, seen)
        }
    } else if s[i] == 59 {
        if num.len() > 0 {
            scan_position(s, i + 1, Seq::empty(), parse_num(num), true)
        } else {
            scan_position(s, i + 1, Seq::empty(), row, true)
        }
    } else {
        scan_position(s, i + 1, num, row, seen)
    }
}

/// The 1-based (row, column) parameters of a cursor-position sequence,
/// scanned from the bytes between the `[` and the terminating command.
pub open spec fn csi_position(esc: Seq<u8>) -> (nat, nat) {
    scan_position(esc.subrange(1, esc.len() - 1), 0, Seq::empty(), 1, false)
}

/// Scan the parameter bytes of a graphic-rendition sequence left to right.
/// Digits collect into runs (at most three kept per run); any non-digit
/// closes the current run. The value of the last run is the selected code;
/// `None` when no digit occurs at all.
pub open spec fn scan_sgr(s: Seq<u8>, i: int, num: Seq<u8>, last: Option<nat>) -> Option<nat>
    decreases s.len() - i,
{
    if i < 0 || i >= s.len() {
        if num.len() > 0 {
            Some(parse_num(num))
        } else {
            last
        }
    } else if is_digit(s[i]) {
        if num.len() < 3 {
            scan_sgr(s, i + 1, num.push(s[i]), last)
        } else {
            scan_sgr(s, i + 1, num, last)
        }
    } else {
        if num.len() > 0 {
            scan_sgr(s, i + 1, Seq::empty(), Some(parse_num(num)))
        } else {
            scan_sgr(s, i + 1, Seq::empty(), last)
        }
    }
}

/// The color code a graphic-rendition sequence selects, if any.
pub open spec fn csi_sgr(esc: Seq<u8>) -> Option<nat> {
    scan_sgr(esc.subrange(1, esc.len() - 1), 0, Seq::empty(), None)
}

/// The attribute selected by graphic-rendition code `code`: 0 resets to the
/// default, 30 through 37 pick one of the eight palette colors, anything
/// else leaves the current attribute unchanged.
pub open spec fn sgr_color(code: Option<nat>, current: u8) -> u8 {
    match code {
        Option::None => current,
        Option::Some(n) => if n == 0 {
            0x07
        } else if n == 30 {
            0x00
        } else if n == 31 {
            0x04
        } else if n == 32 {
            0x02
        } else if n == 33 {
            0x06
        } else if n == 34 {
            0x01
        } else if n == 35 {
            0x05
        } else if n == 36 {
            0x03
        } else if n == 37 {
            0x07
        } else {
            current
        },
    }
}

/// Cursor moved up one row, stopping at the top edge.
pub open spec fn moved_up(v: TermView) -> TermView {
    if v.y > 0 {
        TermView { y: v.y - 1, ..v }
    } else {
        v
    }
}

/// Cursor moved down one row, stopping at the bottom edge.
pub open spec fn moved_down(v: TermView) -> TermView {
    if v.y < SCREEN_HEIGHT - 1 {
        TermView { y: v.y + 1, ..v }
    } else {
        v
    }
}

/// Cursor moved forward one column, stopping at the right edge.
pub open spec fn moved_forward(v: TermView) -> TermView {
    if v.x < SCREEN_WIDTH - 1 {
        TermView { x: v.x + 1, ..v }
    } else {
        v
    }
}

/// Cursor moved back one column, stopping at the left edge.
pub open spec fn moved_back(v: TermView) -> TermView {
    if v.x > 0 {
        TermView { x: v.x - 1, ..v }
    } else {
        v
    }
}

/// What interpreting the accumulated escape bytes does to the state.
/// Sequences that do not begin with `[`, are shorter than two bytes, or end
/// in an unsupported command leave the state unchanged.
pub open spec fn decode_escape(v: TermView) -> TermView {
    if v.esc.len() < 2 || v.esc[0] != 91 {
        v
    } else {
        let cmd = v.esc[v.esc.len() - 1];
        if cmd == 74 {  // 'J': clear the display, cursor home
            TermView { x: 0, y: 0, screen: cleared(v.color), ..v }
        } else if cmd == 72 {  // 'H': cursor position
            let (row, col) = csi_position(v.esc);
            TermView {
                x: to_coord(col, SCREEN_WIDTH as nat),
                y: to_coord(row, SCREEN_HEIGHT as nat),
                ..v
            }
        } else if cmd == 109 {  // 'm': select graphic rendition
            TermView { color: sgr_color(csi_sgr(v.esc), v.color), ..v }
        } else if cmd == 65 {  // 'A'
            moved_up(v)
        } else if cmd == 66 {  // 'B'
            moved_down(v)
        } else if cmd == 67 {  // 'C'
            moved_forward(v)
        } else if cmd == 68 {  // 'D'
            moved_back(v)
        } else {
            v
        }
    }
}

/// The transition one input byte makes: the full meaning of `putc`.
pub open spec fn step(v: TermView, c: u8) -> TermView {
    if c == 27 {  // escape marker: open a sequence
        TermView { in_escape: true, esc: Seq::empty(), ..v }
    } else if c == 10 {  // line feed
        if v.y < SCREEN_HEIGHT - 1 {
            TermView { x: 0, y: v.y + 1, ..v }
        } else {
            TermView { x: 0, screen: scrolled(v.screen, v.color), ..v }
        }
    } else if c == 13 {  // carriage return
        TermView { x: 0, ..v }
    } else if c == 8 {  // backspace: step back and blank that cell
        if v.x > 0 {
            TermView {
                x: v.x - 1,
                screen: with_cell(v.screen, v.x - 1, v.y, BLANK_CHAR, v.color),
                ..v
            }
        } else {
            v
        }
    } else if v.in_escape {
        if v.esc.len() < ESCAPE_CAPACITY {
            let accumulated = v.esc.push(c);
            if is_letter(c) {
                let decoded = decode_escape(TermView { esc: accumulated, ..v });
                TermView { in_escape: false, esc: Seq::empty(), ..decoded }
            } else {
                TermView { esc: accumulated, ..v }
            }
        } else {
            v
        }
    } else if is_printable(c) {
        let written = with_cell(v.screen, v.x, v.y, c, v.color);
        if v.x + 1 < SCREEN_WIDTH {
            TermView { x: v.x + 1, screen: written, ..v }
        } else if v.y < SCREEN_HEIGHT - 1 {
            TermView { x: 0, y: v.y + 1, screen: written, ..v }
        } else {
            TermView { x: 0, screen: scrolled(written, v.color), ..v }
        }
    } else {
        v
    }
}

/// The state after feeding the bytes of `s` in order.
pub open spec fn run(v: TermView, s: Seq<u8>) -> TermView
    decreases s.len(),
{
    if s.len() == 0 {
        v
    } else {
        run(step(v, s[0]), s.subrange(1, s.len() as int))
    }
}

/// Index of the first zero byte of `s`, or `s.len()` if none occurs.
pub open spec fn first_zero(s: Seq<u8>) -> int
    decreases s.len(),
{
    if s.len() == 0 {
        0
    } else if s[0] == 0 {
        0
    } else {
        1 + first_zero(s.subrange(1, s.len() as int))
    }
}

/// The driver's owned state: mode, cursor, color, escape accumulation, and
/// the display it writes.
pub struct TerminalState {
    mode: TerminalMode,
    cursor_x: usize,
    cursor_y: usize,
    color: u8,
    escape_buffer: Vec<u8>,
    in_escape: bool,
    screen: Screen,
}

impl View for TerminalState {
    type V = TermView;

    closed spec fn view(&self) -> TermView {
        TermView {
            mode: self.mode,
            x: self.cursor_x as int,
            y: self.cursor_y as int,
            color: self.color,
            esc: self.escape_buffer@,
            in_escape: self.in_escape,
            screen: self.screen@,
        }
    }
}

impl TerminalState {
    /// The concrete state is well-formed exactly when its abstraction is.
    pub open spec fn wf(&self) -> bool {
        self@.wf()
    }

    /// A fresh driver: text editor mode, cursor at the origin, default
    /// color, no escape sequence open, display blanked.
    pub fn new() -> (t: TerminalState)
        ensures
            t.wf(),
            t@ == TermView::init(),
    {
        let t = TerminalState {
            mode: TerminalMode::TextEditor,
            cursor_x: 0,
            cursor_y: 0,
            color: DEFAULT_COLOR,
            escape_buffer: Vec::new(),
            in_escape: false,
            screen: Screen::new(),
        };
        proof {
            assert(t@ =~= TermView::init());
        }
        t
    }

    /// Switch between terminal modes.
    pub fn set_mode(&mut self, mode: TerminalMode)
        requires
            old(self).wf(),
        ensures
            final(self).wf(),
            final(self)@ == (TermView { mode, ..old(self)@ }),
    {
        self.mode = mode;
    }

    /// The current mode.
    pub fn current_mode(&self) -> (m: TerminalMode)
        ensures
            m == self@.mode,
    {
        self.mode
    }

    /// The cursor's column.
    pub fn cursor_col(&self) -> (x: usize)
        ensures
            x == self@.x,
    {
        self.cursor_x
    }

    /// The cursor's row.
    pub fn cursor_row(&self) -> (y: usize)
        ensures
            y == self@.y,
    {
        self.cursor_y
    }

    /// The current attribute byte.
    pub fn current_color(&self) -> (c: u8)
        ensures
            c == self@.color,
    {
        self.color
    }

    /// Whether an escape sequence is open.
    pub fn escape_active(&self) -> (b: bool)
        ensures
            b == self@.in_escape,
    {
        self.in_escape
    }

    /// The display byte at grid offset `i`.
    pub fn screen_byte(&self, i: usize) -> (b: u8)
        requires
            self.wf(),
            i < SCREEN_BYTES,
        ensures
            b == self@.screen[i as int],
    {
        self.screen.byte_at(i)
    }

    /// Move the cursor up one row, stopping at the top edge.
    pub fn cursor_up(&mut self)
        requires
            old(self).wf(),
        ensures
            final(self).wf(),
            final(self)@ == moved_up(old(self)@),
    {
        if self.cursor_y > 0 {
            self.cursor_y -= 1;
        }
    }

    /// Move the cursor down one row, stopping at the bottom edge.
    pub fn cursor_down(&mut self)
        requires
            old(self).wf(),
        ensures
            final(self).wf(),
            final(self)@ == moved_down(old(self)@),
    {
        if self.cursor_y < SCREEN_HEIGHT - 1 {
            self.cursor_y += 1;
        }
    }

    /// Move the cursor forward one column, stopping at the right edge.
    pub fn cursor_forward(&mut self)
        requires
            old(self).wf(),
        ensures
            final(self).wf(),
            final(self)@ == moved_forward(old(self)@),
    {
        if self.cursor_x < SCREEN_WIDTH - 1 {
            self.cursor_x += 1;
        }
    }

    /// Move the cursor back one column, stopping at the left edge.
    pub fn cursor_back(&mut self)
        requires
            old(self).wf(),
        ensures
            final(self).wf(),
            final(self)@ == moved_back(old(self)@),
    {
        if self.cursor_x > 0 {
            self.cursor_x -= 1;
        }
    }

    /// Write `c` into the cell under the cursor with the current color; the
    /// cursor does not move.
    pub fn write_char_at(&mut self, c: u8)
        requires
            old(self).wf(),
        ensures
            final(self).wf(),
            final(self)@ == (TermView {
                screen: with_cell(old(self)@.screen, old(self)@.x, old(self)@.y, c, old(self)@.color),
                ..old(self)@
            }),
    {
        self.screen.write_cell(self.cursor_x, self.cursor_y, c, self.color);
    }

    /// Scroll the display up one row, blanking the last row with the current
    /// color; the cursor does not move.
    pub fn scroll_up(&mut self)
        requires
            old(self).wf(),
        ensures
            final(self).wf(),
            final(self)@ == (TermView {
                screen: scrolled(old(self)@.screen, old(self)@.color),
                ..old(self)@
            }),
    {
        self.screen.scroll_up(self.color);
    }

    /// Interpret an accumulated cursor-position sequence: set the cursor to
    /// the 1-based `row;col` parameters, converted to 0-based and clamped to
    /// the grid on each axis independently.
    pub fn cursor_position(&mut self)
        requires
            old(self).wf(),
            old(self)@.esc.len() >= 2,
        ensures
            final(self).wf(),
            final(self)@ == (TermView {
                x: to_coord(csi_position(old(self)@.esc).1, SCREEN_WIDTH as nat),
                y: to_coord(csi_position(old(self)@.esc).0, SCREEN_HEIGHT as nat),
                ..old(self)@
            }),
    {
        let ghost inner = old(self)@.esc.subrange(1, old(self)@.esc.len() - 1);
        let mut row: usize = 1;
        let mut col: usize = 1;
        let mut num: Vec<u8> = Vec::new();
        let mut seen: bool = false;
        let mut idx: usize = 1;
        let end = self.escape_buffer.len() - 1;
        while idx < end
            invariant
                *self == *old(self),
                self.wf(),
                self@.esc.len() >= 2,
                end == self@.esc.len() - 1,
                inner == self@.esc.subrange(1, self@.esc.len() - 1),
                1 <= idx <= end,
                num@.len() <= 3,
                col == 1,
                scan_position(inner, idx - 1, num@, row as nat, seen) == scan_position(
                    inner,
                    0,
                    Seq::empty(),
                    1,
                    false,
                ),
            decreases end - idx,
        {
            let ch = self.escape_buffer[idx];
            proof {
                assert(inner[idx - 1] == self@.esc[idx as int]);
            }
            if ch >= 48 && ch <= 57 {
                if num.len() < 3 {
                    num.push(ch);
                }
            } else if ch == 59 {
                if num.len() > 0 {
                    proof {
                        crate::parse::lemma_parse_num_small(num@);
                    }
                    row = parse_number(num.as_slice());
                }
                num = Vec::new();
                seen = true;
            }
            idx += 1;
        }
        if num.len() > 0 {
            proof {
                crate::parse::lemma_parse_num_small(num@);
            }
            if seen {
                col = parse_number(num.as_slice());
            } else {
                row = parse_number(num.as_slice());
            }
        }
        if row > 0 {
            row -= 1;
        }
        if col > 0 {
            col -= 1;
        }
        if row >= SCREEN_HEIGHT {
            row = SCREEN_HEIGHT - 1;
        }
        if col >= SCREEN_WIDTH {
            col = SCREEN_WIDTH - 1;
        }
        self.cursor_x = col;
        self.cursor_y = row;
    }

    /// Interpret an accumulated graphic-rendition sequence: the last numeric
    /// parameter selects the color; with no numeric parameter, or an
    /// unmapped code, the color stays.
    pub fn handle_sgr(&mut self)
        requires
            old(self).wf(),
            old(self)@.esc.len() >= 2,
        ensures
            final(self).wf(),
            final(self)@ == (TermView {
                color: sgr_color(csi_sgr(old(self)@.esc), old(self)@.color),
                ..old(self)@
            }),
    {
        let ghost inner = old(self)@.esc.subrange(1, old(self)@.esc.len() - 1);
        let mut num: Vec<u8> = Vec::new();
        let mut last: Option<usize> = None;
        let mut idx: usize = 1;
        let end = self.escape_buffer.len() - 1;
        while idx < end
            invariant
                *self == *old(self),
                self.wf(),
                self@.esc.len() >= 2,
                end == self@.esc.len() - 1,
                inner == self@.esc.subrange(1, self@.esc.len() - 1),
                1 <= idx <= end,
                num@.len() <= 3,
                scan_sgr(
                    inner,
                    idx - 1,
                    num@,
                    match last {
                        Option::Some(n) => Some(n as nat),
                        Option::None => None,
                    },
                ) == scan_sgr(inner, 0, Seq::empty(), None),
            decreases end - idx,
        {
            let ch = self.escape_buffer[idx];
            let ghost num0 = num@;
            let ghost last0: Option<nat> = match last {
                Option::Some(n) => Some(n as nat),
                Option::None => None,
            };
            proof {
                assert(inner[idx - 1] == self@.esc[idx as int]);
            }
            if ch >= 48 && ch <= 57 {
                if num.len() < 3 {
                    num.push(ch);
                }
            } else {
                if num.len() > 0 {
                    proof {
                        crate::parse::lemma_parse_num_small(num@);
                    }
                    last = Some(parse_number(num.as_slice()));
                    num = Vec::new();
                }
            }
            proof {
                let lastv: Option<nat> = match last {
                    Option::Some(n) => Some(n as nat),
                    Option::None => None,
                };
                if num0.len() == 0 {
                    assert(num0 =~= Seq::<u8>::empty());
                }
                if num@.len() == 0 {
                    assert(num@ =~= Seq::<u8>::empty());
                }
                assert(scan_sgr(inner, idx - 1, num0, last0) == scan_sgr(
                    inner,
                    idx as int,
                    num@,
                    lastv,
                ));
            }
            idx += 1;
        }
        if num.len() > 0 {
            proof {
                crate::parse::lemma_parse_num_small(num@);
            }
            last = Some(parse_number(num.as_slice()));
        }
        if let Some(code) = last {
            self.color = if code == 0 {
                0x07
            } else if code == 30 {
                0x00
            } else if code == 31 {
                0x04
            } else if code == 32 {
                0x02
            } else if code == 33 {
                0x06
            } else if code == 34 {
                0x01
            } else if code == 35 {
                0x05
            } else if code == 36 {
                0x03
            } else if code == 37 {
                0x07
            } else {
                self.color
            };
        }
    }

    /// Interpret the accumulated escape bytes: a `[`-headed sequence of at
    /// least two bytes dispatches on its final command byte; anything else
    /// is a no-op.
    pub fn handle_escape_sequence(&mut self)
        requires
            old(self).wf(),
        ensures
            final(self).wf(),
            final(self)@ == decode_escape(old(self)@),
    {
        if self.escape_buffer.len() < 2 {
            return ;
        }
        if self.escape_buffer[0] != 91 {
            return ;
        }
        let cmd = self.escape_buffer[self.escape_buffer.len() - 1];
        if cmd == 74 {
            self.clear_display();
        } else if cmd == 72 {
            self.cursor_position();
        } else if cmd == 109 {
            self.handle_sgr();
        } else if cmd == 65 {
            self.cursor_up();
        } else if cmd == 66 {
            self.cursor_down();
        } else if cmd == 67 {
            self.cursor_forward();
        } else if cmd == 68 {
            self.cursor_back();
        }
    }

    /// Blank every cell with the current color and send the cursor home.
    pub fn clear_display(&mut self)
        requires
            old(self).wf(),
        ensures
            final(self).wf(),
            final(self)@ == (TermView {
                x: 0,
                y: 0,
                screen: cleared(old(self)@.color),
                ..old(self)@
            }),
    {
        self.screen.fill(self.color);
        self.cursor_x = 0;
        self.cursor_y = 0;
    }

    /// Feed one byte through the dispatcher. Total: every byte value has
    /// defined behavior, given exactly by `step`.
    pub fn putc(&mut self, c: u8)
        requires
            old(self).wf(),
        ensures
            final(self).wf(),
            final(self)@ == step(old(self)@, c),
    {
        if c == 27 {
            self.in_escape = true;
            self.escape_buffer = Vec::new();
        } else if c == 10 {
            self.cursor_x = 0;
            if self.cursor_y < SCREEN_HEIGHT - 1 {
                self.cursor_y += 1;
            } else {
                self.scroll_up();
            }
        } else if c == 13 {
            self.cursor_x = 0;
        } else if c == 8 {
            if self.cursor_x > 0 {
                self.cursor_x -= 1;
                self.write_char_at(BLANK_CHAR);
            }
        } else if self.in_escape {
            if self.escape_buffer.len() < ESCAPE_CAPACITY {
                self.escape_buffer.push(c);
                if (c >= 65 && c <= 90) || (c >= 97 && c <= 122) {
                    self.handle_escape_sequence();
                    self.in_escape = false;
                    self.escape_buffer = Vec::new();
                }
            }
        } else if c >= 32 && c < 127 {
            self.write_char_at(c);
            if self.cursor_x + 1 < SCREEN_WIDTH {
                self.cursor_x += 1;
            } else if self.cursor_y < SCREEN_HEIGHT - 1 {
                self.cursor_x = 0;
                self.cursor_y += 1;
            } else {
                self.cursor_x = 0;
                self.scroll_up();
            }
        }
        proof {
            assert(self@ =~= step(old(self)@, c));
        }
    }

    /// Feed the bytes of `bytes` in order, stopping at the first zero byte;
    /// bytes after it are never processed.
    pub fn put_string(&mut self, bytes: &[u8])
        requires
            old(self).wf(),
        ensures
            final(self).wf(),
            final(self)@ == run(old(self)@, bytes@.take(first_zero(bytes@))),
    {
        proof {
            assert(bytes@.take(0) =~= Seq::<u8>::empty());
        }
        let mut i: usize = 0;
        while i < bytes.len() && bytes[i] != 0
            invariant
                i <= bytes@.len(),
                forall|j: int| 0 <= j < i ==> bytes@[j] != 0,
                self.wf(),
                self@ == run(old(self)@, bytes@.take(i as int)),
            decreases bytes@.len() - i,
        {
            proof {
                lemma_run_snoc(old(self)@, bytes@.take(i as int), bytes@[i as int]);
                assert(bytes@.take(i + 1) =~= bytes@.take(i as int).push(bytes@[i as int]));
            }
            self.putc(bytes[i]);
            i += 1;
        }
        proof {
            lemma_first_zero(bytes@);
            assert(first_zero(bytes@) == i);
        }
    }
}

/// Feeding `s.push(c)` is feeding `s`, then feeding `c`.
pub proof fn lemma_run_snoc(v: TermView, s: Seq<u8>, c: u8)
    ensures
        run(v, s.push(c)) == step(run(v, s), c),
    decreases s.len(),
{
    let snoc = s.push(c);
    if s.len() == 0 {
        assert(snoc[0] == c);
        assert(snoc.subrange(1, snoc.len() as int) =~= Seq::<u8>::empty());
        assert(run(v, snoc) == run(step(v, c), Seq::<u8>::empty()));
        assert(run(step(v, c), Seq::<u8>::empty()) == step(v, c));
        assert(run(v, s) == v);
    } else {
        let tail = s.subrange(1, s.len() as int);
        lemma_run_snoc(step(v, s[0]), tail, c);
        assert(snoc[0] == s[0]);
        assert(snoc.subrange(1, snoc.len() as int) =~= tail.push(c));
        assert(run(v, snoc) == run(step(v, s[0]), tail.push(c)));
        assert(run(v, s) == run(step(v, s[0]), tail));
    }
}

/// `first_zero` marks the first zero: everything before it is nonzero, and
/// it points at a zero byte unless none occurs.
pub proof fn lemma_first_zero(s: Seq<u8>)
    ensures
        0 <= first_zero(s) <= s.len(),
        forall|j: int| 0 <= j < first_zero(s) ==> s[j] != 0,
        first_zero(s) < s.len() ==> s[first_zero(s)] == 0,
    decreases s.len(),
{
    if s.len() > 0 && s[0] != 0 {
        let tail = s.subrange(1, s.len() as int);
        lemma_first_zero(tail);
        assert forall|j: int| 0 <= j < first_zero(s) implies s[j] != 0 by {
            if j > 0 {
                assert(s[j] == tail[j - 1]);
            }
        }
    }
}

} // verus!
