//! The display writer: the one component that mutates the cell grid.
//!
//! The grid is `SCREEN_WIDTH x SCREEN_HEIGHT` cells, each an interleaved
//! (character byte, attribute byte) pair at offset `(y * SCREEN_WIDTH + x) * 2`.

use vstd::prelude::*;

verus! {

/// Cells per row.
pub const SCREEN_WIDTH: usize = 80;
/// Rows on the display.
pub const SCREEN_HEIGHT: usize = 25;
/// Bytes in one row: two per cell.
pub const ROW_BYTES: usize = 160;
/// Bytes in the whole grid.
pub const SCREEN_BYTES: usize = 4000;
/// The character written into blanked cells.
pub const BLANK_CHAR: u8 = 32;
/// White on black, the attribute a fresh terminal starts with.
pub const DEFAULT_COLOR: u8 = 0x07;

/// Byte offset of the cell at column `x`, row `y`.
pub open spec fn cell_offset(x: int, y: int) -> int {
    (y * (SCREEN_WIDTH as int) + x) * 2
}

/// The byte a blanked grid holds at offset `i`: a space on even offsets,
/// the attribute on odd ones.
pub open spec fn blank_byte(i: int, color: u8) -> u8 {
    if i % 2 == 0 {
        BLANK_CHAR
    } else {
        color
    }
}

/// A grid in which every cell is (space, `color`).
pub open spec fn cleared(color: u8) -> Seq<u8> {
    Seq::new(SCREEN_BYTES as nat, |i: int| blank_byte(i, color))
}

/// `s` with the cell at (`x`, `y`) replaced by (`ch`, `color`).
pub open spec fn with_cell(s: Seq<u8>, x: int, y: int, ch: u8, color: u8) -> Seq<u8> {
    s.update(cell_offset(x, y), ch).update(cell_offset(x, y) + 1, color)
}

/// `s` scrolled up one row: every row but the last takes the row below it,
/// and the last row is blanked with `color`.
pub open spec fn scrolled(s: Seq<u8>, color: u8) -> Seq<u8> {
    Seq::new(
        SCREEN_BYTES as nat,
        |i: int|
            if i < SCREEN_BYTES - ROW_BYTES {
                s[i + ROW_BYTES]
            } else {
                blank_byte(i, color)
            },
    )
}

/// The exclusive writer over the fixed-size display region. In this model the
/// region is owned storage; mutation happens only through the methods here.
pub struct Screen {
    cells: Vec<u8>,
}

impl View for Screen {
    type V = Seq<u8>;

    closed spec fn view(&self) -> Seq<u8> {
        self.cells@
    }
}

impl Screen {
    /// The grid always holds exactly one byte pair per cell.
    pub open spec fn wf(&self) -> bool {
        self@.len() == SCREEN_BYTES
    }

    /// A fresh display: every cell blanked with the default attribute.
    pub fn new() -> (s: Screen)
        ensures
            s.wf(),
            s@ == cleared(DEFAULT_COLOR),
    {
        let mut cells: Vec<u8> = Vec::new();
        let mut i: usize = 0;
        while i < SCREEN_BYTES
            invariant
                i <= SCREEN_BYTES,
                cells@.len() == i,
                forall|j: int| 0 <= j < i ==> cells@[j] == blank_byte(j, DEFAULT_COLOR),
            decreases SCREEN_BYTES - i,
        {
            if i % 2 == 0 {
                cells.push(BLANK_CHAR);
            } else {
                cells.push(DEFAULT_COLOR);
            }
            i += 1;
        }
        let s = Screen { cells };
        proof {
            assert(s@ =~= cleared(DEFAULT_COLOR));
        }
        s
    }

    /// The byte at grid offset `i`; lets callers observe the region.
    pub fn byte_at(&self, i: usize) -> (b: u8)
        requires
            self.wf(),
            i < SCREEN_BYTES,
        ensures
            b == self@[i as int],
    {
        self.cells[i]
    }

    /// Write the pair (`ch`, `color`) into the cell at (`x`, `y`).
    pub fn write_cell(&mut self, x: usize, y: usize, ch: u8, color: u8)
        requires
            old(self).wf(),
            x < SCREEN_WIDTH,
            y < SCREEN_HEIGHT,
        ensures
            final(self).wf(),
            final(self)@ == with_cell(old(self)@, x as int, y as int, ch, color),
    {
        let offset = (y * SCREEN_WIDTH + x) * 2;
        self.cells.set(offset, ch);
        self.cells.set(offset + 1, color);
    }

    /// Blank the whole grid with (space, `color`).
    pub fn fill(&mut self, color: u8)
        requires
            old(self).wf(),
        ensures
            final(self).wf(),
            final(self)@ == cleared(color),
    {
        let mut i: usize = 0;
        while i < SCREEN_BYTES
            invariant
                i <= SCREEN_BYTES,
                self@.len() == SCREEN_BYTES,
                forall|j: int| 0 <= j < i ==> self@[j] == blank_byte(j, color),
            decreases SCREEN_BYTES - i,
        {
            if i % 2 == 0 {
                self.cells.set(i, BLANK_CHAR);
            } else {
                self.cells.set(i, color);
            }
            i += 1;
        }
        proof {
            assert(self@ =~= cleared(color));
        }
    }

    /// Scroll the grid up one row, blanking the last row with `color`.
    /// Rows are copied top to bottom, so each row is read before it is
    /// overwritten.
    pub fn scroll_up(&mut self, color: u8)
        requires
            old(self).wf(),
        ensures
            final(self).wf(),
            final(self)@ == scrolled(old(self)@, color),
    {
        let mut i: usize = 0;
        while i < SCREEN_BYTES - ROW_BYTES
            invariant
                i <= SCREEN_BYTES - ROW_BYTES,
                self@.len() == SCREEN_BYTES,
                forall|j: int| 0 <= j < i ==> self@[j] == old(self)@[j + ROW_BYTES],
                forall|j: int| i <= j < SCREEN_BYTES ==> self@[j] == old(self)@[j],
            decreases SCREEN_BYTES - ROW_BYTES - i,
        {
            let b = self.cells[i + ROW_BYTES];
            self.cells.set(i, b);
            i += 1;
        }
        let mut k: usize = SCREEN_BYTES - ROW_BYTES;
        while k < SCREEN_BYTES
            invariant
                SCREEN_BYTES - ROW_BYTES <= k <= SCREEN_BYTES,
                self@.len() == SCREEN_BYTES,
                forall|j: int|
                    0 <= j < SCREEN_BYTES - ROW_BYTES ==> self@[j] == old(self)@[j + ROW_BYTES],
                forall|j: int| SCREEN_BYTES - ROW_BYTES <= j < k ==> self@[j] == blank_byte(j, color),
            decreases SCREEN_BYTES - k,
        {
            if k % 2 == 0 {
                self.cells.set(k, BLANK_CHAR);
            } else {
                self.cells.set(k, color);
            }
            k += 1;
        }
        proof {
            assert(self@ =~= scrolled(old(self)@, color));
        }
    }
}

} // verus!
