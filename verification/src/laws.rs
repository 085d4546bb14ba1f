//! Laws the driver obeys, proved over the transition model.

use vstd::prelude::*;

use crate::parse::parse_num;
use crate::screen::cell_offset;
use crate::screen::blank_byte;
use crate::screen::cleared;
use crate::screen::scrolled;
use crate::screen::ROW_BYTES;
use crate::screen::SCREEN_BYTES;
use crate::screen::SCREEN_HEIGHT;
use crate::screen::SCREEN_WIDTH;
use crate::terminal::csi_position;
use crate::terminal::csi_sgr;
use crate::terminal::decode_escape;
use crate::terminal::is_printable;
use crate::terminal::lemma_run_snoc;
use crate::terminal::run;
use crate::terminal::scan_position;
use crate::terminal::scan_sgr;
use crate::terminal::sgr_color;
use crate::terminal::step;
use crate::terminal::to_coord;
use crate::terminal::TermView;
use crate::terminal::ESCAPE_CAPACITY;

verus! {

/// Interpreting an escape sequence keeps the state well-formed.
pub proof fn lemma_decode_wf(v: TermView)
    requires
        v.wf(),
    ensures
        decode_escape(v).wf(),
{
}

/// Every byte keeps the state well-formed: after any `putc` the cursor
/// satisfies `0 <= x < SCREEN_WIDTH` and `0 <= y < SCREEN_HEIGHT`.
pub proof fn lemma_cursor_in_bounds(v: TermView, c: u8)
    requires
        v.wf(),
    ensures
        step(v, c).wf(),
        0 <= step(v, c).x < SCREEN_WIDTH,
        0 <= step(v, c).y < SCREEN_HEIGHT,
{
    if !(c == 27 || c == 10 || c == 13 || c == 8) && v.in_escape && v.esc.len()
        < ESCAPE_CAPACITY {
        lemma_decode_wf(TermView { esc: v.esc.push(c), ..v });
    }
}

/// Feeding a whole byte sequence keeps the state well-formed.
pub proof fn lemma_run_wf(v: TermView, s: Seq<u8>)
    requires
        v.wf(),
    ensures
        run(v, s).wf(),
    decreases s.len(),
{
    if s.len() > 0 {
        lemma_cursor_in_bounds(v, s[0]);
        lemma_run_wf(step(v, s[0]), s.subrange(1, s.len() as int));
    }
}

/// The state after feeding the four bytes `ESC [ 2 J`.
pub open spec fn after_clear_sequence(v: TermView) -> TermView {
    run(v, seq![27u8, 91u8, 50u8, 74u8])
}

/// Feeding `ESC [ 2 J` clears every cell to (space, current color) and
/// resets the cursor to the origin; the color and mode stay.
pub proof fn lemma_clear_sequence(v: TermView)
    requires
        v.wf(),
        !v.in_escape,
    ensures
        after_clear_sequence(v).screen == cleared(v.color),
        after_clear_sequence(v).x == 0,
        after_clear_sequence(v).y == 0,
        after_clear_sequence(v).color == v.color,
        after_clear_sequence(v).mode == v.mode,
        !after_clear_sequence(v).in_escape,
{
    let s0 = Seq::<u8>::empty();
    let r1 = step(v, 27);
    let r2 = step(r1, 91);
    let r3 = step(r2, 50);
    let r4 = step(r3, 74);
    assert(seq![27u8] =~= s0.push(27u8));
    lemma_run_snoc(v, s0, 27);
    assert(run(v, seq![27u8]) == r1);
    assert(seq![27u8, 91u8] =~= seq![27u8].push(91u8));
    lemma_run_snoc(v, seq![27u8], 91);
    assert(run(v, seq![27u8, 91u8]) == r2);
    assert(seq![27u8, 91u8, 50u8] =~= seq![27u8, 91u8].push(50u8));
    lemma_run_snoc(v, seq![27u8, 91u8], 50);
    assert(run(v, seq![27u8, 91u8, 50u8]) == r3);
    assert(seq![27u8, 91u8, 50u8, 74u8] =~= seq![27u8, 91u8, 50u8].push(74u8));
    lemma_run_snoc(v, seq![27u8, 91u8, 50u8], 74);
    assert(run(v, seq![27u8, 91u8, 50u8, 74u8]) == r4);
    let esc3 = r3.esc.push(74u8);
    assert(esc3[0] == 91u8);
    assert(esc3[2] == 74u8);
    assert(esc3.len() == 3);
}

/// Feed the bytes of `s` one at a time, establishing `run` along the way.
proof fn lemma_run_prefixes(v: TermView, s: Seq<u8>, i: int)
    requires
        0 <= i <= s.len(),
    ensures
        run(v, s.take(i)) == if i == 0 {
            v
        } else {
            step(run(v, s.take(i - 1)), s[i - 1])
        },
{
    if i == 0 {
        assert(s.take(0) =~= Seq::<u8>::empty());
    } else {
        assert(s.take(i) =~= s.take(i - 1).push(s[i - 1]));
        lemma_run_snoc(v, s.take(i - 1), s[i - 1]);
    }
}

/// Feeding `ESC [ 5 ; 10 H` puts the cursor at column 9, row 4: the 1-based
/// parameters, made 0-based.
pub proof fn lemma_position_sequence(v: TermView)
    requires
        v.wf(),
        !v.in_escape,
    ensures
        run(v, seq![27u8, 91u8, 53u8, 59u8, 49u8, 48u8, 72u8]).x == 9,
        run(v, seq![27u8, 91u8, 53u8, 59u8, 49u8, 48u8, 72u8]).y == 4,
        run(v, seq![27u8, 91u8, 53u8, 59u8, 49u8, 48u8, 72u8]).screen == v.screen,
        run(v, seq![27u8, 91u8, 53u8, 59u8, 49u8, 48u8, 72u8]).color == v.color,
{
    let s = seq![27u8, 91u8, 53u8, 59u8, 49u8, 48u8, 72u8];
    let r1 = step(v, 27);
    let r2 = step(r1, 91);
    let r3 = step(r2, 53);
    let r4 = step(r3, 59);
    let r5 = step(r4, 49);
    let r6 = step(r5, 48);
    let r7 = step(r6, 72);
    lemma_run_prefixes(v, s, 1);
    lemma_run_prefixes(v, s, 2);
    lemma_run_prefixes(v, s, 3);
    lemma_run_prefixes(v, s, 4);
    lemma_run_prefixes(v, s, 5);
    lemma_run_prefixes(v, s, 6);
    lemma_run_prefixes(v, s, 7);
    assert(s.take(7) =~= s);
    assert(run(v, s.take(1)) == r1);
    assert(run(v, s.take(2)) == r2);
    assert(run(v, s.take(3)) == r3);
    assert(run(v, s.take(4)) == r4);
    assert(run(v, s.take(5)) == r5);
    assert(run(v, s.take(6)) == r6);
    assert(run(v, s) == r7);
    // the accumulated sequence handed to the decoder
    let esc = r6.esc.push(72u8);
    assert(r6.esc =~= seq![91u8, 53u8, 59u8, 49u8, 48u8]);
    assert(esc.len() == 6);
    assert(esc[0] == 91);
    assert(esc[5] == 72);
    let inner = esc.subrange(1, 5);
    assert(inner =~= seq![53u8, 59u8, 49u8, 48u8]);
    // the parameter scan: "5", then ";", then "10"
    let five = Seq::<u8>::empty().push(53u8);
    let ten = Seq::<u8>::empty().push(49u8).push(48u8);
    assert(parse_num(five) == 5) by {
        assert(five.drop_last() =~= Seq::<u8>::empty());
    }
    assert(parse_num(ten) == 10) by {
        let one = Seq::<u8>::empty().push(49u8);
        assert(one.drop_last() =~= Seq::<u8>::empty());
        assert(parse_num(Seq::<u8>::empty()) == 0);
        assert(parse_num(one) == 1);
        assert(ten.drop_last() =~= one);
        assert(ten[1] == 48u8);
    }
    assert(scan_position(inner, 0, Seq::empty(), 1, false) == scan_position(inner, 1, five, 1, false));
    assert(scan_position(inner, 1, five, 1, false) == scan_position(inner, 2, Seq::empty(), 5, true));
    assert(scan_position(inner, 2, Seq::empty(), 5, true) == scan_position(
        inner,
        3,
        Seq::<u8>::empty().push(49u8),
        5,
        true,
    ));
    assert(scan_position(inner, 3, Seq::<u8>::empty().push(49u8), 5, true) == scan_position(
        inner,
        4,
        ten,
        5,
        true,
    ));
    assert(scan_position(inner, 4, ten, 5, true) == ((5 as nat, 10 as nat)));
    assert(csi_position(esc) == ((5 as nat, 10 as nat)));
    assert(to_coord(10 as nat, SCREEN_WIDTH as nat) == 9);
    assert(to_coord(5 as nat, SCREEN_HEIGHT as nat) == 4);
}

/// Feeding `ESC [ 9 9 H`, whose row parameter is beyond the last row,
/// clamps the cursor to row 24, column 0.
pub proof fn lemma_row_clamp_sequence(v: TermView)
    requires
        v.wf(),
        !v.in_escape,
    ensures
        run(v, seq![27u8, 91u8, 57u8, 57u8, 72u8]).x == 0,
        run(v, seq![27u8, 91u8, 57u8, 57u8, 72u8]).y == SCREEN_HEIGHT - 1,
        run(v, seq![27u8, 91u8, 57u8, 57u8, 72u8]).screen == v.screen,
        run(v, seq![27u8, 91u8, 57u8, 57u8, 72u8]).color == v.color,
{
    let s = seq![27u8, 91u8, 57u8, 57u8, 72u8];
    let r1 = step(v, 27);
    let r2 = step(r1, 91);
    let r3 = step(r2, 57);
    let r4 = step(r3, 57);
    let r5 = step(r4, 72);
    lemma_run_prefixes(v, s, 1);
    lemma_run_prefixes(v, s, 2);
    lemma_run_prefixes(v, s, 3);
    lemma_run_prefixes(v, s, 4);
    lemma_run_prefixes(v, s, 5);
    assert(s.take(5) =~= s);
    assert(run(v, s.take(1)) == r1);
    assert(run(v, s.take(2)) == r2);
    assert(run(v, s.take(3)) == r3);
    assert(run(v, s.take(4)) == r4);
    assert(run(v, s) == r5);
    let esc = r4.esc.push(72u8);
    assert(r4.esc =~= seq![91u8, 57u8, 57u8]);
    assert(esc.len() == 4);
    assert(esc[0] == 91);
    assert(esc[3] == 72);
    let inner = esc.subrange(1, 3);
    assert(inner =~= seq![57u8, 57u8]);
    let nine = Seq::<u8>::empty().push(57u8);
    let ninetynine = nine.push(57u8);
    assert(parse_num(ninetynine) == 99) by {
        assert(nine.drop_last() =~= Seq::<u8>::empty());
        assert(parse_num(Seq::<u8>::empty()) == 0);
        assert(parse_num(nine) == 9);
        assert(ninetynine.drop_last() =~= nine);
        assert(ninetynine[1] == 57u8);
    }
    assert(scan_position(inner, 0, Seq::empty(), 1, false) == scan_position(inner, 1, nine, 1, false));
    assert(scan_position(inner, 1, nine, 1, false) == scan_position(inner, 2, ninetynine, 1, false));
    assert(scan_position(inner, 2, ninetynine, 1, false) == ((99 as nat, 1 as nat)));
    assert(csi_position(esc) == ((99 as nat, 1 as nat)));
    assert(to_coord(1 as nat, SCREEN_WIDTH as nat) == 0);
    assert(to_coord(99 as nat, SCREEN_HEIGHT as nat) == SCREEN_HEIGHT - 1);
}

/// Feeding `ESC [ 3 1 m` and then a printable byte writes that byte with
/// the red palette attribute into the cell the cursor stood on. The one
/// starting position left out is the grid's last cell, where the write is
/// followed by a scroll that moves the freshly written pair off that cell.
pub proof fn lemma_sgr_red_then_print(v: TermView, c: u8)
    requires
        v.wf(),
        !v.in_escape,
        is_printable(c),
        !(v.x == SCREEN_WIDTH - 1 && v.y == SCREEN_HEIGHT - 1),
    ensures
        run(v, seq![27u8, 91u8, 51u8, 49u8, 109u8].push(c)).color == 0x04,
        run(v, seq![27u8, 91u8, 51u8, 49u8, 109u8].push(c)).screen[cell_offset(v.x, v.y)] == c,
        run(v, seq![27u8, 91u8, 51u8, 49u8, 109u8].push(c)).screen[cell_offset(v.x, v.y) + 1]
            == 0x04,
{
    let s = seq![27u8, 91u8, 51u8, 49u8, 109u8];
    let full = s.push(c);
    let r1 = step(v, 27);
    let r2 = step(r1, 91);
    let r3 = step(r2, 51);
    let r4 = step(r3, 49);
    let r5 = step(r4, 109);
    lemma_run_prefixes(v, s, 1);
    lemma_run_prefixes(v, s, 2);
    lemma_run_prefixes(v, s, 3);
    lemma_run_prefixes(v, s, 4);
    lemma_run_prefixes(v, s, 5);
    assert(s.take(5) =~= s);
    assert(run(v, s.take(1)) == r1);
    assert(run(v, s.take(2)) == r2);
    assert(run(v, s.take(3)) == r3);
    assert(run(v, s.take(4)) == r4);
    assert(run(v, s) == r5);
    lemma_run_snoc(v, s, c);
    assert(run(v, full) == step(r5, c));
    // the graphic-rendition decode: the single parameter is 31
    let esc = r4.esc.push(109u8);
    assert(r4.esc =~= seq![91u8, 51u8, 49u8]);
    assert(esc.len() == 4);
    assert(esc[0] == 91);
    assert(esc[3] == 109);
    let inner = esc.subrange(1, 3);
    assert(inner =~= seq![51u8, 49u8]);
    let three = Seq::<u8>::empty().push(51u8);
    let thirtyone = three.push(49u8);
    assert(parse_num(thirtyone) == 31) by {
        assert(three.drop_last() =~= Seq::<u8>::empty());
        assert(parse_num(Seq::<u8>::empty()) == 0);
        assert(parse_num(three) == 3);
        assert(thirtyone.drop_last() =~= three);
        assert(thirtyone[1] == 49u8);
    }
    assert(scan_sgr(inner, 0, Seq::empty(), None) == scan_sgr(inner, 1, three, None));
    assert(scan_sgr(inner, 1, three, None) == scan_sgr(inner, 2, thirtyone, None));
    assert(scan_sgr(inner, 2, thirtyone, None) == Some(31 as nat));
    assert(csi_sgr(esc) == Some(31 as nat));
    assert(sgr_color(Some(31 as nat), v.color) == 0x04);
    assert(r5.color == 0x04);
    assert(r5.x == v.x && r5.y == v.y && r5.screen == v.screen);
    // the printable byte lands at the old cursor cell with the red attribute
    assert(cell_offset(v.x, v.y) + 1 < v.screen.len());
}

/// A scroll-up keeps the content of every row but the first, moved one row
/// up, discards the first row, and blanks the new last row: the byte at
/// column offset `c` of row `r` afterwards is what row `r + 1` held there.
pub proof fn lemma_scroll_preserves_rows(s: Seq<u8>, color: u8, r: int, c: int)
    requires
        s.len() == SCREEN_BYTES,
        0 <= c < ROW_BYTES,
    ensures
        0 <= r < SCREEN_HEIGHT - 1 ==> scrolled(s, color)[r * ROW_BYTES + c] == s[(r + 1)
            * ROW_BYTES + c],
        scrolled(s, color)[(SCREEN_HEIGHT - 1) * ROW_BYTES + c] == blank_byte(
            (SCREEN_HEIGHT - 1) * ROW_BYTES + c,
            color,
        ),
{
}

/// Once the escape buffer is full, any byte that is not itself an escape
/// marker, line feed, carriage return or backspace is absorbed: the state
/// does not change, and no decode is triggered.
pub proof fn lemma_full_buffer_absorbs(v: TermView, c: u8)
    requires
        v.wf(),
        v.in_escape,
        v.esc.len() == ESCAPE_CAPACITY,
        c != 27,
        c != 10,
        c != 13,
        c != 8,
    ensures
        step(v, c) == v,
{
}

} // verus!
