//! What typing leads one to expect on the screen.
//!
//! The laws here are about positions: what is expected there after a key, in terms of what
//! was expected there before, and what the screen shows once the predictions are drawn.

use vstd::prelude::*;

use crate::cell::CellView;
use crate::control::{at, on};
use crate::framebuffer::Screen;
use crate::overlay::{OverlayCellView, OverlayRowView};
use crate::parser::{Action, Kind};
use crate::prediction::{row_index, DisplayPreference, EngineView};
use crate::widths::width_in;

verus! {

/// The prediction for a position, if one is made.
pub open spec fn guess(e: EngineView, row: int, col: int) -> Option<OverlayCellView> {
    let ri = row_index(e.overlays, row as i32, 0);
    if ri < e.overlays.len() && e.overlays[ri].cells[col].base.active {
        Some(e.overlays[ri].cells[col])
    } else {
        None
    }
}

/// What is expected at a position: what is predicted there, or what the screen shows. There
/// may be no telling.
pub open spec fn expected(e: EngineView, s: Screen, row: int, col: int) -> Option<CellView> {
    match guess(e, row, col) {
        Some(g) => if g.unknown {
            None
        } else {
            Some(g.replacement)
        },
        None => Some(at(s, row, col)),
    }
}

/// Where the cursor is thought to be.
pub open spec fn place(e: EngineView, s: Screen) -> (int, int) {
    if e.cursors.len() == 0 {
        (s.ds.geo.cursor_row, s.ds.geo.cursor_col)
    } else {
        (e.cursors.last().row as int, e.cursors.last().base.col as int)
    }
}

/// Are the predictions those for this screen?
pub open spec fn suits(e: EngineView, s: Screen) -> bool {
    e.valid() && e.fits(s) && s.valid()
}

/// Is this an ordinary character, which takes one column?
pub open spec fn is_ordinary(e: EngineView, ch: char) -> bool {
    ch as u32 >= 0x20 && ch != '\u{7f}' && width_in(e.widths, ch, 0) == Some(1u8)
}

/// The predictions for a row are the first of that number.
pub proof fn rows_are_found_by_number(rows: Seq<OverlayRowView>, n: i32, i: int)
    requires
        0 <= i <= rows.len(),
    ensures
        ({
            let r = row_index(rows, n, i);
            &&& i <= r <= rows.len()
            &&& r < rows.len() ==> rows[r].row_num == n
            &&& forall|j: int| i <= j < r ==> (#[trigger] rows[j]).row_num != n
        }),
    decreases rows.len() - i,
{
    if i < rows.len() && rows[i].row_num != n {
        rows_are_found_by_number(rows, n, i + 1);
    }
}

/// Rows of other numbers are found where they were.
proof fn lemma_found_as_before(a: Seq<OverlayRowView>, b: Seq<OverlayRowView>, row: i32, n: i32)
    requires
        a.len() <= b.len(),
        forall|i: int| 0 <= i < a.len() ==> (#[trigger] a[i]).row_num == b[i].row_num,
        forall|i: int| a.len() <= i < b.len() ==> (#[trigger] b[i]).row_num == row,
        n != row,
    ensures
        row_index(a, n, 0) < a.len() ==> row_index(b, n, 0) == row_index(a, n, 0),
        row_index(a, n, 0) == a.len() ==> row_index(b, n, 0) == b.len(),
{
    rows_are_found_by_number(a, n, 0);
    rows_are_found_by_number(b, n, 0);
    let (i, j) = (row_index(a, n, 0), row_index(b, n, 0));
    if i < a.len() && j != i {
        if j < i {
            assert(a[j].row_num == b[j].row_num);
        } else {
            assert(b[i].row_num == a[i].row_num);
        }
    }
    if i == a.len() && j < b.len() {
        if j < a.len() {
            assert(a[j].row_num == b[j].row_num);
        }
    }
}

/// The predictions that are made for a row, or a row without any.
pub open spec fn row_of(e: EngineView, s: Screen, row: int) -> OverlayRowView {
    let ri = row_index(e.overlays, row as i32, 0);
    if ri < e.overlays.len() {
        e.overlays[ri]
    } else {
        OverlayRowView::initial(row as i32, s.ds.geo.width, e.epochs.prediction)
    }
}

/// Are the predictions of `t` those of `e`, but for one row?
pub open spec fn one_row_changed(e: EngineView, t: EngineView, row: int) -> bool {
    let ri = row_index(e.overlays, row as i32, 0);
    &&& t.overlays.len() == if ri < e.overlays.len() {
        e.overlays.len()
    } else {
        e.overlays.len() + 1nat
    }
    &&& t.overlays[ri].row_num == row
    &&& forall|i: int|
        0 <= i < e.overlays.len() && i != ri ==> #[trigger] t.overlays[i] == e.overlays[i]
}

pub(crate) proof fn lemma_one_row_changed(e: EngineView, t: EngineView, s: Screen, row: int)
    requires
        one_row_changed(e, t, row),
        suits(e, s),
        0 <= row < s.ds.geo.height,
    ensures
        row_index(t.overlays, row as i32, 0) == row_index(e.overlays, row as i32, 0),
        row_of(t, s, row) == t.overlays[row_index(e.overlays, row as i32, 0)],
        forall|y: int, x: int|
            #![trigger guess(t, y, x)]
            on(s, y, x) && y != row ==> guess(t, y, x) == guess(e, y, x),
{
    let ri = row_index(e.overlays, row as i32, 0);
    rows_are_found_by_number(e.overlays, row as i32, 0);
    rows_are_found_by_number(t.overlays, row as i32, 0);
    assert forall|i: int| 0 <= i < e.overlays.len() implies (#[trigger] e.overlays[i]).row_num
        == t.overlays[i].row_num by {
        if i != ri {
            assert(t.overlays[i] == e.overlays[i]);
        }
    }
    let rj = row_index(t.overlays, row as i32, 0);
    if rj < ri {
        assert(e.overlays[rj].row_num == t.overlays[rj].row_num);
    }
    assert forall|y: int, x: int|
        #![trigger guess(t, y, x)]
        on(s, y, x) && y != row implies guess(t, y, x) == guess(e, y, x) by {
        lemma_found_as_before(e.overlays, t.overlays, row as i32, y as i32);
        rows_are_found_by_number(e.overlays, y as i32, 0);
    }
}

proof fn lemma_row_of(e: EngineView, s: Screen, row: int)
    requires
        suits(e, s),
        0 <= row < s.ds.geo.height,
    ensures
        row_of(e, s, row).cells.len() == s.ds.geo.width,
        row_of(e, s, row).row_num == row,
        forall|x: int|
            #![trigger guess(e, row, x)]
            0 <= x < s.ds.geo.width ==> guess(e, row, x) == (if row_of(
                e,
                s,
                row,
            ).cells[x].base.active {
                Some(row_of(e, s, row).cells[x])
            } else {
                None
            }),
        s.rows[row].cells.len() == s.ds.geo.width,
{
    rows_are_found_by_number(e.overlays, row as i32, 0);
    let ri = row_index(e.overlays, row as i32, 0);
    if ri < e.overlays.len() {
        assert(e.overlays[ri].cells.len() == e.size.width);
    }
    assert(s.rows[row].cells.len() == s.ds.geo.width);
}

/// The cursor that is thought of is on the screen, and thinking of it changes nothing else.
pub(crate) proof fn lemma_place(e: EngineView, s: Screen)
    requires
        suits(e, s),
    ensures
        ({
            let (row, col) = place(e, s);
            let m = e.cursor_ready(s);
            &&& 0 <= row < s.ds.geo.height
            &&& 0 <= col < s.ds.geo.width
            &&& m.cursors.len() > 0
            &&& place(m, s) == (row, col)
            &&& m == (EngineView { cursors: m.cursors, ..e })
            &&& suits(m, s)
        }),
{
    reveal(EngineView::cursor_ready);
    if e.cursors.len() > 0 {
        assert(0 <= e.cursors.last().row < e.size.height);
    }
}

/// The row after a character is printed in it.
pub(crate) proof fn lemma_char_row(e: EngineView, s: Screen, ch: char, now: u64)
    requires
        suits(e, s),
        is_ordinary(e, ch),
        place(e, s).1 + 1 < s.ds.geo.width,
    ensures
        ({
            let (row, col) = place(e, s);
            let t = e.print_predicted(ch, s, now);
            &&& one_row_changed(e, t, row)
            &&& row_of(t, s, row) == row_of(e, s, row).printed(
                s.rows[row].cells,
                col,
                if e.prefs.overwrite {
                    col
                } else {
                    s.ds.geo.width - 1
                },
                e.stamp(now),
                s.ds.renditions,
                ch,
            )
            &&& place(t, s) == (row, col + 1)
            &&& t.cursors.len() > 0
            &&& t == (EngineView { overlays: t.overlays, cursors: t.cursors, ..e })
            &&& t.cursors.last().base.tentative_until_epoch == e.cursor_ready(
                s,
            ).cursors.last().base.tentative_until_epoch
            &&& t.cursors.last().base.active == e.cursor_ready(s).cursors.last().base.active
        }),
{
    let (row, col) = place(e, s);
    lemma_place(e, s);
    lemma_row_of(e, s, row);
    let m = e.cursor_ready(s);
    let t = e.print_predicted(ch, s, now);
    reveal(EngineView::print_predicted);
    reveal(EngineView::char_predicted);
    assert(t == m.char_predicted(ch, s, now));
    let ri = row_index(e.overlays, row as i32, 0);
    rows_are_found_by_number(e.overlays, row as i32, 0);
    assert(one_row_changed(e, t, row));
    lemma_one_row_changed(e, t, s, row);
}

/// Typing an ordinary character, with overwriting off, makes room for it: it is expected
/// where the cursor is thought to be, and every column to the right is expected to show what
/// was expected one column before, but for the last, of which there is no telling. With
/// overwriting on, only the cursor's column changes. Other rows stay, and the cursor moves
/// on.
pub proof fn typing_makes_room(e: EngineView, s: Screen, ch: char, now: u64)
    requires
        suits(e, s),
        is_ordinary(e, ch),
        place(e, s).1 + 1 < s.ds.geo.width,
    ensures
        ({
            let (row, col) = place(e, s);
            let width = s.ds.geo.width;
            let t = e.print_predicted(ch, s, now);
            &&& place(t, s) == (row, col + 1)
            &&& expected(t, s, row, col) matches Some(c) && c.contents == seq![ch]
            &&& !e.prefs.overwrite ==> forall|x: int|
                #![trigger expected(t, s, row, x)]
                col < x < width - 1 ==> expected(t, s, row, x) == expected(e, s, row, x - 1)
            &&& !e.prefs.overwrite ==> expected(t, s, row, width - 1) is None
            &&& e.prefs.overwrite ==> forall|x: int|
                #![trigger expected(t, s, row, x)]
                col < x < width ==> expected(t, s, row, x) == expected(e, s, row, x)
            &&& forall|x: int|
                #![trigger expected(t, s, row, x)]
                0 <= x < col ==> expected(t, s, row, x) == expected(e, s, row, x)
            &&& forall|y: int, x: int|
                #![trigger expected(t, s, y, x)]
                on(s, y, x) && y != row ==> expected(t, s, y, x) == expected(e, s, y, x)
        }),
{
    let (row, col) = place(e, s);
    let t = e.print_predicted(ch, s, now);
    lemma_place(e, s);
    lemma_char_row(e, s, ch, now);
    lemma_one_row_changed(e, t, s, row);
    lemma_row_of(e, s, row);
    lemma_guesses(e, t, s, row);
    assert forall|y: int, x: int| #![trigger expected(t, s, y, x)] on(s, y, x) && y != row implies
        expected(t, s, y, x) == expected(e, s, y, x) by {
        assert(guess(t, y, x) == guess(e, y, x));
    }
}

/// What is guessed for a row is what its row of predictions holds.
proof fn lemma_guesses(e: EngineView, t: EngineView, s: Screen, row: int)
    requires
        suits(e, s),
        0 <= row < s.ds.geo.height,
        one_row_changed(e, t, row),
        row_of(t, s, row).cells.len() == s.ds.geo.width,
    ensures
        forall|x: int|
            #![trigger guess(t, row, x)]
            0 <= x < s.ds.geo.width ==> guess(t, row, x) == (if row_of(
                t,
                s,
                row,
            ).cells[x].base.active {
                Some(row_of(t, s, row).cells[x])
            } else {
                None
            }),
{
    lemma_one_row_changed(e, t, s, row);
    rows_are_found_by_number(e.overlays, row as i32, 0);
}

/// A typed character is expected to look like the one before it, or as the pen draws in the
/// first column.
pub proof fn typing_continues_the_look(e: EngineView, s: Screen, ch: char, now: u64)
    requires
        suits(e, s),
        is_ordinary(e, ch),
        place(e, s).1 + 1 < s.ds.geo.width,
    ensures
        ({
            let (row, col) = place(e, s);
            expected(e.print_predicted(ch, s, now), s, row, col) matches Some(c) && c.renditions
                == if col == 0 {
                s.ds.renditions
            } else {
                match expected(e, s, row, col - 1) {
                    Some(before) => before.renditions,
                    None => at(s, row, col - 1).renditions,
                }
            }
        }),
{
    let (row, col) = place(e, s);
    let t = e.print_predicted(ch, s, now);
    lemma_place(e, s);
    lemma_char_row(e, s, ch, now);
    lemma_one_row_changed(e, t, s, row);
    lemma_row_of(e, s, row);
    lemma_guesses(e, t, s, row);
    assert(guess(t, row, col) is Some);
    if col > 0 {
        assert(guess(e, row, col - 1) == guess(e, row, col - 1));
    }
}

/// Every prediction that a typed character makes or moves is to be judged by the next frame
/// that is sent, belongs to the epoch of its making, and is dated then.
pub proof fn predictions_wait_for_the_next_frame(
    e: EngineView,
    s: Screen,
    ch: char,
    now: u64,
    x: int,
)
    requires
        suits(e, s),
        is_ordinary(e, ch),
        place(e, s).1 + 1 < s.ds.geo.width,
        if e.prefs.overwrite {
            x == place(e, s).1
        } else {
            place(e, s).1 <= x < s.ds.geo.width
        },
    ensures
        guess(e.print_predicted(ch, s, now), place(e, s).0, x) matches Some(g) && g.base.active
            && g.base.expiration_frame == e.frames.sent.wrapping_add(1)
            && g.base.tentative_until_epoch == e.epochs.prediction && g.base.prediction_time == now,
{
    let (row, col) = place(e, s);
    let t = e.print_predicted(ch, s, now);
    lemma_place(e, s);
    lemma_char_row(e, s, ch, now);
    lemma_one_row_changed(e, t, s, row);
    lemma_row_of(e, s, row);
    lemma_guesses(e, t, s, row);
    assert(guess(t, row, x) is Some);
}

/// Erasing backwards, with overwriting off, closes the gap: from the column before the cursor
/// on, every column is expected to show what was expected one column after, but for the last
/// two, of which there is no telling. With overwriting on, only the column before the cursor
/// changes: it is blanked. Other rows stay, and the cursor moves back. In the first column
/// nothing is expected to change.
pub proof fn erasing_closes_the_gap(e: EngineView, s: Screen, now: u64)
    requires
        suits(e, s),
    ensures
        ({
            let (row, col) = place(e, s);
            let width = s.ds.geo.width;
            let t = e.print_predicted('\u{7f}', s, now);
            &&& place(t, s) == (row, if col > 0 {
                col - 1
            } else {
                0
            })
            &&& col == 0 ==> t.overlays == e.overlays
            &&& col > 0 && !e.prefs.overwrite ==> forall|x: int|
                #![trigger expected(t, s, row, x)]
                col - 1 <= x < width - 2 ==> expected(t, s, row, x) == expected(e, s, row, x + 1)
            &&& col > 0 && !e.prefs.overwrite ==> forall|x: int|
                #![trigger expected(t, s, row, x)]
                col - 1 <= x < width && x >= width - 2 ==> expected(t, s, row, x) is None
            &&& col > 0 && e.prefs.overwrite ==> {
                &&& expected(t, s, row, col - 1) matches Some(c) && c == (CellView {
                    contents: seq![' '],
                    ..at(s, row, col - 1)
                })
                &&& forall|x: int|
                    #![trigger expected(t, s, row, x)]
                    col <= x < width ==> expected(t, s, row, x) == expected(e, s, row, x)
            }
            &&& forall|x: int|
                #![trigger expected(t, s, row, x)]
                0 <= x < col - 1 ==> expected(t, s, row, x) == expected(e, s, row, x)
            &&& forall|y: int, x: int|
                #![trigger expected(t, s, y, x)]
                on(s, y, x) && y != row ==> expected(t, s, y, x) == expected(e, s, y, x)
        }),
{
    let (row, col) = place(e, s);
    lemma_place(e, s);
    lemma_row_of(e, s, row);
    let m = e.cursor_ready(s);
    let t = e.print_predicted('\u{7f}', s, now);
    reveal(EngineView::print_predicted);
    reveal(EngineView::backspace_predicted);
    assert(t == m.backspace_predicted(s, now));
    if col > 0 {
        let ri = row_index(e.overlays, row as i32, 0);
        rows_are_found_by_number(e.overlays, row as i32, 0);
        assert(one_row_changed(e, t, row));
        lemma_one_row_changed(e, t, s, row);
        let r = row_of(e, s, row);
        assert(row_of(t, s, row) == if e.prefs.overwrite {
            r.with_cell(
                col - 1,
                r.cells[col - 1].blanked(e.stamp(now), s.rows[row].cells[col - 1]),
            )
        } else {
            r.shifted_left(s.rows[row].cells, col - 1, e.stamp(now))
        });
        lemma_guesses(e, t, s, row);
        assert forall|y: int, x: int|
            #![trigger expected(t, s, y, x)]
            on(s, y, x) && y != row implies expected(t, s, y, x) == expected(e, s, y, x) by {
            assert(guess(t, y, x) == guess(e, y, x));
        }
    } else {
        assert forall|y: int, x: int| #![trigger expected(t, s, y, x)] expected(t, s, y, x)
            == expected(e, s, y, x) by {}
    }
}

/// An arrow key moves the cursor that is thought of by one column, as far as the line goes,
/// and no other expectation changes.
pub proof fn arrows_move_the_cursor(e: EngineView, s: Screen, right: bool, now: u64)
    requires
        suits(e, s),
    ensures
        ({
            let (row, col) = place(e, s);
            let t = e.acted(
                Action {
                    kind: Kind::CsiDispatch,
                    ch: Some(
                        if right {
                            'C'
                        } else {
                            'D'
                        },
                    ),
                },
                s,
                now,
            );
            &&& t.overlays == e.overlays
            &&& t.epochs == e.epochs
            &&& place(t, s) == (row, if right && col + 1 < s.ds.geo.width {
                col + 1
            } else if !right && col > 0 {
                col - 1
            } else {
                col
            })
        }),
{
    lemma_place(e, s);
    reveal(EngineView::acted);
    reveal(EngineView::arrow_predicted);
}

/// A return starts a new epoch and takes the cursor that is thought of to the start of the
/// next line. In the last line it stays in that line, which is expected to be emptied.
pub proof fn returns_start_a_line_and_an_epoch(e: EngineView, s: Screen, now: u64)
    requires
        suits(e, s),
        e.prefs.display != DisplayPreference::Experimental,
    ensures
        ({
            let (row, col) = place(e, s);
            let t = e.acted(Action { kind: Kind::Execute, ch: Some('\r') }, s, now);
            &&& t.epochs.prediction == e.epochs.prediction.wrapping_add(1)
            &&& t.epochs.confirmed == e.epochs.confirmed
            &&& row + 1 < s.ds.geo.height ==> place(t, s) == (row + 1, 0int) && t.overlays
                == e.overlays
            &&& row + 1 == s.ds.geo.height ==> {
                &&& place(t, s) == (row, 0int)
                &&& forall|x: int|
                    #![trigger guess(t, row, x)]
                    0 <= x < s.ds.geo.width ==> (guess(t, row, x) matches Some(g)
                        && g.replacement.contents.len() == 0)
                &&& forall|y: int, x: int|
                    #![trigger guess(t, y, x)]
                    on(s, y, x) && y != row ==> guess(t, y, x) == guess(e, y, x)
            }
        }),
{
    let (row, col) = place(e, s);
    let f = e.tentative();
    lemma_place(e, s);
    lemma_place(f, s);
    lemma_row_of(f, s, row);
    reveal(EngineView::acted);
    reveal(EngineView::newline_predicted);
    let m = f.cursor_ready(s);
    let t = e.acted(Action { kind: Kind::Execute, ch: Some('\r') }, s, now);
    assert(t == f.newline_predicted(s, now));
    if row + 1 == s.ds.geo.height {
        rows_are_found_by_number(f.overlays, row as i32, 0);
        let ri = row_index(f.overlays, row as i32, 0);
        assert(t.overlays[ri].cells.len() == s.ds.geo.width);
        assert(one_row_changed(f, t, row));
        lemma_one_row_changed(f, t, s, row);
        lemma_guesses(f, t, s, row);
        assert forall|y: int, x: int| #![trigger guess(t, y, x)] on(s, y, x) && y != row implies
            guess(t, y, x) == guess(e, y, x) by {
            assert(guess(f, y, x) == guess(e, y, x));
        }
    }
}

/// Other control characters and sequences are not predicted: they start a new epoch, and
/// everything expected stays so.
pub proof fn what_cannot_be_foreseen_starts_an_epoch(
    e: EngineView,
    a: Action,
    s: Screen,
    now: u64,
)
    requires
        e.prefs.display != DisplayPreference::Experimental,
        ({
            ||| a.kind == Kind::Execute && a.ch != Some('\r')
            ||| a.kind == Kind::EscDispatch
            ||| a.kind == Kind::CsiDispatch && a.ch != Some('C') && a.ch != Some('D')
        }),
    ensures
        ({
            let t = e.acted(a, s, now);
            &&& t.overlays == e.overlays
            &&& t.cursors == e.cursors
            &&& t.epochs.confirmed == e.epochs.confirmed
            &&& t.epochs.prediction == e.epochs.prediction.wrapping_add(1)
        }),
{
    reveal(EngineView::acted);
}

/// Characters that are not one column wide are not predicted either.
pub proof fn wide_characters_are_not_foreseen(e: EngineView, ch: char, s: Screen, now: u64)
    requires
        suits(e, s),
        e.prefs.display != DisplayPreference::Experimental,
        ch != '\u{7f}',
        width_in(e.widths, ch, 0) != Some(1u8) || (ch as u32) < 0x20,
    ensures
        ({
            let t = e.print_predicted(ch, s, now);
            &&& t.overlays == e.overlays
            &&& place(t, s) == place(e, s)
            &&& t.epochs.prediction == e.epochs.prediction.wrapping_add(1)
        }),
{
    lemma_place(e, s);
    reveal(EngineView::print_predicted);
}

/// In the last column there is no telling whether the line wraps: a character that is typed
/// there starts an epoch for itself and another for what follows. It is expected where it was
/// typed, and the cursor at the start of the next line; in the last line, which is expected
/// to scroll, nothing is left of it.
pub proof fn the_last_column_starts_new_epochs(e: EngineView, s: Screen, ch: char, now: u64)
    requires
        suits(e, s),
        is_ordinary(e, ch),
        place(e, s).1 + 1 == s.ds.geo.width,
        e.prefs.display != DisplayPreference::Experimental,
    ensures
        ({
            let (row, col) = place(e, s);
            let t = e.print_predicted(ch, s, now);
            &&& t.epochs.prediction == e.epochs.prediction.wrapping_add(1).wrapping_add(1)
            &&& t.epochs.confirmed == e.epochs.confirmed
            &&& row + 1 < s.ds.geo.height ==> {
                &&& place(t, s) == (row + 1, 0int)
                &&& expected(t, s, row, col) matches Some(c) && c.contents == seq![ch]
                &&& forall|x: int|
                    #![trigger expected(t, s, row, x)]
                    0 <= x < col ==> expected(t, s, row, x) == expected(e, s, row, x)
                &&& forall|y: int, x: int|
                    #![trigger expected(t, s, y, x)]
                    on(s, y, x) && y != row ==> expected(t, s, y, x) == expected(e, s, y, x)
            }
            &&& row + 1 == s.ds.geo.height ==> {
                &&& place(t, s) == (row, 0int)
                &&& forall|x: int|
                    #![trigger guess(t, row, x)]
                    0 <= x < s.ds.geo.width ==> (guess(t, row, x) matches Some(g)
                        && g.replacement.contents.len() == 0)
            }
        }),
{
    let (row, col) = place(e, s);
    let width = s.ds.geo.width;
    lemma_place(e, s);
    lemma_row_of(e, s, row);
    let m = e.cursor_ready(s);
    let t = e.print_predicted(ch, s, now);
    reveal(EngineView::print_predicted);
    reveal(EngineView::char_predicted);
    assert(t == m.char_predicted(ch, s, now));
    let ri = row_index(e.overlays, row as i32, 0);
    rows_are_found_by_number(e.overlays, row as i32, 0);
    let r = m.row_ready(row as i32, width).tentative();
    let printed = row_of(e, s, row).printed(
        s.rows[row].cells,
        col,
        m.rightmost(col, width),
        r.stamp(now),
        s.ds.renditions,
        ch,
    );
    let typed = r.with_row(ri, printed);
    assert(r.overlays[ri] == row_of(e, s, row));
    let u = typed.cursor_shifted(col, now).tentative();
    assert(t == u.newline_predicted(s, now));
    assert(one_row_changed(e, u, row));
    lemma_one_row_changed(e, u, s, row);
    assert(suits(u, s)) by {
        assert forall|i: int| 0 <= i < u.overlays.len() implies (
        #[trigger] u.overlays[i]).cells.len() == u.size.width by {
            if i != ri {
                assert(u.overlays[i] == e.overlays[i]);
            }
        }
        assert forall|i: int| 0 <= i < u.cursors.len() implies 0 <= (#[trigger] u.cursors[i]).row
            < u.size.height && 0 <= u.cursors[i].base.col < u.size.width by {
            if i < u.cursors.len() - 1 {
                assert(u.cursors[i] == m.cursors[i]);
            }
        }
    }
    lemma_guesses(e, u, s, row);
    assert(place(u, s) == (row, col));
    lemma_place(u, s);
    reveal(EngineView::newline_predicted);
    let ready = u.cursor_ready(s);
    if row + 1 < s.ds.geo.height {
        assert(t.overlays == u.overlays);
        assert forall|y: int, x: int| #![trigger expected(t, s, y, x)] expected(t, s, y, x)
            == expected(u, s, y, x) by {}
        assert forall|y: int, x: int|
            #![trigger expected(t, s, y, x)]
            on(s, y, x) && y != row implies expected(t, s, y, x) == expected(e, s, y, x) by {
            assert(guess(u, y, x) == guess(e, y, x));
        }
        assert(guess(u, row, col) is Some);
        assert forall|x: int| #![trigger expected(t, s, row, x)] 0 <= x < col implies expected(
            t,
            s,
            row,
            x,
        ) == expected(e, s, row, x) by {
            assert(guess(u, row, x) == guess(e, row, x));
        }
    } else {
        rows_are_found_by_number(u.overlays, row as i32, 0);
        assert(one_row_changed(u, t, row));
        lemma_one_row_changed(u, t, s, row);
        lemma_row_of(u, s, row);
        lemma_guesses(u, t, s, row);
    }
}

/// The cursor that is thought of after a character waits for the next frame as well, and is
/// dated then.
pub proof fn cursors_wait_for_the_next_frame(e: EngineView, s: Screen, ch: char, now: u64)
    requires
        suits(e, s),
        is_ordinary(e, ch) || ch == '\u{7f}',
        place(e, s).1 + 1 < s.ds.geo.width,
        ch == '\u{7f}' ==> place(e, s).1 > 0,
    ensures
        ({
            let c = e.print_predicted(ch, s, now).cursors.last();
            &&& c.base.expiration_frame == e.frames.sent.wrapping_add(1)
            &&& c.base.prediction_time == now
            &&& c.base.tentative_until_epoch == e.epochs.prediction
            &&& e.cursors.len() == 0 || e.cursors.last().base.active ==> c.base.active
        }),
{
    lemma_place(e, s);
    reveal(EngineView::print_predicted);
    reveal(EngineView::char_predicted);
    reveal(EngineView::backspace_predicted);
    reveal(EngineView::cursor_ready);
}

/// An application-mode cursor key is read as the ordinary one.
pub proof fn cursor_keys_have_one_meaning(e: EngineView, s: Screen, now: u64)
    requires
        e.prefs.display != DisplayPreference::Never,
        e.last_byte == 0x1b,
    ensures
        e.typed(0x4f, s, now) == e.typed(0x5b, s, now),
{
    reveal(EngineView::typed);
    reveal(EngineView::culled);
    reveal(EngineView::judging);
    let started = if e.prefs.display == DisplayPreference::Experimental {
        EngineView {
            epochs: crate::prediction::Epochs { prediction: e.epochs.confirmed, ..e.epochs },
            ..e
        }
    } else {
        e
    };
    lemma_culled_keeps_the_last_byte(started, s, now);
}

proof fn lemma_culled_keeps_the_last_byte(e: EngineView, s: Screen, now: u64)
    ensures
        e.culled(s, now).last_byte == e.last_byte,
{
    reveal(EngineView::culled);
    reveal(EngineView::judging);
    reveal(EngineView::cursors_judged);
    reveal(EngineView::epoch_killed);
    let j = e.judging(s);
    lemma_rows_keep_the_last_byte(j, 0, j.overlays.len() as int, s, now);
}

proof fn lemma_rows_keep_the_last_byte(e: EngineView, ri: int, n: int, s: Screen, now: u64)
    ensures
        e.rows_judged(ri, n, s, now).0.last_byte == e.last_byte,
    decreases n - ri,
{
    if ri < n {
        let cells = e.overlays[ri].cells.len() as int;
        lemma_row_keeps_the_last_byte(e, ri, 0, cells, s, now);
        lemma_rows_keep_the_last_byte(
            e.row_judged(ri, 0, cells, s, now).0,
            ri + 1,
            n,
            s,
            now,
        );
    }
}

proof fn lemma_row_keeps_the_last_byte(e: EngineView, ri: int, ci: int, n: int, s: Screen, now: u64)
    ensures
        e.row_judged(ri, ci, n, s, now).0.last_byte == e.last_byte,
    decreases n - ci,
{
    if ci < n && e.stop_at(ri, ci, s) is None {
        reveal(EngineView::cell_judged);
        lemma_row_keeps_the_last_byte(e.cell_judged(ri, ci, s, now), ri, ci + 1, n, s, now);
    }
}

/// While something is expected, guesses are judged again every 50 ms, unless a glitch has
/// them underlined anyway.
pub proof fn guesses_are_judged_again_soon(e: EngineView)
    ensures
        e.cursors.len() == 0 && e.overlays.len() == 0 ==> e.judging_in() == u64::MAX,
        e.cursors.len() > 0 && (e.triggers.glitch_trigger == 0 || !e.triggers.flagging)
            ==> e.judging_in() == 50,
        e.triggers.glitch_trigger != 0 && e.triggers.flagging ==> e.judging_in() == u64::MAX,
{
}

} // verus!
