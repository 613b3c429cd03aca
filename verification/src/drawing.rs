//! How predictions look on the screen.

use vstd::prelude::*;

use crate::cell::Attribute;
use crate::control::{at, on};
use crate::draw_state::{DrawView, GeometryView};
use crate::foresight::{
    expected, guess, is_ordinary, lemma_char_row, lemma_one_row_changed, lemma_place, place,
    row_of, rows_are_found_by_number, suits, typing_makes_room,
};
use crate::framebuffer::Screen;
use crate::overlay::{ConditionalCursorMove, OverlayCellView, OverlayRowView};
use crate::parser::{Action, Kind, ParserView, State};
use crate::prediction::{
    pending_cursors, row_index, rows_on_screen, DisplayPreference, EngineView,
};

verus! {

/// Is each prediction made for the column that it is kept under, in a row of the screen, and
/// are there no two rows of one number?
pub open spec fn orderly(e: EngineView, s: Screen) -> bool {
    &&& suits(e, s)
    &&& forall|i: int|
        0 <= i < e.overlays.len() ==> 0 <= (#[trigger] e.overlays[i]).row_num < s.ds.geo.height
    &&& forall|i: int, j: int|
        0 <= i < e.overlays.len() && 0 <= j < s.ds.geo.width ==> (
        #[trigger] e.overlays[i].cells[j]).base.col == j
    &&& forall|i: int, j: int|
        0 <= i < j < e.overlays.len() ==> (#[trigger] e.overlays[i]).row_num != (
        #[trigger] e.overlays[j]).row_num
}

/// Is the prediction one to be drawn: known, and no longer too speculative?
pub open spec fn to_be_drawn(c: OverlayCellView, confirmed: u64) -> bool {
    c.base.active && !c.unknown && c.base.tentative_until_epoch <= confirmed
}

proof fn lemma_cells_drawn(r: OverlayRowView, s: Screen, epoch: u64, n: int)
    requires
        s.rows.len() == s.ds.geo.height,
        forall|y: int|
            0 <= y < s.rows.len() ==> (#[trigger] s.rows[y]).cells.len() == s.ds.geo.width,
        0 <= r.row_num < s.ds.geo.height,
        0 <= n <= s.ds.geo.width,
        r.cells.len() == s.ds.geo.width,
        forall|j: int| 0 <= j < s.ds.geo.width ==> (#[trigger] r.cells[j]).base.col == j,
    ensures
        ({
            let t = r.shown_on(s, epoch, false, n);
            &&& t == (Screen { rows: t.rows, ..s })
            &&& t.rows.len() == s.rows.len()
            &&& forall|y: int|
                0 <= y < s.rows.len() ==> (#[trigger] t.rows[y]).cells.len() == s.ds.geo.width
            &&& forall|y: int, x: int|
                #![trigger at(t, y, x)]
                on(s, y, x) ==> at(t, y, x) == (if y == r.row_num && x < n && to_be_drawn(
                    r.cells[x],
                    epoch,
                ) {
                    r.cells[x].replacement
                } else {
                    at(s, y, x)
                })
        }),
    decreases n,
{
    if n > 0 {
        lemma_cells_drawn(r, s, epoch, n - 1);
        reveal(OverlayCellView::shown_on);
        let m = r.shown_on(s, epoch, false, n - 1);
        let t = r.shown_on(s, epoch, false, n);
        let c = r.cells[n - 1];
        assert(c.base.col == n - 1);
        assert(t == c.shown_on(m, epoch, r.row_num, false));
        assert(m.rows[r.row_num as int].cells.len() == s.ds.geo.width);
        assert forall|y: int, x: int| #![trigger at(t, y, x)] on(s, y, x) implies at(t, y, x) == (
        if y == r.row_num && x < n && to_be_drawn(r.cells[x], epoch) {
            r.cells[x].replacement
        } else {
            at(s, y, x)
        }) by {
            assert(at(m, y, x) == at(m, y, x));
            assert(m.rows[y].cells.len() == s.ds.geo.width);
        }
    }
}

proof fn lemma_rows_drawn(e: EngineView, base: Screen, s: Screen, n: int)
    requires
        orderly(e, base),
        s.rows == base.rows,
        s.ds.geo.width == base.ds.geo.width,
        s.ds.geo.height == base.ds.geo.height,
        !e.triggers.flagging,
        0 <= n <= e.overlays.len(),
    ensures
        ({
            let t = e.rows_shown(s, n);
            &&& t == (Screen { rows: t.rows, ..s })
            &&& t.rows.len() == s.rows.len()
            &&& forall|y: int|
                0 <= y < s.rows.len() ==> (#[trigger] t.rows[y]).cells.len() == s.ds.geo.width
            &&& forall|y: int, x: int|
                #![trigger at(t, y, x)]
                on(s, y, x) ==> {
                    let ri = row_index(e.overlays, y as i32, 0);
                    at(t, y, x) == (if ri < n && to_be_drawn(
                        e.overlays[ri].cells[x],
                        e.epochs.confirmed,
                    ) {
                        e.overlays[ri].cells[x].replacement
                    } else {
                        at(s, y, x)
                    })
                }
        }),
    decreases n,
{
    assert forall|y: int| 0 <= y < s.rows.len() implies (#[trigger] s.rows[y]).cells.len()
        == s.ds.geo.width by {
        assert(base.rows[y].cells.len() == base.ds.geo.width);
    }
    if n > 0 {
        lemma_rows_drawn(e, base, s, n - 1);
        let m = e.rows_shown(s, n - 1);
        let t = e.rows_shown(s, n);
        let r = e.overlays[n - 1];
        assert forall|j: int| 0 <= j < s.ds.geo.width implies (#[trigger] r.cells[j]).base.col
            == j by {
            assert(e.overlays[n - 1].cells[j].base.col == j);
        }
        lemma_cells_drawn(r, m, e.epochs.confirmed, r.cells.len() as int);
        assert forall|y: int, x: int| #![trigger at(t, y, x)] on(s, y, x) implies ({
            let ri = row_index(e.overlays, y as i32, 0);
            at(t, y, x) == (if ri < n && to_be_drawn(
                e.overlays[ri].cells[x],
                e.epochs.confirmed,
            ) {
                e.overlays[ri].cells[x].replacement
            } else {
                at(s, y, x)
            })
        }) by {
            assert(on(m, y, x));
            assert(at(m, y, x) == at(m, y, x));
            rows_are_found_by_number(e.overlays, y as i32, 0);
            let ri = row_index(e.overlays, y as i32, 0);
            if r.row_num == y && ri != n - 1 {
                assert(ri < n - 1);
                assert(e.overlays[ri].row_num != e.overlays[n - 1].row_num);
            }
        }
    } else {
        assert forall|y: int, x: int| #![trigger at(s, y, x)] on(s, y, x) implies row_index(
            e.overlays,
            y as i32,
            0,
        ) >= 0 by {
            rows_are_found_by_number(e.overlays, y as i32, 0);
        }
    }
}

proof fn lemma_cursors_drawn(e: EngineView, s: Screen, n: int)
    requires
        suits(e, s),
        0 <= n <= e.cursors.len(),
    ensures
        ({
            let t = e.cursors_shown(s, n);
            &&& t.valid()
            &&& t.rows == s.rows
            &&& t.ds.geo.width == s.ds.geo.width
            &&& t.ds.geo.height == s.ds.geo.height
            &&& t.ds.origin_mode == s.ds.origin_mode
            &&& n > 0 && e.cursors[n - 1].base.active && !e.cursors[n - 1].base.withheld(
                e.epochs.confirmed,
            ) && !s.ds.origin_mode ==> t.ds.geo.cursor_row == e.cursors[n - 1].row
                && t.ds.geo.cursor_col == e.cursors[n - 1].base.col
        }),
    decreases n,
{
    if n > 0 {
        lemma_cursors_drawn(e, s, n - 1);
        let m = e.cursors_shown(s, n - 1);
        let c = e.cursors[n - 1];
        assert(0 <= c.row < e.size.height && 0 <= c.base.col < e.size.width);
        assert(e.cursors_shown(s, n) == c.shown_on(m, e.epochs.confirmed));
        reveal(ConditionalCursorMove::shown_on);
        reveal(DrawView::row_moved);
        reveal(DrawView::col_moved);
        reveal(GeometryView::row_moved);
        reveal(GeometryView::col_moved);
    }
}

/// When predictions are shown, and none is underlined, each cell shows what is predicted for
/// it, if that is known and no longer too speculative, and otherwise what the server sent.
/// The cursor is where it is thought to be.
pub proof fn predictions_are_drawn_where_they_were_made(e: EngineView, s: Screen)
    requires
        orderly(e, s),
        e.showing(),
        !e.triggers.flagging,
    ensures
        ({
            let t = e.shown_on(s);
            &&& forall|y: int, x: int|
                #![trigger at(t, y, x)]
                on(s, y, x) ==> at(t, y, x) == (match guess(e, y, x) {
                    Some(g) => if to_be_drawn(g, e.epochs.confirmed) {
                        g.replacement
                    } else {
                        at(s, y, x)
                    },
                    None => at(s, y, x),
                })
            &&& e.cursors.len() > 0 && e.cursors.last().base.active
                && e.cursors.last().base.tentative_until_epoch <= e.epochs.confirmed
                && !s.ds.origin_mode ==> (t.ds.geo.cursor_row, t.ds.geo.cursor_col) == place(e, s)
            &&& e.cursors.len() == 0 ==> t.ds == s.ds
        }),
{
    reveal(EngineView::shown_on);
    lemma_cursors_drawn(e, s, e.cursors.len() as int);
    let m = e.cursors_shown(s, e.cursors.len() as int);
    lemma_rows_drawn(e, s, m, e.overlays.len() as int);
    let t = e.shown_on(s);
    assert forall|y: int, x: int| #![trigger at(t, y, x)] on(s, y, x) implies at(t, y, x) == (
    match guess(e, y, x) {
        Some(g) => if to_be_drawn(g, e.epochs.confirmed) {
            g.replacement
        } else {
            at(s, y, x)
        },
        None => at(s, y, x),
    }) by {
        assert(on(m, y, x));
        rows_are_found_by_number(e.overlays, y as i32, 0);
    }
}

/// Nothing is drawn while predictions are not to be shown.
pub proof fn hidden_predictions_are_not_drawn(e: EngineView, s: Screen)
    requires
        e.prefs.display == DisplayPreference::Never || (e.prefs.display
            == DisplayPreference::Adaptive && !e.triggers.srtt_trigger && e.triggers.glitch_trigger
            == 0),
    ensures
        e.shown_on(s) == s,
{
    reveal(EngineView::shown_on);
}

/// Is `u` the screen `s` with a character inserted at a position, so that the rest of its
/// line moves right, but for the last column?
pub open spec fn with_inserted(s: Screen, u: Screen, row: int, col: int, ch: char) -> bool {
    &&& at(u, row, col).contents == seq![ch]
    &&& forall|x: int|
        #![trigger at(u, row, x)]
        col < x < s.ds.geo.width - 1 ==> at(u, row, x) == at(s, row, x - 1)
    &&& forall|x: int| #![trigger at(u, row, x)] 0 <= x < col ==> at(u, row, x) == at(s, row, x)
    &&& forall|y: int, x: int|
        #![trigger at(u, y, x)]
        on(s, y, x) && y != row ==> at(u, y, x) == at(s, y, x)
}

/// Is `u` the screen `s` with a character at a position in place of what was there?
pub open spec fn with_replaced(s: Screen, u: Screen, row: int, col: int, ch: char) -> bool {
    &&& at(u, row, col).contents == seq![ch]
    &&& forall|y: int, x: int|
        #![trigger at(u, y, x)]
        on(s, y, x) && !(y == row && x == col) ==> at(u, y, x) == at(s, y, x)
}

proof fn lemma_orderly(e: EngineView, s: Screen, ch: char, now: u64)
    requires
        orderly(e, s),
        is_ordinary(e, ch),
        place(e, s).1 + 1 < s.ds.geo.width,
    ensures
        orderly(e.print_predicted(ch, s, now), s),
{
    let (row, col) = place(e, s);
    let t = e.print_predicted(ch, s, now);
    lemma_place(e, s);
    lemma_char_row(e, s, ch, now);
    lemma_one_row_changed(e, t, s, row);
    rows_are_found_by_number(e.overlays, row as i32, 0);
    let ri = row_index(e.overlays, row as i32, 0);
    let r = row_of(e, s, row);
    assert(r.cells.len() == s.ds.geo.width);
    assert forall|i: int| 0 <= i < t.overlays.len() implies (
    #[trigger] t.overlays[i]).cells.len() == s.ds.geo.width && 0 <= t.overlays[i].row_num
        < s.ds.geo.height by {
        if i != ri {
            assert(t.overlays[i] == e.overlays[i]);
        }
    }
    assert forall|i: int, j: int| 0 <= i < t.overlays.len() && 0 <= j < s.ds.geo.width implies (
    #[trigger] t.overlays[i].cells[j]).base.col == j by {
        if i != ri {
            assert(t.overlays[i] == e.overlays[i]);
            assert(e.overlays[i].cells[j].base.col == j);
        } else {
            assert(r.cells[j].base.col == j) by {
                if ri < e.overlays.len() {
                    assert(e.overlays[ri].cells[j].base.col == j);
                }
            }
        }
    }
    assert forall|i: int, j: int| 0 <= i < j < t.overlays.len() implies (
    #[trigger] t.overlays[i]).row_num != (#[trigger] t.overlays[j]).row_num by {
        if i != ri && j != ri {
            assert(t.overlays[i] == e.overlays[i] && t.overlays[j] == e.overlays[j]);
        } else if i != ri {
            assert(t.overlays[i] == e.overlays[i]);
            if ri < e.overlays.len() {
                assert(e.overlays[i].row_num != e.overlays[ri].row_num);
            }
        } else {
            assert(t.overlays[j] == e.overlays[j]);
            assert(e.overlays[ri].row_num != e.overlays[j].row_num);
        }
    }
    assert(t.valid()) by {
        reveal(EngineView::print_predicted);
        reveal(EngineView::char_predicted);
        let m = e.cursor_ready(s);
        assert(t.cursors == m.char_predicted(ch, s, now).cursors);
        assert forall|i: int| 0 <= i < t.cursors.len() implies 0 <= (#[trigger] t.cursors[i]).row
            < t.size.height && 0 <= t.cursors[i].base.col < t.size.width by {
            if i < t.cursors.len() - 1 {
                assert(t.cursors[i] == m.cursors[i]);
            }
        }
    }
}

/// Where nothing is unknown or too speculative yet, drawing the predictions after an ordinary
/// character was typed gives what drawing them gave before, with the character inserted at
/// the cursor; with overwriting on, with the character in place of what was there. The cursor
/// stands behind it.
pub proof fn typing_shows_at_once(e: EngineView, s: Screen, ch: char, now: u64)
    requires
        orderly(e, s),
        is_ordinary(e, ch),
        place(e, s).1 + 1 < s.ds.geo.width,
        e.showing(),
        !e.triggers.flagging,
        !s.ds.origin_mode,
        e.epochs.prediction <= e.epochs.confirmed,
        e.cursors.len() > 0 ==> e.cursors.last().base.active
            && e.cursors.last().base.tentative_until_epoch <= e.epochs.confirmed,
        forall|x: int|
            0 <= x < s.ds.geo.width ==> ((#[trigger] guess(e, place(e, s).0, x)) matches Some(g)
                ==> to_be_drawn(g, e.epochs.confirmed)),
    ensures
        ({
            let (row, col) = place(e, s);
            let before = e.shown_on(s);
            let after = e.print_predicted(ch, s, now).shown_on(s);
            &&& !e.prefs.overwrite ==> with_inserted(before, after, row, col, ch)
            &&& e.prefs.overwrite ==> with_replaced(before, after, row, col, ch)
            &&& after.ds.geo.cursor_row == row
            &&& after.ds.geo.cursor_col == col + 1
        }),
{
    let (row, col) = place(e, s);
    let t = e.print_predicted(ch, s, now);
    let (before, after) = (e.shown_on(s), t.shown_on(s));
    lemma_place(e, s);
    lemma_char_row(e, s, ch, now);
    lemma_orderly(e, s, ch, now);
    predictions_are_drawn_where_they_were_made(e, s);
    predictions_are_drawn_where_they_were_made(t, s);
    typing_makes_room(e, s, ch, now);
    lemma_sizes(e, s);
    assert(t.cursors.last().base.active && t.cursors.last().base.tentative_until_epoch
        <= e.epochs.confirmed) by {
        reveal(EngineView::cursor_ready);
    }
    lemma_one_row_changed(e, t, s, row);
    assert forall|y: int, x: int| on(s, y, x) && y != row implies #[trigger] at(after, y, x) == at(
        before,
        y,
        x,
    ) by {
        assert(guess(t, y, x) == guess(e, y, x));
    }
    assert forall|x: int| 0 <= x < s.ds.geo.width implies Some(#[trigger] at(before, row, x))
        == expected(e, s, row, x) by {
        assert(on(s, row, x));
        assert(guess(e, row, x) == guess(e, row, x));
    }
    assert forall|x: int| 0 <= x < s.ds.geo.width && expected(t, s, row, x) is Some implies Some(
        #[trigger] at(after, row, x),
    ) == expected(t, s, row, x) by {
        assert(on(s, row, x));
        lemma_drawn_after(e, s, ch, now, x);
    }
    assert(expected(t, s, row, col) is Some);
    assert(Some(at(after, row, col)) == expected(t, s, row, col));
    if e.prefs.overwrite {
        assert forall|y: int, x: int|
            #![trigger at(after, y, x)]
            on(before, y, x) && !(y == row && x == col) implies at(after, y, x) == at(
            before,
            y,
            x,
        ) by {
            if y == row {
                assert(Some(at(before, row, x)) == expected(e, s, row, x));
                assert(expected(t, s, row, x) == expected(e, s, row, x));
            }
        }
    } else {
        assert forall|x: int| #![trigger at(after, row, x)] col < x < s.ds.geo.width - 1 implies at(
            after,
            row,
            x,
        ) == at(before, row, x - 1) by {
            assert(Some(at(before, row, x - 1)) == expected(e, s, row, x - 1));
            assert(expected(t, s, row, x) == expected(e, s, row, x - 1));
        }
        assert forall|x: int| #![trigger at(after, row, x)] 0 <= x < col implies at(after, row, x)
            == at(before, row, x) by {
            assert(Some(at(before, row, x)) == expected(e, s, row, x));
            assert(expected(t, s, row, x) == expected(e, s, row, x));
        }
    }
}

/// Drawing predictions keeps the size of the screen.
proof fn lemma_sizes(e: EngineView, s: Screen)
    requires
        orderly(e, s),
        !e.triggers.flagging,
    ensures
        e.shown_on(s).ds.geo.width == s.ds.geo.width,
        e.shown_on(s).ds.geo.height == s.ds.geo.height,
{
    reveal(EngineView::shown_on);
    lemma_cursors_drawn(e, s, e.cursors.len() as int);
    lemma_rows_drawn(
        e,
        s,
        e.cursors_shown(s, e.cursors.len() as int),
        e.overlays.len() as int,
    );
}

/// What is guessed in the cursor's row after typing is drawn, if it is known.
proof fn lemma_drawn_after(e: EngineView, s: Screen, ch: char, now: u64, x: int)
    requires
        orderly(e, s),
        is_ordinary(e, ch),
        place(e, s).1 + 1 < s.ds.geo.width,
        e.epochs.prediction <= e.epochs.confirmed,
        0 <= x < s.ds.geo.width,
        guess(e, place(e, s).0, x) matches Some(g) ==> to_be_drawn(g, e.epochs.confirmed),
    ensures
        guess(e.print_predicted(ch, s, now), place(e, s).0, x) matches Some(g) ==> g.unknown
            || to_be_drawn(g, e.epochs.confirmed),
{
    let (row, col) = place(e, s);
    let t = e.print_predicted(ch, s, now);
    lemma_place(e, s);
    lemma_char_row(e, s, ch, now);
    lemma_one_row_changed(e, t, s, row);
    rows_are_found_by_number(e.overlays, row as i32, 0);
    let r = row_of(e, s, row);
    let q = row_of(t, s, row);
    assert(r.cells.len() == s.ds.geo.width);
    assert(guess(e, row, x) == if r.cells[x].base.active {
        Some(r.cells[x])
    } else {
        None
    });
    assert(guess(t, row, x) == if q.cells[x].base.active {
        Some(q.cells[x])
    } else {
        None
    });
}

/// A character typed on a terminal with nothing outstanding shows at once, inserted into its
/// line where the cursor is, if predictions are always to be shown and the epoch is confirmed.
pub proof fn a_first_character_shows_at_once(e: EngineView, s: Screen, b: u8, now: u64)
    requires
        suits(e, s),
        e.overlays.len() == 0,
        e.cursors.len() == 0,
        e.prefs.display == DisplayPreference::Always,
        e.triggers.send_interval <= 50,
        e.triggers.glitch_trigger <= 10,
        e.epochs.prediction <= e.epochs.confirmed,
        e.parser.state == State::Ground,
        e.parser.buf.len() == 0,
        e.last_byte != 0x1b,
        0x20 <= b < 0x7f,
        is_ordinary(e, b as char),
        !s.ds.origin_mode,
        s.ds.geo.cursor_col + 1 < s.ds.geo.width,
    ensures
        ({
            let (row, col) = (s.ds.geo.cursor_row, s.ds.geo.cursor_col);
            let after = e.typed(b, s, now).shown_on(s);
            &&& !e.prefs.overwrite ==> with_inserted(s, after, row, col, b as char)
            &&& e.prefs.overwrite ==> with_replaced(s, after, row, col, b as char)
            &&& after.ds.geo.cursor_row == row
            &&& after.ds.geo.cursor_col == col + 1
        }),
{
    reveal(EngineView::typed);
    reveal(EngineView::culled);
    reveal(EngineView::judging);
    reveal(EngineView::cursors_judged);
    reveal(ParserView::fed);
    reveal(State::after);
    reveal(State::raised);
    let j = e.judging(s);
    assert(rows_on_screen(e.overlays, s.ds.geo.height) == e.overlays);
    assert(!e.is_active());
    assert(j.overlays.len() == 0 && j.cursors.len() == 0);
    assert(j.rows_judged(0, 0, s, now) == (j, None::<crate::prediction::Stop>));
    let m = e.culled(s, now);
    assert(pending_cursors(j.cursors, s, j.frames.late_acked) == j.cursors);
    assert(m =~= j);
    let c = b as char;
    let a = Action { kind: Kind::Print, ch: Some(c) };
    assert(State::Ground.raised(c) =~= seq![a]);
    let f = EngineView {
        last_byte: b,
        parser: ParserView { state: State::Ground.after(c), buf: e.parser.buf },
        ..m
    };
    assert(seq![a].drop_last() =~= Seq::empty());
    assert(f.all_acted(seq![a].drop_last(), s, now) == f);
    assert(f.all_acted(seq![a], s, now) == f.acted(a, s, now));
    reveal(EngineView::acted);
    assert(e.typed(b, s, now) == f.print_predicted(c, s, now));
    assert(suits(f, s));
    assert forall|x: int| 0 <= x < s.ds.geo.width implies (#[trigger] guess(
        f,
        place(f, s).0,
        x,
    )) is None by {
        rows_are_found_by_number(f.overlays, place(f, s).0 as i32, 0);
    }
    assert(f.shown_on(s) == s) by {
        reveal(EngineView::shown_on);
    }
    typing_shows_at_once(f, s, c, now);
}

/// When predictions are underlined, a prediction that differs from what the server sent is
/// drawn underlined, and one that is not known underlines what is there, but not in the last
/// column. Blanks that stay blank are not underlined.
pub proof fn doubtful_predictions_are_underlined(c: OverlayCellView, s: Screen, confirmed: u64, row: i32)
    requires
        s.valid(),
        0 <= row < s.ds.geo.height,
        0 <= c.base.col < s.ds.geo.width,
        c.base.active,
        c.base.tentative_until_epoch <= confirmed,
    ensures
        ({
            let col = c.base.col as int;
            let before = at(s, row as int, col);
            let after = at(c.shown_on(s, confirmed, row, true), row as int, col);
            let blank = c.replacement.looks_blank() && before.looks_blank();
            &&& after.contents == (if c.unknown {
                before.contents
            } else {
                c.replacement.contents
            })
            &&& !c.unknown && before != c.replacement && !blank ==> after.renditions
                == c.replacement.renditions.with_attribute(Attribute::Underlined, true)
            &&& c.unknown && !blank && col + 1 < s.ds.geo.width ==> after.renditions
                == before.renditions.with_attribute(Attribute::Underlined, true)
            &&& c.unknown && col + 1 == s.ds.geo.width ==> after == before
            &&& blank ==> after.renditions == before.renditions || after.renditions
                == c.replacement.renditions
        }),
{
    reveal(OverlayCellView::shown_on);
    assert(s.rows[row as int].cells.len() == s.ds.geo.width);
}

} // verus!
