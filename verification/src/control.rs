//! What control sequences do to the screen, cell by cell.
//!
//! Each law is about a terminal between sequences that is sent one control sequence, with or
//! without a parameter, and says where every cell comes from and where the cursor goes.

use vstd::prelude::*;

use crate::cell::{CellView, ColorType, Renditions};
use crate::dispatcher::{
    cursor_performed, entry_for, mode_performed, param_or, params_in, performed, DispatcherView,
};
use crate::draw_state::{DrawView, GeometryView};
use crate::emulator::{print_width, EmulatorView};
use crate::framebuffer::Screen;
use crate::mirror::{lemma_one_param, lemma_two_params};
use crate::text::decimal;
use crate::typing::{
    csi, csi_screen, is_final, is_graphic, lemma_control, lemma_csi, lemma_escape_sequence,
    lemma_print, lemma_typed_one, unwrapped,
};

verus! {

/// A parameter, if it is given.
pub open spec fn given(n: Option<nat>) -> Seq<char> {
    match n {
        Some(n) => decimal(n),
        None => Seq::empty(),
    }
}

/// How often, when a parameter says: once, if it is missing or zero.
pub open spec fn times(n: Option<nat>) -> int {
    match n {
        Some(n) => if n == 0 {
            1
        } else {
            n as int
        },
        None => 1,
    }
}

/// The screen after a control sequence with one parameter, if it is given.
pub open spec fn sent(e: EmulatorView, n: Option<nat>, c: char) -> Screen {
    e.typed(csi(given(n), c)).screen
}

/// May a sequence be sent: a terminal between sequences, and a parameter that fits?
pub open spec fn ready(e: EmulatorView, n: Option<nat>) -> bool {
    &&& e.settled()
    &&& e.screen.valid()
    &&& n matches Some(k) ==> k <= 65535
}

proof fn lemma_sent(e: EmulatorView, n: Option<nat>, c: char)
    requires
        ready(e, n),
        is_final(c),
    ensures
        sent(e, n, c) == csi_screen(e.screen, given(n), c),
        param_or(params_in(given(n)), 0, 1) == times(n),
        param_or(params_in(given(n)), 0, 0) == match n {
            Some(k) => k as int,
            None => 0,
        },
        params_in(given(n)).len() == 1,
{
    match n {
        Some(k) => {
            lemma_one_param(k);
        },
        None => {
            assert(params_in(Seq::empty()) =~= seq![-1int]);
        },
    }
    lemma_csi(e, given(n), c);
}

/// Is a cell empty, with nothing but a background colour?
pub open spec fn is_empty(c: CellView, background: ColorType) -> bool {
    &&& c.contents.len() == 0
    &&& c.renditions == Renditions {
        foreground_color: 0,
        background_color: background,
        attributes: 0,
    }
    &&& c.hyperlink is None
    &&& !c.wide
    &&& !c.fallback
    &&& !c.wrap
}

/// The cell at a position.
pub open spec fn at(s: Screen, y: int, x: int) -> CellView {
    s.rows[y].cells[x]
}

/// Is this a position on the screen?
pub open spec fn on(s: Screen, y: int, x: int) -> bool {
    0 <= y < s.ds.geo.height && 0 <= x < s.ds.geo.width
}

/// Does a position come before the cursor, as one reads?
pub open spec fn before_cursor(s: Screen, y: int, x: int) -> bool {
    y < s.ds.geo.cursor_row || (y == s.ds.geo.cursor_row && x < s.ds.geo.cursor_col)
}

/// Is `t` the screen `s` with nothing changed but its cells, and no wrap pending?
pub open spec fn only_cells_changed(s: Screen, t: Screen) -> bool {
    &&& t.valid()
    &&& t == (Screen {
        rows: t.rows,
        next_gen: t.next_gen,
        ds: DrawView { next_print_will_wrap: false, ..s.ds },
        ..s
    })
}

/// Is `t` the screen `s` with nothing changed but where the cursor is, and no wrap pending?
pub open spec fn only_cursor_moved(s: Screen, t: Screen, y: int, x: int) -> bool {
    &&& t.rows == s.rows
    &&& t.ds.geo.cursor_row == y
    &&& t.ds.geo.cursor_col == x
    &&& t.ds.geo == GeometryView {
        cursor_row: t.ds.geo.cursor_row,
        cursor_col: t.ds.geo.cursor_col,
        combining_char_row: t.ds.geo.combining_char_row,
        combining_char_col: t.ds.geo.combining_char_col,
        ..s.ds.geo
    }
    &&& t == s.with_ds(DrawView { geo: t.ds.geo, next_print_will_wrap: false, ..s.ds })
}

proof fn lemma_erased(s: Screen, start: int, end: int)
    requires
        s.valid(),
    ensures
        ({
            let t = s.cells_erased(start, end);
            &&& t.valid()
            &&& t == (Screen { rows: t.rows, ..s })
            &&& forall|y: int, x: int|
                #![trigger at(t, y, x)]
                on(s, y, x) ==> if y == s.ds.geo.cursor_row && start <= x < end {
                    is_empty(at(t, y, x), s.background())
                } else {
                    at(t, y, x) == at(s, y, x)
                }
        }),
{
    let t = s.cells_erased(start, end);
    assert forall|y: int| 0 <= y < t.rows.len() implies (#[trigger] t.rows[y]).cells.len()
        == s.ds.geo.width by {
        assert(s.rows[y].cells.len() == s.ds.geo.width);
    }
    assert forall|y: int, x: int| #![trigger at(t, y, x)] on(s, y, x) implies (if y
        == s.ds.geo.cursor_row && start <= x < end {
        is_empty(at(t, y, x), s.background())
    } else {
        at(t, y, x) == at(s, y, x)
    }) by {
        assert(s.rows[y].cells.len() == s.ds.geo.width);
    }
}

proof fn lemma_reset(s: Screen, from: int, to: int)
    requires
        s.valid(),
        0 <= from,
        to <= s.ds.geo.height,
    ensures
        ({
            let t = s.rows_reset(from, to);
            &&& t.valid()
            &&& t == (Screen { rows: t.rows, next_gen: t.next_gen, ..s })
            &&& forall|y: int, x: int|
                #![trigger at(t, y, x)]
                on(s, y, x) ==> if from <= y < to {
                    is_empty(at(t, y, x), s.background())
                } else {
                    at(t, y, x) == at(s, y, x)
                }
        }),
    decreases to - from,
{
    if from < to {
        let m = s.row_reset(from);
        assert(s.rows[from].cells.len() == s.ds.geo.width);
        assert forall|y: int| 0 <= y < m.rows.len() implies (#[trigger] m.rows[y]).cells.len()
            == s.ds.geo.width by {
            assert(s.rows[y].cells.len() == s.ds.geo.width);
        }
        lemma_reset(m, from + 1, to);
        let t = m.rows_reset(from + 1, to);
        assert forall|y: int, x: int| #![trigger at(t, y, x)] on(s, y, x) implies (if from <= y
            < to {
            is_empty(at(t, y, x), s.background())
        } else {
            at(t, y, x) == at(s, y, x)
        }) by {
            assert(on(m, y, x));
            assert(at(t, y, x) == at(t, y, x));
            assert(at(m, y, x) == if y == from {
                CellView::blank(s.background())
            } else {
                at(s, y, x)
            });
        }
    }
}

/// Erasing the display. Without a parameter, or with 0, every cell from the cursor on is
/// emptied, and every cell before it stays; with 1, every cell up to and with the cursor's is
/// emptied, and every cell behind it stays; with 2, all are. What is emptied takes the
/// background colour of the pen. The cursor stays.
#[verifier::spinoff_prover]
#[verifier::rlimit(30)]
pub proof fn the_display_is_erased_from_the_cursor(e: EmulatorView, n: Option<nat>)
    requires
        ready(e, n),
        n is None || n == Some(0nat) || n == Some(1nat) || n == Some(2nat),
    ensures
        ({
            let (s, t) = (e.screen, sent(e, n, 'J'));
            &&& only_cells_changed(s, t)
            &&& forall|y: int, x: int|
                #![trigger at(t, y, x)]
                on(s, y, x) ==> {
                    let here = y == s.ds.geo.cursor_row && x == s.ds.geo.cursor_col;
                    let kept = if n == Some(2nat) {
                        false
                    } else if n == Some(1nat) {
                        !before_cursor(s, y, x) && !here
                    } else {
                        before_cursor(s, y, x)
                    };
                    if kept {
                        at(t, y, x) == at(s, y, x)
                    } else {
                        is_empty(at(t, y, x), s.ds.renditions.background_color)
                    }
                }
        }),
{
    lemma_sent(e, n, 'J');
    reveal(entry_for);
    reveal(performed);
    reveal(Screen::display_erased);
    let s = unwrapped(e.screen);
    let geo = s.ds.geo;
    let t = sent(e, n, 'J');
    if n == Some(2nat) {
        lemma_reset(s, 0, geo.height);
    } else if n == Some(1nat) {
        lemma_reset(s, 0, geo.cursor_row);
        let m = s.rows_reset(0, geo.cursor_row);
        lemma_erased(m, 0, geo.cursor_col + 1);
        assert forall|y: int, x: int| #![trigger at(t, y, x)] on(e.screen, y, x) implies (if
            !before_cursor(s, y, x) && !(y == geo.cursor_row && x == geo.cursor_col) {
            at(t, y, x) == at(e.screen, y, x)
        } else {
            is_empty(at(t, y, x), s.background())
        }) by {
            assert(on(s, y, x) && on(m, y, x));
            assert(at(m, y, x) == at(m, y, x));
        }
    } else {
        lemma_erased(s, geo.cursor_col, geo.width);
        let m = s.cells_erased(geo.cursor_col, geo.width);
        lemma_reset(m, geo.cursor_row + 1, geo.height);
        assert forall|y: int, x: int| #![trigger at(t, y, x)] on(e.screen, y, x) implies (if
            before_cursor(s, y, x) {
            at(t, y, x) == at(e.screen, y, x)
        } else {
            is_empty(at(t, y, x), s.background())
        }) by {
            assert(on(s, y, x) && on(m, y, x));
            assert(at(m, y, x) == at(m, y, x));
        }
    }
}

/// Erasing in the cursor's line. Without a parameter, or with 0, its cells from the cursor on
/// are emptied; with 1, those up to and with the cursor's; with 2, all of them. Other lines
/// stay, and so does the cursor.
#[verifier::spinoff_prover]
#[verifier::rlimit(30)]
pub proof fn the_line_is_erased_from_the_cursor(e: EmulatorView, n: Option<nat>)
    requires
        ready(e, n),
        n is None || n == Some(0nat) || n == Some(1nat) || n == Some(2nat),
    ensures
        ({
            let (s, t) = (e.screen, sent(e, n, 'K'));
            &&& only_cells_changed(s, t)
            &&& forall|y: int, x: int|
                #![trigger at(t, y, x)]
                on(s, y, x) ==> {
                    let erased = y == s.ds.geo.cursor_row && (if n == Some(2nat) {
                        true
                    } else if n == Some(1nat) {
                        x <= s.ds.geo.cursor_col
                    } else {
                        x >= s.ds.geo.cursor_col
                    });
                    if erased {
                        is_empty(at(t, y, x), s.ds.renditions.background_color)
                    } else {
                        at(t, y, x) == at(s, y, x)
                    }
                }
        }),
{
    lemma_sent(e, n, 'K');
    reveal(entry_for);
    reveal(performed);
    reveal(Screen::line_erased);
    let s = unwrapped(e.screen);
    let geo = s.ds.geo;
    let t = sent(e, n, 'K');
    lemma_erased(s, geo.cursor_col, geo.width);
    lemma_erased(s, 0, geo.cursor_col + 1);
    lemma_reset(s, geo.cursor_row, geo.cursor_row + 1);
    assert(s.rows_reset(geo.cursor_row, geo.cursor_row + 1) == s.row_reset(geo.cursor_row)) by {
        reveal_with_fuel(Screen::rows_reset, 2);
    }
    assert(s.row_reset(-1) == s.row_reset(geo.cursor_row));
    assert forall|y: int, x: int| #![trigger at(t, y, x)] on(e.screen, y, x) implies on(s, y, x)
        && at(s, y, x) == at(e.screen, y, x) by {}
}

/// Erasing characters empties so many cells from the cursor on, as far as the line goes;
/// nothing else changes.
#[verifier::spinoff_prover]
#[verifier::rlimit(30)]
pub proof fn characters_are_erased_in_place(e: EmulatorView, n: Option<nat>)
    requires
        ready(e, n),
    ensures
        ({
            let (s, t) = (e.screen, sent(e, n, 'X'));
            &&& only_cells_changed(s, t)
            &&& forall|y: int, x: int|
                #![trigger at(t, y, x)]
                on(s, y, x) ==> if y == s.ds.geo.cursor_row && s.ds.geo.cursor_col <= x
                    < s.ds.geo.cursor_col + times(n) {
                    is_empty(at(t, y, x), s.ds.renditions.background_color)
                } else {
                    at(t, y, x) == at(s, y, x)
                }
        }),
{
    lemma_sent(e, n, 'X');
    reveal(entry_for);
    reveal(performed);
    reveal(Screen::chars_erased);
    let s = unwrapped(e.screen);
    let geo = s.ds.geo;
    let end = if geo.cursor_col + times(n) >= geo.width {
        geo.width
    } else {
        geo.cursor_col + times(n)
    };
    lemma_erased(s, geo.cursor_col, end);
    let t = sent(e, n, 'X');
    assert forall|y: int, x: int| #![trigger at(t, y, x)] on(e.screen, y, x) implies on(s, y, x)
        && at(s, y, x) == at(e.screen, y, x) by {}
}

/// Inserting characters moves the rest of the cursor's line right, over the edge, and leaves
/// empty cells; deleting them moves it left, and empty cells come in at the edge. Other lines
/// stay, and so does the cursor.
#[verifier::spinoff_prover]
#[verifier::rlimit(30)]
pub proof fn characters_make_room_and_close_up(e: EmulatorView, n: Option<nat>)
    requires
        ready(e, n),
    ensures
        ({
            let s = e.screen;
            let (t, u) = (sent(e, n, '@'), sent(e, n, 'P'));
            let (row, col, k) = (s.ds.geo.cursor_row, s.ds.geo.cursor_col, times(n));
            &&& only_cells_changed(s, t)
            &&& only_cells_changed(s, u)
            &&& forall|y: int, x: int|
                #![trigger at(t, y, x)]
                on(s, y, x) ==> if y != row || x < col {
                    at(t, y, x) == at(s, y, x)
                } else if x < col + k {
                    is_empty(at(t, y, x), s.ds.renditions.background_color)
                } else {
                    at(t, y, x) == at(s, y, x - k)
                }
            &&& forall|y: int, x: int|
                #![trigger at(u, y, x)]
                on(s, y, x) ==> if y != row || x < col {
                    at(u, y, x) == at(s, y, x)
                } else if x + k < s.ds.geo.width {
                    at(u, y, x) == at(s, y, x + k)
                } else {
                    is_empty(at(u, y, x), s.ds.renditions.background_color)
                }
        }),
{
    lemma_sent(e, n, '@');
    lemma_sent(e, n, 'P');
    reveal(entry_for);
    reveal(performed);
    reveal(Screen::cells_inserted_here);
    reveal(Screen::cells_deleted_here);
    let s = unwrapped(e.screen);
    let (t, u) = (sent(e, n, '@'), sent(e, n, 'P'));
    assert forall|y: int| 0 <= y < t.rows.len() implies (#[trigger] t.rows[y]).cells.len()
        == s.ds.geo.width by {
        assert(s.rows[y].cells.len() == s.ds.geo.width);
    }
    assert forall|y: int| 0 <= y < u.rows.len() implies (#[trigger] u.rows[y]).cells.len()
        == s.ds.geo.width by {
        assert(s.rows[y].cells.len() == s.ds.geo.width);
    }
    assert forall|y: int, x: int| #![trigger at(t, y, x)] on(e.screen, y, x) implies (if y
        != s.ds.geo.cursor_row || x < s.ds.geo.cursor_col {
        at(t, y, x) == at(s, y, x)
    } else if x < s.ds.geo.cursor_col + times(n) {
        is_empty(at(t, y, x), s.ds.renditions.background_color)
    } else {
        at(t, y, x) == at(s, y, x - times(n))
    }) by {
        assert(s.rows[y].cells.len() == s.ds.geo.width);
    }
    assert forall|y: int, x: int| #![trigger at(u, y, x)] on(e.screen, y, x) implies (if y
        != s.ds.geo.cursor_row || x < s.ds.geo.cursor_col {
        at(u, y, x) == at(s, y, x)
    } else if x + times(n) < s.ds.geo.width {
        at(u, y, x) == at(s, y, x + times(n))
    } else {
        is_empty(at(u, y, x), s.ds.renditions.background_color)
    }) by {
        assert(s.rows[y].cells.len() == s.ds.geo.width);
    }
}

/// Where a line of the region comes from when lines from `from` down to the bottom of the
/// region move down by `k`, or up by `-k`.
pub open spec fn lines_shifted(s: Screen, t: Screen, from: int, k: int) -> bool {
    forall|y: int, x: int|
        #![trigger at(t, y, x)]
        on(s, y, x) ==> if y < from || y > s.ds.geo.region_bottom {
            at(t, y, x) == at(s, y, x)
        } else if from <= y - k <= s.ds.geo.region_bottom {
            at(t, y, x) == at(s, y - k, x)
        } else {
            is_empty(at(t, y, x), s.ds.renditions.background_color)
        }
}

#[verifier::spinoff_prover]
proof fn lemma_lines_shifted(s: Screen, from: int, k: int)
    requires
        s.valid(),
        k >= 1,
        s.ds.geo.region_top <= from <= s.ds.geo.region_bottom,
    ensures
        ({
            let (t, u) = (s.lines_inserted(from, k), s.lines_deleted(from, k));
            &&& t.valid() && u.valid()
            &&& t == (Screen { rows: t.rows, next_gen: t.next_gen, ..s })
            &&& u == (Screen { rows: u.rows, next_gen: u.next_gen, ..s })
            &&& lines_shifted(s, t, from, k)
            &&& lines_shifted(s, u, from, -k)
        }),
{
    reveal(Screen::lines_inserted);
    reveal(Screen::lines_deleted);
    let (t, u) = (s.lines_inserted(from, k), s.lines_deleted(from, k));
    let n = s.lines_moved(from, k);
    let bottom = s.ds.geo.region_bottom + 1;
    assert forall|y: int| 0 <= y < s.rows.len() implies #[trigger] t.rows[y] == (if y < from {
        s.rows[y]
    } else if y < from + n {
        s.new_row()
    } else if y < bottom {
        s.rows[y - n]
    } else {
        s.rows[y]
    }) by {}
    assert forall|y: int| 0 <= y < s.rows.len() implies #[trigger] u.rows[y] == (if y < from {
        s.rows[y]
    } else if y < bottom - n {
        s.rows[y + n]
    } else if y < bottom {
        s.new_row()
    } else {
        s.rows[y]
    }) by {}
    assert(t.rows.len() == s.rows.len() && u.rows.len() == s.rows.len());
    assert forall|y: int| 0 <= y < t.rows.len() implies (#[trigger] t.rows[y]).cells.len()
        == s.ds.geo.width by {
        assert(s.rows[y].cells.len() == s.ds.geo.width);
        if from + n <= y < bottom {
            assert(s.rows[y - n].cells.len() == s.ds.geo.width);
        }
    }
    assert forall|y: int| 0 <= y < u.rows.len() implies (#[trigger] u.rows[y]).cells.len()
        == s.ds.geo.width by {
        assert(s.rows[y].cells.len() == s.ds.geo.width);
        if from <= y < bottom - n {
            assert(s.rows[y + n].cells.len() == s.ds.geo.width);
        }
    }
}

/// Inserting lines moves the cursor's line and those below it down to the bottom of the
/// region; deleting lines moves those below up. What is pushed over the bottom is lost, and
/// empty lines come in. The cursor goes to the start of its line. Outside the region nothing
/// moves.
#[verifier::spinoff_prover]
#[verifier::rlimit(30)]
pub proof fn lines_make_room_and_close_up(e: EmulatorView, n: Option<nat>)
    requires
        ready(e, n),
        e.screen.ds.geo.region_top <= e.screen.ds.geo.cursor_row <= e.screen.ds.geo.region_bottom,
    ensures
        ({
            let s = e.screen;
            let (t, u) = (sent(e, n, 'L'), sent(e, n, 'M'));
            &&& lines_shifted(s, t, s.ds.geo.cursor_row, times(n))
            &&& lines_shifted(s, u, s.ds.geo.cursor_row, -times(n))
            &&& t.ds.geo.cursor_row == s.ds.geo.cursor_row && t.ds.geo.cursor_col == 0
            &&& u.ds.geo.cursor_row == s.ds.geo.cursor_row && u.ds.geo.cursor_col == 0
        }),
{
    lemma_sent(e, n, 'L');
    lemma_sent(e, n, 'M');
    reveal(entry_for);
    reveal(performed);
    reveal(DrawView::col_moved);
    reveal(GeometryView::col_moved);
    let s = unwrapped(e.screen);
    let row = s.ds.geo.cursor_row;
    lemma_lines_shifted(s, row, times(n));
    let (t, u) = (sent(e, n, 'L'), sent(e, n, 'M'));
    let (a, b) = (s.lines_inserted(row, times(n)), s.lines_deleted(row, times(n)));
    assert(t.rows == a.rows && u.rows == b.rows);
    assert forall|y: int, x: int| #![trigger at(t, y, x)] on(e.screen, y, x) implies at(t, y, x)
        == at(a, y, x) && on(s, y, x) by {}
    assert forall|y: int, x: int| #![trigger at(u, y, x)] on(e.screen, y, x) implies at(u, y, x)
        == at(b, y, x) && on(s, y, x) by {}
}

/// Outside the region, inserting and deleting lines changes no line.
#[verifier::spinoff_prover]
#[verifier::rlimit(30)]
pub proof fn lines_outside_the_region_stay(e: EmulatorView, n: Option<nat>)
    requires
        ready(e, n),
        e.screen.ds.geo.cursor_row < e.screen.ds.geo.region_top || e.screen.ds.geo.cursor_row
            > e.screen.ds.geo.region_bottom,
    ensures
        sent(e, n, 'L').rows == e.screen.rows,
        sent(e, n, 'M').rows == e.screen.rows,
{
    lemma_sent(e, n, 'L');
    lemma_sent(e, n, 'M');
    reveal(entry_for);
    reveal(performed);
    reveal(Screen::lines_inserted);
    reveal(Screen::lines_deleted);
}

/// Scrolling moves the lines of the region up, or down, and empty lines come in; the cursor
/// and the lines outside the region stay.
#[verifier::spinoff_prover]
#[verifier::rlimit(30)]
pub proof fn the_region_scrolls(e: EmulatorView, n: Option<nat>)
    requires
        ready(e, n),
    ensures
        ({
            let s = e.screen;
            let (t, u) = (sent(e, n, 'S'), sent(e, n, 'T'));
            &&& only_cells_changed(s, t)
            &&& only_cells_changed(s, u)
            &&& lines_shifted(s, t, s.ds.geo.region_top, -times(n))
            &&& lines_shifted(s, u, s.ds.geo.region_top, times(n))
        }),
{
    lemma_sent(e, n, 'S');
    lemma_sent(e, n, 'T');
    reveal(entry_for);
    reveal(performed);
    let s = unwrapped(e.screen);
    lemma_lines_shifted(s, s.ds.geo.region_top, times(n));
    let (t, u) = (sent(e, n, 'S'), sent(e, n, 'T'));
    assert forall|y: int, x: int| #![trigger at(t, y, x)] on(e.screen, y, x) implies on(s, y, x)
        && at(s, y, x) == at(e.screen, y, x) by {}
    assert forall|y: int, x: int| #![trigger at(u, y, x)] on(e.screen, y, x) implies on(s, y, x)
        && at(s, y, x) == at(e.screen, y, x) by {}
}

/// Is there room to scroll: two lines in the region, or a screen of one line?
pub open spec fn can_scroll(s: Screen) -> bool {
    s.ds.geo.region_top < s.ds.geo.region_bottom || s.ds.geo.height == 1
}

/// The nearest row that the cursor may be in: any, or one of the region in origin mode.
pub open spec fn row_within(s: Screen, y: int) -> int {
    let (top, bottom) = if s.ds.origin_mode {
        (s.ds.geo.region_top, s.ds.geo.region_bottom)
    } else {
        (0, s.ds.geo.height - 1)
    };
    if y < top {
        top
    } else if y > bottom {
        bottom
    } else {
        y
    }
}

/// The nearest column.
pub open spec fn col_within(s: Screen, x: int) -> int {
    if x < 0 {
        0
    } else if x >= s.ds.geo.width {
        s.ds.geo.width - 1
    } else {
        x
    }
}

proof fn lemma_row_moved(s: Screen, n: int, relative: bool)
    requires
        s.valid(),
    ensures
        ({
            let t = s.with_ds(s.ds.row_moved(n, relative));
            let first = if s.ds.origin_mode {
                s.ds.geo.region_top
            } else {
                0
            };
            let y = if relative {
                s.ds.geo.cursor_row + n
            } else {
                first + n
            };
            &&& only_cursor_moved(s, t, row_within(s, y), s.ds.geo.cursor_col)
            &&& t.valid()
        }),
{
    reveal(DrawView::row_moved);
    reveal(GeometryView::row_moved);
}

proof fn lemma_col_moved(s: Screen, n: int, relative: bool)
    requires
        s.valid(),
        row_within(s, s.ds.geo.cursor_row) == s.ds.geo.cursor_row,
    ensures
        ({
            let t = s.with_ds(s.ds.col_moved(n, relative, false));
            let x = if relative {
                s.ds.geo.cursor_col + n
            } else {
                n
            };
            &&& only_cursor_moved(s, t, s.ds.geo.cursor_row, col_within(s, x))
            &&& t.valid()
        }),
{
    reveal(DrawView::col_moved);
    reveal(GeometryView::col_moved);
}

#[verifier::spinoff_prover]
proof fn lemma_vertical(e: EmulatorView, n: Option<nat>)
    requires
        ready(e, n),
    ensures
        ({
            let s = e.screen;
            let (y, x, k) = (s.ds.geo.cursor_row, s.ds.geo.cursor_col, times(n));
            &&& only_cursor_moved(s, sent(e, n, 'A'), row_within(s, y - k), x)
            &&& only_cursor_moved(s, sent(e, n, 'B'), row_within(s, y + k), x)
        }),
{
    let s = unwrapped(e.screen);
    let k = times(n);
    lemma_row_moved(s, -k, true);
    lemma_row_moved(s, k, true);
    lemma_sent(e, n, 'A');
    lemma_sent(e, n, 'B');
    assert(sent(e, n, 'A') == s.with_ds(s.ds.row_moved(-k, true)) && sent(e, n, 'B')
        == s.with_ds(s.ds.row_moved(k, true))) by {
        reveal(entry_for);
        reveal(performed);
        reveal(cursor_performed);
        reveal(Screen::cursor_commanded);
    }
}

#[verifier::spinoff_prover]
proof fn lemma_horizontal(e: EmulatorView, n: Option<nat>)
    requires
        ready(e, n),
        row_within(e.screen, e.screen.ds.geo.cursor_row) == e.screen.ds.geo.cursor_row,
    ensures
        ({
            let s = e.screen;
            let (y, x, k) = (s.ds.geo.cursor_row, s.ds.geo.cursor_col, times(n));
            &&& only_cursor_moved(s, sent(e, n, 'C'), y, col_within(s, x + k))
            &&& only_cursor_moved(s, sent(e, n, 'D'), y, col_within(s, x - k))
        }),
{
    let s = unwrapped(e.screen);
    let k = times(n);
    lemma_col_moved(s, -k, true);
    lemma_col_moved(s, k, true);
    lemma_sent(e, n, 'C');
    lemma_sent(e, n, 'D');
    assert(sent(e, n, 'C') == s.with_ds(s.ds.col_moved(k, true, false)) && sent(e, n, 'D')
        == s.with_ds(s.ds.col_moved(-k, true, false))) by {
        reveal(entry_for);
        reveal(performed);
        reveal(cursor_performed);
        reveal(Screen::cursor_commanded);
    }
}

#[verifier::spinoff_prover]
proof fn lemma_columns(e: EmulatorView, n: Option<nat>)
    requires
        ready(e, n),
        row_within(e.screen, e.screen.ds.geo.cursor_row) == e.screen.ds.geo.cursor_row,
    ensures
        ({
            let s = e.screen;
            let (y, k) = (s.ds.geo.cursor_row, times(n));
            &&& only_cursor_moved(s, sent(e, n, 'G'), y, col_within(s, k - 1))
            &&& only_cursor_moved(s, sent(e, n, '`'), y, col_within(s, k - 1))
        }),
{
    let s = unwrapped(e.screen);
    let k = times(n);
    lemma_col_moved(s, k - 1, false);
    lemma_sent(e, n, 'G');
    lemma_sent(e, n, '`');
    assert(sent(e, n, 'G') == s.with_ds(s.ds.col_moved(k - 1, false, false)) && sent(e, n, '`')
        == s.with_ds(s.ds.col_moved(k - 1, false, false))) by {
        reveal(entry_for);
        reveal(performed);
        reveal(cursor_performed);
    }
}

/// The cursor moves up, down, right and left by so many places, and stops at the edge.
#[verifier::spinoff_prover]
#[verifier::rlimit(30)]
pub proof fn the_cursor_moves_by_so_many(e: EmulatorView, n: Option<nat>)
    requires
        ready(e, n),
        row_within(e.screen, e.screen.ds.geo.cursor_row) == e.screen.ds.geo.cursor_row,
    ensures
        ({
            let s = e.screen;
            let (y, x, k) = (s.ds.geo.cursor_row, s.ds.geo.cursor_col, times(n));
            &&& only_cursor_moved(s, sent(e, n, 'A'), row_within(s, y - k), x)
            &&& only_cursor_moved(s, sent(e, n, 'B'), row_within(s, y + k), x)
            &&& only_cursor_moved(s, sent(e, n, 'C'), y, col_within(s, x + k))
            &&& only_cursor_moved(s, sent(e, n, 'D'), y, col_within(s, x - k))
            &&& only_cursor_moved(s, sent(e, n, 'G'), y, col_within(s, k - 1))
            &&& only_cursor_moved(s, sent(e, n, '`'), y, col_within(s, k - 1))
        }),
{
    lemma_vertical(e, n);
    lemma_horizontal(e, n);
    lemma_columns(e, n);
}

/// The cursor goes to a line that is counted from one: from the top of the screen, or from
/// the top of the region in origin mode.
#[verifier::spinoff_prover]
#[verifier::rlimit(30)]
pub proof fn the_cursor_goes_to_a_line(e: EmulatorView, n: Option<nat>)
    requires
        ready(e, n),
    ensures
        ({
            let s = e.screen;
            let first = if s.ds.origin_mode {
                s.ds.geo.region_top
            } else {
                0
            };
            only_cursor_moved(
                s,
                sent(e, n, 'd'),
                row_within(s, first + times(n) - 1),
                s.ds.geo.cursor_col,
            )
        }),
{
    lemma_sent(e, n, 'd');
    reveal(entry_for);
    reveal(performed);
    reveal(cursor_performed);
    reveal(DrawView::row_moved);
    reveal(GeometryView::row_moved);
}

proof fn lemma_placed(s: Screen, y: int, x: int)
    requires
        s.valid(),
    ensures
        ({
            let first = if s.ds.origin_mode {
                s.ds.geo.region_top
            } else {
                0
            };
            only_cursor_moved(s, s.cursor_placed(y, x), row_within(s, first + y), col_within(s, x))
        }),
{
    lemma_row_moved(s, y, false);
    let m = s.with_ds(s.ds.row_moved(y, false));
    lemma_col_moved(m, x, false);
}

/// The cursor goes to a line and a column, both counted from one. Without parameters it goes
/// to the first of each.
#[verifier::spinoff_prover]
#[verifier::rlimit(30)]
pub proof fn the_cursor_goes_where_it_is_told(e: EmulatorView, row: nat, col: nat)
    requires
        e.settled(),
        e.screen.valid(),
        1 <= row <= 65535,
        1 <= col <= 65535,
    ensures
        ({
            let s = e.screen;
            let first = if s.ds.origin_mode {
                s.ds.geo.region_top
            } else {
                0
            };
            let text = decimal(row) + ";"@ + decimal(col);
            let (y, x) = (row_within(s, first + row - 1), col_within(s, col - 1));
            &&& only_cursor_moved(s, e.typed(csi(text, 'H')).screen, y, x)
            &&& only_cursor_moved(s, e.typed(csi(text, 'f')).screen, y, x)
            &&& only_cursor_moved(s, sent(e, None, 'H'), row_within(s, first), 0)
        }),
{
    let s = unwrapped(e.screen);
    let text = decimal(row) + ";"@ + decimal(col);
    lemma_placed(s, row - 1, col - 1);
    lemma_placed(s, 0, 0);
    lemma_two_params(row, col);
    assert(e.typed(csi(text, 'H')).screen == s.cursor_placed(row - 1, col - 1)) by {
        lemma_csi(e, text, 'H');
        reveal(entry_for);
        reveal(performed);
        reveal(cursor_performed);
        reveal(Screen::cursor_commanded);
    }
    assert(e.typed(csi(text, 'f')).screen == s.cursor_placed(row - 1, col - 1)) by {
        lemma_csi(e, text, 'f');
        reveal(entry_for);
        reveal(performed);
        reveal(cursor_performed);
        reveal(Screen::cursor_commanded);
    }
    assert(sent(e, None, 'H') == s.cursor_placed(0, 0)) by {
        lemma_sent(e, None, 'H');
        reveal(entry_for);
        reveal(performed);
        reveal(cursor_performed);
        reveal(Screen::cursor_commanded);
    }
}

/// Margins that are set make a region of the lines from the first to the last, both counted
/// from one, and take the cursor to its start; without parameters the region is the whole
/// screen. Margins that leave less than two lines are ignored.
#[verifier::spinoff_prover]
#[verifier::rlimit(30)]
pub proof fn margins_make_a_region(e: EmulatorView, top: nat, bottom: nat)
    requires
        e.settled(),
        e.screen.valid(),
        !e.screen.ds.origin_mode,
        1 <= top <= 65535,
        1 <= bottom <= 65535,
    ensures
        ({
            let s = e.screen;
            let t = e.typed(csi(decimal(top) + ";"@ + decimal(bottom), 'r')).screen;
            let u = sent(e, None, 'r');
            &&& t.rows == s.rows && u.rows == s.rows
            &&& top < bottom && top <= s.ds.geo.height ==> {
                &&& t.ds.geo.region_top == top - 1
                &&& t.ds.geo.region_bottom == (if bottom <= s.ds.geo.height {
                    bottom - 1
                } else {
                    s.ds.geo.height - 1
                })
                &&& t.ds.geo.cursor_row == 0 && t.ds.geo.cursor_col == 0
            }
            &&& top >= bottom || top > s.ds.geo.height ==> t == unwrapped(s)
            &&& s.ds.geo.height >= 2 ==> {
                &&& u.ds.geo.region_top == 0
                &&& u.ds.geo.region_bottom == s.ds.geo.height - 1
                &&& u.ds.geo.cursor_row == 0 && u.ds.geo.cursor_col == 0
            }
        }),
{
    lemma_two_params(top, bottom);
    let text = decimal(top) + ";"@ + decimal(bottom);
    lemma_csi(e, text, 'r');
    lemma_sent(e, None, 'r');
    reveal(entry_for);
    reveal(performed);
    reveal(cursor_performed);
    reveal(mode_performed);
    reveal(Screen::margins_set);
    reveal(DrawView::region_set);
    reveal(GeometryView::region_set);
    reveal(DrawView::row_moved);
    reveal(DrawView::col_moved);
    reveal(GeometryView::row_moved);
    reveal(GeometryView::col_moved);
}

/// A carriage return goes to the start of the line, and a backspace one place to the left; a
/// bell is counted. None of them changes a cell.
#[verifier::spinoff_prover]
#[verifier::rlimit(30)]
pub proof fn returns_and_backspaces_move_the_cursor(e: EmulatorView)
    requires
        e.settled(),
        e.screen.valid(),
        row_within(e.screen, e.screen.ds.geo.cursor_row) == e.screen.ds.geo.cursor_row,
    ensures
        ({
            let s = e.screen;
            let (y, x) = (s.ds.geo.cursor_row, s.ds.geo.cursor_col);
            let bell = e.typed(seq!['\u{7}']).screen;
            &&& only_cursor_moved(s, e.typed(seq!['\r']).screen, y, 0)
            &&& only_cursor_moved(s, e.typed(seq!['\u{8}']).screen, y, col_within(s, x - 1))
            &&& bell == (Screen { bell_count: s.bell_count.wrapping_add(1), ..unwrapped(s) })
        }),
{
    lemma_typed_one(e, '\r');
    lemma_typed_one(e, '\u{8}');
    lemma_typed_one(e, '\u{7}');
    lemma_control(e, '\r');
    lemma_control(e, '\u{8}');
    lemma_control(e, '\u{7}');
    reveal(DispatcherView::screen_after);
    reveal(entry_for);
    reveal(performed);
    reveal(cursor_performed);
    reveal(mode_performed);
    reveal(DrawView::col_moved);
    reveal(GeometryView::col_moved);
}

/// A line feed goes down a line; at the bottom of the region the region scrolls up by one
/// instead, and the cursor stays.
#[verifier::spinoff_prover]
#[verifier::rlimit(30)]
pub proof fn line_feeds_go_down_or_scroll(e: EmulatorView)
    requires
        e.settled(),
        e.screen.valid(),
        !e.screen.ds.origin_mode,
        can_scroll(e.screen),
    ensures
        ({
            let s = e.screen;
            let t = e.typed(seq!['\n']).screen;
            let (y, x) = (s.ds.geo.cursor_row, s.ds.geo.cursor_col);
            if y == s.ds.geo.region_bottom {
                &&& lines_shifted(s, t, s.ds.geo.region_top, -1)
                &&& t.ds.geo.cursor_row == y && t.ds.geo.cursor_col == x
            } else {
                only_cursor_moved(s, t, row_within(s, y + 1), x)
            }
        }),
{
    lemma_typed_one(e, '\n');
    lemma_control(e, '\n');
    reveal(DispatcherView::screen_after);
    reveal(entry_for);
    reveal(performed);
    reveal(cursor_performed);
    lemma_feed(unwrapped(e.screen), 1);
    let (s, t) = (unwrapped(e.screen), e.typed(seq!['\n']).screen);
    assert forall|y: int, x: int| #![trigger at(t, y, x)] on(e.screen, y, x) implies on(s, y, x)
        && at(s, y, x) == at(e.screen, y, x) by {}
}

/// Moving by a line up or down, with the region scrolling at its edges.
#[verifier::spinoff_prover]
proof fn lemma_feed(s: Screen, d: int)
    requires
        s.valid(),
        !s.ds.origin_mode,
        can_scroll(s),
        d == 1 || d == -1,
    ensures
        ({
            let t = s.autoscrolled(d);
            let (y, x) = (s.ds.geo.cursor_row, s.ds.geo.cursor_col);
            &&& t.valid()
            &&& if (d == 1 && y == s.ds.geo.region_bottom) || (d == -1 && y
                == s.ds.geo.region_top) {
                &&& lines_shifted(s, t, s.ds.geo.region_top, -d)
                &&& t.ds.geo.cursor_row == y && t.ds.geo.cursor_col == x
                &&& t.ds.geo.width == s.ds.geo.width && t.ds.geo.height == s.ds.geo.height
                &&& t.ds.insert_mode == s.ds.insert_mode && t.ds.renditions == s.ds.renditions
                &&& t.ds.hyperlink == s.ds.hyperlink && t.ds.origin_mode == s.ds.origin_mode
            } else {
                only_cursor_moved(s, t, row_within(s, y + d), x)
            }
        }),
{
    reveal(Screen::autoscrolled);
    let n = s.scroll_needed(d);
    let t = s.autoscrolled(d);
    if n != 0 {
        assert(n == d);
        lemma_lines_shifted(s, s.ds.geo.region_top, 1);
        let m = s.scrolled(n);
        assert(t.rows == m.rows);
        assert(m.ds == s.ds);
        let back = m.ds.row_moved(-n, true);
        assert(t.ds == back.row_moved(d, true));
        assert(t.ds.geo.cursor_row == s.ds.geo.cursor_row && t.ds.geo.cursor_col
            == s.ds.geo.cursor_col && t.ds.geo.valid()) by {
            reveal(DrawView::row_moved);
            reveal(GeometryView::row_moved);
        }
        assert(t.valid() && t.ds == (DrawView { geo: t.ds.geo, next_print_will_wrap: false, ..s.ds })
            && t.ds.geo.width == s.ds.geo.width && t.ds.geo.height == s.ds.geo.height) by {
            reveal(DrawView::row_moved);
            reveal(GeometryView::row_moved);
        }
        assert forall|y: int, x: int| #![trigger at(t, y, x)] on(s, y, x) implies at(t, y, x)
            == at(m, y, x) by {}
        assert(lines_shifted(s, t, s.ds.geo.region_top, -d));
    } else {
        reveal(DrawView::row_moved);
        reveal(GeometryView::row_moved);
    }
}

/// What the indexes run.
#[verifier::spinoff_prover]
#[verifier::rlimit(40)]
proof fn lemma_index_screens(e: EmulatorView)
    requires
        e.settled(),
    ensures
        ({
            let s = unwrapped(e.screen);
            &&& e.typed(seq!['\x1b', 'M']).screen == s.autoscrolled(-1)
            &&& e.typed(seq!['\x1b', 'E']).screen == s.next_line()
            &&& e.typed(seq!['\x1b', 'D']).screen == s.autoscrolled(1)
            &&& e.typed(seq!['\n']).screen == s.autoscrolled(1)
        }),
{
    lemma_escape_sequence(e, 'M');
    lemma_escape_sequence(e, 'E');
    lemma_escape_sequence(e, 'D');
    lemma_typed_one(e, '\n');
    lemma_control(e, '\n');
    reveal(DispatcherView::screen_after);
    reveal(entry_for);
    reveal(performed);
    reveal(cursor_performed);
}

/// A reverse index goes up a line; at the top of the region the region scrolls down by one
/// instead, and the cursor stays. A next-line goes down as a line feed does, to the start of
/// the line. An index is a line feed.
#[verifier::spinoff_prover]
#[verifier::rlimit(30)]
pub proof fn indexes_go_up_and_down(e: EmulatorView)
    requires
        e.settled(),
        e.screen.valid(),
        !e.screen.ds.origin_mode,
        can_scroll(e.screen),
    ensures
        ({
            let s = e.screen;
            let t = e.typed(seq!['\x1b', 'M']).screen;
            let u = e.typed(seq!['\x1b', 'E']).screen;
            let (y, x) = (s.ds.geo.cursor_row, s.ds.geo.cursor_col);
            &&& if y == s.ds.geo.region_top {
                &&& lines_shifted(s, t, s.ds.geo.region_top, 1)
                &&& t.ds.geo.cursor_row == y && t.ds.geo.cursor_col == x
            } else {
                only_cursor_moved(s, t, row_within(s, y - 1), x)
            }
            &&& if y == s.ds.geo.region_bottom {
                &&& lines_shifted(s, u, s.ds.geo.region_top, -1)
                &&& u.ds.geo.cursor_row == y && u.ds.geo.cursor_col == 0
            } else {
                only_cursor_moved(s, u, row_within(s, y + 1), 0)
            }
            &&& e.typed(seq!['\x1b', 'D']).screen == e.typed(seq!['\n']).screen
        }),
{
    let s = unwrapped(e.screen);
    let (t, u) = (e.typed(seq!['\x1b', 'M']).screen, e.typed(seq!['\x1b', 'E']).screen);
    let m = s.with_ds(s.ds.col_moved(0, false, false));
    lemma_col_moved(s, 0, false);
    lemma_index_screens(e);
    lemma_feed(s, -1);
    lemma_feed(m, 1);
    assert forall|y: int, x: int| #![trigger at(t, y, x)] on(e.screen, y, x) implies on(s, y, x)
        && at(s, y, x) == at(e.screen, y, x) by {}
    assert forall|y: int, x: int| #![trigger at(u, y, x)] on(e.screen, y, x) implies on(m, y, x)
        && at(m, y, x) == at(e.screen, y, x) by {}
}

/// What saving and restoring the cursor run.
#[verifier::spinoff_prover]
#[verifier::rlimit(40)]
proof fn lemma_save_screens(e: EmulatorView)
    requires
        e.settled(),
    ensures
        ({
            let s = unwrapped(e.screen);
            &&& e.typed(seq!['\x1b', '7']).screen == s.with_ds(s.ds.cursor_saved())
            &&& e.typed(seq!['\x1b', '8']).screen == s.with_ds(s.ds.cursor_restored())
        }),
{
    lemma_escape_sequence(e, '7');
    lemma_escape_sequence(e, '8');
    reveal(DispatcherView::screen_after);
    reveal(entry_for);
    reveal(performed);
    reveal(cursor_performed);
}

/// A cursor that was saved is restored where it was, with the pen it had and the modes for
/// wrapping and origin, wherever the cursor went and whatever was drawn meanwhile. Saving
/// shows nothing.
#[verifier::spinoff_prover]
#[verifier::rlimit(30)]
pub proof fn saved_cursors_are_restored(e: EmulatorView, later: EmulatorView)
    requires
        e.settled(),
        e.screen.valid(),
        later.settled(),
        later.screen.valid(),
        later.screen.ds.geo.width == e.screen.ds.geo.width,
        later.screen.ds.geo.height == e.screen.ds.geo.height,
        !e.screen.ds.origin_mode,
        later.screen.ds.save == e.typed(seq!['\x1b', '7']).screen.ds.save,
    ensures
        ({
            let s = e.screen;
            let saved = e.typed(seq!['\x1b', '7']).screen;
            let t = later.typed(seq!['\x1b', '8']).screen;
            &&& saved.rows == s.rows && saved.ds.geo == s.ds.geo
            &&& t.rows == later.screen.rows
            &&& t.ds.geo.cursor_row == s.ds.geo.cursor_row
            &&& t.ds.geo.cursor_col == s.ds.geo.cursor_col
            &&& t.ds.renditions == s.ds.renditions
            &&& t.ds.auto_wrap_mode == s.ds.auto_wrap_mode
            &&& t.ds.origin_mode == s.ds.origin_mode
        }),
{
    let s = unwrapped(e.screen);
    let l = unwrapped(later.screen);
    lemma_save_screens(e);
    lemma_save_screens(later);
    reveal(DrawView::cursor_saved);
    reveal(DrawView::cursor_restored);
    reveal(GeometryView::cursor_put);
}

/// A full reset leaves the screen as a fresh one of its size: empty, with the cursor at the
/// start, a plain pen, the whole screen for a region, and no modes set.
#[verifier::spinoff_prover]
#[verifier::rlimit(30)]
pub proof fn a_reset_screen_is_as_a_fresh_one(e: EmulatorView)
    requires
        e.settled(),
        e.screen.valid(),
    ensures
        ({
            let (s, t) = (e.screen, e.typed(seq!['\x1b', 'c']).screen);
            &&& t.valid()
            &&& t.ds.geo.width == s.ds.geo.width && t.ds.geo.height == s.ds.geo.height
            &&& forall|y: int, x: int|
                #![trigger at(t, y, x)]
                on(s, y, x) ==> is_empty(at(t, y, x), 0)
            &&& t.ds == DrawView::initial(s.ds.geo.width, s.ds.geo.height)
            &&& t.ds.geo.cursor_row == 0 && t.ds.geo.cursor_col == 0
            &&& t.ds.geo.region_top == 0 && t.ds.geo.region_bottom == s.ds.geo.height - 1
            &&& t.ds.renditions == Renditions {
                foreground_color: 0,
                background_color: 0,
                attributes: 0,
            }
            &&& t.ds.hyperlink is None
            &&& t.ds.auto_wrap_mode && !t.ds.insert_mode && !t.ds.origin_mode
            &&& t.ds.modes.cursor_visible && !t.ds.modes.reverse_video
            &&& !t.ds.modes.bracketed_paste && !t.ds.modes.application_mode_cursor_keys
            &&& t.window_title.len() == 0
        }),
{
    lemma_escape_sequence(e, 'c');
    reveal(DispatcherView::screen_after);
    reveal(entry_for);
    reveal(performed);
    assert(vstd::utf8::encode_utf8(Seq::<char>::empty()).len() == 0);
}

/// An ordinary character is printed where the cursor is, with the pen's renditions and link,
/// and the cursor moves on; in the last column it stays, and the next character is to wrap.
/// Nothing else changes.
#[verifier::spinoff_prover]
#[verifier::rlimit(30)]
pub proof fn characters_are_printed_where_the_cursor_is(e: EmulatorView, ch: char)
    requires
        e.settled(),
        e.screen.valid(),
        is_graphic(ch),
        print_width(e.widths, ch) == 1,
        !e.screen.ds.insert_mode,
        !e.screen.ds.origin_mode,
        !e.screen.ds.next_print_will_wrap,
    ensures
        ({
            let (s, t) = (e.screen, e.typed(seq![ch]).screen);
            let (row, col) = (s.ds.geo.cursor_row, s.ds.geo.cursor_col);
            let c = at(t, row, col);
            &&& c.contents == seq![ch]
            &&& c.renditions == s.ds.renditions
            &&& c.hyperlink == s.ds.hyperlink
            &&& !c.wide
            &&& forall|y: int, x: int|
                #![trigger at(t, y, x)]
                on(s, y, x) && !(y == row && x == col) ==> at(t, y, x) == at(s, y, x)
            &&& t.ds.geo.cursor_row == row
            &&& t.ds.geo.cursor_col == (if col + 1 < s.ds.geo.width {
                col + 1
            } else {
                col
            })
            &&& t.ds.next_print_will_wrap == (col + 1 == s.ds.geo.width)
            &&& t.rows.len() == s.rows.len()
            &&& t.ds.renditions == s.ds.renditions
        }),
{
    lemma_typed_one(e, ch);
    lemma_print(e, ch);
    reveal(Screen::printed);
    reveal(Screen::wrapped_for);
    reveal(Screen::room_made);
    reveal(Screen::char_put);
    reveal(DrawView::col_moved);
    reveal(GeometryView::col_moved);
    let s = e.screen;
    assert(s.rows[s.ds.geo.cursor_row].cells.len() == s.ds.geo.width);
}

/// In insert mode the rest of the line makes room for what is printed.
#[verifier::spinoff_prover]
#[verifier::rlimit(30)]
pub proof fn insert_mode_makes_room(e: EmulatorView, ch: char)
    requires
        e.settled(),
        e.screen.valid(),
        is_graphic(ch),
        print_width(e.widths, ch) == 1,
        e.screen.ds.insert_mode,
        !e.screen.ds.origin_mode,
        !e.screen.ds.next_print_will_wrap,
    ensures
        ({
            let (s, t) = (e.screen, e.typed(seq![ch]).screen);
            let (row, col) = (s.ds.geo.cursor_row, s.ds.geo.cursor_col);
            &&& at(t, row, col).contents == seq![ch]
            &&& forall|y: int, x: int|
                #![trigger at(t, y, x)]
                on(s, y, x) ==> if y == row && x > col {
                    at(t, y, x) == at(s, y, x - 1)
                } else if y == row && x == col {
                    true
                } else {
                    at(t, y, x) == at(s, y, x)
                }
        }),
{
    lemma_typed_one(e, ch);
    lemma_print(e, ch);
    reveal(Screen::printed);
    reveal(Screen::wrapped_for);
    reveal(Screen::room_made);
    reveal(Screen::char_put);
    reveal(DrawView::col_moved);
    reveal(GeometryView::col_moved);
    let (s, t) = (e.screen, e.typed(seq![ch]).screen);
    let (row, col) = (s.ds.geo.cursor_row, s.ds.geo.cursor_col);
    let line = s.rows[row].cells;
    assert(line.len() == s.ds.geo.width);
    let moved = s.rows[row].cell_inserted(col, s.background()).cells;
    assert(moved.len() == line.len());
    assert forall|x: int| 0 <= x < line.len() implies #[trigger] moved[x] == (if x < col {
        line[x]
    } else if x == col {
        CellView::blank(s.background())
    } else {
        line[x - 1]
    }) by {}
    assert(t.rows[row].cells == moved.update(col, s.printed_cell(ch, 1)));
}

/// A wide character takes two cells: the one it is in, and the next, which is emptied.
#[verifier::spinoff_prover]
#[verifier::rlimit(30)]
pub proof fn wide_characters_take_two_cells(e: EmulatorView, ch: char)
    requires
        e.settled(),
        e.screen.valid(),
        is_graphic(ch),
        print_width(e.widths, ch) == 2,
        !e.screen.ds.insert_mode,
        !e.screen.ds.origin_mode,
        !e.screen.ds.next_print_will_wrap,
        e.screen.ds.geo.cursor_col + 1 < e.screen.ds.geo.width,
    ensures
        ({
            let (s, t) = (e.screen, e.typed(seq![ch]).screen);
            let (row, col) = (s.ds.geo.cursor_row, s.ds.geo.cursor_col);
            let c = at(t, row, col);
            &&& c.contents == seq![ch] && c.wide && c.renditions == s.ds.renditions
            &&& is_empty(at(t, row, col + 1), s.ds.renditions.background_color)
            &&& forall|y: int, x: int|
                #![trigger at(t, y, x)]
                on(s, y, x) && !(y == row && col <= x <= col + 1) ==> at(t, y, x) == at(s, y, x)
            &&& t.ds.geo.cursor_row == row
            &&& t.ds.geo.cursor_col == (if col + 2 < s.ds.geo.width {
                col + 2
            } else {
                s.ds.geo.width - 1
            })
            &&& t.ds.next_print_will_wrap == (col + 2 == s.ds.geo.width)
        }),
{
    lemma_typed_one(e, ch);
    lemma_print(e, ch);
    reveal(Screen::printed);
    reveal(Screen::wrapped_for);
    reveal(Screen::room_made);
    reveal(Screen::char_put);
    reveal(DrawView::col_moved);
    reveal(GeometryView::col_moved);
    let s = e.screen;
    assert(s.rows[s.ds.geo.cursor_row].cells.len() == s.ds.geo.width);
}

/// A character that is to wrap goes to the start of the next line, or of a line that scrolls
/// in at the bottom of the region. With wrapping off it is printed over the last one.
#[verifier::spinoff_prover]
#[verifier::rlimit(30)]
pub proof fn full_lines_wrap(e: EmulatorView, ch: char)
    requires
        e.settled(),
        e.screen.valid(),
        is_graphic(ch),
        print_width(e.widths, ch) == 1,
        !e.screen.ds.insert_mode,
        !e.screen.ds.origin_mode,
        e.screen.ds.next_print_will_wrap,
        e.screen.ds.geo.width >= 2,
        can_scroll(e.screen),
    ensures
        ({
            let (s, t) = (e.screen, e.typed(seq![ch]).screen);
            let (row, col) = (s.ds.geo.cursor_row, s.ds.geo.cursor_col);
            if !s.ds.auto_wrap_mode {
                &&& at(t, row, col).contents == seq![ch]
                &&& t.ds.geo.cursor_row == row
            } else {
                let down = if row == s.ds.geo.region_bottom {
                    row
                } else {
                    row_within(s, row + 1)
                };
                &&& at(t, down, 0).contents == seq![ch]
                &&& at(t, down, 0).renditions == s.ds.renditions
                &&& t.ds.geo.cursor_row == down
                &&& t.ds.geo.cursor_col == 1
                &&& row == s.ds.geo.region_bottom && row > s.ds.geo.region_top ==> at(
                    t,
                    row - 1,
                    0,
                ).contents == at(s, row, 0).contents
            }
        }),
{
    lemma_typed_one(e, ch);
    lemma_print(e, ch);
    reveal(Screen::printed);
    reveal(Screen::room_made);
    reveal(Screen::char_put);
    let s = e.screen;
    let (row, width) = (s.ds.geo.cursor_row, s.ds.geo.width);
    assert(s.rows[row].cells.len() == width);
    if s.ds.auto_wrap_mode {
        let marked = s.row_wrap_set(true);
        assert forall|y: int| 0 <= y < marked.rows.len() implies (
        #[trigger] marked.rows[y]).cells.len() == width by {
            assert(s.rows[y].cells.len() == width);
        }
        let m = marked.with_ds(marked.ds.col_moved(0, false, false));
        assert(m.valid() && only_cursor_moved(marked, m, row, 0)) by {
            reveal(DrawView::col_moved);
            reveal(GeometryView::col_moved);
        }
        lemma_feed(m, 1);
        let w = m.autoscrolled(1);
        assert(s.wrapped_for(1) == w) by {
            reveal(Screen::wrapped_for);
        }
        assert(w.rows[w.ds.geo.cursor_row].cells.len() == width);
        if row == s.ds.geo.region_bottom && row > s.ds.geo.region_top {
            assert(on(m, row - 1, 0));
            assert(at(w, row - 1, 0) == at(m, row, 0));
            assert(at(m, row, 0).contents == at(s, row, 0).contents);
        }
        reveal(DrawView::col_moved);
        reveal(GeometryView::col_moved);
    } else {
        reveal(Screen::wrapped_for);
        reveal(DrawView::col_moved);
        reveal(GeometryView::col_moved);
    }
}

/// A combining character joins the one before it, which is otherwise as it was; the cursor
/// stays.
#[verifier::spinoff_prover]
#[verifier::rlimit(30)]
pub proof fn combining_characters_join_the_one_before(e: EmulatorView, ch: char)
    requires
        e.settled(),
        e.screen.valid(),
        is_graphic(ch),
        print_width(e.widths, ch) == 0,
        e.screen.ds.geo.combining_char_row >= 0,
        e.screen.ds.geo.combining_char_col >= 0,
        ({
            let g = e.screen.ds.geo;
            let c = at(e.screen, g.combining_char_row, g.combining_char_col);
            c.contents.len() > 0 && !c.full()
        }),
    ensures
        ({
            let (s, t) = (e.screen, e.typed(seq![ch]).screen);
            let (row, col) = (s.ds.geo.combining_char_row, s.ds.geo.combining_char_col);
            &&& at(t, row, col) == (CellView {
                contents: at(s, row, col).contents.push(ch),
                ..at(s, row, col)
            })
            &&& forall|y: int, x: int|
                #![trigger at(t, y, x)]
                on(s, y, x) && !(y == row && x == col) ==> at(t, y, x) == at(s, y, x)
            &&& t.ds == s.ds
        }),
{
    lemma_typed_one(e, ch);
    lemma_print(e, ch);
    reveal(Screen::printed);
    reveal(Screen::char_combined);
    let s = e.screen;
    let row = s.ds.geo.combining_char_row;
    assert(s.rows[row].cells.len() == s.ds.geo.width);
}

/// A character that is not printable changes nothing, and every printable ASCII character
/// takes one column.
#[verifier::spinoff_prover]
pub proof fn unprintable_characters_are_dropped(e: EmulatorView, ch: char)
    requires
        e.settled(),
        is_graphic(ch),
    ensures
        print_width(e.widths, ch) < 0 || print_width(e.widths, ch) > 2 ==> e.typed(seq![ch])
            == e,
        ' ' <= ch <= '~' ==> print_width(e.widths, ch) == 1,
        '\u{a0}' <= ch <= '\u{ff}' ==> print_width(e.widths, ch) == 1,
{
    lemma_typed_one(e, ch);
    lemma_print(e, ch);
    reveal(Screen::printed);
}

/// A wide character that has no room in the last column goes to the next line, and the column
/// is left empty.
#[verifier::spinoff_prover]
#[verifier::rlimit(40)]
pub proof fn wide_characters_wrap_at_the_edge(e: EmulatorView, ch: char)
    requires
        e.settled(),
        e.screen.valid(),
        is_graphic(ch),
        print_width(e.widths, ch) == 2,
        !e.screen.ds.insert_mode,
        !e.screen.ds.origin_mode,
        !e.screen.ds.next_print_will_wrap,
        e.screen.ds.auto_wrap_mode,
        e.screen.ds.geo.width >= 3,
        e.screen.ds.geo.cursor_col == e.screen.ds.geo.width - 1,
        e.screen.ds.geo.cursor_row < e.screen.ds.geo.region_bottom,
        can_scroll(e.screen),
    ensures
        ({
            let (s, t) = (e.screen, e.typed(seq![ch]).screen);
            let (row, col) = (s.ds.geo.cursor_row, s.ds.geo.cursor_col);
            &&& is_empty(at(t, row, col), s.ds.renditions.background_color)
            &&& at(t, row + 1, 0).contents == seq![ch] && at(t, row + 1, 0).wide
            &&& is_empty(at(t, row + 1, 1), s.ds.renditions.background_color)
            &&& t.ds.geo.cursor_row == row + 1
            &&& t.ds.geo.cursor_col == 2
        }),
{
    lemma_typed_one(e, ch);
    lemma_print(e, ch);
    reveal(Screen::printed);
    reveal(Screen::room_made);
    reveal(Screen::char_put);
    let s = e.screen;
    let (row, width) = (s.ds.geo.cursor_row, s.ds.geo.width);
    assert(s.rows[row].cells.len() == width);
    let emptied = s.with_cell(-1, -1, CellView::blank(s.background()));
    let marked = emptied.row_wrap_set(false);
    assert forall|y: int| 0 <= y < marked.rows.len() implies (
    #[trigger] marked.rows[y]).cells.len() == width by {
        assert(s.rows[y].cells.len() == width);
    }
    let m = marked.with_ds(marked.ds.col_moved(0, false, false));
    lemma_col_moved(marked, 0, false);
    lemma_feed(m, 1);
    let w = m.autoscrolled(1);
    assert(s.wrapped_for(2) == w) by {
        reveal(Screen::wrapped_for);
    }
    assert(w.rows[row].cells.len() == width && w.rows[row + 1].cells.len() == width);
    reveal(DrawView::col_moved);
    reveal(GeometryView::col_moved);
}

/// A combining character with nothing to join starts a cell of its own, which is marked, and
/// the cursor moves on; one that finds its cell full is dropped.
#[verifier::spinoff_prover]
pub proof fn combining_characters_start_a_cell_or_are_dropped(e: EmulatorView, ch: char)
    requires
        e.settled(),
        e.screen.valid(),
        is_graphic(ch),
        print_width(e.widths, ch) == 0,
        e.screen.ds.geo.combining_char_row >= 0,
        e.screen.ds.geo.combining_char_col >= 0,
    ensures
        ({
            let (s, t) = (e.screen, e.typed(seq![ch]).screen);
            let (row, col) = (s.ds.geo.combining_char_row, s.ds.geo.combining_char_col);
            let c = at(s, row, col);
            &&& c.contents.len() == 0 ==> {
                &&& at(t, row, col).contents == seq![ch]
                &&& at(t, row, col).fallback
                &&& !s.ds.origin_mode && s.ds.geo.cursor_col + 1 < s.ds.geo.width
                    ==> t.ds.geo.cursor_col == s.ds.geo.cursor_col + 1
            }
            &&& c.contents.len() > 0 && c.full() ==> t == s
        }),
{
    lemma_typed_one(e, ch);
    lemma_print(e, ch);
    reveal(Screen::printed);
    reveal(Screen::char_combined);
    reveal(DrawView::col_moved);
    reveal(GeometryView::col_moved);
    let s = e.screen;
    let (row, col) = (s.ds.geo.combining_char_row, s.ds.geo.combining_char_col);
    assert(s.rows[row].cells.len() == s.ds.geo.width);
    let c = at(s, row, col);
    if c.contents.len() == 0 {
        assert(c.contents.push(ch) =~= seq![ch]);
    } else if c.full() {
        assert(s.rows[row].cells.update(col, c) =~= s.rows[row].cells);
        assert(s.rows.update(row, s.rows[row]) =~= s.rows);
    }
}

/// Erasing in a way that is not defined changes nothing.
#[verifier::spinoff_prover]
pub proof fn undefined_ways_of_erasing_change_nothing(e: EmulatorView, n: nat)
    requires
        ready(e, Some(n)),
        n > 2,
    ensures
        sent(e, Some(n), 'J') == unwrapped(e.screen),
        sent(e, Some(n), 'K') == unwrapped(e.screen),
{
    lemma_sent(e, Some(n), 'J');
    lemma_sent(e, Some(n), 'K');
    reveal(entry_for);
    reveal(performed);
    reveal(Screen::display_erased);
    reveal(Screen::line_erased);
}

} // verus!
