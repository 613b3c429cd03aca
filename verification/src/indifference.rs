//! Text for which the modes of a terminal make no difference.
//!
//! Two terminals that differ in their margins, in insert, origin or wrap mode, in a pending
//! wrap or in links show the same after text that asks for none of these.

use vstd::prelude::*;

use crate::cell::{CellView, Link};
use crate::commands::link_sendable;
use crate::dispatcher::{
    cursor_performed, entry_for, mode_performed, osc_performed, param_or, params_in, performed,
    private_modes_set, DispatcherView, Function, FunctionType,
};
use crate::draw_state::{DrawView, GeometryView};
use crate::emulator::{c1_control, print_width, EmulatorView};
use crate::framebuffer::Screen;
use crate::parser::{Action, Kind, ParserView};
use crate::reachable::{action_sound, actions_sound, lemma_acted, lemma_raised};
use crate::typing::unwrapped;
use crate::unlinked::{lemma_performed_unlinked, lemma_printed_unlinked};
use crate::widths::WidthRange;

verus! {

impl DrawView {
    /// The draw state with its margins, its insert, origin and wrap modes and any pending
    /// wrap left out.
    pub open spec fn modeless(self) -> DrawView {
        DrawView {
            geo: GeometryView { region_top: 0, region_bottom: 0, ..self.geo },
            next_print_will_wrap: false,
            origin_mode: false,
            auto_wrap_mode: true,
            insert_mode: false,
            ..self
        }
    }
}

impl Screen {
    /// The screen with the modes left out that decide how text is drawn.
    pub open spec fn modeless(self) -> Screen {
        self.with_ds(self.ds.modeless())
    }

    /// Do both screens show the same, whatever their links and the modes that decide how
    /// text is drawn?
    pub open spec fn alike(self, t: Screen) -> bool {
        self.unlinked().modeless() == t.unlinked().modeless()
    }

    /// Are the modes that decide how text is drawn the same?
    pub open spec fn modes_like(self, t: Screen) -> bool {
        &&& self.ds.geo.region_top == t.ds.geo.region_top
        &&& self.ds.geo.region_bottom == t.ds.geo.region_bottom
        &&& self.ds.next_print_will_wrap == t.ds.next_print_will_wrap
        &&& self.ds.origin_mode == t.ds.origin_mode
        &&& self.ds.auto_wrap_mode == t.ds.auto_wrap_mode
        &&& self.ds.insert_mode == t.ds.insert_mode
    }

    /// Is the cursor kept to the same rows?
    pub open spec fn bounded_like(self, t: Screen) -> bool {
        self.ds.top() == t.ds.top() && self.ds.bottom() == t.ds.bottom()
    }

    /// Is the row among those that the cursor is kept to?
    pub open spec fn reaches(self, row: int) -> bool {
        self.ds.top() <= row <= self.ds.bottom()
    }

    /// Does the cursor stay in its row on both when it moves within it?
    pub open spec fn row_held(self, t: Screen) -> bool {
        self.reaches(self.ds.geo.cursor_row) && t.reaches(t.ds.geo.cursor_row)
    }

    /// Does a line feed do the same: it scrolls neither and stays within the rows of both,
    /// or both scroll the same rows?
    pub open spec fn feeds_like(self, t: Screen) -> bool {
        let (g, h) = (self.ds.geo, t.ds.geo);
        &&& self.row_held(t)
        &&& self.scroll_needed(1) == t.scroll_needed(1)
        &&& if self.scroll_needed(1) == 0 {
            self.bounded_like(t) || (self.reaches(g.cursor_row + 1) && t.reaches(
                h.cursor_row + 1,
            ))
        } else {
            &&& self.bounded_like(t)
            &&& g.region_top == h.region_top
            &&& g.region_bottom == h.region_bottom
        }
    }

    /// Does a character that is `columns` wide start a new line?
    pub open spec fn wraps_for(self, columns: int) -> bool {
        self.ds.auto_wrap_mode && (self.ds.next_print_will_wrap || (columns == 2
            && self.ds.geo.cursor_col == self.ds.geo.width - 1))
    }

    /// Is the character printed in the same way?
    pub open spec fn prints_like(self, t: Screen, widths: Seq<WidthRange>, ch: char) -> bool {
        let columns = print_width(widths, ch);
        if columns == 1 || columns == 2 {
            &&& self.ds.insert_mode == t.ds.insert_mode
            &&& self.row_held(t)
            &&& self.wraps_for(columns) == t.wraps_for(columns)
            &&& self.wraps_for(columns) ==> {
                &&& self.ds.next_print_will_wrap == t.ds.next_print_will_wrap
                &&& self.feeds_like(t)
            }
        } else {
            columns == 0 ==> self.row_held(t)
        }
    }

    /// Do margins that are set leave the cursor the same rows?
    pub open spec fn margins_like(self, t: Screen, top: int, bottom: int) -> bool {
        let (a, b) = (
            self.with_ds(self.ds.region_set(top - 1, bottom - 1)),
            t.with_ds(t.ds.region_set(top - 1, bottom - 1)),
        );
        a.bounded_like(b)
    }
}

/// Do these name no private mode that moves the cursor?
pub open spec fn only_flags(params: Seq<int>) -> bool {
    forall|i: int|
        0 <= i < params.len() ==> #[trigger] params[i] != 3 && params[i] != 6
}

/// Does a command do the same on both screens, apart from what differs already?
pub open spec fn performed_alike(
    f: Function,
    s: Screen,
    t: Screen,
    params: Seq<int>,
    letter: char,
) -> bool {
    ||| s.modes_like(t)
    ||| match f {
        Function::EraseLine | Function::EraseDisplay | Function::EraseChars
        | Function::InsertCells | Function::DeleteCells | Function::AlignmentTest
        | Function::TabSet | Function::TabClear | Function::SetModes | Function::ClearModes
        | Function::SelectRendition | Function::Bell | Function::DeviceAttributes
        | Function::SecondaryDeviceAttributes | Function::DeviceStatus => true,
        Function::CarriageReturn | Function::Backspace | Function::CharPosition
        | Function::CursorTab | Function::Tab => s.row_held(t),
        Function::CursorMove => if letter == 'C' || letter == 'D' {
            s.row_held(t)
        } else {
            s.bounded_like(t)
        },
        Function::LinePosition => s.bounded_like(t),
        Function::LineFeed => s.feeds_like(t),
        Function::SetPrivateModes | Function::ClearPrivateModes => only_flags(params),
        Function::SetMargins => s.margins_like(
            t,
            param_or(params, 0, 1),
            param_or(params, 1, s.ds.geo.height),
        ),
        _ => false,
    }
}

/// Is the same screen left, modes aside?
spec fn same_modeless(s: Screen, t: Screen) -> bool {
    s.modeless() == t.modeless()
}

proof fn lemma_same(s: Screen, t: Screen)
    requires
        same_modeless(s, t),
        s.modes_like(t),
    ensures
        s == t,
{
    assert(s.ds.geo == t.ds.geo);
    assert(s.ds == t.ds);
}

proof fn lemma_held_modeless(s: Screen, t: Screen, n: int, relative: bool, implicit: bool)
    requires
        same_modeless(s, t),
        s.row_held(t),
    ensures
        s.ds.col_moved(n, relative, implicit).modeless() == t.ds.col_moved(
            n,
            relative,
            implicit,
        ).modeless(),
        s.ds.tabbed(n).modeless() == t.ds.tabbed(n).modeless(),
        s.ds.col_moved(n, relative, implicit).geo.cursor_row == s.ds.geo.cursor_row,
{
    reveal(DrawView::col_moved);
    reveal(DrawView::tabbed);
    reveal(GeometryView::col_moved);
    assert(s.ds.tabs == t.ds.tabs);
    assert(s.ds.tab_target(n) == t.ds.tab_target(n));
}

proof fn lemma_bounded_modeless(s: Screen, t: Screen, n: int, relative: bool)
    requires
        same_modeless(s, t),
        s.bounded_like(t),
    ensures
        s.ds.row_moved(n, relative).modeless() == t.ds.row_moved(n, relative).modeless(),
        s.with_ds(s.ds.row_moved(n, relative)).bounded_like(
            t.with_ds(t.ds.row_moved(n, relative)),
        ),
{
    reveal(DrawView::row_moved);
    reveal(GeometryView::row_moved);
}

proof fn lemma_placed_modeless(s: Screen, t: Screen, row: int, col: int)
    requires
        same_modeless(s, t),
        s.bounded_like(t),
        s.valid(),
        t.valid(),
    ensures
        same_modeless(s.cursor_placed(row, col), t.cursor_placed(row, col)),
{
    lemma_bounded_modeless(s, t, row, false);
    let (a, b) = (
        s.with_ds(s.ds.row_moved(row, false)),
        t.with_ds(t.ds.row_moved(row, false)),
    );
    assert(a.row_held(b)) by {
        reveal(DrawView::row_moved);
        reveal(GeometryView::row_moved);
    }
    lemma_held_modeless(a, b, col, false, false);
}

proof fn lemma_feed_modeless(s: Screen, t: Screen)
    requires
        same_modeless(s, t),
        s.feeds_like(t),
        s.valid(),
        t.valid(),
    ensures
        same_modeless(s.autoscrolled(1), t.autoscrolled(1)),
        s.autoscrolled(1).row_held(t.autoscrolled(1)),
        s.autoscrolled(1).ds.insert_mode == s.ds.insert_mode,
        t.autoscrolled(1).ds.insert_mode == t.ds.insert_mode,
{
    reveal(Screen::autoscrolled);
    reveal(DrawView::row_moved);
    reveal(GeometryView::row_moved);
    let n = s.scroll_needed(1);
    if n != 0 {
        assert(s.scrolled(n).ds == s.ds && t.scrolled(n).ds == t.ds && s.scrolled(n).rows
            == t.scrolled(n).rows && same_modeless(s.scrolled(n), t.scrolled(n))) by {
            reveal(Screen::lines_deleted);
            reveal(Screen::lines_inserted);
            assert(s.rows == t.rows);
            assert(s.new_row() == t.new_row());
        }
    }
}

proof fn lemma_rows_reset_modeless(s: Screen, t: Screen, from: int, to: int)
    requires
        same_modeless(s, t),
    ensures
        same_modeless(s.rows_reset(from, to), t.rows_reset(from, to)),
    decreases to - from,
{
    if from < to {
        lemma_row_reset_modeless(s, t, from);
        lemma_rows_reset_modeless(s.row_reset(from), t.row_reset(from), from + 1, to);
    }
}

proof fn lemma_row_reset_modeless(s: Screen, t: Screen, row: int)
    requires
        same_modeless(s, t),
    ensures
        same_modeless(s.row_reset(row), t.row_reset(row)),
{
    assert(s.rows == t.rows);
    assert(s.row_named(row) == t.row_named(row)) by {
        assert(s.modeless().ds.geo.cursor_row == t.modeless().ds.geo.cursor_row);
    }
    assert(s.background() == t.background()) by {
        assert(s.modeless().ds.renditions == t.modeless().ds.renditions);
    }
}

proof fn lemma_erased_modeless(s: Screen, t: Screen, start: int, end: int)
    requires
        same_modeless(s, t),
    ensures
        same_modeless(s.cells_erased(start, end), t.cells_erased(start, end)),
{
    assert(s.rows == t.rows);
    assert(s.modeless().ds.geo.cursor_row == t.modeless().ds.geo.cursor_row);
    assert(s.modeless().ds.renditions == t.modeless().ds.renditions);
    assert(s.cursor_line() == t.cursor_line());
}

proof fn lemma_erasures_modeless(s: Screen, t: Screen, mode: int)
    requires
        same_modeless(s, t),
    ensures
        same_modeless(s.line_erased(mode), t.line_erased(mode)),
        same_modeless(s.display_erased(mode), t.display_erased(mode)),
        same_modeless(s.chars_erased(mode), t.chars_erased(mode)),
{
    reveal(Screen::line_erased);
    reveal(Screen::display_erased);
    reveal(Screen::chars_erased);
    assert(s.modeless().ds.geo == t.modeless().ds.geo);
    let geo = s.ds.geo;
    let (x, y) = (geo.cursor_col, geo.cursor_row);
    lemma_erased_modeless(s, t, x, geo.width);
    lemma_erased_modeless(s, t, 0, x + 1);
    lemma_erased_modeless(s, t, x, x + mode);
    lemma_row_reset_modeless(s, t, -1);
    lemma_rows_reset_modeless(s, t, 0, geo.height);
    lemma_rows_reset_modeless(
        s.cells_erased(x, geo.width),
        t.cells_erased(x, geo.width),
        y + 1,
        geo.height,
    );
    lemma_rows_reset_modeless(s, t, 0, y);
    lemma_erased_modeless(s.rows_reset(0, y), t.rows_reset(0, y), 0, x + 1);
}

proof fn lemma_shifted_modeless(s: Screen, t: Screen, count: int)
    requires
        same_modeless(s, t),
    ensures
        same_modeless(s.cells_inserted_here(count), t.cells_inserted_here(count)),
        same_modeless(s.cells_deleted_here(count), t.cells_deleted_here(count)),
        same_modeless(s.cell_inserted_here(), t.cell_inserted_here()),
        same_modeless(s.filled('E'), t.filled('E')),
{
    reveal(Screen::cells_inserted_here);
    reveal(Screen::cells_deleted_here);
    reveal(Screen::filled);
    assert(s.rows == t.rows);
    assert(s.modeless().ds.geo == t.modeless().ds.geo);
    assert(s.modeless().ds.renditions == t.modeless().ds.renditions);
    assert(s.cursor_line() == t.cursor_line());
    assert(s.filled('E').rows =~= t.filled('E').rows);
}

proof fn lemma_flags_modeless(s: Screen, t: Screen, params: Seq<int>, i: int, value: bool)
    requires
        same_modeless(s, t),
        only_flags(params),
    ensures
        same_modeless(
            private_modes_set(s, params, i, value),
            private_modes_set(t, params, i, value),
        ),
    decreases params.len() - i,
{
    if 0 <= i < params.len() {
        let p = param_or(params, i, 0);
        assert(params[i] != 3 && params[i] != 6);
        let (a, b) = (s.private_mode_set(p, value), t.private_mode_set(p, value));
        assert(same_modeless(a, b)) by {
            reveal(Screen::private_mode_set);
            reveal(DrawView::flag_switched);
            assert(s.modeless().ds == t.modeless().ds);
        }
        lemma_flags_modeless(a, b, params, i + 1, value);
    }
}

proof fn lemma_margins_modeless(s: Screen, t: Screen, top: int, bottom: int)
    requires
        same_modeless(s, t),
        s.valid(),
        t.valid(),
        s.margins_like(t, top, bottom),
    ensures
        same_modeless(s.margins_set(top, bottom), t.margins_set(top, bottom)),
{
    reveal(Screen::margins_set);
    assert(s.modeless().ds.geo == t.modeless().ds.geo);
    if !(bottom <= top || top > s.ds.geo.height || (top == 0 && bottom == 1)) {
        let (a, b) = (
            s.with_ds(s.ds.region_set(top - 1, bottom - 1)),
            t.with_ds(t.ds.region_set(top - 1, bottom - 1)),
        );
        assert(same_modeless(a.cursor_placed(0, 0), b.cursor_placed(0, 0))) by {
            reveal(DrawView::region_set);
            reveal(GeometryView::region_set);
            reveal(DrawView::row_moved);
            reveal(DrawView::col_moved);
            reveal(GeometryView::row_moved);
            reveal(GeometryView::col_moved);
        }
    }
}

proof fn lemma_mode_performed_modeless(f: Function, s: Screen, t: Screen, params: Seq<int>)
    requires
        same_modeless(s, t),
        s.valid(),
        t.valid(),
        !s.modes_like(t),
        f == Function::SetModes || f == Function::ClearModes || f == Function::SelectRendition
            || f == Function::Bell || f == Function::DeviceAttributes || f
            == Function::SecondaryDeviceAttributes || f == Function::DeviceStatus || f
            == Function::SetPrivateModes || f == Function::ClearPrivateModes || f
            == Function::SetMargins,
        performed_alike(f, s, t, params, ' '),
    ensures
        same_modeless(mode_performed(f, s, params), mode_performed(f, t, params)),
{
    reveal(mode_performed);
    assert(s.modeless().ds == t.modeless().ds);
    assert(s.modeless().ds.geo.height == t.modeless().ds.geo.height);
    match f {
        Function::SetPrivateModes | Function::ClearPrivateModes => {
            lemma_flags_modeless(s, t, params, 0, true);
            lemma_flags_modeless(s, t, params, 0, false);
        },
        Function::SetMargins => {
            lemma_margins_modeless(
                s,
                t,
                param_or(params, 0, 1),
                param_or(params, 1, s.ds.geo.height),
            );
        },
        _ => {},
    }
}

proof fn lemma_cursor_performed_modeless(
    f: Function,
    s: Screen,
    t: Screen,
    params: Seq<int>,
    letter: char,
)
    requires
        same_modeless(s, t),
        s.valid(),
        t.valid(),
        !s.modes_like(t),
        performed_alike(f, s, t, params, letter),
        !(f is EraseLine || f is EraseDisplay || f is EraseChars || f is InsertCells
            || f is DeleteCells || f is AlignmentTest),
    ensures
        same_modeless(
            cursor_performed(f, s, params, letter),
            cursor_performed(f, t, params, letter),
        ),
{
    let n = param_or(params, 0, 1);
    assert(s.modeless().ds == t.modeless().ds);
    match f {
        Function::CarriageReturn => {
            reveal(cursor_performed);
            lemma_held_modeless(s, t, 0, false, false);
        },
        Function::Backspace => {
            reveal(cursor_performed);
            lemma_held_modeless(s, t, -1, true, false);
        },
        Function::CharPosition => {
            reveal(cursor_performed);
            lemma_held_modeless(s, t, n - 1, false, false);
        },
        Function::CursorTab => {
            reveal(cursor_performed);
            lemma_held_modeless(s, t, n, false, false);
            lemma_held_modeless(s, t, -n, false, false);
        },
        Function::Tab => {
            reveal(cursor_performed);
            lemma_held_modeless(s, t, 1, false, false);
        },
        Function::CursorMove => {
            reveal(cursor_performed);
            reveal(Screen::cursor_commanded);
            if letter == 'C' || letter == 'D' {
                lemma_held_modeless(s, t, n, true, false);
                lemma_held_modeless(s, t, -n, true, false);
            } else {
                lemma_bounded_modeless(s, t, n, true);
                lemma_bounded_modeless(s, t, -n, true);
                lemma_placed_modeless(s, t, n - 1, param_or(params, 1, 1) - 1);
            }
        },
        Function::LinePosition => {
            reveal(cursor_performed);
            lemma_bounded_modeless(s, t, n - 1, false);
        },
        Function::LineFeed => {
            reveal(cursor_performed);
            lemma_feed_modeless(s, t);
        },
        Function::TabSet => {
            reveal(cursor_performed);
            assert(s.ds.tabs == t.ds.tabs);
        },
        Function::TabClear => {
            reveal(cursor_performed);
            reveal(Screen::tabs_cleared);
            assert(s.ds.tabs == t.ds.tabs);
        },
        _ => {
            reveal(cursor_performed);
            lemma_mode_performed_modeless(f, s, t, params);
        },
    }
}

proof fn lemma_performed_modeless(
    f: Function,
    s: Screen,
    t: Screen,
    params: Seq<int>,
    letter: char,
)
    requires
        same_modeless(s, t),
        s.valid(),
        t.valid(),
        performed_alike(f, s, t, params, letter),
    ensures
        same_modeless(performed(f, s, params, letter), performed(f, t, params, letter)),
{
    let n = param_or(params, 0, 1);
    if s.modes_like(t) {
        lemma_same(s, t);
    } else {
        match f {
            Function::EraseLine | Function::EraseDisplay => {
                reveal(performed);
                lemma_erasures_modeless(s, t, param_or(params, 0, 0));
            },
            Function::EraseChars => {
                reveal(performed);
                lemma_erasures_modeless(s, t, n);
            },
            Function::InsertCells | Function::DeleteCells | Function::AlignmentTest => {
                reveal(performed);
                lemma_shifted_modeless(s, t, n);
            },
            _ => {
                reveal(performed);
                lemma_cursor_performed_modeless(f, s, t, params, letter);
            },
        }
    }
}

proof fn lemma_wrapped_modeless(s: Screen, t: Screen, columns: int)
    requires
        same_modeless(s, t),
        s.valid(),
        t.valid(),
        s.row_held(t),
        s.wraps_for(columns) == t.wraps_for(columns),
        s.wraps_for(columns) ==> {
            &&& s.ds.next_print_will_wrap == t.ds.next_print_will_wrap
            &&& s.feeds_like(t)
        },
    ensures
        same_modeless(s.wrapped_for(columns), t.wrapped_for(columns)),
        s.wrapped_for(columns).row_held(t.wrapped_for(columns)),
        s.wrapped_for(columns).ds.insert_mode == s.ds.insert_mode,
        t.wrapped_for(columns).ds.insert_mode == t.ds.insert_mode,
{
    reveal(Screen::wrapped_for);
    if s.wraps_for(columns) {
        assert(s.rows == t.rows);
        assert(s.modeless().ds == t.modeless().ds);
        assert(s.modeless().ds.geo == t.modeless().ds.geo);
        let pending = s.ds.next_print_will_wrap;
        let (a, b) = if pending {
            (s.row_wrap_set(true), t.row_wrap_set(true))
        } else {
            let blank = CellView::blank(s.background());
            (
                s.with_cell(-1, -1, blank).row_wrap_set(false),
                t.with_cell(-1, -1, blank).row_wrap_set(false),
            )
        };
        assert(same_modeless(a, b));
        assert(a.ds == s.ds && b.ds == t.ds);
        lemma_held_modeless(a, b, 0, false, false);
        let (c, d) = (
            a.with_ds(a.ds.col_moved(0, false, false)),
            b.with_ds(b.ds.col_moved(0, false, false)),
        );
        lemma_rows_kept_valid(s, a);
        lemma_rows_kept_valid(t, b);
        assert(c.valid() && d.valid() && c.feeds_like(d) && c.ds.insert_mode == s.ds.insert_mode
            && d.ds.insert_mode == t.ds.insert_mode) by {
            reveal(DrawView::col_moved);
            reveal(GeometryView::col_moved);
        }
        lemma_feed_modeless(c, d);
    }
}

/// Setting wrap flags or emptying a cell keeps the screen whole.
proof fn lemma_rows_kept_valid(s: Screen, t: Screen)
    requires
        s.valid(),
        t == (Screen { rows: t.rows, ..s }),
        t.rows.len() == s.rows.len(),
        forall|i: int|
            0 <= i < s.rows.len() ==> (#[trigger] t.rows[i]).cells.len() == s.rows[i].cells.len(),
    ensures
        t.valid(),
{
    assert forall|i: int| 0 <= i < t.rows.len() implies (#[trigger] t.rows[i]).cells.len()
        == t.ds.geo.width by {
        assert(s.rows[i].cells.len() == s.ds.geo.width);
    }
}

proof fn lemma_printed_modeless(s: Screen, t: Screen, w: Seq<WidthRange>, ch: char)
    requires
        same_modeless(s, t),
        s.valid(),
        t.valid(),
        s.prints_like(t, w, ch),
    ensures
        same_modeless(s.printed(w, ch), t.printed(w, ch)),
{
    reveal(Screen::printed);
    let columns = print_width(w, ch);
    assert(s.modeless().ds == t.modeless().ds);
    if columns == 1 || columns == 2 {
        lemma_wrapped_modeless(s, t, columns);
        let (a, b) = (s.wrapped_for(columns), t.wrapped_for(columns));
        lemma_shifted_modeless(a, b, 0);
        lemma_shifted_modeless(a.cell_inserted_here(), b.cell_inserted_here(), 0);
        let (c, d) = (a.room_made(columns), b.room_made(columns));
        assert(same_modeless(c, d) && c.ds == a.ds && d.ds == b.ds) by {
            reveal(Screen::room_made);
        }
        reveal(Screen::char_put);
        lemma_held_modeless(c, d, columns, true, true);
        assert(c.rows == d.rows);
        assert(c.modeless().ds == d.modeless().ds);
        assert(c.modeless().ds.geo == d.modeless().ds.geo);
        assert(c.printed_cell(ch, columns) == d.printed_cell(ch, columns));
    } else if columns == 0 {
        reveal(Screen::char_combined);
        lemma_held_modeless(s, t, 1, true, true);
        assert(s.rows == t.rows);
        assert(s.modeless().ds.geo == t.modeless().ds.geo);
    }
}

impl EmulatorView {
    /// Do both terminals show the same, whatever their links and the modes that decide how
    /// text is drawn?
    pub open spec fn alike(self, other: EmulatorView) -> bool {
        &&& self.screen.alike(other.screen)
        &&& self.dispatch == other.dispatch
        &&& self.parser == other.parser
        &&& self.widths == other.widths
    }

    /// Does the function with the given key do the same on both terminals?
    pub open spec fn dispatches_like(self, other: EmulatorView, ty: FunctionType, ch: char) -> bool {
        let d = self.dispatch.keyed(ty, ch);
        match entry_for(ty, d.key(ty, ch)) {
            Some(entry) => {
                let (s, t) = if entry.clears_wrap_state {
                    (unwrapped(self.screen), unwrapped(other.screen))
                } else {
                    (self.screen, other.screen)
                };
                performed_alike(entry.function, s, t, params_in(d.params), d.letter())
            },
            None => true,
        }
    }

    /// Does the action do the same on both terminals?
    pub open spec fn acts_like(self, other: EmulatorView, a: Action) -> bool {
        match a.ch {
            Some(ch) => match a.kind {
                Kind::Print => self.screen.prints_like(other.screen, self.widths, ch)
                    || self.screen.modes_like(other.screen),
                Kind::Execute => self.dispatches_like(other, FunctionType::Control, ch),
                Kind::CsiDispatch => self.dispatches_like(other, FunctionType::Csi, ch),
                Kind::EscDispatch => if self.dispatch.dispatch_chars.len() == 0 && '\u{40}' <= ch
                    <= '\u{5f}' {
                    self.dispatches_like(other, FunctionType::Control, c1_control(ch))
                } else {
                    self.dispatches_like(other, FunctionType::Escape, ch)
                },
                _ => true,
            },
            None => true,
        }
    }

    /// Does each of the actions do the same on both terminals?
    pub open spec fn all_act_like(self, other: EmulatorView, actions: Seq<Action>) -> bool
        decreases actions.len(),
    {
        actions.len() == 0 || {
            let init = actions.drop_last();
            &&& self.all_act_like(other, init)
            &&& self.all_acted(init).acts_like(other.all_acted(init), actions.last())
        }
    }

    /// Does the character do the same on both terminals?
    #[verifier::opaque]
    pub open spec fn takes_like(self, other: EmulatorView, c: char) -> bool {
        let after = self.parser.state.after(c);
        self.in_state(after).all_act_like(other.in_state(after), self.parser.state.raised(c))
    }

    /// Does the text do the same on both terminals, which may differ in links and in the
    /// modes that decide how text is drawn? Printing asks for insert mode, and for wrap mode
    /// at the end of a row; a line feed asks for the margins at the end of either region;
    /// moving the cursor to a row asks for the rows that it is kept to.
    pub open spec fn reads_like(self, other: EmulatorView, text: Seq<char>) -> bool
        decreases text.len(),
    {
        text.len() == 0 || {
            let init = text.drop_last();
            &&& self.reads_like(other, init)
            &&& self.typed(init).takes_like(other.typed(init), text.last())
        }
    }
}

proof fn lemma_alike_dispatched(e: EmulatorView, p: EmulatorView, ty: FunctionType, ch: char)
    requires
        e.alike(p),
        e.sound(),
        p.sound(),
        e.dispatches_like(p, ty, ch),
    ensures
        e.dispatched(ty, ch).alike(p.dispatched(ty, ch)),
{
    reveal(DispatcherView::screen_after);
    reveal(DispatcherView::dispatched);
    let d = e.dispatch.keyed(ty, ch);
    let (s, t) = (e.screen, p.screen);
    let (a, b) = (unwrapped(s), unwrapped(t));
    assert(a.alike(b)) by {
        assert(a.unlinked().modeless() =~= s.unlinked().modeless());
        assert(b.unlinked().modeless() =~= t.unlinked().modeless());
    }
    assert(s.unlinked().modeless().ds.geo == t.unlinked().modeless().ds.geo);
    if let Some(entry) = entry_for(ty, d.key(ty, ch)) {
        let (u, v) = if entry.clears_wrap_state {
            (a, b)
        } else {
            (s, t)
        };
        let (f, params, letter) = (entry.function, params_in(d.params), d.letter());
        lemma_performed_unlinked(f, u, e.widths, params, letter);
        lemma_performed_unlinked(f, v, e.widths, params, letter);
        lemma_unlinked_valid(u);
        lemma_unlinked_valid(v);
        assert(performed_alike(f, u.unlinked(), v.unlinked(), params, letter)) by {
            lemma_performed_alike_unlinked(f, u, v, params, letter);
        }
        lemma_performed_modeless(f, u.unlinked(), v.unlinked(), params, letter);
    }
}

proof fn lemma_unlinked_valid(s: Screen)
    requires
        s.valid(),
    ensures
        s.unlinked().valid(),
{
    let t = s.unlinked();
    assert forall|i: int| 0 <= i < t.rows.len() implies (#[trigger] t.rows[i]).cells.len()
        == t.ds.geo.width by {
        assert(s.rows[i].cells.len() == s.ds.geo.width);
    }
}

/// Whether a command does the same does not depend on links.
proof fn lemma_performed_alike_unlinked(
    f: Function,
    s: Screen,
    t: Screen,
    params: Seq<int>,
    letter: char,
)
    requires
        performed_alike(f, s, t, params, letter),
    ensures
        performed_alike(f, s.unlinked(), t.unlinked(), params, letter),
{
    reveal(DrawView::region_set);
}

proof fn lemma_alike_acted(e: EmulatorView, p: EmulatorView, a: Action)
    requires
        e.alike(p),
        e.sound(),
        p.sound(),
        e.acts_like(p, a),
    ensures
        e.acted(a).alike(p.acted(a)),
{
    reveal(EmulatorView::acted);
    let (s, t) = (e.screen, p.screen);
    lemma_alike_osc(e.dispatch.osc, s, t);
    if let Some(ch) = a.ch {
        match a.kind {
            Kind::Print => {
                lemma_printed_unlinked(s, e.widths, ch);
                lemma_printed_unlinked(t, e.widths, ch);
                let (u, v) = (s.unlinked(), t.unlinked());
                lemma_unlinked_valid(s);
                lemma_unlinked_valid(t);
                if s.modes_like(t) {
                    lemma_same(u, v);
                } else {
                    assert(u.prints_like(v, e.widths, ch));
                    lemma_printed_modeless(u, v, e.widths, ch);
                }
            },
            Kind::Execute => {
                lemma_alike_dispatched(e, p, FunctionType::Control, ch);
            },
            Kind::CsiDispatch => {
                lemma_alike_dispatched(e, p, FunctionType::Csi, ch);
            },
            Kind::EscDispatch => {
                if e.dispatch.dispatch_chars.len() == 0 && '\u{40}' <= ch <= '\u{5f}' {
                    lemma_alike_dispatched(e, p, FunctionType::Control, c1_control(ch));
                } else {
                    lemma_alike_dispatched(e, p, FunctionType::Escape, ch);
                }
            },
            _ => {},
        }
    }
}

proof fn lemma_alike_osc(osc: Seq<char>, s: Screen, t: Screen)
    requires
        s.alike(t),
    ensures
        osc_performed(osc, s).alike(osc_performed(osc, t)),
{
    reveal(osc_performed);
    let (a, b) = (osc_performed(osc, s), osc_performed(osc, t));
    let (u, v) = (s.unlinked().modeless(), t.unlinked().modeless());
    assert(a.unlinked().modeless().rows == u.rows);
    assert(b.unlinked().modeless().rows == v.rows);
    assert(a.unlinked().modeless().ds == u.ds);
    assert(b.unlinked().modeless().ds == v.ds);
}

proof fn lemma_alike_all_acted(e: EmulatorView, p: EmulatorView, actions: Seq<Action>)
    requires
        e.alike(p),
        e.sound(),
        p.sound(),
        e.all_act_like(p, actions),
        actions_sound(actions),
    ensures
        e.all_acted(actions).alike(p.all_acted(actions)),
        e.all_acted(actions).sound(),
        p.all_acted(actions).sound(),
    decreases actions.len(),
{
    if actions.len() > 0 {
        let init = actions.drop_last();
        assert forall|i: int| 0 <= i < init.len() implies action_sound(#[trigger] init[i]) by {
            assert(init[i] == actions[i]);
        }
        lemma_alike_all_acted(e, p, init);
        assert(action_sound(actions[actions.len() - 1]));
        let (a, b) = (e.all_acted(init), p.all_acted(init));
        lemma_alike_acted(a, b, actions.last());
        lemma_acted(a, actions.last());
        lemma_acted(b, actions.last());
    }
}

proof fn lemma_alike_fed(e: EmulatorView, p: EmulatorView, c: char)
    requires
        e.alike(p),
        e.sound(),
        p.sound(),
        e.takes_like(p, c),
    ensures
        e.char_fed(c).alike(p.char_fed(c)),
        e.char_fed(c).sound(),
        p.char_fed(c).sound(),
{
    reveal(EmulatorView::char_fed);
    reveal(EmulatorView::takes_like);
    let after = e.parser.state.after(c);
    lemma_raised(e.parser.state, c);
    assert(e.in_state(after) == (EmulatorView {
        parser: ParserView { state: after, ..e.parser },
        ..e
    }));
    lemma_alike_all_acted(e.in_state(after), p.in_state(after), e.parser.state.raised(c));
}

/// Terminals that differ in nothing but links and modes go on to show the same, while what
/// is typed does the same on both.
pub proof fn terminals_that_read_alike_show_alike(e: EmulatorView, p: EmulatorView, text: Seq<char>)
    requires
        e.alike(p),
        e.sound(),
        p.sound(),
        e.reads_like(p, text),
    ensures
        e.typed(text).alike(p.typed(text)),
        e.typed(text).sound(),
        p.typed(text).sound(),
    decreases text.len(),
{
    if text.len() > 0 {
        let init = text.drop_last();
        terminals_that_read_alike_show_alike(e, p, init);
        lemma_alike_fed(e.typed(init), p.typed(init), text.last());
    }
}

impl EmulatorView {
    /// Do both terminals differ in nothing but links?
    pub open spec fn links_aside(self, other: EmulatorView) -> bool {
        &&& self.screen.unlinked() == other.screen.unlinked()
        &&& self.dispatch == other.dispatch
        &&& self.parser == other.parser
        &&& self.widths == other.widths
    }
}

proof fn lemma_links_aside(e: EmulatorView, p: EmulatorView)
    requires
        e.links_aside(p),
    ensures
        e.screen.modes_like(p.screen),
        e.screen.ds.geo == p.screen.ds.geo,
        unwrapped(e.screen).unlinked() == unwrapped(p.screen).unlinked(),
        unwrapped(e.screen).modes_like(unwrapped(p.screen)),
{
    let (u, v) = (e.screen.unlinked(), p.screen.unlinked());
    assert(u.ds == v.ds);
    assert(unwrapped(e.screen).unlinked() =~= unwrapped(u));
    assert(unwrapped(p.screen).unlinked() =~= unwrapped(v));
}

proof fn lemma_links_dispatched(e: EmulatorView, p: EmulatorView, ty: FunctionType, ch: char)
    requires
        e.links_aside(p),
        e.sound(),
        p.sound(),
    ensures
        e.dispatched(ty, ch).links_aside(p.dispatched(ty, ch)),
        e.dispatches_like(p, ty, ch),
{
    reveal(DispatcherView::screen_after);
    reveal(DispatcherView::dispatched);
    lemma_links_aside(e, p);
    let d = e.dispatch.keyed(ty, ch);
    if let Some(entry) = entry_for(ty, d.key(ty, ch)) {
        let (f, params, letter) = (entry.function, params_in(d.params), d.letter());
        let (a, b) = (unwrapped(e.screen), unwrapped(p.screen));
        lemma_performed_unlinked(f, a, e.widths, params, letter);
        lemma_performed_unlinked(f, b, e.widths, params, letter);
        lemma_performed_unlinked(f, e.screen, e.widths, params, letter);
        lemma_performed_unlinked(f, p.screen, e.widths, params, letter);
    }
}

proof fn lemma_links_osc(osc: Seq<char>, s: Screen, t: Screen)
    requires
        s.unlinked() == t.unlinked(),
    ensures
        osc_performed(osc, s).unlinked() == osc_performed(osc, t).unlinked(),
{
    reveal(osc_performed);
    let (a, b) = (osc_performed(osc, s), osc_performed(osc, t));
    let (u, v) = (s.unlinked(), t.unlinked());
    assert(a.unlinked().rows == u.rows);
    assert(b.unlinked().rows == v.rows);
    assert(a.unlinked().ds == u.ds);
    assert(b.unlinked().ds == v.ds);
}

proof fn lemma_links_acted(e: EmulatorView, p: EmulatorView, a: Action)
    requires
        e.links_aside(p),
        e.sound(),
        p.sound(),
    ensures
        e.acted(a).links_aside(p.acted(a)),
        e.acts_like(p, a),
{
    reveal(EmulatorView::acted);
    lemma_links_aside(e, p);
    lemma_links_osc(e.dispatch.osc, e.screen, p.screen);
    if let Some(ch) = a.ch {
        match a.kind {
            Kind::Print => {
                lemma_printed_unlinked(e.screen, e.widths, ch);
                lemma_printed_unlinked(p.screen, e.widths, ch);
            },
            Kind::Execute => {
                lemma_links_dispatched(e, p, FunctionType::Control, ch);
            },
            Kind::CsiDispatch => {
                lemma_links_dispatched(e, p, FunctionType::Csi, ch);
            },
            Kind::EscDispatch => {
                lemma_links_dispatched(e, p, FunctionType::Control, c1_control(ch));
                lemma_links_dispatched(e, p, FunctionType::Escape, ch);
            },
            _ => {},
        }
    }
}

proof fn lemma_links_all_acted(e: EmulatorView, p: EmulatorView, actions: Seq<Action>)
    requires
        e.links_aside(p),
        e.sound(),
        p.sound(),
        actions_sound(actions),
    ensures
        e.all_acted(actions).links_aside(p.all_acted(actions)),
        e.all_acted(actions).sound(),
        p.all_acted(actions).sound(),
        e.all_act_like(p, actions),
    decreases actions.len(),
{
    if actions.len() > 0 {
        let init = actions.drop_last();
        assert forall|i: int| 0 <= i < init.len() implies action_sound(#[trigger] init[i]) by {
            assert(init[i] == actions[i]);
        }
        lemma_links_all_acted(e, p, init);
        assert(action_sound(actions[actions.len() - 1]));
        let (a, b) = (e.all_acted(init), p.all_acted(init));
        lemma_links_acted(a, b, actions.last());
        lemma_acted(a, actions.last());
        lemma_acted(b, actions.last());
    }
}

proof fn lemma_links_fed(e: EmulatorView, p: EmulatorView, c: char)
    requires
        e.links_aside(p),
        e.sound(),
        p.sound(),
    ensures
        e.char_fed(c).links_aside(p.char_fed(c)),
        e.char_fed(c).sound(),
        p.char_fed(c).sound(),
        e.takes_like(p, c),
{
    reveal(EmulatorView::char_fed);
    reveal(EmulatorView::takes_like);
    let after = e.parser.state.after(c);
    lemma_raised(e.parser.state, c);
    assert(e.in_state(after) == (EmulatorView {
        parser: ParserView { state: after, ..e.parser },
        ..e
    }));
    lemma_links_all_acted(e.in_state(after), p.in_state(after), e.parser.state.raised(c));
}

/// Links change nothing else: terminals that differ in links alone go on to differ in links
/// alone, whatever is typed.
pub proof fn links_change_nothing_else(e: EmulatorView, p: EmulatorView, text: Seq<char>)
    requires
        e.links_aside(p),
        e.sound(),
        p.sound(),
    ensures
        e.typed(text).links_aside(p.typed(text)),
        e.typed(text).sound(),
        p.typed(text).sound(),
        e.reads_like(p, text),
    decreases text.len(),
{
    if text.len() > 0 {
        let init = text.drop_last();
        links_change_nothing_else(e, p, init);
        lemma_links_fed(e.typed(init), p.typed(init), text.last());
    }
}

impl Screen {
    /// Do the margins take in the whole screen?
    pub open spec fn scrolls_whole(self) -> bool {
        self.ds.geo.region_top == 0 && self.ds.geo.region_bottom == self.ds.geo.height - 1
    }

    /// The screen of a terminal that draws plainly, in the given link.
    pub open spec fn made_plain(self, link: Option<Link>) -> Screen {
        self.with_ds(
            DrawView {
                geo: GeometryView {
                    region_top: 0,
                    region_bottom: self.ds.geo.height - 1,
                    ..self.ds.geo
                },
                hyperlink: link,
                next_print_will_wrap: false,
                origin_mode: false,
                auto_wrap_mode: true,
                insert_mode: false,
                ..self.ds
            },
        )
    }
}

impl EmulatorView {
    /// The terminal in the given link, with every mode set so that text is drawn plainly.
    pub open spec fn made_plain(self, link: Option<Link>) -> EmulatorView {
        EmulatorView { screen: self.screen.made_plain(link), ..self }
    }
}

/// A terminal and its plain form differ in nothing but links and modes.
pub proof fn a_plain_form_shows_the_same(e: EmulatorView, link: Option<Link>)
    requires
        e.sound(),
        link_sendable(link),
    ensures
        e.alike(e.made_plain(link)),
        e.made_plain(link).sound(),
{
    let p = e.made_plain(link);
    assert(e.screen.unlinked().modeless() =~= p.screen.unlinked().modeless());
}

} // verus!
