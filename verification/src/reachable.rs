//! What holds of every screen that an application can draw.
//!
//! Whatever bytes a terminal is fed, its cells hold what can be printed, its links and
//! titles are made of what can stand in a command, and so a frame can spell them.

use vstd::prelude::*;
use vstd::utf8::*;

use crate::cell::{CellView, ColorType, Renditions, MAX_CELL_BYTES, TRUE_COLOR_MASK};
use crate::commands::link_sendable;
use crate::convergence::{are_queries, clipboard_sendable, is_queries_text, queries_text};
use crate::dispatcher::{
    cursor_performed, entry_for, is_clipboard, is_color_query, mode_performed, osc_link,
    osc_performed, osc_title, param_or, params_in, performed, private_modes_set,
    renditions_selected, semicolon_from, DispatcherView, Function, FunctionType,
    MAXIMUM_CLIPBOARD_SIZE,
};
use crate::display::{first_match, match_end};
use crate::draw_state::{DrawView, GeometryView, Modes, MAX_DIMENSION};
use crate::emulator::{print_width, EmulatorView};
use crate::framebuffer::{lemma_encode_concat, Screen};
use crate::likeness::{cell_tidy, is_tidy, last_link};
use crate::mirror::is_cluster;
use crate::parser::{Action, Fed, Kind, ParserView, State};
use crate::redraw::{first_drawn, grid_drawable, left_alone, row_drawable, rows_under};
use crate::row::{blank_cells, RowView};
use crate::typing::{all_graphic, all_in_command, in_command, is_graphic, terminated_command};
use crate::utf8::{decoding, Decoded};
use crate::widths::WidthRange;

verus! {

/// Do the widths leave control characters out, as they have none?
pub open spec fn controls_have_no_width(widths: Seq<WidthRange>) -> bool {
    forall|c: char| !is_graphic(c) ==> !(0 <= #[trigger] print_width(widths, c) <= 2)
}

/// Does the cell hold what can be printed: nothing, one character that has the width of the
/// cell, or combining characters alone, and others that combine with it and fit in?
#[verifier::opaque]
pub open spec fn cell_sound(widths: Seq<WidthRange>, c: CellView) -> bool {
    let n = c.contents.len();
    &&& link_sendable(c.hyperlink)
    &&& n == 0 ==> c.renditions == Renditions::plain(c.renditions.background_color)
        && c.hyperlink is None && !c.wide && !c.fallback
    &&& n > 0 && c.fallback ==> !c.wide && print_width(widths, c.contents[0]) == 0
    &&& n > 0 && !c.fallback ==> print_width(widths, c.contents[0]) == c.columns()
    &&& all_graphic(c.contents)
    &&& forall|i: int| 1 <= i < n ==> print_width(widths, #[trigger] c.contents[i]) == 0
    &&& forall|i: int|
        1 <= i < n ==> encode_utf8(#[trigger] c.contents.subrange(0, i)).len() < MAX_CELL_BYTES
}

/// Does every cell hold what can be printed?
pub open spec fn cells_sound(widths: Seq<WidthRange>, cells: Seq<CellView>) -> bool {
    forall|x: int| 0 <= x < cells.len() ==> cell_sound(widths, #[trigger] cells[x])
}

/// Does every cell of every row hold what can be printed?
pub open spec fn rows_sound(widths: Seq<WidthRange>, rows: Seq<RowView>) -> bool {
    forall|y: int| 0 <= y < rows.len() ==> cells_sound(widths, (#[trigger] rows[y]).cells)
}

/// Is a title made of what can stand in a command, and cut to size?
pub open spec fn title_sound(title: Seq<char>) -> bool {
    all_in_command(title) && title.len() <= 255
}

impl Screen {
    /// Is this a screen that an application can have drawn?
    pub open spec fn sound(self, widths: Seq<WidthRange>) -> bool {
        &&& self.valid()
        &&& rows_sound(widths, self.rows)
        &&& link_sendable(self.ds.hyperlink)
        &&& title_sound(self.icon_name)
        &&& title_sound(self.window_title)
        &&& self.clipboard.len() == 0 || clipboard_sendable(self.clipboard)
        &&& is_queries_text(self.color_queries)
    }
}

impl EmulatorView {
    /// Is this a terminal that an application can have brought about?
    pub open spec fn sound(self) -> bool {
        &&& self.screen.sound(self.widths)
        &&& all_in_command(self.dispatch.osc)
        &&& self.dispatch.osc.len() <= MAXIMUM_CLIPBOARD_SIZE
        &&& controls_have_no_width(self.widths)
    }
}

pub(crate) proof fn lemma_blank_sound(w: Seq<WidthRange>, c: ColorType)
    ensures
        cell_sound(w, CellView::blank(c)),
{
    reveal(cell_sound);
}

proof fn lemma_blanks_sound(w: Seq<WidthRange>, n: nat, c: ColorType)
    ensures
        cells_sound(w, blank_cells(n, c)),
        blank_cells(n, c).len() == n,
{
    lemma_blank_sound(w, c);
}

proof fn lemma_row_put(s: Screen, w: Seq<WidthRange>, row: int, r: RowView)
    requires
        s.sound(w),
        s.has_row(row),
        r.cells.len() == s.ds.geo.width,
        cells_sound(w, r.cells),
    ensures
        s.with_row(row, r).sound(w),
        s.with_row(row, r).ds == s.ds,
{
}

pub(crate) proof fn lemma_cell_put(s: Screen, w: Seq<WidthRange>, row: int, col: int, c: CellView)
    requires
        s.sound(w),
        s.has_cell(row, col),
        cell_sound(w, c),
    ensures
        s.with_cell(row, col, c).sound(w),
        s.with_cell(row, col, c).ds == s.ds,
{
    let old_row = s.rows[s.row_named(row)];
    let r = RowView { cells: old_row.cells.update(s.col_named(col), c), ..old_row };
    lemma_row_put(s, w, row, r);
}

/// A draw state that may take the place of another: of the same size and in the same link.
pub open spec fn ds_follows(d: DrawView, e: DrawView) -> bool {
    &&& e.valid()
    &&& e.geo.width == d.geo.width
    &&& e.geo.height == d.geo.height
    &&& e.hyperlink == d.hyperlink
}

proof fn lemma_row_moved(d: DrawView, n: int, relative: bool)
    requires
        d.valid(),
    ensures
        ds_follows(d, d.row_moved(n, relative)),
{
    reveal(DrawView::row_moved);
    reveal(GeometryView::row_moved);
}

pub(crate) proof fn lemma_col_moved(d: DrawView, n: int, relative: bool, implicit: bool)
    requires
        d.valid(),
    ensures
        ds_follows(d, d.col_moved(n, relative, implicit)),
{
    reveal(DrawView::col_moved);
    reveal(GeometryView::col_moved);
}

proof fn lemma_tabbed(d: DrawView, n: int)
    requires
        d.valid(),
    ensures
        ds_follows(d, d.tabbed(n)),
{
    reveal(DrawView::tabbed);
    reveal(GeometryView::col_moved);
}

proof fn lemma_restored(d: DrawView)
    requires
        d.valid(),
    ensures
        ds_follows(d, d.cursor_restored()),
{
    reveal(DrawView::cursor_restored);
    reveal(GeometryView::cursor_put);
}

proof fn lemma_region_set(d: DrawView, top: int, bottom: int)
    requires
        d.valid(),
        top < d.geo.height,
    ensures
        ds_follows(d, d.region_set(top, bottom)),
{
    reveal(DrawView::region_set);
    reveal(GeometryView::region_set);
}

pub(crate) proof fn lemma_placed(s: Screen, w: Seq<WidthRange>, row: int, col: int)
    requires
        s.sound(w),
    ensures
        s.cursor_placed(row, col).sound(w),
        ds_follows(s.ds, s.cursor_placed(row, col).ds),
{
    lemma_row_moved(s.ds, row, false);
    lemma_col_moved(s.ds.row_moved(row, false), col, false, false);
}

proof fn lemma_lines_inserted(s: Screen, w: Seq<WidthRange>, row: int, count: int)
    requires
        s.sound(w),
        0 <= row,
    ensures
        s.lines_inserted(row, count).sound(w),
        s.lines_inserted(row, count).ds == s.ds,
{
    reveal(Screen::lines_inserted);
    lemma_blanks_sound(w, s.ds.geo.width as nat, s.background());
    let t = s.lines_inserted(row, count);
    let n = s.lines_moved(row, count);
    let bottom = s.ds.geo.region_bottom + 1;
    if !(row < s.ds.geo.region_top || row > bottom || n <= 0) {
        assert forall|y: int| 0 <= y < t.rows.len() implies (#[trigger] t.rows[y]).cells.len()
            == s.ds.geo.width && cells_sound(w, t.rows[y].cells) by {
            if y < row {
                assert(t.rows[y] == s.rows[y]);
            } else if y < row + n {
                assert(t.rows[y] == s.new_row());
            } else if y < bottom {
                assert(t.rows[y] == s.rows[y - n]);
            } else {
                assert(t.rows[y] == s.rows[y]);
            }
        }
    }
}

proof fn lemma_lines_deleted(s: Screen, w: Seq<WidthRange>, row: int, count: int)
    requires
        s.sound(w),
        0 <= row,
    ensures
        s.lines_deleted(row, count).sound(w),
        s.lines_deleted(row, count).ds == s.ds,
{
    reveal(Screen::lines_deleted);
    lemma_blanks_sound(w, s.ds.geo.width as nat, s.background());
    let t = s.lines_deleted(row, count);
    let n = s.lines_moved(row, count);
    let bottom = s.ds.geo.region_bottom + 1;
    if !(row < s.ds.geo.region_top || row > s.ds.geo.region_bottom || n <= 0) {
        assert forall|y: int| 0 <= y < t.rows.len() implies (#[trigger] t.rows[y]).cells.len()
            == s.ds.geo.width && cells_sound(w, t.rows[y].cells) by {
            if y < row {
                assert(t.rows[y] == s.rows[y]);
            } else if y < bottom - n {
                assert(t.rows[y] == s.rows[y + n]);
            } else if y < bottom {
                assert(t.rows[y] == s.new_row());
            } else {
                assert(t.rows[y] == s.rows[y]);
            }
        }
    }
}

proof fn lemma_scrolled(s: Screen, w: Seq<WidthRange>, n: int)
    requires
        s.sound(w),
    ensures
        s.scrolled(n).sound(w),
        s.scrolled(n).ds == s.ds,
{
    if n >= 0 {
        lemma_lines_deleted(s, w, s.ds.geo.region_top, n);
    } else {
        lemma_lines_inserted(s, w, s.ds.geo.region_top, -n);
    }
}

proof fn lemma_autoscrolled(s: Screen, w: Seq<WidthRange>, rows: int)
    requires
        s.sound(w),
    ensures
        s.autoscrolled(rows).sound(w),
        ds_follows(s.ds, s.autoscrolled(rows).ds),
{
    reveal(Screen::autoscrolled);
    let n = s.scroll_needed(rows);
    lemma_scrolled(s, w, n);
    let t = s.scrolled(n);
    lemma_row_moved(t.ds, -n, true);
    let u = if n == 0 {
        s
    } else {
        t.with_ds(t.ds.row_moved(-n, true))
    };
    lemma_row_moved(u.ds, rows, true);
}

proof fn lemma_next_line(s: Screen, w: Seq<WidthRange>)
    requires
        s.sound(w),
    ensures
        s.next_line().sound(w),
        ds_follows(s.ds, s.next_line().ds),
{
    lemma_col_moved(s.ds, 0, false, false);
    lemma_autoscrolled(s.with_ds(s.ds.col_moved(0, false, false)), w, 1);
}

pub(crate) proof fn lemma_row_reset(s: Screen, w: Seq<WidthRange>, row: int)
    requires
        s.sound(w),
        s.has_row(row),
    ensures
        s.row_reset(row).sound(w),
        s.row_reset(row).ds == s.ds,
{
    let r = RowView::blank(s.ds.geo.width as nat, s.background(), s.next_gen);
    lemma_blanks_sound(w, s.ds.geo.width as nat, s.background());
    lemma_row_put(s, w, row, r);
}

pub(crate) proof fn lemma_rows_reset(s: Screen, w: Seq<WidthRange>, from: int, to: int)
    requires
        s.sound(w),
        0 <= from,
        to <= s.ds.geo.height,
    ensures
        s.rows_reset(from, to).sound(w),
        s.rows_reset(from, to).ds == s.ds,
    decreases to - from,
{
    if from < to {
        lemma_row_reset(s, w, from);
        lemma_rows_reset(s.row_reset(from), w, from + 1, to);
    }
}

pub(crate) proof fn lemma_cells_erased(s: Screen, w: Seq<WidthRange>, start: int, end: int)
    requires
        s.sound(w),
    ensures
        s.cells_erased(start, end).sound(w),
        s.cells_erased(start, end).ds == s.ds,
{
    lemma_blank_sound(w, s.background());
    let r = s.cursor_line().erased(start, end, s.background());
    assert(cells_sound(w, s.rows[s.ds.geo.cursor_row].cells));
    lemma_row_put(s, w, -1, r);
}

proof fn lemma_erasures(s: Screen, w: Seq<WidthRange>, mode: int)
    requires
        s.sound(w),
    ensures
        s.line_erased(mode).sound(w),
        s.display_erased(mode).sound(w),
        s.chars_erased(mode).sound(w),
{
    reveal(Screen::line_erased);
    reveal(Screen::display_erased);
    reveal(Screen::chars_erased);
    let geo = s.ds.geo;
    lemma_cells_erased(s, w, geo.cursor_col, geo.width);
    lemma_cells_erased(s, w, 0, geo.cursor_col + 1);
    lemma_cells_erased(s, w, geo.cursor_col, geo.cursor_col + mode);
    lemma_row_reset(s, w, -1);
    lemma_rows_reset(s, w, 0, geo.height);
    lemma_rows_reset(s, w, 0, geo.cursor_row);
    lemma_rows_reset(
        s.cells_erased(geo.cursor_col, geo.width),
        w,
        geo.cursor_row + 1,
        geo.height,
    );
    lemma_cells_erased(s.rows_reset(0, geo.cursor_row), w, 0, geo.cursor_col + 1);
}

pub(crate) proof fn lemma_cells_shifted(s: Screen, w: Seq<WidthRange>, count: int)
    requires
        s.sound(w),
        count >= 0,
    ensures
        s.cells_inserted_here(count).sound(w),
        s.cells_deleted_here(count).sound(w),
        s.cell_inserted_here().sound(w),
        s.cell_inserted_here().ds == s.ds,
{
    reveal(Screen::cells_inserted_here);
    reveal(Screen::cells_deleted_here);
    let (y, x) = (s.ds.geo.cursor_row, s.ds.geo.cursor_col);
    let line = s.rows[y];
    let bg = s.background();
    let n = line.cells_moved(x, count);
    lemma_blank_sound(w, bg);
    assert(cells_sound(w, line.cells));
    let a = line.cells_inserted(x, count, bg);
    assert forall|i: int| 0 <= i < a.cells.len() implies cell_sound(w, #[trigger] a.cells[i]) by {
        if i < x {
            assert(a.cells[i] == line.cells[i]);
        } else if i < x + n {
            assert(a.cells[i] == CellView::blank(bg));
        } else {
            assert(a.cells[i] == line.cells[i - n]);
        }
    }
    let b = line.cells_deleted(x, count, bg);
    assert forall|i: int| 0 <= i < b.cells.len() implies cell_sound(w, #[trigger] b.cells[i]) by {
        if i < x {
            assert(b.cells[i] == line.cells[i]);
        } else if i < line.cells.len() - n {
            assert(b.cells[i] == line.cells[i + n]);
        } else {
            assert(b.cells[i] == CellView::blank(bg));
        }
    }
    let c = line.cell_inserted(x, bg);
    assert forall|i: int| 0 <= i < c.cells.len() implies cell_sound(w, #[trigger] c.cells[i]) by {
        if i < x {
            assert(c.cells[i] == line.cells[i]);
        } else if i == x {
            assert(c.cells[i] == CellView::blank(bg));
        } else {
            assert(c.cells[i] == line.cells[i - 1]);
        }
    }
    lemma_row_put(s, w, -1, a);
    lemma_row_put(s, w, -1, b);
    lemma_row_put(s, w, -1, c);
}

proof fn lemma_filled(s: Screen, w: Seq<WidthRange>)
    requires
        s.sound(w),
    ensures
        s.filled('E').sound(w),
{
    reveal(Screen::filled);
    let c = CellView::blank(s.background()).appended('E');
    assert(cell_sound(w, c)) by {
        reveal(cell_sound);
        assert(c.contents =~= seq!['E']);
    }
    let t = s.filled('E');
    assert forall|y: int| 0 <= y < t.rows.len() implies (#[trigger] t.rows[y]).cells.len()
        == s.ds.geo.width && cells_sound(w, t.rows[y].cells) by {
        assert(s.rows[y].cells.len() == s.ds.geo.width);
    }
}

proof fn lemma_no_queries()
    ensures
        is_queries_text(Seq::empty()),
        encode_utf8(Seq::<char>::empty()).len() == 0,
{
    let list = Seq::<Seq<char>>::empty();
    assert(are_queries(list));
    assert(queries_text(list) == Seq::<char>::empty());
}

proof fn lemma_resets(s: Screen, w: Seq<WidthRange>)
    requires
        s.sound(w),
    ensures
        s.reset().sound(w),
        s.soft_reset().sound(w),
{
    lemma_blanks_sound(w, s.ds.geo.width as nat, 0);
    lemma_no_queries();
    let d = DrawView {
        insert_mode: false,
        origin_mode: false,
        modes: Modes {
            cursor_visible: true,
            application_mode_cursor_keys: false,
            ..s.ds.modes
        },
        ..s.ds
    };
    lemma_region_set(d, 0, s.ds.geo.height - 1);
}

pub(crate) proof fn lemma_private_mode(s: Screen, w: Seq<WidthRange>, param: int, value: bool)
    requires
        s.sound(w),
    ensures
        s.private_mode_set(param, value).sound(w),
{
    reveal(Screen::private_mode_set);
    reveal(DrawView::flag_switched);
    lemma_placed(s, w, 0, 0);
    lemma_rows_reset(s.cursor_placed(0, 0), w, 0, s.ds.geo.height);
}

proof fn lemma_private_modes(s: Screen, w: Seq<WidthRange>, params: Seq<int>, i: int, value: bool)
    requires
        s.sound(w),
    ensures
        private_modes_set(s, params, i, value).sound(w),
    decreases params.len() - i,
{
    if 0 <= i < params.len() {
        let p = param_or(params, i, 0);
        lemma_private_mode(s, w, p, value);
        lemma_private_modes(s.private_mode_set(p, value), w, params, i + 1, value);
    }
}

proof fn lemma_margins(s: Screen, w: Seq<WidthRange>, top: int, bottom: int)
    requires
        s.sound(w),
    ensures
        s.margins_set(top, bottom).sound(w),
{
    reveal(Screen::margins_set);
    if !(bottom <= top || top > s.ds.geo.height || (top == 0 && bottom == 1)) {
        lemma_region_set(s.ds, top - 1, bottom - 1);
        lemma_placed(s.with_ds(s.ds.region_set(top - 1, bottom - 1)), w, 0, 0);
    }
}

proof fn lemma_mode_performed(f: Function, s: Screen, w: Seq<WidthRange>, params: Seq<int>)
    requires
        s.sound(w),
    ensures
        mode_performed(f, s, params).sound(w),
{
    reveal(mode_performed);
    lemma_private_modes(s, w, params, 0, true);
    lemma_private_modes(s, w, params, 0, false);
    lemma_margins(s, w, param_or(params, 0, 1), param_or(params, 1, s.ds.geo.height));
}

proof fn lemma_cursor_performed(
    f: Function,
    s: Screen,
    w: Seq<WidthRange>,
    params: Seq<int>,
    letter: char,
)
    requires
        s.sound(w),
    ensures
        cursor_performed(f, s, params, letter).sound(w),
{
    let n = param_or(params, 0, 1);
    let b = param_or(params, 1, 1);
    match f {
        Function::CursorMove => {
            reveal(cursor_performed);
            reveal(Screen::cursor_commanded);
            lemma_row_moved(s.ds, -n, true);
            lemma_row_moved(s.ds, n, true);
            lemma_col_moved(s.ds, n, true, false);
            lemma_col_moved(s.ds, -n, true, false);
            lemma_placed(s, w, n - 1, b - 1);
        },
        Function::CursorTab => {
            reveal(cursor_performed);
            lemma_tabbed(s.ds, -n);
            lemma_tabbed(s.ds, n);
        },
        Function::LinePosition => {
            reveal(cursor_performed);
            lemma_row_moved(s.ds, n - 1, false);
        },
        Function::CharPosition => {
            reveal(cursor_performed);
            lemma_col_moved(s.ds, n - 1, false, false);
        },
        Function::RestoreCursor => {
            reveal(cursor_performed);
            lemma_restored(s.ds);
        },
        Function::LineFeed => {
            reveal(cursor_performed);
            lemma_autoscrolled(s, w, 1);
        },
        Function::CarriageReturn => {
            reveal(cursor_performed);
            lemma_col_moved(s.ds, 0, false, false);
        },
        Function::Backspace => {
            reveal(cursor_performed);
            lemma_col_moved(s.ds, -1, true, false);
        },
        Function::ReverseIndex => {
            reveal(cursor_performed);
            lemma_autoscrolled(s, w, -1);
        },
        Function::NextLine => {
            reveal(cursor_performed);
            lemma_next_line(s, w);
        },
        Function::Tab => {
            reveal(cursor_performed);
            lemma_tabbed(s.ds, 1);
        },
        Function::TabClear => {
            reveal(cursor_performed);
            reveal(Screen::tabs_cleared);
        },
        _ => {
            reveal(cursor_performed);
            lemma_mode_performed(f, s, w, params);
        },
    }
}

proof fn lemma_performed(
    f: Function,
    s: Screen,
    w: Seq<WidthRange>,
    params: Seq<int>,
    letter: char,
)
    requires
        s.sound(w),
    ensures
        performed(f, s, params, letter).sound(w),
{
    reveal(performed);
    let n = param_or(params, 0, 1);
    match f {
        Function::EraseLine | Function::EraseDisplay => {
            lemma_erasures(s, w, param_or(params, 0, 0));
        },
        Function::EraseChars => {
            lemma_erasures(s, w, n);
        },
        Function::InsertLines => {
            lemma_lines_inserted(s, w, s.ds.geo.cursor_row, n);
            lemma_col_moved(s.ds, 0, false, false);
        },
        Function::DeleteLines => {
            lemma_lines_deleted(s, w, s.ds.geo.cursor_row, n);
            lemma_col_moved(s.ds, 0, false, false);
        },
        Function::InsertCells | Function::DeleteCells => {
            lemma_cells_shifted(s, w, n);
        },
        Function::SoftReset | Function::FullReset => {
            lemma_resets(s, w);
        },
        Function::ScrollDown => {
            lemma_scrolled(s, w, n);
        },
        Function::ScrollUp => {
            lemma_scrolled(s, w, -n);
        },
        Function::AlignmentTest => {
            lemma_filled(s, w);
        },
        _ => {
            lemma_cursor_performed(f, s, w, params, letter);
        },
    }
}

pub(crate) proof fn lemma_wrap_set(s: Screen, w: Seq<WidthRange>, on: bool)
    requires
        s.sound(w),
    ensures
        s.row_wrap_set(on).sound(w),
        s.row_wrap_set(on).ds == s.ds,
{
    let line = s.rows[s.ds.geo.cursor_row];
    assert(cells_sound(w, line.cells));
    let r = line.with_wrap(on);
    let last = line.cells.len() - 1;
    assert(cell_sound(w, line.cells[last]));
    assert(cell_sound(w, r.cells[last])) by {
        reveal(cell_sound);
    }
    assert forall|x: int| 0 <= x < r.cells.len() implies cell_sound(w, #[trigger] r.cells[x]) by {
        if x < last {
            assert(r.cells[x] == line.cells[x]);
        }
    }
    lemma_row_put(s, w, -1, r);
}

pub(crate) proof fn lemma_wrapped(s: Screen, w: Seq<WidthRange>, columns: int)
    requires
        s.sound(w),
    ensures
        s.wrapped_for(columns).sound(w),
        ds_follows(s.ds, s.wrapped_for(columns).ds),
{
    reveal(Screen::wrapped_for);
    if s.ds.auto_wrap_mode && s.ds.next_print_will_wrap {
        lemma_wrap_set(s, w, true);
        lemma_next_line(s.row_wrap_set(true), w);
    } else if s.ds.auto_wrap_mode && columns == 2 && s.ds.geo.cursor_col == s.ds.geo.width - 1 {
        let blank = CellView::blank(s.background());
        lemma_blank_sound(w, s.background());
        lemma_cell_put(s, w, -1, -1, blank);
        let t = s.with_cell(-1, -1, blank);
        lemma_wrap_set(t, w, false);
        lemma_next_line(t.row_wrap_set(false), w);
    }
}

pub(crate) proof fn lemma_room(s: Screen, w: Seq<WidthRange>, columns: int)
    requires
        s.sound(w),
    ensures
        s.room_made(columns).sound(w),
        s.room_made(columns).ds == s.ds,
{
    reveal(Screen::room_made);
    lemma_cells_shifted(s, w, 0);
    lemma_cells_shifted(s.cell_inserted_here(), w, 0);
}

proof fn lemma_char_put(s: Screen, w: Seq<WidthRange>, ch: char, columns: int)
    requires
        s.sound(w),
        is_graphic(ch),
        print_width(w, ch) == columns,
        columns == 1 || columns == 2,
    ensures
        s.char_put(ch, columns).sound(w),
{
    reveal(Screen::char_put);
    let geo = s.ds.geo;
    let c = s.printed_cell(ch, columns);
    assert(cell_sound(w, c)) by {
        reveal(cell_sound);
    }
    lemma_cell_put(s, w, -1, -1, c);
    let t = s.with_cell(-1, -1, c);
    let blank = CellView::blank(s.background());
    lemma_blank_sound(w, s.background());
    if columns == 2 && geo.cursor_col + 1 < geo.width {
        lemma_cell_put(t, w, -1, geo.cursor_col + 1, blank);
    }
    lemma_col_moved(s.ds, columns, true, true);
}

proof fn lemma_combined(s: Screen, w: Seq<WidthRange>, ch: char)
    requires
        s.sound(w),
        is_graphic(ch),
        print_width(w, ch) == 0,
    ensures
        s.char_combined(ch).sound(w),
{
    reveal(Screen::char_combined);
    let (row, col) = (s.ds.geo.combining_char_row, s.ds.geo.combining_char_col);
    if col >= 0 && row >= 0 {
        let cell = s.cell_at(row, col);
        assert(cell_sound(w, s.rows[row].cells[col]));
        let joined = cell.appended(ch);
        let n = cell.contents.len();
        if n == 0 {
            let started = CellView { fallback: true, ..joined };
            assert(cell_sound(w, started)) by {
                reveal(cell_sound);
                assert(started.contents =~= seq![ch]);
                lemma_empty_not_full();
            }
            assert(!cell.full()) by {
                lemma_empty_not_full();
                assert(cell.contents =~= Seq::empty());
            }
            lemma_cell_put(s, w, row, col, started);
            lemma_col_moved(s.ds, 1, true, true);
        } else if !cell.full() {
            assert(cell_sound(w, joined)) by {
                reveal(cell_sound);
                assert forall|i: int| 1 <= i < joined.contents.len() implies encode_utf8(
                    #[trigger] joined.contents.subrange(0, i),
                ).len() < MAX_CELL_BYTES by {
                    if i < n {
                        assert(joined.contents.subrange(0, i) =~= cell.contents.subrange(0, i));
                    } else {
                        assert(joined.contents.subrange(0, i) =~= cell.contents);
                    }
                }
                assert forall|i: int| 0 <= i < joined.contents.len() implies is_graphic(
                    #[trigger] joined.contents[i],
                ) by {
                    if i < n {
                        assert(joined.contents[i] == cell.contents[i]);
                    }
                }
                assert forall|i: int| 1 <= i < joined.contents.len() implies print_width(
                    w,
                    #[trigger] joined.contents[i],
                ) == 0 by {
                    if i < n {
                        assert(joined.contents[i] == cell.contents[i]);
                    }
                }
            }
            lemma_cell_put(s, w, row, col, joined);
        } else {
            lemma_cell_put(s, w, row, col, cell);
        }
    }
}

proof fn lemma_empty_not_full()
    ensures
        encode_utf8(Seq::<char>::empty()).len() == 0,
{
}

proof fn lemma_printed(s: Screen, w: Seq<WidthRange>, ch: char)
    requires
        s.sound(w),
        controls_have_no_width(w),
    ensures
        s.printed(w, ch).sound(w),
{
    reveal(Screen::printed);
    let columns = print_width(w, ch);
    if columns == 1 || columns == 2 {
        lemma_wrapped(s, w, columns);
        lemma_room(s.wrapped_for(columns), w, columns);
        lemma_char_put(s.wrapped_for(columns).room_made(columns), w, ch, columns);
    } else if columns == 0 {
        lemma_combined(s, w, ch);
    }
}

proof fn lemma_part_in_command(s: Seq<char>, from: int, to: int)
    requires
        all_in_command(s),
        0 <= from <= to <= s.len(),
    ensures
        all_in_command(s.subrange(from, to)),
{
    let t = s.subrange(from, to);
    assert forall|i: int| 0 <= i < t.len() implies in_command(#[trigger] t[i]) by {
        assert(t[i] == s[i + from]);
    }
}

proof fn lemma_semicolon(s: Seq<char>, from: int)
    requires
        0 <= from <= s.len(),
    ensures
        from <= semicolon_from(s, from) <= s.len(),
        semicolon_from(s, from) < s.len() ==> s[semicolon_from(s, from)] == ';',
        forall|i: int| from <= i < semicolon_from(s, from) ==> #[trigger] s[i] != ';',
    decreases s.len() - from,
{
    if from < s.len() && s[from] != ';' {
        lemma_semicolon(s, from + 1);
    }
}

/// The semicolon of a part is that of the whole.
proof fn lemma_semicolon_in_part(s: Seq<char>, from: int, k: int)
    requires
        0 <= from <= k <= s.len(),
        semicolon_from(s, k) < s.len(),
    ensures
        semicolon_from(s.subrange(from, s.len() as int), k - from) < s.len() - from,
    decreases s.len() - k,
{
    let t = s.subrange(from, s.len() as int);
    if k < s.len() {
        assert(t[k - from] == s[k]);
        if s[k] != ';' {
            lemma_semicolon_in_part(s, from, k + 1);
        }
    }
}

proof fn lemma_link(osc: Seq<char>)
    requires
        osc.len() <= MAXIMUM_CLIPBOARD_SIZE,
    ensures
        osc_link(osc) matches Some(link) ==> link_sendable(link),
{
    if let Some(Some(l)) = osc_link(osc) {
        let k = semicolon_from(osc, 2);
        lemma_semicolon(osc, 2);
        assert forall|i: int| 0 <= i < l.params.len() implies 32 <= #[trigger] l.params[i] as u32
            <= 126 && l.params[i] != ';' by {
            assert(l.params[i] == osc[i + 2]);
        }
        assert forall|i: int| 0 <= i < l.url.len() implies 32 <= #[trigger] l.url[i] as u32
            <= 126 by {
            assert(l.url[i] == osc[i + k + 1]);
        }
    }
}

proof fn lemma_query_added(s: Screen, w: Seq<WidthRange>, osc: Seq<char>)
    requires
        s.sound(w),
        is_color_query(osc),
        osc.len() <= MAXIMUM_CLIPBOARD_SIZE,
    ensures
        s.color_query_added("\x1b]"@ + osc + "\x1b\\"@).sound(w),
{
    let query = "\x1b]"@ + osc + "\x1b\\"@;
    let t = s.color_query_added(query);
    lemma_encode_concat(s.color_queries, query);
    if t.color_queries != s.color_queries {
        let list = choose|list: Seq<Seq<char>>|
            are_queries(list) && s.color_queries == #[trigger] queries_text(list);
        let more = list.push(osc);
        assert(more.drop_last() =~= list);
        assert forall|i: int| 0 <= i < more.len() implies is_color_query(#[trigger] more[i])
            && more[i].len() <= MAXIMUM_CLIPBOARD_SIZE by {
            if i < list.len() {
                assert(more[i] == list[i]);
            }
        }
        assert(terminated_command(osc) =~= query) by {
            reveal_strlit("\x1b]");
            reveal_strlit("\x1b\\");
        }
        assert(queries_text(more) == s.color_queries + query);
    }
}

proof fn lemma_osc_performed(s: Screen, w: Seq<WidthRange>, osc: Seq<char>)
    requires
        s.sound(w),
        all_in_command(osc),
        osc.len() <= MAXIMUM_CLIPBOARD_SIZE,
    ensures
        osc_performed(osc, s).sound(w),
{
    reveal(osc_performed);
    if is_clipboard(osc) {
        let text = osc.subrange(3, osc.len() as int);
        lemma_part_in_command(osc, 3, osc.len() as int);
        lemma_semicolon_in_part(osc, 3, 3);
        assert(clipboard_sendable(text));
    } else if is_color_query(osc) {
        lemma_query_added(s, w, osc);
    } else {
        lemma_link(osc);
        let end: int = if osc.len() < 256 {
            osc.len() as int
        } else {
            256
        };
        if osc.len() >= 1 && osc[0] == ';' {
            lemma_part_in_command(osc, 1, end);
        }
        if osc.len() >= 2 {
            lemma_part_in_command(osc, 2, end);
        }
        assert(title_sound(osc_title(osc)));
    }
}

proof fn lemma_dispatched(e: EmulatorView, ty: FunctionType, ch: char)
    requires
        e.sound(),
    ensures
        e.dispatched(ty, ch).sound(),
{
    reveal(DispatcherView::screen_after);
    reveal(DispatcherView::dispatched);
    let d = e.dispatch.keyed(ty, ch);
    let s = e.screen;
    let t = s.with_ds(DrawView { next_print_will_wrap: false, ..s.ds });
    assert(t.sound(e.widths));
    if let Some(entry) = entry_for(ty, d.key(ty, ch)) {
        lemma_performed(entry.function, t, e.widths, params_in(d.params), d.letter());
        lemma_performed(entry.function, s, e.widths, params_in(d.params), d.letter());
    }
}

/// Is this an action that a character can raise?
pub open spec fn action_sound(a: Action) -> bool {
    a.kind == Kind::OscPut ==> (a.ch matches Some(c) ==> in_command(c))
}

pub open spec fn actions_sound(actions: Seq<Action>) -> bool {
    forall|i: int| 0 <= i < actions.len() ==> action_sound(#[trigger] actions[i])
}

pub(crate) proof fn lemma_acted(e: EmulatorView, a: Action)
    requires
        e.sound(),
        action_sound(a),
    ensures
        e.acted(a).sound(),
        e.acted(a).widths == e.widths,
{
    reveal(EmulatorView::acted);
    lemma_osc_performed(e.screen, e.widths, e.dispatch.osc);
    if let Some(ch) = a.ch {
        match a.kind {
            Kind::Print => {
                lemma_printed(e.screen, e.widths, ch);
            },
            Kind::Execute => {
                lemma_dispatched(e, FunctionType::Control, ch);
            },
            Kind::CsiDispatch => {
                lemma_dispatched(e, FunctionType::Csi, ch);
            },
            Kind::EscDispatch => {
                lemma_dispatched(e, FunctionType::Control, crate::emulator::c1_control(ch));
                lemma_dispatched(e, FunctionType::Escape, ch);
            },
            Kind::OscPut => {
                let osc = e.dispatch.osc;
                assert forall|i: int| 0 <= i < osc.push(ch).len() implies in_command(
                    #[trigger] osc.push(ch)[i],
                ) by {
                    if i < osc.len() {
                        assert(osc.push(ch)[i] == osc[i]);
                    }
                }
            },
            _ => {},
        }
    }
}

proof fn lemma_all_acted(e: EmulatorView, actions: Seq<Action>)
    requires
        e.sound(),
        actions_sound(actions),
    ensures
        e.all_acted(actions).sound(),
        e.all_acted(actions).widths == e.widths,
    decreases actions.len(),
{
    if actions.len() > 0 {
        let init = actions.drop_last();
        assert forall|i: int| 0 <= i < init.len() implies action_sound(#[trigger] init[i]) by {
            assert(init[i] == actions[i]);
        }
        lemma_all_acted(e, init);
        assert(action_sound(actions[actions.len() - 1]));
        lemma_acted(e.all_acted(init), actions.last());
    }
}

pub(crate) proof fn lemma_raised(state: State, c: char)
    ensures
        actions_sound(state.raised(c)),
{
    reveal(State::raised);
}

proof fn lemma_drained(f: Fed, left: int)
    requires
        actions_sound(f.raised),
    ensures
        actions_sound(f.drained(left).raised),
    decreases
            if left < 0 {
                0
            } else {
                left
            },
{
    if left > 0 {
        match decoding(f.buf) {
            Decoded::Nul => {
                lemma_then_char(f, '\0', Seq::empty());
                lemma_drained(f.then_char('\0', Seq::empty()), left - 1);
            },
            Decoded::Invalid => {
                if f.buf.len() > 1 {
                    let rest = seq![f.buf.last()];
                    lemma_then_char(f, '\u{fffd}', rest);
                    lemma_drained(f.then_char('\u{fffd}', rest), left - (f.buf.len() - 1));
                } else {
                    lemma_then_char(f, '\u{fffd}', Seq::empty());
                    lemma_drained(f.then_char('\u{fffd}', Seq::empty()), left - 1);
                }
            },
            Decoded::Incomplete => {},
            Decoded::Char(ch, n) => {
                if n > 0 {
                    lemma_then_char(f, ch, f.buf.skip(n as int));
                    lemma_drained(f.then_char(ch, f.buf.skip(n as int)), left - n);
                }
            },
        }
    }
}

proof fn lemma_then_char(f: Fed, ch: char, rest: Seq<u8>)
    requires
        actions_sound(f.raised),
    ensures
        actions_sound(f.then_char(ch, rest).raised),
{
    lemma_raised(f.state, ch);
}

proof fn lemma_byte_fed(e: EmulatorView, b: u8)
    requires
        e.sound(),
    ensures
        e.byte_fed(b).sound(),
        e.byte_fed(b).widths == e.widths,
{
    reveal(EmulatorView::byte_fed);
    reveal(ParserView::fed);
    let p = e.parser;
    lemma_raised(p.state, b as char);
    lemma_drained(
        Fed { state: p.state, buf: p.buf.push(b), raised: Seq::empty() },
        p.buf.len() + 1int,
    );
    let fed = p.fed(b);
    lemma_all_acted(
        EmulatorView { parser: ParserView { state: fed.state, buf: fed.buf }, ..e },
        fed.raised,
    );
}

/// Whatever bytes an application writes, the screen stays one that frames can spell: its
/// cells hold what can be printed, and its links, titles, clipboard and colour queries what
/// can stand in a command.
pub proof fn whatever_is_written_can_be_spelled(e: EmulatorView, bytes: Seq<u8>)
    requires
        e.sound(),
    ensures
        e.fed(bytes).sound(),
        e.fed(bytes).widths == e.widths,
    decreases bytes.len(),
{
    if bytes.len() > 0 {
        whatever_is_written_can_be_spelled(e, bytes.drop_last());
        lemma_byte_fed(e.fed(bytes.drop_last()), bytes.last());
    }
}

/// A screen that frames can spell stays so when its size changes.
pub proof fn a_resized_screen_can_be_spelled(
    s: Screen,
    widths: Seq<WidthRange>,
    width: int,
    height: int,
)
    requires
        s.sound(widths),
        1 <= width <= MAX_DIMENSION,
        1 <= height <= MAX_DIMENSION,
    ensures
        s.resized(width, height).sound(widths),
{
    reveal(Screen::resized);
    reveal(DrawView::resized);
    reveal(GeometryView::resized);
    let t = s.resized(width, height);
    let bg = t.ds.renditions.background_color;
    lemma_blanks_sound(widths, width as nat, bg);
    lemma_blank_sound(widths, bg);
    assert forall|y: int| 0 <= y < t.rows.len() implies (#[trigger] t.rows[y]).cells.len() == width
        && cells_sound(widths, t.rows[y].cells) by {
        if y < s.rows.len() && s.ds.geo.width != width {
            let line = s.rows[y];
            assert(cells_sound(widths, line.cells) && line.cells.len() == s.ds.geo.width);
            let u = line.with_wrap(false);
            let last = line.cells.len() - 1;
            assert(cell_sound(widths, line.cells[last]));
            assert(cell_sound(widths, u.cells[last])) by {
                reveal(cell_sound);
            }
            assert forall|x: int| 0 <= x < t.rows[y].cells.len() implies cell_sound(
                widths,
                #[trigger] t.rows[y].cells[x],
            ) by {
                if x < line.cells.len() {
                    assert(t.rows[y].cells[x] == u.cells[x]);
                    if x < last {
                        assert(u.cells[x] == line.cells[x]);
                    }
                }
            }
        } else if y < s.rows.len() {
            assert(s.rows[y].cells.len() == width);
        }
    }
}

/// A fresh terminal shows a screen that frames can spell.
pub proof fn a_fresh_screen_can_be_spelled(
    width: int,
    height: int,
    gen: u64,
    widths: Seq<WidthRange>,
)
    requires
        1 <= width <= MAX_DIMENSION,
        1 <= height <= MAX_DIMENSION,
        controls_have_no_width(widths),
    ensures
        EmulatorView::initial(width, height, gen, widths).sound(),
{
    lemma_blanks_sound(widths, width as nat, 0);
    lemma_no_queries();
}

/// Can the cell of a sound row be drawn: its colours can be selected, a wide one covers
/// nothing but background, and combining characters alone leave room for the space that
/// they are drawn on?
pub open spec fn cell_plain(cells: Seq<CellView>, x: int) -> bool {
    let c = cells[x];
    &&& c.renditions.selectable()
    &&& c.wide ==> x + 1 < cells.len() && cells[x + 1].looks_like(
        CellView::blank(c.renditions.background_color),
    )
    &&& c.fallback ==> encode_utf8(c.contents.drop_last()).len() + 2 < MAX_CELL_BYTES
}

/// Can every cell of a sound row be drawn?
pub open spec fn row_plain(cells: Seq<CellView>) -> bool {
    forall|x: int| 0 <= x < cells.len() ==> #[trigger] cell_plain(cells, x)
}

proof fn lemma_base_encoded(s: Seq<char>)
    ensures
        encode_utf8(seq!['\u{a0}'] + s).len() == 2 + encode_utf8(s).len(),
{
    let base = seq!['\u{a0}'];
    lemma_encode_concat(base, s);
    assert(base.drop_first() =~= Seq::<char>::empty());
    assert(encode_utf8(Seq::<char>::empty()).len() == 0);
    assert(encode_utf8(base) =~= encode_scalar('\u{a0}' as u32) + encode_utf8(base.drop_first()));
}

proof fn lemma_fallback_cluster(widths: Seq<WidthRange>, c: CellView)
    requires
        cell_sound(widths, c),
        c.fallback,
        c.contents.len() > 0,
        encode_utf8(c.contents.drop_last()).len() + 2 < MAX_CELL_BYTES,
    ensures
        is_cluster(widths, c.grapheme(), 1),
{
    reveal(cell_sound);
    let (g, t) = (c.grapheme(), c.contents);
    assert(g =~= seq!['\u{a0}'] + t);
    assert forall|i: int| 0 <= i < g.len() implies is_graphic(#[trigger] g[i]) by {
        if i > 0 {
            assert(g[i] == t[i - 1]);
        }
    }
    assert forall|i: int| 1 <= i < g.len() implies print_width(widths, #[trigger] g[i]) == 0 by {
        assert(g[i] == t[i - 1]);
    }
    assert forall|i: int| 1 <= i < g.len() implies encode_utf8(#[trigger] g.subrange(0, i)).len()
        < MAX_CELL_BYTES by {
        let part = t.subrange(0, i - 1);
        assert(g.subrange(0, i) =~= seq!['\u{a0}'] + part);
        lemma_base_encoded(part);
        let rest = t.subrange(i - 1, t.len() - 1);
        assert(t.drop_last() =~= part + rest);
        lemma_encode_concat(part, rest);
    }
}

/// What an application drew can be drawn again, row by row, where its cells are plain.
pub proof fn sound_rows_are_tidy(widths: Seq<WidthRange>, cells: Seq<CellView>)
    requires
        cells_sound(widths, cells),
        row_plain(cells),
    ensures
        is_tidy(widths, cells),
{
    assert forall|x: int| 0 <= x < cells.len() implies cell_tidy(widths, cells, x) by {
        let c = cells[x];
        assert(cell_sound(widths, cells[x]));
        assert(cell_plain(cells, x));
        if c.contents.len() > 0 && c.fallback {
            lemma_fallback_cluster(widths, c);
            reveal(cell_sound);
        } else {
            reveal(cell_sound);
            if c.contents.len() == 0 {
                assert(c.grapheme() =~= seq![' ']);
            }
        }
    }
}

/// What an application set apart from the grid can be sent, whatever was there before.
pub proof fn sound_screens_are_sendable(s: Screen, last: Screen, widths: Seq<WidthRange>)
    requires
        s.sound(widths),
        s.ds.renditions.selectable(),
    ensures
        s.sendable(),
        s.events_sendable(last),
{
}

/// Are the rows plain that a frame redraws, and does text that runs on from one of them to
/// the next stay in its link?
pub open spec fn redrawn_rows_plain(builds: bool, last: Screen, f: Screen) -> bool {
    let (old, first) = (rows_under(builds, last, f), first_drawn(builds, last, f));
    forall|y: int|
        first <= y < f.rows.len() ==> #[trigger] left_alone(builds, f.rows, old, first, y) || {
            &&& row_plain(f.rows[y].cells)
            &&& builds ==> row_plain(old[y].cells)
            &&& y > first && f.rows[y - 1].wraps() && !left_alone(
                builds,
                f.rows,
                old,
                first,
                y - 1,
            ) ==> f.rows[y].cells[0].hyperlink == last_link(f.rows[y - 1].cells)
        }
}

/// A frame between screens that an application drew can be drawn, where the rows that it
/// redraws are plain.
pub proof fn sound_grids_are_drawable(
    widths: Seq<WidthRange>,
    builds: bool,
    last: Screen,
    f: Screen,
)
    requires
        f.sound(widths),
        builds ==> last.sound(widths) && last.rows.len() == f.rows.len(),
        redrawn_rows_plain(builds, last, f),
    ensures
        grid_drawable(widths, builds, last, f),
{
    let (old, first) = (rows_under(builds, last, f), first_drawn(builds, last, f));
    let shift = first_match(f.rows[0], last.rows, 0);
    assert(first >= 0) by {
        lemma_first_drawn(f.rows, last.rows, shift, 1);
    }
    lemma_blanks_sound(widths, f.ds.geo.width as nat, 0);
    assert forall|y: int| first <= y < f.rows.len() implies #[trigger] row_drawable(
        widths,
        builds,
        f.rows,
        old,
        first,
        y,
    ) by {
        if !left_alone(builds, f.rows, old, first, y) {
            assert(cells_sound(widths, f.rows[y].cells));
            sound_rows_are_tidy(widths, f.rows[y].cells);
            if builds {
                assert(cells_sound(widths, old[y].cells)) by {
                    if shift == 0 || shift >= last.rows.len() {
                        assert(old[y] == last.rows[y]);
                    }
                }
                sound_rows_are_tidy(widths, old[y].cells);
            }
        }
    }
}

proof fn lemma_first_drawn(new: Seq<RowView>, old: Seq<RowView>, shift: int, k: int)
    requires
        k >= 0,
    ensures
        match_end(new, old, shift, k) >= k,
    decreases old.len() - k - shift,
{
    if k + shift < old.len() && new[k] == old[k + shift] {
        lemma_first_drawn(new, old, shift, k + 1);
    }
}

/// Whatever an application selects with parameters that fit into a byte can be selected
/// again.
pub proof fn colours_that_fit_into_bytes_can_be_selected(r: Renditions, params: Seq<int>, i: int)
    requires
        r.selectable(),
        forall|k: int| 0 <= k < params.len() ==> #[trigger] params[k] <= 255,
    ensures
        renditions_selected(r, params, i).selectable(),
    decreases params.len() - i,
{
    if 0 <= i < params.len() {
        let p = param_or(params, i, 0);
        if (p == 38 || p == 48) && params.len() - i >= 3 && param_or(params, i + 1, -1) == 5 {
            let c = param_or(params, i + 2, 0) as i32;
            colours_that_fit_into_bytes_can_be_selected(r.with_foreground(c), params, i + 3);
            colours_that_fit_into_bytes_can_be_selected(r.with_background(c), params, i + 3);
        } else if (p == 38 || p == 48) && params.len() - i >= 5 && param_or(params, i + 1, -1)
            == 2 {
            let (x, y, z) = (
                param_or(params, i + 2, 0) as u32,
                param_or(params, i + 3, 0) as u32,
                param_or(params, i + 4, 0) as u32,
            );
            assert(0x1000000 <= 0x1000000u32 | (x << 16) | (y << 8) | z <= 0x1ffffff) by (bit_vector)
                requires
                    x <= 255,
                    y <= 255,
                    z <= 255,
            ;
            let c = (TRUE_COLOR_MASK | (x << 16) | (y << 8) | z) as i32;
            colours_that_fit_into_bytes_can_be_selected(r.with_foreground(c), params, i + 5);
            colours_that_fit_into_bytes_can_be_selected(r.with_background(c), params, i + 5);
        } else {
            colours_that_fit_into_bytes_can_be_selected(
                r.with_rendition(p as u32),
                params,
                i + 1,
            );
        }
    }
}

} // verus!
