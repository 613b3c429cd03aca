//! What a terminal shows does not depend on links.
//!
//! Two terminals that differ in nothing but their links show the same, links aside,
//! whatever is typed.

use vstd::prelude::*;

use crate::cell::{CellView, ColorType};
use crate::dispatcher::{
    cursor_performed, mode_performed, param_or, performed, private_modes_set, Function,
};
use crate::draw_state::DrawView;
use crate::emulator::print_width;
use crate::framebuffer::Screen;
use crate::reachable::{
    lemma_blank_sound, lemma_cell_put, lemma_cells_erased, lemma_cells_shifted, lemma_col_moved,
    lemma_placed, lemma_private_mode, lemma_room, lemma_row_reset, lemma_rows_reset,
    lemma_wrap_set, lemma_wrapped,
};
use crate::row::RowView;
use crate::widths::WidthRange;

verus! {

impl CellView {
    /// The cell without its link.
    pub open spec fn unlinked(self) -> CellView {
        CellView { hyperlink: None, ..self }
    }
}

impl RowView {
    /// The row without its links.
    pub open spec fn unlinked(self) -> RowView {
        RowView { cells: self.cells.map_values(|c: CellView| c.unlinked()), ..self }
    }
}

impl DrawView {
    /// The draw state outside any link.
    pub open spec fn unlinked(self) -> DrawView {
        DrawView { hyperlink: None, ..self }
    }
}

impl Screen {
    /// The screen without its links.
    pub open spec fn unlinked(self) -> Screen {
        Screen {
            rows: self.rows.map_values(|r: RowView| r.unlinked()),
            ds: self.ds.unlinked(),
            ..self
        }
    }
}

proof fn lemma_row_unlinked(r: RowView, w: bool, start: int, end: int, bg: ColorType)
    ensures
        r.with_wrap(w).unlinked() == r.unlinked().with_wrap(w),
        r.erased(start, end, bg).unlinked() == r.unlinked().erased(start, end, bg),
{
    assert(r.with_wrap(w).unlinked() =~~= r.unlinked().with_wrap(w));
    assert(r.erased(start, end, bg).unlinked() =~~= r.unlinked().erased(start, end, bg));
}

proof fn lemma_blank_unlinked(n: nat, bg: ColorType, gen: u64)
    ensures
        RowView::blank(n, bg, gen).unlinked() == RowView::blank(n, bg, gen),
        CellView::blank(bg).unlinked() == CellView::blank(bg),
{
    assert(RowView::blank(n, bg, gen).unlinked() =~~= RowView::blank(n, bg, gen));
}

proof fn lemma_shifted_row_unlinked(r: RowView, col: int, count: int, bg: ColorType)
    requires
        0 <= col < r.cells.len(),
        count >= 0,
    ensures
        r.cell_inserted(col, bg).unlinked() == r.unlinked().cell_inserted(col, bg),
        r.cells_inserted(col, count, bg).unlinked() == r.unlinked().cells_inserted(
            col,
            count,
            bg,
        ),
        r.cells_deleted(col, count, bg).unlinked() == r.unlinked().cells_deleted(col, count, bg),
{
    assert(r.cell_inserted(col, bg).unlinked() =~~= r.unlinked().cell_inserted(col, bg));
    assert(r.cells_inserted(col, count, bg).unlinked() =~~= r.unlinked().cells_inserted(
        col,
        count,
        bg,
    ));
    assert(r.cells_deleted(col, count, bg).unlinked() =~~= r.unlinked().cells_deleted(
        col,
        count,
        bg,
    ));
}

proof fn lemma_with_row_unlinked(s: Screen, row: int, r: RowView)
    requires
        s.has_row(row),
    ensures
        s.with_row(row, r).unlinked() == s.unlinked().with_row(row, r.unlinked()),
{
    assert(s.with_row(row, r).unlinked() =~= s.unlinked().with_row(row, r.unlinked()));
}

proof fn lemma_with_cell_unlinked(s: Screen, row: int, col: int, c: CellView)
    requires
        s.has_cell(row, col),
    ensures
        s.with_cell(row, col, c).unlinked() == s.unlinked().with_cell(row, col, c.unlinked()),
{
    let line = s.rows[s.row_named(row)];
    let x = s.col_named(col);
    let r = RowView { cells: line.cells.update(x, c), ..line };
    lemma_with_row_unlinked(s, row, r);
    let u = RowView { cells: line.unlinked().cells.update(x, c.unlinked()), ..line.unlinked() };
    assert(r.unlinked() =~~= u);
}

proof fn lemma_ds_unlinked(d: DrawView, n: int, relative: bool, implicit: bool, bottom: int)
    ensures
        d.row_moved(n, relative).unlinked() == d.unlinked().row_moved(n, relative),
        d.col_moved(n, relative, implicit).unlinked() == d.unlinked().col_moved(
            n,
            relative,
            implicit,
        ),
        d.tabbed(n).unlinked() == d.unlinked().tabbed(n),
        d.region_set(n, bottom).unlinked() == d.unlinked().region_set(n, bottom),
        d.cursor_saved().unlinked() == d.unlinked().cursor_saved(),
        d.cursor_restored().unlinked() == d.unlinked().cursor_restored(),
        d.flag_switched(n, relative).unlinked() == d.unlinked().flag_switched(n, relative),
{
    reveal(DrawView::row_moved);
    reveal(DrawView::col_moved);
    reveal(DrawView::tabbed);
    reveal(DrawView::region_set);
    reveal(DrawView::cursor_saved);
    reveal(DrawView::cursor_restored);
    reveal(DrawView::flag_switched);
}

proof fn lemma_placed_unlinked(s: Screen, row: int, col: int)
    ensures
        s.cursor_placed(row, col).unlinked() == s.unlinked().cursor_placed(row, col),
{
    lemma_ds_unlinked(s.ds, row, false, false, 0);
    lemma_ds_unlinked(s.ds.row_moved(row, false), col, false, false, 0);
}

proof fn lemma_lines_unlinked(s: Screen, row: int, count: int)
    requires
        s.valid(),
        0 <= row,
    ensures
        s.lines_inserted(row, count).unlinked() == s.unlinked().lines_inserted(row, count),
        s.lines_deleted(row, count).unlinked() == s.unlinked().lines_deleted(row, count),
{
    reveal(Screen::lines_inserted);
    reveal(Screen::lines_deleted);
    lemma_blank_unlinked(s.ds.geo.width as nat, s.background(), s.next_gen);
    let (a, b) = (s.lines_inserted(row, count), s.unlinked().lines_inserted(row, count));
    assert(a.unlinked().rows =~= b.rows);
    let (c, d) = (s.lines_deleted(row, count), s.unlinked().lines_deleted(row, count));
    assert(c.unlinked().rows =~= d.rows);
}

proof fn lemma_scrolled_unlinked(s: Screen, n: int)
    requires
        s.valid(),
    ensures
        s.scrolled(n).unlinked() == s.unlinked().scrolled(n),
{
    lemma_lines_unlinked(s, s.ds.geo.region_top, n);
    lemma_lines_unlinked(s, s.ds.geo.region_top, -n);
}

proof fn lemma_autoscrolled_unlinked(s: Screen, rows: int)
    requires
        s.valid(),
    ensures
        s.autoscrolled(rows).unlinked() == s.unlinked().autoscrolled(rows),
{
    reveal(Screen::autoscrolled);
    let n = s.scroll_needed(rows);
    assert(s.unlinked().scroll_needed(rows) == n);
    lemma_scrolled_unlinked(s, n);
    let t = s.scrolled(n);
    lemma_ds_unlinked(t.ds, -n, true, false, 0);
    let u = if n == 0 {
        s
    } else {
        t.with_ds(t.ds.row_moved(-n, true))
    };
    lemma_ds_unlinked(u.ds, rows, true, false, 0);
}

proof fn lemma_next_line_unlinked(s: Screen, w: Seq<WidthRange>)
    requires
        s.sound(w),
    ensures
        s.next_line().unlinked() == s.unlinked().next_line(),
{
    lemma_ds_unlinked(s.ds, 0, false, false, 0);
    lemma_col_moved(s.ds, 0, false, false);
    lemma_autoscrolled_unlinked(s.with_ds(s.ds.col_moved(0, false, false)), 1);
}

proof fn lemma_rows_reset_unlinked(s: Screen, w: Seq<WidthRange>, from: int, to: int)
    requires
        s.sound(w),
        0 <= from,
        to <= s.ds.geo.height,
    ensures
        s.rows_reset(from, to).unlinked() == s.unlinked().rows_reset(from, to),
    decreases to - from,
{
    if from < to {
        lemma_row_reset_unlinked(s, from);
        lemma_row_reset(s, w, from);
        lemma_rows_reset_unlinked(s.row_reset(from), w, from + 1, to);
    }
}

proof fn lemma_row_reset_unlinked(s: Screen, row: int)
    requires
        s.has_row(row),
    ensures
        s.row_reset(row).unlinked() == s.unlinked().row_reset(row),
{
    let n = s.rows[s.row_named(row)].cells.len();
    let r = RowView::blank(n, s.background(), s.next_gen);
    lemma_blank_unlinked(n, s.background(), s.next_gen);
    lemma_with_row_unlinked(s, row, r);
}

proof fn lemma_erased_unlinked(s: Screen, start: int, end: int)
    requires
        s.valid(),
    ensures
        s.cells_erased(start, end).unlinked() == s.unlinked().cells_erased(start, end),
{
    lemma_row_unlinked(s.cursor_line(), true, start, end, s.background());
    lemma_with_row_unlinked(s, -1, s.cursor_line().erased(start, end, s.background()));
}

proof fn lemma_erasures_unlinked(s: Screen, w: Seq<WidthRange>, mode: int)
    requires
        s.sound(w),
    ensures
        s.line_erased(mode).unlinked() == s.unlinked().line_erased(mode),
        s.display_erased(mode).unlinked() == s.unlinked().display_erased(mode),
        s.chars_erased(mode).unlinked() == s.unlinked().chars_erased(mode),
{
    reveal(Screen::line_erased);
    reveal(Screen::display_erased);
    reveal(Screen::chars_erased);
    let geo = s.ds.geo;
    let tail = s.cells_erased(geo.cursor_col, geo.width);
    let head = s.rows_reset(0, geo.cursor_row);
    lemma_erased_unlinked(s, geo.cursor_col, geo.width);
    lemma_erased_unlinked(s, 0, geo.cursor_col + 1);
    lemma_erased_unlinked(s, geo.cursor_col, geo.cursor_col + mode);
    lemma_row_reset_unlinked(s, -1);
    lemma_rows_reset_unlinked(s, w, 0, geo.height);
    lemma_cells_erased(s, w, geo.cursor_col, geo.width);
    lemma_rows_reset_unlinked(tail, w, geo.cursor_row + 1, geo.height);
    lemma_rows_reset_unlinked(s, w, 0, geo.cursor_row);
    lemma_rows_reset(s, w, 0, geo.cursor_row);
    lemma_erased_unlinked(head, 0, geo.cursor_col + 1);
}

proof fn lemma_shifted_unlinked(s: Screen, count: int)
    requires
        s.valid(),
        count >= 0,
    ensures
        s.cells_inserted_here(count).unlinked() == s.unlinked().cells_inserted_here(count),
        s.cells_deleted_here(count).unlinked() == s.unlinked().cells_deleted_here(count),
        s.cell_inserted_here().unlinked() == s.unlinked().cell_inserted_here(),
{
    reveal(Screen::cells_inserted_here);
    reveal(Screen::cells_deleted_here);
    let (line, x, bg) = (s.cursor_line(), s.ds.geo.cursor_col, s.background());
    lemma_shifted_row_unlinked(line, x, count, bg);
    lemma_with_row_unlinked(s, -1, line.cells_inserted(x, count, bg));
    lemma_with_row_unlinked(s, -1, line.cells_deleted(x, count, bg));
    lemma_with_row_unlinked(s, -1, line.cell_inserted(x, bg));
}

proof fn lemma_filled_unlinked(s: Screen)
    ensures
        s.filled('E').unlinked() == s.unlinked().filled('E'),
        s.reset().unlinked() == s.unlinked().reset(),
        s.soft_reset().unlinked() == s.unlinked().soft_reset(),
{
    reveal(Screen::filled);
    let (a, b) = (s.filled('E').unlinked(), s.unlinked().filled('E'));
    assert(a.rows.len() == b.rows.len());
    assert forall|i: int| 0 <= i < a.rows.len() implies #[trigger] a.rows[i] == b.rows[i] by {
        assert(a.rows[i] =~~= b.rows[i]);
    }
    assert(a.rows =~= b.rows);
    lemma_blank_unlinked(s.ds.geo.width as nat, 0, s.next_gen);
    assert(s.reset().unlinked().rows =~= s.unlinked().reset().rows);
    reveal(DrawView::region_set);
}

proof fn lemma_private_modes_unlinked(
    s: Screen,
    w: Seq<WidthRange>,
    params: Seq<int>,
    i: int,
    value: bool,
)
    requires
        s.sound(w),
    ensures
        private_modes_set(s, params, i, value).unlinked() == private_modes_set(
            s.unlinked(),
            params,
            i,
            value,
        ),
    decreases params.len() - i,
{
    if 0 <= i < params.len() {
        let p = param_or(params, i, 0);
        lemma_private_mode(s, w, p, value);
        assert(s.private_mode_set(p, value).unlinked() == s.unlinked().private_mode_set(p, value))
            by {
            reveal(Screen::private_mode_set);
            lemma_placed_unlinked(s, 0, 0);
            lemma_placed(s, w, 0, 0);
            lemma_rows_reset_unlinked(s.cursor_placed(0, 0), w, 0, s.ds.geo.height);
            lemma_ds_unlinked(s.ds, p, value, false, 0);
        }
        lemma_private_modes_unlinked(s.private_mode_set(p, value), w, params, i + 1, value);
    }
}

/// Is `t` the screen `s` without its links?
pub open spec fn unlinks_to(s: Screen, t: Screen) -> bool {
    s.unlinked() == t
}

proof fn lemma_margins_unlinked(s: Screen, top: int, bottom: int)
    ensures
        s.margins_set(top, bottom).unlinked() == s.unlinked().margins_set(top, bottom),
{
    reveal(Screen::margins_set);
    lemma_ds_unlinked(s.ds, top - 1, false, false, bottom - 1);
    lemma_placed_unlinked(s.with_ds(s.ds.region_set(top - 1, bottom - 1)), 0, 0);
}

#[verifier::spinoff_prover]
#[verifier::rlimit(60)]
proof fn lemma_mode_performed_unlinked(f: Function, s: Screen, w: Seq<WidthRange>, params: Seq<int>)
    requires
        s.sound(w),
    ensures
        unlinks_to(mode_performed(f, s, params), mode_performed(f, s.unlinked(), params)),
{
    match f {
        Function::SetPrivateModes => {
            reveal(mode_performed);
            lemma_private_modes_unlinked(s, w, params, 0, true);
        },
        Function::ClearPrivateModes => {
            reveal(mode_performed);
            lemma_private_modes_unlinked(s, w, params, 0, false);
        },
        Function::SetMargins => {
            reveal(mode_performed);
            lemma_margins_unlinked(s, param_or(params, 0, 1), param_or(params, 1, s.ds.geo.height));
        },
        _ => {
            reveal(mode_performed);
        },
    }
}

#[verifier::spinoff_prover]
#[verifier::rlimit(60)]
proof fn lemma_cursor_performed_unlinked(
    f: Function,
    s: Screen,
    w: Seq<WidthRange>,
    params: Seq<int>,
    letter: char,
)
    requires
        s.sound(w),
    ensures
        unlinks_to(
            cursor_performed(f, s, params, letter),
            cursor_performed(f, s.unlinked(), params, letter),
        ),
{
    let n = param_or(params, 0, 1);
    match f {
        Function::CursorMove => {
            reveal(cursor_performed);
            reveal(Screen::cursor_commanded);
            lemma_ds_unlinked(s.ds, n, true, false, 0);
            lemma_ds_unlinked(s.ds, -n, true, false, 0);
            lemma_placed_unlinked(s, n - 1, param_or(params, 1, 1) - 1);
        },
        Function::CursorTab => {
            reveal(cursor_performed);
            lemma_ds_unlinked(s.ds, n, true, false, 0);
            lemma_ds_unlinked(s.ds, -n, true, false, 0);
        },
        Function::LinePosition | Function::CharPosition => {
            reveal(cursor_performed);
            lemma_ds_unlinked(s.ds, n - 1, false, false, 0);
        },
        Function::LineFeed => {
            reveal(cursor_performed);
            lemma_autoscrolled_unlinked(s, 1);
        },
        Function::ReverseIndex => {
            reveal(cursor_performed);
            lemma_autoscrolled_unlinked(s, -1);
        },
        Function::NextLine => {
            reveal(cursor_performed);
            lemma_next_line_unlinked(s, w);
        },
        Function::Backspace => {
            reveal(cursor_performed);
            lemma_ds_unlinked(s.ds, -1, true, false, 0);
        },
        Function::Tab => {
            reveal(cursor_performed);
            lemma_ds_unlinked(s.ds, 1, true, false, 0);
        },
        Function::TabClear => {
            reveal(cursor_performed);
            reveal(Screen::tabs_cleared);
        },
        Function::SaveCursor | Function::RestoreCursor | Function::CarriageReturn => {
            reveal(cursor_performed);
            lemma_ds_unlinked(s.ds, 0, false, false, 0);
        },
        Function::TabSet => {
            reveal(cursor_performed);
        },
        _ => {
            reveal(cursor_performed);
            lemma_mode_performed_unlinked(f, s, w, params);
        },
    }
}

pub(crate) proof fn lemma_performed_unlinked(
    f: Function,
    s: Screen,
    w: Seq<WidthRange>,
    params: Seq<int>,
    letter: char,
)
    requires
        s.sound(w),
    ensures
        unlinks_to(
            performed(f, s, params, letter),
            performed(f, s.unlinked(), params, letter),
        ),
{
    reveal(performed);
    let n = param_or(params, 0, 1);
    match f {
        Function::EraseLine | Function::EraseDisplay => {
            lemma_erasures_unlinked(s, w, param_or(params, 0, 0));
        },
        Function::EraseChars => {
            lemma_erasures_unlinked(s, w, n);
        },
        Function::InsertLines | Function::DeleteLines => {
            let y = s.ds.geo.cursor_row;
            lemma_lines_unlinked(s, y, n);
            lemma_ds_unlinked(s.lines_inserted(y, n).ds, 0, false, false, 0);
            lemma_ds_unlinked(s.lines_deleted(y, n).ds, 0, false, false, 0);
        },
        Function::InsertCells | Function::DeleteCells => {
            lemma_shifted_unlinked(s, n);
        },
        Function::SoftReset | Function::FullReset | Function::AlignmentTest => {
            lemma_filled_unlinked(s);
        },
        Function::ScrollDown => {
            lemma_scrolled_unlinked(s, n);
        },
        Function::ScrollUp => {
            lemma_scrolled_unlinked(s, -n);
        },
        _ => {
            lemma_cursor_performed_unlinked(f, s, w, params, letter);
        },
    }
}

proof fn lemma_wrap_set_unlinked(s: Screen, on: bool)
    requires
        s.valid(),
    ensures
        s.row_wrap_set(on).unlinked() == s.unlinked().row_wrap_set(on),
{
    let line = s.rows[s.ds.geo.cursor_row];
    lemma_row_unlinked(line, on, 0, 0, 0);
    lemma_with_row_unlinked(s, -1, line.with_wrap(on));
}

proof fn lemma_wrapped_unlinked(s: Screen, w: Seq<WidthRange>, columns: int)
    requires
        s.sound(w),
    ensures
        s.wrapped_for(columns).unlinked() == s.unlinked().wrapped_for(columns),
{
    reveal(Screen::wrapped_for);
    let blank = CellView::blank(s.background());
    lemma_wrap_set_unlinked(s, true);
    lemma_wrap_set(s, w, true);
    lemma_next_line_unlinked(s.row_wrap_set(true), w);
    lemma_with_cell_unlinked(s, -1, -1, blank);
    lemma_blank_sound(w, s.background());
    lemma_cell_put(s, w, -1, -1, blank);
    let t = s.with_cell(-1, -1, blank);
    lemma_wrap_set_unlinked(t, false);
    lemma_wrap_set(t, w, false);
    lemma_next_line_unlinked(t.row_wrap_set(false), w);
}

pub(crate) proof fn lemma_printed_unlinked(s: Screen, w: Seq<WidthRange>, ch: char)
    requires
        s.sound(w),
    ensures
        s.printed(w, ch).unlinked() == s.unlinked().printed(w, ch),
{
    reveal(Screen::printed);
    let columns = print_width(w, ch);
    if columns == 1 || columns == 2 {
        lemma_wrapped_unlinked(s, w, columns);
        lemma_wrapped(s, w, columns);
        let a = s.wrapped_for(columns);
        lemma_shifted_unlinked(a, 0);
        lemma_cells_shifted(a, w, 0);
        lemma_shifted_unlinked(a.cell_inserted_here(), 0);
        assert(a.room_made(columns).unlinked() == a.unlinked().room_made(columns)) by {
            reveal(Screen::room_made);
        }
        lemma_room(a, w, columns);
        lemma_char_put_unlinked(a.room_made(columns), ch, columns);
    } else if columns == 0 {
        lemma_combined_unlinked(s, ch);
    }
}

proof fn lemma_char_put_unlinked(s: Screen, ch: char, columns: int)
    requires
        s.valid(),
    ensures
        s.char_put(ch, columns).unlinked() == s.unlinked().char_put(ch, columns),
{
    reveal(Screen::char_put);
    let geo = s.ds.geo;
    let c = s.printed_cell(ch, columns);
    lemma_with_cell_unlinked(s, -1, -1, c);
    let t = s.with_cell(-1, -1, c);
    let blank = CellView::blank(s.background());
    if columns == 2 && geo.cursor_col + 1 < geo.width {
        assert(t.rows[geo.cursor_row].cells.len() == geo.width);
        lemma_with_cell_unlinked(t, -1, geo.cursor_col + 1, blank);
    }
    lemma_ds_unlinked(s.ds, columns, true, true, 0);
}

proof fn lemma_combined_unlinked(s: Screen, ch: char)
    requires
        s.valid(),
    ensures
        s.char_combined(ch).unlinked() == s.unlinked().char_combined(ch),
{
    reveal(Screen::char_combined);
    let (row, col) = (s.ds.geo.combining_char_row, s.ds.geo.combining_char_col);
    if col >= 0 && row >= 0 {
        let cell = s.cell_at(row, col);
        let joined = if cell.full() {
            cell
        } else {
            cell.appended(ch)
        };
        let begun = CellView { fallback: true, ..joined };
        assert(s.unlinked().cell_at(row, col) == cell.unlinked());
        lemma_with_cell_unlinked(s, row, col, begun);
        lemma_with_cell_unlinked(s, row, col, joined);
        lemma_ds_unlinked(s.ds, 1, true, true, 0);
    }
}

} // verus!
