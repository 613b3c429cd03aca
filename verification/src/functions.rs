//! Terminal functions: what the control characters and escape sequences do to a screen.

use vstd::prelude::*;

use crate::cell::Renditions;
use crate::draw_state::{DrawView, MAX_DIMENSION};
use crate::framebuffer::{Framebuffer, RowView, Screen};

verus! {

/// Guards against an escape sequence driving a very long loop.
pub const PARAM_MAX: i32 = 65535;

impl Screen {
    /// The row the cursor is on.
    pub open spec fn cursor_line(self) -> RowView {
        self.rows[self.ds.geo.cursor_row]
    }

    /// With the cells of the cursor's row from `start` up to `end` emptied.
    pub open spec fn cells_erased(self, start: int, end: int) -> Screen {
        self.with_row(-1, self.cursor_line().erased(start, end, self.background()))
    }

    /// With the rows from `from` up to `to` emptied.
    pub open spec fn rows_reset(self, from: int, to: int) -> Screen
        decreases to - from,
    {
        if from >= to {
            self
        } else {
            self.row_reset(from).rows_reset(from + 1, to)
        }
    }

    /// Erase in line.
    #[verifier::opaque]
    pub open spec fn line_erased(self, mode: int) -> Screen {
        let geo = self.ds.geo;
        if mode == 0 {
            self.cells_erased(geo.cursor_col, geo.width)
        } else if mode == 1 {
            self.cells_erased(0, geo.cursor_col + 1)
        } else if mode == 2 {
            self.row_reset(-1)
        } else {
            self
        }
    }

    /// Erase in display.
    #[verifier::opaque]
    pub open spec fn display_erased(self, mode: int) -> Screen {
        let geo = self.ds.geo;
        if mode == 0 {
            self.cells_erased(geo.cursor_col, geo.width).rows_reset(geo.cursor_row + 1, geo.height)
        } else if mode == 1 {
            self.rows_reset(0, geo.cursor_row).cells_erased(0, geo.cursor_col + 1)
        } else if mode == 2 {
            self.rows_reset(0, geo.height)
        } else {
            self
        }
    }

    /// Cursor movement to an absolute position.
    pub open spec fn cursor_placed(self, row: int, col: int) -> Screen {
        self.with_ds(self.ds.row_moved(row, false).col_moved(col, false, false))
    }

    /// Cursor movement, relative and absolute. The letter selects the kind.
    #[verifier::opaque]
    pub open spec fn cursor_commanded(self, letter: char, a: int, b: int) -> Screen {
        if letter == 'A' {
            self.with_ds(self.ds.row_moved(-a, true))
        } else if letter == 'B' {
            self.with_ds(self.ds.row_moved(a, true))
        } else if letter == 'C' {
            self.with_ds(self.ds.col_moved(a, true, false))
        } else if letter == 'D' {
            self.with_ds(self.ds.col_moved(-a, true, false))
        } else if letter == 'H' || letter == 'f' {
            self.cursor_placed(a - 1, b - 1)
        } else {
            self
        }
    }

    /// The screen filled with one character.
    #[verifier::opaque]
    pub open spec fn filled(self, c: char) -> Screen {
        Screen {
            rows: Seq::new(
                self.rows.len(),
                |i: int| self.rows[i].filled(c, self.background()),
            ),
            ..self
        }
    }

    /// To the start of the next line.
    pub open spec fn next_line(self) -> Screen {
        self.with_ds(self.ds.col_moved(0, false, false)).autoscrolled(1)
    }

    /// To the `count`-th tab stop ahead, or back, or to the end of the line. A tab is the
    /// only operation that preserves but does not set the wrap state.
    pub open spec fn tabbed(self, count: int) -> Screen {
        self.with_ds(self.ds.tabbed(count))
    }

    /// Tabulation set at the cursor.
    pub open spec fn tab_set(self) -> Screen {
        self.with_ds(
            DrawView { tabs: self.ds.tabs.with_stop(self.ds.geo.cursor_col, true), ..self.ds },
        )
    }

    /// Tabulation clear.
    #[verifier::opaque]
    pub open spec fn tabs_cleared(self, mode: int) -> Screen {
        if mode == 0 {
            self.with_ds(
                DrawView { tabs: self.ds.tabs.with_stop(self.ds.geo.cursor_col, false), ..self.ds },
            )
        } else if mode == 3 {
            self.with_ds(DrawView { tabs: self.ds.tabs.cleared(), ..self.ds })
        } else {
            self
        }
    }

    /// One private mode switched on or off. Some parameters have a side effect even
    /// though they set no flag.
    #[verifier::opaque]
    pub open spec fn private_mode_set(self, param: int, value: bool) -> Screen {
        if param == 3 {
            // 80/132 column switch. Ignored, but it clears the screen.
            self.cursor_placed(0, 0).rows_reset(0, self.ds.geo.height)
        } else if param == 6 {
            let s = self.cursor_placed(0, 0);
            s.with_ds(DrawView { origin_mode: value, ..s.ds })
        } else {
            self.with_ds(self.ds.flag_switched(param, value))
        }
    }

    /// Top and bottom margins set; `top` and `bottom` count from one. An invalid range is
    /// ignored.
    #[verifier::opaque]
    pub open spec fn margins_set(self, top: int, bottom: int) -> Screen {
        if bottom <= top || top > self.ds.geo.height || (top == 0 && bottom == 1) {
            self
        } else {
            self.with_ds(self.ds.region_set(top - 1, bottom - 1)).cursor_placed(0, 0)
        }
    }

    /// Lines inserted at the cursor, which goes to the first column.
    pub open spec fn lines_inserted_here(self, count: int) -> Screen {
        let s = self.lines_inserted(self.ds.geo.cursor_row, count);
        s.with_ds(s.ds.col_moved(0, false, false))
    }

    /// Lines deleted at the cursor, which goes to the first column.
    pub open spec fn lines_deleted_here(self, count: int) -> Screen {
        let s = self.lines_deleted(self.ds.geo.cursor_row, count);
        s.with_ds(s.ds.col_moved(0, false, false))
    }

    /// Cells inserted at the cursor.
    #[verifier::opaque]
    pub open spec fn cells_inserted_here(self, count: int) -> Screen {
        self.with_row(
            -1,
            self.cursor_line().cells_inserted(self.ds.geo.cursor_col, count, self.background()),
        )
    }

    /// Cells deleted at the cursor.
    #[verifier::opaque]
    pub open spec fn cells_deleted_here(self, count: int) -> Screen {
        self.with_row(
            -1,
            self.cursor_line().cells_deleted(self.ds.geo.cursor_col, count, self.background()),
        )
    }

    /// Characters erased from the cursor on, as far as the line goes.
    #[verifier::opaque]
    pub open spec fn chars_erased(self, count: int) -> Screen {
        let geo = self.ds.geo;
        self.cells_erased(
            geo.cursor_col,
            if geo.cursor_col + count >= geo.width {
                geo.width
            } else {
                geo.cursor_col + count
            },
        )
    }
}

/// A screen stays valid when rows are replaced by rows of the same width.
pub proof fn lemma_with_row_valid(s: Screen, row: int, r: RowView)
    requires
        s.valid(),
        s.has_row(row),
        r.cells.len() == s.ds.geo.width,
    ensures
        s.with_row(row, r).valid(),
        s.with_row(row, r).ds == s.ds,
        s.with_row(row, r).rows.len() == s.rows.len(),
{
}

/// Empties the cells of the cursor's row from `start` up to `end`.
fn clear_cells(fb: &mut Framebuffer, start: i32, end: i32)
    requires
        old(fb)@.valid(),
        0 <= start,
        0 <= end <= old(fb)@.ds.geo.width,
    ensures
        final(fb)@ == old(fb)@.cells_erased(start as int, end as int),
        final(fb)@.valid(),
        final(fb)@.ds == old(fb)@.ds,
{
    let bg = fb.ds.background_rendition();
    proof {
        let r = fb@.cursor_line().erased(start as int, end as int, bg);
        lemma_with_row_valid(fb@, -1, r);
    }
    fb.mutable_row(-1).erase(start as usize, end as usize, bg);
}

/// Empties the rows from `from` up to `to`.
fn reset_rows(fb: &mut Framebuffer, from: i32, to: i32)
    requires
        old(fb)@.valid(),
        0 <= from,
        to <= old(fb)@.ds.geo.height,
    ensures
        final(fb)@ == old(fb)@.rows_reset(from as int, to as int),
        final(fb)@.valid(),
        final(fb)@.ds == old(fb)@.ds,
{
    let mut y: i32 = from;
    while y < to
        invariant
            0 <= from <= y,
            to <= fb@.ds.geo.height,
            fb@.valid(),
            fb@.ds == old(fb)@.ds,
            old(fb)@.rows_reset(from as int, to as int) == fb@.rows_reset(y as int, to as int),
        decreases to - y,
    {
        fb.reset_row(y);
        y = y + 1;
    }
}

/// Erase in line.
pub(crate) fn erase_line(fb: &mut Framebuffer, mode: i32)
    requires
        old(fb)@.valid(),
    ensures
        final(fb)@ == old(fb)@.line_erased(mode as int),
        final(fb)@.valid(),
{
    reveal(Screen::line_erased);
    let col = fb.ds.cursor_col();
    let width = fb.ds.width();
    match mode {
        0 => clear_cells(fb, col, width),
        1 => clear_cells(fb, 0, col + 1),
        2 => fb.reset_row(-1),
        _ => {},
    }
}

/// Erase in display.
pub(crate) fn erase_display(fb: &mut Framebuffer, mode: i32)
    requires
        old(fb)@.valid(),
    ensures
        final(fb)@ == old(fb)@.display_erased(mode as int),
        final(fb)@.valid(),
{
    reveal(Screen::display_erased);
    let col = fb.ds.cursor_col();
    let row = fb.ds.cursor_row();
    let width = fb.ds.width();
    let height = fb.ds.height();
    match mode {
        0 => {
            clear_cells(fb, col, width);
            reset_rows(fb, row + 1, height);
        },
        1 => {
            reset_rows(fb, 0, row);
            clear_cells(fb, 0, col + 1);
        },
        2 => {
            reset_rows(fb, 0, height);
        },
        _ => {},
    }
}

fn place_cursor(fb: &mut Framebuffer, row: i32, col: i32)
    requires
        old(fb)@.valid(),
        row <= MAX_DIMENSION,
    ensures
        final(fb)@ == old(fb)@.cursor_placed(row as int, col as int),
        final(fb)@.valid(),
        final(fb)@.ds.geo.width == old(fb)@.ds.geo.width,
        final(fb)@.ds.geo.height == old(fb)@.ds.geo.height,
{
    fb.ds.move_row(row, false);
    fb.ds.move_col(col, false, false);
}

/// Cursor movement, relative and absolute.
pub(crate) fn command_cursor(fb: &mut Framebuffer, letter: char, a: i32, b: i32)
    requires
        old(fb)@.valid(),
        1 <= a <= MAX_DIMENSION,
        1 <= b <= MAX_DIMENSION,
    ensures
        final(fb)@ == old(fb)@.cursor_commanded(letter, a as int, b as int),
        final(fb)@.valid(),
{
    reveal(Screen::cursor_commanded);
    if letter == 'A' {
        fb.ds.move_row(-a, true);
    } else if letter == 'B' {
        fb.ds.move_row(a, true);
    } else if letter == 'C' {
        fb.ds.move_col(a, true, false);
    } else if letter == 'D' {
        fb.ds.move_col(-a, true, false);
    } else if letter == 'H' || letter == 'f' {
        place_cursor(fb, a - 1, b - 1);
    }
}

/// Screen alignment diagnostic: fill the screen with a character.
pub(crate) fn fill_screen(fb: &mut Framebuffer, c: char)
    requires
        old(fb)@.valid(),
    ensures
        final(fb)@ == old(fb)@.filled(c),
        final(fb)@.valid(),
{
    reveal(Screen::filled);
    let bg = fb.ds.background_rendition();
    let height = fb.ds.height();
    let mut y: i32 = 0;
    while y < height
        invariant
            0 <= y <= height,
            height == fb@.ds.geo.height,
            fb@.valid(),
            bg == old(fb)@.background(),
            fb@ == (Screen { rows: fb@.rows, ..old(fb)@ }),
            fb@.rows.len() == old(fb)@.rows.len(),
            forall|k: int|
                0 <= k < y ==> #[trigger] fb@.rows[k] == old(fb)@.rows[k].filled(c, bg),
            forall|k: int|
                y <= k < fb@.rows.len() ==> #[trigger] fb@.rows[k] == old(fb)@.rows[k],
        decreases height - y,
    {
        let ghost prev = fb@;
        fb.mutable_row(y).fill(c, bg);
        assert(fb@.rows =~= prev.rows.update(y as int, prev.rows[y as int].filled(c, bg)));
        y = y + 1;
    }
    assert(fb@ =~= old(fb)@.filled(c));
}

pub(crate) fn line_feed(fb: &mut Framebuffer)
    requires
        old(fb)@.valid(),
    ensures
        final(fb)@ == old(fb)@.autoscrolled(1),
        final(fb)@.valid(),
{
    fb.move_rows_autoscroll(1);
}

pub(crate) fn new_line(fb: &mut Framebuffer)
    requires
        old(fb)@.valid(),
    ensures
        final(fb)@ == old(fb)@.next_line(),
        final(fb)@.valid(),
{
    fb.ds.move_col(0, false, false);
    fb.move_rows_autoscroll(1);
}

/// To the `count`-th tab stop.
pub(crate) fn tab(fb: &mut Framebuffer, count: i32)
    requires
        old(fb)@.valid(),
    ensures
        final(fb)@ == old(fb)@.tabbed(count as int),
        final(fb)@.valid(),
{
    fb.ds.tab(count);
}

pub(crate) fn set_tab(fb: &mut Framebuffer)
    requires
        old(fb)@.valid(),
    ensures
        final(fb)@ == old(fb)@.tab_set(),
        final(fb)@.valid(),
{
    fb.ds.set_tab();
}

/// Tabulation clear.
pub(crate) fn clear_tabs(fb: &mut Framebuffer, mode: i32)
    requires
        old(fb)@.valid(),
    ensures
        final(fb)@ == old(fb)@.tabs_cleared(mode as int),
        final(fb)@.valid(),
{
    reveal(Screen::tabs_cleared);
    match mode {
        0 => {
            let col = fb.ds.cursor_col();
            fb.ds.clear_tab(col);
        },
        3 => {
            fb.ds.clear_all_tabs();
        },
        _ => {},
    }
}

/// Switches one private mode.
pub(crate) fn set_private_mode(fb: &mut Framebuffer, param: i32, value: bool)
    requires
        old(fb)@.valid(),
    ensures
        final(fb)@ == old(fb)@.private_mode_set(param as int, value),
        final(fb)@.valid(),
{
    reveal(Screen::private_mode_set);
    if param == 3 {
        // 80/132 column switch. Ignored, but it clears the screen.
        let height = fb.ds.height();
        place_cursor(fb, 0, 0);
        reset_rows(fb, 0, height);
        return ;
    }
    if param == 6 {
        place_cursor(fb, 0, 0);
        fb.ds.origin_mode = value;
        return ;
    }
    fb.ds.switch_flag(param, value);
}

/// Set top and bottom margins.
pub(crate) fn set_margins(fb: &mut Framebuffer, top: i32, bottom: i32)
    requires
        old(fb)@.valid(),
        1 <= top,
        1 <= bottom,
    ensures
        final(fb)@ == old(fb)@.margins_set(top as int, bottom as int),
        final(fb)@.valid(),
{
    reveal(Screen::margins_set);
    if bottom <= top || top > fb.ds.height() || (top == 0 && bottom == 1) {
        return ;
    }
    fb.ds.set_scrolling_region(top - 1, bottom - 1);
    place_cursor(fb, 0, 0);
}

pub(crate) fn insert_lines(fb: &mut Framebuffer, count: i32)
    requires
        old(fb)@.valid(),
    ensures
        final(fb)@ == old(fb)@.lines_inserted_here(count as int),
        final(fb)@.valid(),
{
    let row = fb.ds.cursor_row();
    fb.insert_line(row, count);
    // The vt220 manual and ECMA-48 say to move to the first column, but xterm and
    // gnome-terminal do not, and we follow them.
    fb.ds.move_col(0, false, false);
}

pub(crate) fn delete_lines(fb: &mut Framebuffer, count: i32)
    requires
        old(fb)@.valid(),
    ensures
        final(fb)@ == old(fb)@.lines_deleted_here(count as int),
        final(fb)@.valid(),
{
    let row = fb.ds.cursor_row();
    fb.delete_line(row, count);
    fb.ds.move_col(0, false, false);
}

/// Inserts cells at the cursor. The count does not drive the work: they are put in by one
/// move.
pub(crate) fn insert_cells(fb: &mut Framebuffer, count: i32)
    requires
        old(fb)@.valid(),
        0 <= count,
    ensures
        final(fb)@ == old(fb)@.cells_inserted_here(count as int),
        final(fb)@.valid(),
{
    reveal(Screen::cells_inserted_here);
    let bg = fb.ds.background_rendition();
    let col = fb.ds.cursor_col();
    proof {
        assert(fb@.cursor_line().cells.len() == fb@.ds.geo.width);
        lemma_with_row_valid(
            fb@,
            -1,
            fb@.cursor_line().cells_inserted(col as int, count as int, bg),
        );
    }
    fb.mutable_row(-1).insert_cells(col as usize, count as usize, bg);
}

/// Deletes cells at the cursor, by one move.
pub(crate) fn delete_cells(fb: &mut Framebuffer, count: i32)
    requires
        old(fb)@.valid(),
        0 <= count,
    ensures
        final(fb)@ == old(fb)@.cells_deleted_here(count as int),
        final(fb)@.valid(),
{
    reveal(Screen::cells_deleted_here);
    let bg = fb.ds.background_rendition();
    let col = fb.ds.cursor_col();
    proof {
        assert(fb@.cursor_line().cells.len() == fb@.ds.geo.width);
        lemma_with_row_valid(
            fb@,
            -1,
            fb@.cursor_line().cells_deleted(col as int, count as int, bg),
        );
    }
    fb.mutable_row(-1).delete_cells(col as usize, count as usize, bg);
}

/// Erase character.
pub(crate) fn erase_chars(fb: &mut Framebuffer, count: i32)
    requires
        old(fb)@.valid(),
        1 <= count <= MAX_DIMENSION,
    ensures
        final(fb)@ == old(fb)@.chars_erased(count as int),
        final(fb)@.valid(),
{
    reveal(Screen::chars_erased);
    let col = fb.ds.cursor_col();
    let mut limit: i32 = col + count;
    if limit >= fb.ds.width() {
        limit = fb.ds.width();
    }
    clear_cells(fb, col, limit);
}

pub(crate) fn set_insert_mode(fb: &mut Framebuffer, value: bool)
    requires
        old(fb)@.valid(),
    ensures
        final(fb)@ == old(fb)@.with_ds(DrawView { insert_mode: value, ..old(fb)@.ds }),
        final(fb)@.valid(),
{
    fb.ds.insert_mode = value;
}

pub(crate) fn set_renditions(fb: &mut Framebuffer, r: Renditions)
    requires
        old(fb)@.valid(),
    ensures
        final(fb)@ == old(fb)@.with_ds(DrawView { renditions: r, ..old(fb)@.ds }),
        final(fb)@.valid(),
{
    *fb.ds.renditions_mut() = r;
}

pub(crate) fn move_to_row(fb: &mut Framebuffer, n: i32)
    requires
        old(fb)@.valid(),
        n <= MAX_DIMENSION,
    ensures
        final(fb)@ == old(fb)@.with_ds(old(fb)@.ds.row_moved(n as int, false)),
        final(fb)@.valid(),
{
    fb.ds.move_row(n, false);
}

pub(crate) fn move_to_col(fb: &mut Framebuffer, n: i32)
    requires
        old(fb)@.valid(),
    ensures
        final(fb)@ == old(fb)@.with_ds(old(fb)@.ds.col_moved(n as int, false, false)),
        final(fb)@.valid(),
{
    fb.ds.move_col(n, false, false);
}

pub(crate) fn backspace(fb: &mut Framebuffer)
    requires
        old(fb)@.valid(),
    ensures
        final(fb)@ == old(fb)@.with_ds(old(fb)@.ds.col_moved(-1, true, false)),
        final(fb)@.valid(),
{
    fb.ds.move_col(-1, true, false);
}

pub(crate) fn save_cursor(fb: &mut Framebuffer)
    requires
        old(fb)@.valid(),
    ensures
        final(fb)@ == old(fb)@.with_ds(old(fb)@.ds.cursor_saved()),
        final(fb)@.valid(),
{
    fb.ds.save_cursor();
}

pub(crate) fn restore_cursor(fb: &mut Framebuffer)
    requires
        old(fb)@.valid(),
    ensures
        final(fb)@ == old(fb)@.with_ds(old(fb)@.ds.cursor_restored()),
        final(fb)@.valid(),
{
    fb.ds.restore_cursor();
}

} // verus!
