//! The screen: rows of cells plus the draw state.
//!
//! Rows are shared between framebuffers and copied only when written to, which is what
//! makes taking a snapshot of the screen cheap.

use std::rc::Rc;

use vstd::prelude::*;
use vstd::string::*;
use vstd::utf8::*;

pub use crate::cell::{Attribute, Cell, CellView, ColorType, Hyperlink, Link, Renditions};
pub use crate::draw_state::{
    DrawState, DrawView, Modes, Mouse, MouseEncodingMode, MouseReportingMode, SavedCursor, MAX_DIMENSION,
};
pub use crate::row::{Row, RowView};

use crate::cell::{same_allocation, share};
use crate::row::{fresh_generation, writable};
use crate::text::{chars_eq, text_eq};
use crate::views::{group_views, views};

verus! {

broadcast use group_views;

/// A limit on how much colour-query output we will buffer for one batch.
pub const MAXIMUM_COLOR_QUERIES: usize = 4096;

/// The largest width or height a terminal can report to the processes in it.
pub const MAX_WINDOW_DIMENSION: i32 = 65535;

/// A dimension brought into the range from 1 to `MAX_WINDOW_DIMENSION`.
pub open spec fn window_dimension(n: int) -> int {
    if n < 1 {
        1
    } else if n > MAX_WINDOW_DIMENSION {
        MAX_WINDOW_DIMENSION as int
    } else {
        n
    }
}

/// The nearest size a terminal can have.
///
/// A size that arrives over the network can be zero, negative, or past what a window
/// size can hold.
pub fn clamp_size(width: i32, height: i32) -> (size: (i32, i32))
    ensures
        size.0 == window_dimension(width as int),
        size.1 == window_dimension(height as int),
{
    (clamp_dimension(width), clamp_dimension(height))
}

fn clamp_dimension(n: i32) -> (r: i32)
    ensures
        r == window_dimension(n as int),
{
    if n < 1 {
        1
    } else if n > MAX_WINDOW_DIMENSION {
        MAX_WINDOW_DIMENSION
    } else {
        n
    }
}

/// The screen as a value.
#[verifier::ext_equal]
pub struct Screen {
    pub rows: Seq<RowView>,
    pub icon_name: Seq<char>,
    pub window_title: Seq<char>,
    pub clipboard: Seq<char>,
    pub clipboard_seq: u32,
    pub color_queries: Seq<char>,
    pub color_query_seq: u32,
    pub bell_count: u32,
    pub title_initialized: bool,
    pub next_gen: u64,
    pub ds: DrawView,
}

/// `n` copies of `row`.
pub open spec fn copies(row: RowView, n: nat) -> Seq<RowView> {
    Seq::new(n, |i: int| row)
}

/// Every row has the given width.
pub open spec fn rows_have_width(rows: Seq<RowView>, width: int) -> bool {
    forall|i: int| 0 <= i < rows.len() ==> (#[trigger] rows[i]).cells.len() == width
}

impl Screen {
    /// A fresh screen.
    pub open spec fn initial(width: int, height: int, gen: u64) -> Screen {
        Screen {
            rows: copies(RowView::blank(width as nat, 0, gen), height as nat),
            icon_name: Seq::empty(),
            window_title: Seq::empty(),
            clipboard: Seq::empty(),
            clipboard_seq: 0,
            color_queries: Seq::empty(),
            color_query_seq: 0,
            bell_count: 0,
            title_initialized: false,
            next_gen: gen.wrapping_add(1),
            ds: DrawView::initial(width, height),
        }
    }

    /// The draw state is valid, the rows fill the screen, and the colour queries are
    /// within their limit.
    pub open spec fn valid(self) -> bool {
        &&& self.ds.valid()
        &&& self.rows.len() == self.ds.geo.height
        &&& rows_have_width(self.rows, self.ds.geo.width)
        &&& encode_utf8(self.color_queries).len() <= MAXIMUM_COLOR_QUERIES
    }

    /// The row that `row` names; -1 names the cursor's.
    pub open spec fn row_named(self, row: int) -> int {
        if row == -1 {
            self.ds.geo.cursor_row
        } else {
            row
        }
    }

    /// The column that `col` names; -1 names the cursor's.
    pub open spec fn col_named(self, col: int) -> int {
        if col == -1 {
            self.ds.geo.cursor_col
        } else {
            col
        }
    }

    /// Does `row` name a row of the screen?
    pub open spec fn has_row(self, row: int) -> bool {
        0 <= self.row_named(row) < self.rows.len()
    }

    /// Do `row` and `col` name a cell of the screen?
    pub open spec fn has_cell(self, row: int, col: int) -> bool {
        self.has_row(row) && 0 <= self.col_named(col) < self.rows[self.row_named(row)].cells.len()
    }

    /// The cell that `row` and `col` name.
    pub open spec fn cell_at(self, row: int, col: int) -> CellView {
        self.rows[self.row_named(row)].cells[self.col_named(col)]
    }

    /// The colour that erased cells get.
    pub open spec fn background(self) -> ColorType {
        self.ds.renditions.background_color
    }

    /// With the draw state replaced.
    pub open spec fn with_ds(self, ds: DrawView) -> Screen {
        Screen { ds, ..self }
    }

    /// With one row replaced.
    pub open spec fn with_row(self, row: int, r: RowView) -> Screen {
        Screen { rows: self.rows.update(self.row_named(row), r), ..self }
    }

    /// With one cell replaced.
    pub open spec fn with_cell(self, row: int, col: int, c: CellView) -> Screen {
        let old_row = self.rows[self.row_named(row)];
        self.with_row(
            row,
            RowView { cells: old_row.cells.update(self.col_named(col), c), ..old_row },
        )
    }

    /// The next empty row of the screen's width.
    pub open spec fn new_row(self) -> RowView {
        RowView::blank(self.ds.geo.width as nat, self.background(), self.next_gen)
    }

    /// How many lines of the region below `row` an insertion or deletion moves.
    pub open spec fn lines_moved(self, row: int, count: int) -> int {
        let room = self.ds.geo.region_bottom + 1 - row;
        if count < room {
            count
        } else {
            room
        }
    }

    /// After `count` empty lines were inserted above `row`. Lines pushed past the bottom
    /// of the scrolling region are lost. Outside the region nothing happens.
    #[verifier::opaque]
    pub open spec fn lines_inserted(self, row: int, count: int) -> Screen {
        let geo = self.ds.geo;
        let n = self.lines_moved(row, count);
        if row < geo.region_top || row > geo.region_bottom + 1 || n <= 0 {
            self
        } else {
            Screen {
                rows: self.rows.subrange(0, row) + copies(self.new_row(), n as nat)
                    + self.rows.subrange(row, geo.region_bottom + 1 - n) + self.rows.subrange(
                    geo.region_bottom + 1,
                    self.rows.len() as int,
                ),
                next_gen: self.next_gen.wrapping_add(1),
                ..self
            }
        }
    }

    /// After `count` lines were deleted at `row`. Empty lines come in at the bottom of the
    /// scrolling region. Outside the region nothing happens.
    #[verifier::opaque]
    pub open spec fn lines_deleted(self, row: int, count: int) -> Screen {
        let geo = self.ds.geo;
        let n = self.lines_moved(row, count);
        if row < geo.region_top || row > geo.region_bottom || n <= 0 {
            self
        } else {
            Screen {
                rows: self.rows.subrange(0, row) + self.rows.subrange(row + n, geo.region_bottom
                    + 1) + copies(self.new_row(), n as nat) + self.rows.subrange(
                    geo.region_bottom + 1,
                    self.rows.len() as int,
                ),
                next_gen: self.next_gen.wrapping_add(1),
                ..self
            }
        }
    }

    /// After the scrolling region moved up by `n` lines, or down by `-n`.
    pub open spec fn scrolled(self, n: int) -> Screen {
        if n >= 0 {
            self.lines_deleted(self.ds.geo.region_top, n)
        } else {
            self.lines_inserted(self.ds.geo.region_top, -n)
        }
    }

    /// How far the region must scroll for the cursor to move by `rows`.
    pub open spec fn scroll_needed(self, rows: int) -> int {
        let geo = self.ds.geo;
        let target = geo.cursor_row + rows;
        if geo.cursor_row < geo.region_top || geo.cursor_row > geo.region_bottom {
            0
        } else if target > geo.region_bottom {
            target - geo.region_bottom
        } else if target < geo.region_top {
            target - geo.region_top
        } else {
            0
        }
    }

    /// After a cursor movement by `rows`, which scrolls the region when it would leave it.
    #[verifier::opaque]
    pub open spec fn autoscrolled(self, rows: int) -> Screen {
        let n = self.scroll_needed(rows);
        let s = if n == 0 {
            self
        } else {
            let t = self.scrolled(n);
            t.with_ds(t.ds.row_moved(-n, true))
        };
        s.with_ds(s.ds.row_moved(rows, true))
    }

    /// After the row was emptied.
    pub open spec fn row_reset(self, row: int) -> Screen {
        let width = self.rows[self.row_named(row)].cells.len();
        Screen {
            next_gen: self.next_gen.wrapping_add(1),
            ..self.with_row(row, RowView::blank(width, self.background(), self.next_gen))
        }
    }

    /// After everything but the bell count, the counters and the icon name was set back.
    pub open spec fn reset(self) -> Screen {
        let width = self.ds.geo.width;
        let height = self.ds.geo.height;
        Screen {
            rows: copies(RowView::blank(width as nat, 0, self.next_gen), height as nat),
            window_title: Seq::empty(),
            clipboard: Seq::empty(),
            color_queries: Seq::empty(),
            next_gen: self.next_gen.wrapping_add(1),
            ds: DrawView::initial(width, height),
            ..self
        }
    }

    /// After the modes, region, renditions and saved cursor were set back.
    pub open spec fn soft_reset(self) -> Screen {
        let ds = DrawView {
            insert_mode: false,
            origin_mode: false,
            modes: Modes {
                cursor_visible: true,
                application_mode_cursor_keys: false,
                ..self.ds.modes
            },
            ..self.ds
        }.region_set(0, self.ds.geo.height - 1);
        self.with_ds(
            DrawView {
                renditions: ds.renditions.with_rendition(0),
                hyperlink: None,
                save: SavedCursor::initial(),
                ..ds
            },
        )
    }

    /// After a change of size. Rows that stay keep their text as far as it fits; rows
    /// that are added are empty.
    #[verifier::opaque]
    pub open spec fn resized(self, width: int, height: int) -> Screen {
        let ds = self.ds.resized(width, height);
        let bg = ds.renditions.background_color;
        let blank = RowView::blank(width as nat, bg, self.next_gen);
        Screen {
            rows: Seq::new(
                height as nat,
                |i: int|
                    if i >= self.rows.len() {
                        blank
                    } else if self.ds.geo.width == width {
                        self.rows[i]
                    } else {
                        self.rows[i].resized(width as nat, bg)
                    },
            ),
            next_gen: self.next_gen.wrapping_add(1),
            ds,
            ..self
        }
    }

    /// With a new clipboard, which counts as a change even if the text is the same.
    pub open spec fn clipboard_set(self, s: Seq<char>) -> Screen {
        Screen { clipboard: s, clipboard_seq: self.clipboard_seq.wrapping_add(1), ..self }
    }

    /// With a query added, unless it no longer fits; it is counted either way.
    pub open spec fn color_query_added(self, query: Seq<char>) -> Screen {
        Screen {
            color_queries: if encode_utf8(self.color_queries).len() + encode_utf8(query).len()
                <= MAXIMUM_COLOR_QUERIES {
                self.color_queries + query
            } else {
                self.color_queries
            },
            color_query_seq: self.color_query_seq.wrapping_add(1),
            ..self
        }
    }

    /// With `s` in front of the window title, and of the icon name while the two agree.
    pub open spec fn title_prefixed(self, s: Seq<char>) -> Screen {
        Screen {
            icon_name: if self.icon_name == self.window_title {
                s + self.icon_name
            } else {
                self.icon_name
            },
            window_title: s + self.window_title,
            ..self
        }
    }

    /// Is everything apart from the rows the same, as far as synchronisation goes?
    pub open spec fn rest_same(self, other: Screen) -> bool {
        &&& self.window_title == other.window_title
        &&& self.clipboard == other.clipboard
        &&& self.clipboard_seq == other.clipboard_seq
        &&& self.color_queries == other.color_queries
        &&& self.color_query_seq == other.color_query_seq
        &&& self.bell_count == other.bell_count
        &&& self.ds.shows_same(other.ds)
    }
}

/// Encoding a concatenation gives the concatenation of the encodings.
pub proof fn lemma_encode_concat(a: Seq<char>, b: Seq<char>)
    ensures
        encode_utf8(a + b) == encode_utf8(a) + encode_utf8(b),
    decreases a.len(),
{
    if a.len() == 0 {
        assert(a + b =~= b);
        assert(encode_utf8(a) + encode_utf8(b) =~= encode_utf8(b));
    } else {
        lemma_encode_concat(a.drop_first(), b);
        assert((a + b).drop_first() =~= a.drop_first() + b);
        assert(encode_utf8(a + b) =~= encode_utf8(a) + encode_utf8(b));
    }
}

/// Are all rows the same, when `found` tells which are?
pub fn all_shared(found: &[bool]) -> (r: bool)
    ensures
        r == (forall|i: int| 0 <= i < found@.len() ==> #[trigger] found@[i]),
{
    let mut i: usize = 0;
    while i < found.len()
        invariant
            i <= found@.len(),
            forall|k: int| 0 <= k < i ==> #[trigger] found@[k],
        decreases found@.len() - i,
    {
        if !found[i] {
            return false;
        }
        i = i + 1;
    }
    true
}

/// The screen: rows of cells plus the draw state.
#[derive(Debug)]
pub struct Framebuffer {
    pub(crate) rows: Vec<Rc<Row>>,
    pub(crate) icon_name: Vec<char>,
    pub(crate) window_title: Vec<char>,
    pub(crate) clipboard: Vec<char>,
    pub(crate) clipboard_seq: u32,
    pub(crate) color_queries: String,
    pub(crate) color_query_seq: u32,
    pub(crate) bell_count: u32,
    /// True once the window title has been set by an escape sequence.
    pub(crate) title_initialized: bool,
    /// The generation the next new row gets.
    pub(crate) next_gen: u64,
    pub ds: DrawState,
}

impl View for Framebuffer {
    type V = Screen;

    open(crate) spec fn view(&self) -> Screen {
        Screen {
            rows: views(self.rows@),
            icon_name: self.icon_name@,
            window_title: self.window_title@,
            clipboard: self.clipboard@,
            clipboard_seq: self.clipboard_seq,
            color_queries: self.color_queries@,
            color_query_seq: self.color_query_seq,
            bell_count: self.bell_count,
            title_initialized: self.title_initialized,
            next_gen: self.next_gen,
            ds: self.ds@,
        }
    }
}

/// Appends the rows from `from` up to `to`.
fn share_rows(rows: &Vec<Rc<Row>>, from: usize, to: usize, out: &mut Vec<Rc<Row>>)
    requires
        from <= to <= rows@.len(),
    ensures
        views(final(out)@) == views(old(out)@) + views(rows@).subrange(from as int, to as int),
{
    let mut i: usize = from;
    while i < to
        invariant
            from <= i <= to <= rows@.len(),
            views(out@) == views(old(out)@) + views(rows@).subrange(from as int, i as int),
        decreases to - i,
    {
        out.push(share(&rows[i]));
        i = i + 1;
        assert(views(out@) =~= views(old(out)@) + views(rows@).subrange(from as int, i as int));
    }
    assert(views(out@) =~= views(old(out)@) + views(rows@).subrange(from as int, to as int));
}

/// Appends `n` pointers to `row`.
fn push_copies(out: &mut Vec<Rc<Row>>, row: &Rc<Row>, n: usize)
    ensures
        views(final(out)@) == views(old(out)@) + copies(row@, n as nat),
{
    let mut i: usize = 0;
    while i < n
        invariant
            i <= n,
            views(out@) == views(old(out)@) + copies(row@, i as nat),
        decreases n - i,
    {
        out.push(share(row));
        i = i + 1;
        assert(views(out@) =~= views(old(out)@) + copies(row@, i as nat));
    }
    assert(views(out@) =~= views(old(out)@) + copies(row@, n as nat));
}

fn clone_chars(v: &Vec<char>) -> (r: Vec<char>)
    ensures
        r@ == v@,
{
    let r = v.clone();
    assert(r@ =~= v@);
    r
}

/// `prefix` followed by `v`.
fn prefixed(prefix: &[char], v: &Vec<char>) -> (r: Vec<char>)
    ensures
        r@ == prefix@ + v@,
{
    let mut r: Vec<char> = Vec::new();
    r.extend_from_slice(prefix);
    r.extend_from_slice(v.as_slice());
    assert(r@ =~= prefix@ + v@);
    r
}

impl Clone for Framebuffer {
    /// A snapshot that shares its rows with this framebuffer. Rows that it makes later
    /// are of generations of its own.
    fn clone(&self) -> (res: Self)
        ensures
            res@ == (Screen { next_gen: res@.next_gen, ..self@ }),
    {
        let mut rows: Vec<Rc<Row>> = Vec::new();
        share_rows(&self.rows, 0, self.rows.len(), &mut rows);
        assert(views(rows@) =~= views(self.rows@));
        Framebuffer {
            rows,
            icon_name: clone_chars(&self.icon_name),
            window_title: clone_chars(&self.window_title),
            clipboard: clone_chars(&self.clipboard),
            clipboard_seq: self.clipboard_seq,
            color_queries: self.color_queries.clone(),
            color_query_seq: self.color_query_seq,
            bell_count: self.bell_count,
            title_initialized: self.title_initialized,
            next_gen: fresh_generation(),
            ds: self.ds.clone(),
        }
    }
}

impl Framebuffer {
    pub fn new(width: i32, height: i32) -> (res: Self)
        requires
            1 <= width <= MAX_DIMENSION,
            1 <= height <= MAX_DIMENSION,
        ensures
            res@.valid(),
            exists|gen: u64| res@ == Screen::initial(width as int, height as int, gen),
    {
        Framebuffer::with_generation(width, height, fresh_generation())
    }

    /// A fresh screen whose rows take their generations from `gen` on.
    pub fn with_generation(width: i32, height: i32, gen: u64) -> (res: Self)
        requires
            1 <= width <= MAX_DIMENSION,
            1 <= height <= MAX_DIMENSION,
        ensures
            res@ == Screen::initial(width as int, height as int, gen),
            res@.valid(),
    {
        let row = Rc::new(Row::with_generation(width as usize, 0, gen));
        let mut rows: Vec<Rc<Row>> = Vec::new();
        push_copies(&mut rows, &row, height as usize);
        let res = Framebuffer {
            rows,
            icon_name: Vec::new(),
            window_title: Vec::new(),
            clipboard: Vec::new(),
            clipboard_seq: 0,
            color_queries: String::new(),
            color_query_seq: 0,
            bell_count: 0,
            title_initialized: false,
            next_gen: gen.wrapping_add(1),
            ds: DrawState::new(width, height),
        };
        assert(res@ =~= Screen::initial(width as int, height as int, gen));
        assert(encode_utf8(Seq::<char>::empty()).len() == 0);
        res
    }

    /// Takes the next generation number.
    fn take_gen(&mut self) -> (gen: u64)
        ensures
            gen == old(self)@.next_gen,
            final(self)@ == (Screen { next_gen: gen.wrapping_add(1), ..old(self)@ }),
    {
        let gen = self.next_gen;
        self.next_gen = gen.wrapping_add(1);
        gen
    }

    fn newrow(&mut self) -> (row: Rc<Row>)
        requires
            1 <= old(self)@.ds.geo.width,
        ensures
            row@ == old(self)@.new_row(),
            final(self)@ == (Screen {
                next_gen: old(self)@.next_gen.wrapping_add(1),
                ..old(self)@
            }),
    {
        let gen = self.take_gen();
        Rc::new(
            Row::with_generation(self.ds.width() as usize, self.ds.background_rendition(), gen),
        )
    }

    pub fn rows(&self) -> (r: &[Rc<Row>])
        ensures
            views(r@) == self@.rows,
    {
        self.rows.as_slice()
    }

    pub fn scroll(&mut self, n: i32)
        requires
            old(self)@.valid(),
            n > i32::MIN,
        ensures
            final(self)@ == old(self)@.scrolled(n as int),
            final(self)@.valid(),
            final(self)@.ds == old(self)@.ds,
    {
        let top = self.ds.scrolling_region_top_row();
        if n >= 0 {
            self.delete_line(top, n);
        } else {
            self.insert_line(top, -n);
        }
    }

    pub fn move_rows_autoscroll(&mut self, rows: i32)
        requires
            old(self)@.valid(),
            -MAX_DIMENSION < rows < MAX_DIMENSION,
        ensures
            final(self)@ == old(self)@.autoscrolled(rows as int),
            final(self)@.valid(),
    {
        reveal(Screen::autoscrolled);
        let n = self.scroll_for(rows);
        if n != 0 {
            self.scroll_and_follow(n);
        }
        self.ds.move_row(rows, true);
    }

    /// How far the region must scroll for the cursor to move by `rows`. A cursor outside
    /// the region does not scroll it.
    fn scroll_for(&self, rows: i32) -> (n: i32)
        requires
            self@.valid(),
            -MAX_DIMENSION < rows < MAX_DIMENSION,
        ensures
            n == self@.scroll_needed(rows as int),
            -MAX_DIMENSION < n < MAX_DIMENSION,
    {
        let cursor = self.ds.cursor_row();
        let top = self.ds.scrolling_region_top_row();
        let bottom = self.ds.scrolling_region_bottom_row();
        if cursor < top || cursor > bottom {
            0
        } else if cursor + rows > bottom {
            cursor + rows - bottom
        } else if cursor + rows < top {
            cursor + rows - top
        } else {
            0
        }
    }

    /// Scrolls the region and moves the cursor along with its text.
    fn scroll_and_follow(&mut self, n: i32)
        requires
            old(self)@.valid(),
            -MAX_DIMENSION < n < MAX_DIMENSION,
        ensures
            final(self)@ == old(self)@.scrolled(n as int).with_ds(
                old(self)@.scrolled(n as int).ds.row_moved(-n, true),
            ),
            final(self)@.valid(),
    {
        self.scroll(n);
        self.ds.move_row(-n, true);
    }

    pub fn row(&self, row: i32) -> (r: Option<&Row>)
        ensures
            match r {
                Some(x) => self@.has_row(row as int) && x@ == self@.rows[self@.row_named(
                    row as int,
                )],
                None => !self@.has_row(row as int),
            },
    {
        let row: i32 = if row == -1 {
            self.ds.cursor_row()
        } else {
            row
        };
        if row < 0 || row as usize >= self.rows.len() {
            return None;
        }
        Some(&*self.rows[row as usize])
    }

    pub fn cell(&self, row: i32, col: i32) -> (r: Option<&Cell>)
        ensures
            match r {
                Some(x) => self@.has_cell(row as int, col as int) && x@ == self@.cell_at(
                    row as int,
                    col as int,
                ),
                None => !self@.has_cell(row as int, col as int),
            },
    {
        let col: i32 = if col == -1 {
            self.ds.cursor_col()
        } else {
            col
        };
        match self.row(row) {
            Some(r) => {
                if col < 0 || col as usize >= r.cells.len() {
                    return None;
                }
                Some(&r.cells[col as usize])
            },
            None => None,
        }
    }

    /// A row that can be written to, copied first if any other framebuffer shares it.
    pub fn mutable_row(&mut self, row: i32) -> (ret: &mut Row)
        requires
            old(self)@.has_row(row as int),
        ensures
            ret@ == old(self)@.rows[old(self)@.row_named(row as int)],
            final(self)@ == old(self)@.with_row(row as int, final(ret)@),
    {
        let row: i32 = if row == -1 {
            self.ds.cursor_row()
        } else {
            row
        };
        writable(&mut self.rows[row as usize])
    }

    pub fn mutable_cell(&mut self, row: i32, col: i32) -> (ret: &mut Cell)
        requires
            old(self)@.has_cell(row as int, col as int),
        ensures
            ret@ == old(self)@.cell_at(row as int, col as int),
            final(self)@ == old(self)@.with_cell(row as int, col as int, final(ret)@),
    {
        let col: i32 = if col == -1 {
            self.ds.cursor_col()
        } else {
            col
        };
        &mut self.mutable_row(row).cells[col as usize]
    }

    /// The cell a combining character should attach to, if it is still on screen.
    pub fn combining_cell(&mut self) -> (ret: Option<&mut Cell>)
        requires
            old(self)@.valid(),
        ensures
            ({
                let col = old(self)@.ds.geo.combining_char_col;
                let row = old(self)@.ds.geo.combining_char_row;
                match ret {
                    Some(cell) => {
                        &&& 0 <= col < old(self)@.ds.geo.width
                        &&& 0 <= row < old(self)@.ds.geo.height
                        &&& cell@ == old(self)@.cell_at(row, col)
                        &&& final(self)@ == old(self)@.with_cell(row, col, final(cell)@)
                    },
                    None => {
                        &&& col < 0 || row < 0
                        &&& final(self)@ == old(self)@
                    },
                }
            }),
    {
        let col: i32 = self.ds.combining_char_col();
        let row: i32 = self.ds.combining_char_row();
        // A resize since the base character was printed can put this off screen.
        if col < 0 || row < 0 || col >= self.ds.width() || row >= self.ds.height() {
            return None;
        }
        Some(self.mutable_cell(row, col))
    }

    pub fn apply_renditions_to_cell(&mut self, row: i32, col: i32)
        requires
            old(self)@.has_cell(row as int, col as int),
        ensures
            final(self)@ == old(self)@.with_cell(
                row as int,
                col as int,
                CellView {
                    renditions: old(self)@.ds.renditions,
                    ..old(self)@.cell_at(row as int, col as int)
                },
            ),
    {
        let r = *self.ds.renditions();
        self.mutable_cell(row, col).set_renditions(r);
    }

    pub fn apply_hyperlink_to_cell(&mut self, row: i32, col: i32)
        requires
            old(self)@.has_cell(row as int, col as int),
        ensures
            final(self)@ == old(self)@.with_cell(
                row as int,
                col as int,
                CellView {
                    hyperlink: old(self)@.ds.hyperlink,
                    ..old(self)@.cell_at(row as int, col as int)
                },
            ),
    {
        let h = self.ds.hyperlink().clone();
        self.mutable_cell(row, col).set_hyperlink(h);
    }

    pub fn insert_line(&mut self, before_row: i32, count: i32)
        requires
            old(self)@.valid(),
        ensures
            final(self)@ == old(self)@.lines_inserted(before_row as int, count as int),
            final(self)@.valid(),
            final(self)@.ds == old(self)@.ds,
    {
        reveal(Screen::lines_inserted);
        let top = self.ds.scrolling_region_top_row();
        let bottom = self.ds.scrolling_region_bottom_row();
        if before_row < top || before_row > bottom + 1 {
            return ;
        }
        let mut scroll: i32 = bottom + 1 - before_row;
        if count < scroll {
            scroll = count;
        }
        if scroll <= 0 {
            return ;
        }
        let blank = self.newrow();
        let at: usize = before_row as usize;
        let end: usize = (bottom + 1) as usize;
        let n: usize = scroll as usize;
        let mut rows: Vec<Rc<Row>> = Vec::new();
        share_rows(&self.rows, 0, at, &mut rows);
        push_copies(&mut rows, &blank, n);
        share_rows(&self.rows, at, end - n, &mut rows);
        share_rows(&self.rows, end, self.rows.len(), &mut rows);
        self.rows = rows;
        assert(self@ =~= old(self)@.lines_inserted(before_row as int, count as int));
    }

    pub fn delete_line(&mut self, row: i32, count: i32)
        requires
            old(self)@.valid(),
        ensures
            final(self)@ == old(self)@.lines_deleted(row as int, count as int),
            final(self)@.valid(),
            final(self)@.ds == old(self)@.ds,
    {
        reveal(Screen::lines_deleted);
        let top = self.ds.scrolling_region_top_row();
        let bottom = self.ds.scrolling_region_bottom_row();
        if row < top || row > bottom {
            return ;
        }
        let mut scroll: i32 = bottom + 1 - row;
        if count < scroll {
            scroll = count;
        }
        if scroll <= 0 {
            return ;
        }
        let blank = self.newrow();
        let at: usize = row as usize;
        let end: usize = (bottom + 1) as usize;
        let n: usize = scroll as usize;
        let mut rows: Vec<Rc<Row>> = Vec::new();
        share_rows(&self.rows, 0, at, &mut rows);
        share_rows(&self.rows, at + n, end, &mut rows);
        push_copies(&mut rows, &blank, n);
        share_rows(&self.rows, end, self.rows.len(), &mut rows);
        self.rows = rows;
        assert(self@ =~= old(self)@.lines_deleted(row as int, count as int));
    }

    pub fn insert_cell(&mut self, row: i32, col: i32)
        requires
            old(self)@.has_row(row as int),
            0 <= col <= old(self)@.rows[old(self)@.row_named(row as int)].cells.len(),
        ensures
            final(self)@ == old(self)@.with_row(
                row as int,
                old(self)@.rows[old(self)@.row_named(row as int)].cell_inserted(
                    col as int,
                    old(self)@.background(),
                ),
            ),
    {
        let bg = self.ds.background_rendition();
        self.mutable_row(row).insert_cell(col as usize, bg);
    }

    pub fn delete_cell(&mut self, row: i32, col: i32)
        requires
            old(self)@.has_row(row as int),
            0 <= col <= old(self)@.rows[old(self)@.row_named(row as int)].cells.len(),
        ensures
            final(self)@ == old(self)@.with_row(
                row as int,
                old(self)@.rows[old(self)@.row_named(row as int)].cell_deleted(
                    col as int,
                    old(self)@.background(),
                ),
            ),
    {
        let bg = self.ds.background_rendition();
        self.mutable_row(row).delete_cell(col as usize, bg);
    }

    pub fn reset(&mut self)
        requires
            old(self)@.valid(),
        ensures
            final(self)@ == old(self)@.reset(),
            final(self)@.valid(),
    {
        let width = self.ds.width();
        let height = self.ds.height();
        self.ds = DrawState::new(width, height);
        let row = self.newrow();
        let mut rows: Vec<Rc<Row>> = Vec::new();
        push_copies(&mut rows, &row, height as usize);
        self.rows = rows;
        self.window_title = Vec::new();
        self.clipboard = Vec::new();
        self.color_queries = String::new();
        // bell_count deliberately survives a reset.
        assert(encode_utf8(Seq::<char>::empty()).len() == 0);
        assert(self@ =~= old(self)@.reset());
    }

    pub fn soft_reset(&mut self)
        requires
            old(self)@.valid(),
        ensures
            final(self)@ == old(self)@.soft_reset(),
            final(self)@.valid(),
    {
        self.ds.insert_mode = false;
        self.ds.origin_mode = false;
        self.ds.modes.cursor_visible = true;
        self.ds.modes.application_mode_cursor_keys = false;
        let bottom: i32 = self.ds.height() - 1;
        self.ds.set_scrolling_region(0, bottom);
        self.ds.add_rendition(0);
        self.ds.set_hyperlink(Hyperlink::default());
        self.ds.clear_saved_cursor();
    }

    pub fn set_title_initialized(&mut self)
        ensures
            final(self)@ == (Screen { title_initialized: true, ..old(self)@ }),
    {
        self.title_initialized = true;
    }

    pub fn is_title_initialized(&self) -> (b: bool)
        ensures
            b == self@.title_initialized,
    {
        self.title_initialized
    }

    pub fn set_icon_name(&mut self, s: Vec<char>)
        ensures
            final(self)@ == (Screen { icon_name: s@, ..old(self)@ }),
    {
        self.icon_name = s;
    }

    pub fn set_window_title(&mut self, s: Vec<char>)
        ensures
            final(self)@ == (Screen { window_title: s@, ..old(self)@ }),
    {
        self.window_title = s;
    }

    pub fn set_clipboard(&mut self, s: Vec<char>)
        ensures
            final(self)@ == old(self)@.clipboard_set(s@),
    {
        self.clipboard = s;
        self.clipboard_seq = self.clipboard_seq.wrapping_add(1);
    }

    pub fn icon_name(&self) -> (s: &[char])
        ensures
            s@ == self@.icon_name,
    {
        self.icon_name.as_slice()
    }

    pub fn window_title(&self) -> (s: &[char])
        ensures
            s@ == self@.window_title,
    {
        self.window_title.as_slice()
    }

    pub fn clipboard(&self) -> (s: &[char])
        ensures
            s@ == self@.clipboard,
    {
        self.clipboard.as_slice()
    }

    pub fn clipboard_seq(&self) -> (n: u32)
        ensures
            n == self@.clipboard_seq,
    {
        self.clipboard_seq
    }

    /// Colour queries are events rather than state: they accumulate for one batch of
    /// terminal output and are forwarded to the client's terminal once.
    pub fn add_color_query(&mut self, query: &str)
        requires
            old(self)@.valid(),
        ensures
            final(self)@ == old(self)@.color_query_added(query@),
            final(self)@.valid(),
    {
        let used: usize = self.color_queries.as_str().as_bytes().len();
        let more: usize = query.as_bytes().len();
        proof {
            lemma_encode_concat(self.color_queries@, query@);
        }
        if more <= MAXIMUM_COLOR_QUERIES - used {
            self.color_queries.append(query);
        }
        self.color_query_seq = self.color_query_seq.wrapping_add(1);
    }

    pub fn clear_color_queries(&mut self)
        ensures
            final(self)@ == (Screen { color_queries: Seq::empty(), ..old(self)@ }),
            old(self)@.valid() ==> final(self)@.valid(),
    {
        self.color_queries = String::new();
        assert(encode_utf8(Seq::<char>::empty()).len() == 0);
    }

    pub fn color_queries(&self) -> (s: &str)
        ensures
            s@ == self@.color_queries,
    {
        self.color_queries.as_str()
    }

    pub fn color_query_seq(&self) -> (n: u32)
        ensures
            n == self@.color_query_seq,
    {
        self.color_query_seq
    }

    pub fn prefix_window_title(&mut self, s: &[char])
        ensures
            final(self)@ == old(self)@.title_prefixed(s@),
    {
        if chars_eq(self.icon_name.as_slice(), self.window_title.as_slice()) {
            // Preserve the equivalence rather than letting them drift apart.
            self.icon_name = prefixed(s, &self.icon_name);
        }
        self.window_title = prefixed(s, &self.window_title);
    }

    pub fn resize(&mut self, width: i32, height: i32)
        requires
            old(self)@.valid(),
            1 <= width <= MAX_DIMENSION,
            1 <= height <= MAX_DIMENSION,
        ensures
            final(self)@ == old(self)@.resized(width as int, height as int),
            final(self)@.valid(),
    {
        reveal(Screen::resized);
        let ghost before = self@;
        let oldheight: usize = self.rows.len();
        let oldwidth = self.ds.width();
        self.ds.resize(width, height);
        assert(self@ == before.with_ds(before.ds.resized(width as int, height as int)));
        let bg = self.ds.background_rendition();
        let blankrow = self.newrow();
        let target: usize = height as usize;
        if target < oldheight {
            self.rows.truncate(target);
        } else {
            push_copies(&mut self.rows, &blankrow, target - oldheight);
        }
        let kept: usize = if target < oldheight {
            target
        } else {
            oldheight
        };
        let ghost taller = self@;
        assert(self.rows@.len() == taller.rows.len());
        if oldwidth != width {
            let mut i: usize = 0;
            while i < kept
                invariant
                    i <= kept <= self.rows@.len(),
                    width >= 1,
                    self@ == (Screen { rows: self@.rows, ..taller }),
                    self@.rows.len() == taller.rows.len(),
                    forall|k: int|
                        0 <= k < i ==> #[trigger] self@.rows[k] == taller.rows[k].resized(
                            width as nat,
                            bg,
                        ),
                    forall|k: int|
                        i <= k < taller.rows.len() ==> #[trigger] self@.rows[k] == taller.rows[k],
                decreases kept - i,
            {
                let ghost prev = self@;
                writable(&mut self.rows[i]).resize(width as usize, bg);
                assert(self@.rows =~= prev.rows.update(
                    i as int,
                    prev.rows[i as int].resized(width as nat, bg),
                ));
                i = i + 1;
            }
        }
        assert(self@ =~= before.resized(width as int, height as int));
    }

    pub fn reset_cell(&mut self, row: i32, col: i32)
        requires
            old(self)@.has_cell(row as int, col as int),
        ensures
            final(self)@ == old(self)@.with_cell(
                row as int,
                col as int,
                CellView::blank(old(self)@.background()),
            ),
    {
        let bg = self.ds.background_rendition();
        self.mutable_cell(row, col).reset(bg);
    }

    pub fn reset_row(&mut self, row: i32)
        requires
            old(self)@.has_row(row as int),
        ensures
            final(self)@ == old(self)@.row_reset(row as int),
    {
        let bg = self.ds.background_rendition();
        let gen = self.take_gen();
        self.mutable_row(row).reset_as(bg, gen);
    }

    pub fn ring_bell(&mut self)
        ensures
            final(self)@ == (Screen {
                bell_count: old(self)@.bell_count.wrapping_add(1),
                ..old(self)@
            }),
    {
        self.bell_count = self.bell_count.wrapping_add(1);
    }

    pub fn bell_count(&self) -> (n: u32)
        ensures
            n == self@.bell_count,
    {
        self.bell_count
    }

    /// Are the rows of the two framebuffers the same rows, not merely equal ones?
    pub fn shares_rows(&self, other: &Framebuffer) -> (r: bool)
        ensures
            r ==> self@.rows == other@.rows,
    {
        if self.rows.len() != other.rows.len() {
            return false;
        }
        let mut found: Vec<bool> = Vec::new();
        while found.len() < self.rows.len()
            invariant
                found@.len() <= self.rows.len(),
                self.rows.len() == other.rows.len(),
                forall|k: int|
                    0 <= k < found@.len() && #[trigger] found@[k] ==> self@.rows[k]
                        == other@.rows[k],
            decreases self.rows.len() - found@.len(),
        {
            let i: usize = found.len();
            found.push(same_allocation(&self.rows[i], &other.rows[i]));
        }
        let r = all_shared(found.as_slice());
        proof {
            if r {
                assert forall|k: int| 0 <= k < self@.rows.len() implies #[trigger] self@.rows[k]
                    == other@.rows[k] by {
                    assert(found@[k]);
                }
                assert(self@.rows =~= other@.rows);
            }
        }
        r
    }

    /// Are the two framebuffers the same state, when `rows_shared` tells whether they
    /// share their rows?
    pub fn same_given(&self, other: &Framebuffer, rows_shared: bool) -> (r: bool)
        ensures
            r == (rows_shared && self@.rest_same(other@)),
    {
        rows_shared && chars_eq(self.window_title.as_slice(), other.window_title.as_slice())
            && chars_eq(self.clipboard.as_slice(), other.clipboard.as_slice()) && self.clipboard_seq
            == other.clipboard_seq && text_eq(
            self.color_queries.as_str(),
            other.color_queries.as_str(),
        ) && self.color_query_seq == other.color_query_seq && self.bell_count == other.bell_count
            && self.ds == other.ds
    }
}

impl PartialEq for Framebuffer {
    /// Rows are compared by identity, not by content: this asks "is this the same row I
    /// already had", which is what state sync needs. Two rows with equal contents but
    /// separate allocations are deliberately unequal -- the cost is a redundant diff,
    /// whereas a false positive would lose an update.
    fn eq(&self, other: &Self) -> (r: bool)
        ensures
            r ==> self@.rows == other@.rows && self@.rest_same(other@),
    {
        let rows_shared = self.shares_rows(other);
        self.same_given(other, rows_shared)
    }
}

impl vstd::std_specs::cmp::PartialEqSpecImpl for Framebuffer {
    open spec fn obeys_eq_spec() -> bool {
        false
    }

    open spec fn eq_spec(&self, other: &Self) -> bool {
        self@.rows == other@.rows && self@.rest_same(other@)
    }
}

impl Eq for Framebuffer {

}

} // verus!
