//! Rows that are drawn look like the rows they were drawn for.

use vstd::prelude::*;

use crate::cell::{CellView, Link, Renditions};
use crate::commands::{link_sendable, selected_renditions_are_read_back};
use crate::draw_state::{DrawView, GeometryView};
use crate::emulator::EmulatorView;
use crate::frame::{erase_usable, FrameView, RowJob, RowProgress, RunView};
use crate::framebuffer::Screen;
use crate::mirror::{
    drawn, follows, is_cluster, lemma_cell_drawn, lemma_cell_put, lemma_chars_erased,
    lemma_line_erased, lemma_cluster_printed, lemma_line_feed, lemma_linked, lemma_rendered,
    lemma_return, lemma_silently_moved, lemma_text, lemma_spaces_drawn, rows_differ_in, space_cell,
};
use crate::typing::{lemma_print, lemma_typed_concat, lemma_typed_one};
use crate::widths::WidthRange;

verus! {

/// Do the cells of one row look like those of another, from one column up to another?
pub open spec fn cells_look(a: Seq<CellView>, b: Seq<CellView>, from: int, to: int) -> bool {
    forall|j: int| from <= j < to ==> (#[trigger] a[j]).looks_like(b[j])
}

/// Is this a row that can be drawn: every cell can, an empty one is nothing but background,
/// and a wide one covers such a cell?
pub open spec fn is_tidy(widths: Seq<WidthRange>, cells: Seq<CellView>) -> bool {
    forall|x: int| 0 <= x < cells.len() ==> cell_tidy(widths, cells, x)
}

/// Can this cell of a row be drawn?
pub open spec fn cell_tidy(widths: Seq<WidthRange>, cells: Seq<CellView>, x: int) -> bool {
    let cell = cells[x];
    let background = cell.renditions.background_color;
    &&& cell.drawable(widths)
    &&& cell.contents.len() == 0 ==> cell.renditions == Renditions::plain(background)
        && cell.hyperlink is None && !cell.wide
    &&& cell.wide ==> x + 1 < cells.len() && cells[x + 1].looks_like(CellView::blank(background))
}

/// The link that the last cell which is drawn in a row belongs to.
pub open spec fn last_link(cells: Seq<CellView>) -> Option<Link> {
    let n = cells.len();
    if n >= 2 && cells[n - 2].wide {
        cells[n - 2].hyperlink
    } else {
        cells[n - 1].hyperlink
    }
}

impl RowJob {
    /// Can the row be drawn on a screen that shows, from column `from` on, the old cells?
    pub open spec fn fits(self, widths: Seq<WidthRange>, s: Screen, from: int) -> bool {
        &&& 0 <= self.y < s.rows.len()
        &&& self.cells.len() == s.ds.geo.width
        &&& s.rows[self.y].cells.len() == self.cells.len()
        &&& is_tidy(widths, self.cells)
        &&& self.initialized ==> self.old.len() == self.cells.len() && is_tidy(widths, self.old)
            && cells_look(s.rows[self.y].cells, self.old, from, self.cells.len() as int)
    }

    /// Does the run stand for the empty cells before column `x`?
    pub open spec fn run_stands(self, run: RunView, x: int) -> bool {
        forall|j: int|
            x - run.count <= j < x ==> (#[trigger] self.cells[j]).contents.len() == 0
                && self.cells[j].renditions == run.rendition && self.cells[j].hyperlink
                == run.link
    }

    /// Is the drawing of the row on course? What is behind looks as it should, and what is
    /// ahead is as it was.
    pub open spec fn on_course(self, e: EmulatorView, before: Screen, p: RowProgress) -> bool {
        let s = drawn(e, p.frame);
        let w = self.cells.len() as int;
        &&& follows(e, p.frame)
        &&& before.drawn_over(s)
        &&& s.rows.len() == before.rows.len()
        &&& forall|i: int|
            0 <= i < s.rows.len() && i != self.y ==> #[trigger] s.rows[i] == before.rows[i]
        &&& s.rows[self.y].cells.len() == w
        &&& 0 <= p.run.count <= p.x <= w
        &&& cells_look(s.rows[self.y].cells, self.cells, 0, p.x - p.run.count)
        &&& forall|j: int|
            p.x - p.run.count <= j < w ==> #[trigger] s.rows[self.y].cells[j]
                == before.rows[self.y].cells[j]
        &&& self.run_stands(p.run, p.x)
        &&& p.x > p.run.count ==> !self.cells[p.x - p.run.count - 1].wide
        &&& if p.wrote_last {
            p.frame.x == w && p.frame.y == self.y && p.x == w && p.run.count == 0 && p.frame.link
                == last_link(self.cells)
        } else {
            p.frame.x < w || p.frame.y < self.y || (p.x == w && p.run.count == 0 && p.frame.y
                == self.y)
        }
    }
}

/// The frame at the start of a run, with its renditions and link.
proof fn lemma_at_run(e: EmulatorView, job: RowJob, f: FrameView, run: RunView, x: int)
    requires
        follows(e, f),
        f.x < drawn(e, f).ds.geo.width || f.y < job.y,
        0 <= job.y < drawn(e, f).ds.geo.height,
        0 <= x - run.count < drawn(e, f).ds.geo.width,
        run.rendition.selectable(),
        link_sendable(run.link),
    ensures
        ({
            let g = job.at_run(f, run, x);
            &&& follows(e, g)
            &&& drawn(e, f).drawn_over(drawn(e, g))
            &&& drawn(e, g).rows == drawn(e, f).rows
            &&& g.x == x - run.count
            &&& g.y == job.y
            &&& g.rendition == run.rendition
            &&& g.link == run.link
        }),
{
    let a = f.silently_moved(job.y, x - run.count);
    lemma_silently_moved(e, f, job.y, x - run.count);
    lemma_rendered(e, a, run.rendition, false);
    lemma_linked(e, a.rendered(run.rendition, false), run.link, false);
}

/// The first cell of a run that stands for cells.
proof fn lemma_run_tidy(widths: Seq<WidthRange>, job: RowJob, run: RunView, x: int)
    requires
        is_tidy(widths, job.cells),
        job.run_stands(run, x),
        0 < run.count <= x <= job.cells.len(),
    ensures
        run.rendition == Renditions::plain(run.rendition.background_color),
        run.link is None,
        run.rendition.selectable(),
        forall|j: int|
            x - run.count <= j < x ==> !(#[trigger] job.cells[j]).wide && job.cells[j].grapheme()
                == seq![' '],
{
    let k = x - run.count;
    assert(job.cells[k].contents.len() == 0);
    assert(cell_tidy(widths, job.cells, k));
    assert forall|j: int| x - run.count <= j < x implies !(#[trigger] job.cells[j]).wide
        && job.cells[j].grapheme() == seq![' '] by {
        assert(cell_tidy(widths, job.cells, j));
    }
}

/// Drawing some columns keeps what was behind them, and makes them look as they should.
proof fn lemma_columns_drawn(
    e: EmulatorView,
    job: RowJob,
    before: Screen,
    p: RowProgress,
    g: FrameView,
    from: int,
    to: int,
)
    requires
        job.on_course(e, before, p),
        follows(e, g),
        drawn(e, p.frame).drawn_over(drawn(e, g)),
        rows_differ_in(drawn(e, p.frame), drawn(e, g), job.y, from, to),
        from == p.x - p.run.count,
        0 <= from <= to <= job.cells.len(),
        cells_look(drawn(e, g).rows[job.y].cells, job.cells, from, to),
    ensures
        before.drawn_over(drawn(e, g)),
        drawn(e, g).rows.len() == before.rows.len(),
        forall|i: int|
            0 <= i < drawn(e, g).rows.len() && i != job.y ==> #[trigger] drawn(e, g).rows[i]
                == before.rows[i],
        drawn(e, g).rows[job.y].cells.len() == job.cells.len(),
        cells_look(drawn(e, g).rows[job.y].cells, job.cells, 0, to),
        forall|j: int|
            to <= j < job.cells.len() ==> #[trigger] drawn(e, g).rows[job.y].cells[j]
                == before.rows[job.y].cells[j],
{
    let (s, t) = (drawn(e, p.frame), drawn(e, g));
    assert forall|i: int| 0 <= i < t.rows.len() && i != job.y implies #[trigger] t.rows[i]
        == before.rows[i] by {
        assert(t.rows[i] == s.rows[i]);
    }
    assert forall|j: int| 0 <= j < to implies (#[trigger] t.rows[job.y].cells[j]).looks_like(
        job.cells[j],
    ) by {
        if j < from {
            assert(t.rows[job.y].cells[j] == s.rows[job.y].cells[j]);
        }
    }
    assert forall|j: int| to <= j < job.cells.len() implies #[trigger] t.rows[job.y].cells[j]
        == before.rows[job.y].cells[j] by {
        assert(t.rows[job.y].cells[j] == s.rows[job.y].cells[j]);
    }
}

/// A run that ends before the end of the row is drawn as it should look.
proof fn lemma_run_flushed(e: EmulatorView, job: RowJob, before: Screen, p: RowProgress)
    requires
        is_tidy(e.widths, job.cells),
        0 <= job.y < before.rows.len(),
        job.cells.len() == before.ds.geo.width,
        before.rows.len() == before.ds.geo.height,
        job.on_course(e, before, p),
        0 < p.run.count,
        p.x < job.cells.len(),
    ensures
        ({
            let g = job.run_flushed(p.frame, p.run, p.x);
            job.on_course(
                e,
                before,
                RowProgress {
                    frame: g,
                    run: RunView { count: 0, ..p.run },
                    ..p
                },
            )
        }),
{
    reveal(RowJob::run_flushed);
    lemma_run_tidy(e.widths, job, p.run, p.x);
    lemma_at_run(e, job, p.frame, p.run, p.x);
    let f = job.at_run(p.frame, p.run, p.x);
    let g = job.run_flushed(p.frame, p.run, p.x);
    let from = p.x - p.run.count;
    if erase_usable(job.has_bce, f) && job.has_ech && p.run.count > 4 {
        lemma_chars_erased(e, f, p.run.count);
    } else {
        lemma_spaces_drawn(e, f, p.run.count);
    }
    let t = drawn(e, g);
    assert forall|j: int| from <= j < p.x implies (#[trigger] t.rows[job.y].cells[j]).looks_like(
        job.cells[j],
    ) by {
        assert(t.rows[job.y].cells[j].looks_like(space_cell(f)));
        assert(job.cells[j].contents.len() == 0);
    }
    assert(rows_differ_in(drawn(e, p.frame), t, job.y, from, p.x));
    lemma_columns_drawn(e, job, before, p, g, from, p.x);
    assert(!job.cells[p.x - 1].wide);
}

/// The frame with one cell printed at a column of the row.
proof fn lemma_printed_frame(e: EmulatorView, job: RowJob, f: FrameView, x: int)
    requires
        follows(e, f),
        f.x < drawn(e, f).ds.geo.width || f.y < job.y,
        0 <= job.y < drawn(e, f).ds.geo.height,
        0 <= x < job.cells.len(),
        job.cells.len() == drawn(e, f).ds.geo.width,
        cell_tidy(e.widths, job.cells, x),
    ensures
        ({
            let cell = job.cells[x];
            let g = job.cell_printed(f, x);
            let (s, t) = (drawn(e, f), drawn(e, g));
            &&& follows(e, g)
            &&& s.drawn_over(t)
            &&& rows_differ_in(s, t, job.y, x, x + cell.columns())
            &&& t.rows[job.y].cells[x].looks_like(cell)
            &&& cell.wide ==> t.rows[job.y].cells[x + 1] == CellView::blank(
                cell.renditions.background_color,
            )
            &&& g.x == x + cell.columns()
            &&& g.y == job.y
            &&& g.link == cell.hyperlink
        }),
{
    reveal(RowJob::cell_printed);
    let cell = job.cells[x];
    let start = if job.wraps && x + cell.columns() >= job.cells.len() {
        f.at(-1, -1)
    } else {
        f
    };
    assert(follows(e, start));
    let a = start.silently_moved(job.y, x);
    lemma_silently_moved(e, start, job.y, x);
    let b = a.rendered(cell.renditions, false);
    lemma_rendered(e, a, cell.renditions, false);
    let c = b.linked(cell.hyperlink, false);
    lemma_linked(e, b, cell.hyperlink, false);
    lemma_cell_drawn(e, c, cell);
}

/// A cell that is printed looks as it should.
proof fn lemma_cell_printed(e: EmulatorView, job: RowJob, before: Screen, p: RowProgress)
    requires
        is_tidy(e.widths, job.cells),
        0 <= job.y < before.rows.len(),
        job.cells.len() == before.ds.geo.width,
        before.rows.len() == before.ds.geo.height,
        job.on_course(e, before, p),
        p.run.count == 0,
        !p.wrote_last,
        p.x < job.cells.len(),
    ensures
        ({
            let x = p.x + job.cells[p.x].columns();
            job.on_course(
                e,
                before,
                RowProgress {
                    frame: job.cell_printed(p.frame, p.x),
                    x,
                    wrote_last: x >= job.cells.len(),
                    ..p
                },
            )
        }),
{
    let w = job.cells.len() as int;
    let cell = job.cells[p.x];
    assert(cell_tidy(e.widths, job.cells, p.x));
    lemma_printed_frame(e, job, p.frame, p.x);
    let g = job.cell_printed(p.frame, p.x);
    let to = p.x + cell.columns();
    let t = drawn(e, g);
    assert(cells_look(t.rows[job.y].cells, job.cells, p.x, to)) by {
        assert forall|j: int| p.x <= j < to implies (#[trigger] t.rows[job.y].cells[j]).looks_like(
            job.cells[j],
        ) by {
            if j > p.x {
                assert(cell.wide && j == p.x + 1);
            }
        }
    }
    lemma_columns_drawn(e, job, before, p, g, p.x, to);
    if to == w && !cell.wide && w >= 2 {
        assert(!job.cells[w - 2].wide);
    }
}

/// One step keeps the drawing on course.
proof fn lemma_step(e: EmulatorView, job: RowJob, before: Screen, from: int, p: RowProgress)
    requires
        job.fits(e.widths, before, from),
        before.rows.len() == before.ds.geo.height,
        job.on_course(e, before, p),
        from <= p.x - p.run.count,
        !p.wrote_last,
        p.x < job.cells.len(),
    ensures
        job.on_course(e, before, job.step(p)),
        from <= job.step(p).x - job.step(p).run.count,
        job.step(p).wrote_last ==> job.step(p).x >= job.cells.len(),
        job.step(p).x > p.x,
{
    reveal(RowJob::step);
    let q = job.step(p);
    let cell = job.cells[p.x];
    assert(cell_tidy(e.widths, job.cells, p.x));
    if p.run.count == 0 && job.unchanged(p.x) {
        let s = drawn(e, p.frame);
        let row = s.rows[job.y].cells;
        assert(row[p.x] == before.rows[job.y].cells[p.x]);
        assert(before.rows[job.y].cells[p.x].looks_like(job.old[p.x]));
        if cell.wide {
            assert(cell_tidy(e.widths, job.old, p.x));
            assert(row[p.x + 1] == before.rows[job.y].cells[p.x + 1]);
            assert(before.rows[job.y].cells[p.x + 1].looks_like(job.old[p.x + 1]));
        }
        assert(cells_look(row, job.cells, 0, q.x));
    } else if job.joins(p.run, p.x) {
        assert(job.run_stands(q.run, q.x));
    } else {
        let mid = if p.run.count != 0 {
            RowProgress {
                frame: job.run_flushed(p.frame, p.run, p.x),
                run: RunView { count: 0, ..p.run },
                ..p
            }
        } else {
            p
        };
        if p.run.count != 0 {
            lemma_run_flushed(e, job, before, p);
        }
        if cell.contents.len() == 0 {
            assert(job.run_stands(q.run, q.x));
        } else {
            lemma_cell_printed(e, job, before, mid);
        }
    }
}

/// All steps keep the drawing on course, and it comes to the end of the row.
proof fn lemma_steps(e: EmulatorView, job: RowJob, before: Screen, from: int, p: RowProgress)
    requires
        job.fits(e.widths, before, from),
        before.rows.len() == before.ds.geo.height,
        job.on_course(e, before, p),
        from <= p.x - p.run.count,
    ensures
        job.on_course(e, before, job.steps(p)),
        job.steps(p).x == job.cells.len(),
    decreases job.cells.len() - p.x,
{
    if p.x < job.cells.len() {
        lemma_step(e, job, before, from, p);
        lemma_steps(e, job, before, from, job.step(p));
    }
}

/// The run that reaches the end of the row is drawn as it should look.
proof fn lemma_end_flushed(e: EmulatorView, job: RowJob, before: Screen, from: int, p: RowProgress)
    requires
        job.fits(e.widths, before, from),
        before.rows.len() == before.ds.geo.height,
        job.on_course(e, before, p),
        p.x == job.cells.len(),
    ensures
        ({
            let q = job.end_flushed(p);
            &&& follows(e, q.frame)
            &&& before.drawn_over(drawn(e, q.frame))
            &&& drawn(e, q.frame).rows.len() == before.rows.len()
            &&& forall|i: int|
                0 <= i < before.rows.len() && i != job.y ==> #[trigger] drawn(e, q.frame).rows[i]
                    == before.rows[i]
            &&& drawn(e, q.frame).rows[job.y].cells.len() == job.cells.len()
            &&& cells_look(
                drawn(e, q.frame).rows[job.y].cells,
                job.cells,
                0,
                job.cells.len() as int,
            )
            &&& if q.wrote_last {
                q.frame.x == job.cells.len() && q.frame.y == job.y && q.frame.link == last_link(
                    job.cells,
                )
            } else {
                q.frame.x < job.cells.len() || q.frame.y <= job.y
            }
        }),
{
    reveal(RowJob::end_flushed);
    let w = job.cells.len() as int;
    if p.run.count > 0 {
        lemma_run_tidy(e.widths, job, p.run, p.x);
        lemma_at_run(e, job, p.frame, p.run, p.x);
        let f = job.at_run(p.frame, p.run, p.x);
        let q = job.end_flushed(p);
        let g = q.frame;
        let start = w - p.run.count;
        if erase_usable(job.has_bce, f) && !job.wraps {
            lemma_line_erased(e, f);
        } else {
            lemma_spaces_drawn(e, f, p.run.count);
        }
        let t = drawn(e, g);
        assert forall|j: int| start <= j < w implies (#[trigger] t.rows[job.y].cells[j]).looks_like(
            job.cells[j],
        ) by {
            assert(t.rows[job.y].cells[j].looks_like(space_cell(f)));
            assert(job.cells[j].contents.len() == 0);
        }
        assert(rows_differ_in(drawn(e, p.frame), t, job.y, start, w));
        lemma_columns_drawn(e, job, before, p, g, start, w);
        assert(job.cells[w - 1].hyperlink == p.run.link);
        if p.run.count >= 2 {
            assert(job.cells[w - 2].contents.len() == 0);
            assert(cell_tidy(e.widths, job.cells, w - 2));
        }
    }
}

/// Do the cells of two rows look the same?
pub open spec fn row_looks(a: Seq<CellView>, b: Seq<CellView>) -> bool {
    a.len() == b.len() && cells_look(a, b, 0, a.len() as int)
}

proof fn lemma_row_looks_through(a: Seq<CellView>, b: Seq<CellView>, c: Seq<CellView>)
    requires
        row_looks(a, b),
        row_looks(b, c),
    ensures
        row_looks(a, c),
{
    assert forall|j: int| 0 <= j < a.len() implies (#[trigger] a[j]).looks_like(c[j]) by {
        assert(b[j].looks_like(c[j]));
    }
}

/// Does a terminal follow a frame up to the end of a row, where the next character wraps
/// to the position that the frame takes it to be at?
pub open spec fn follows_to_wrap(e: EmulatorView, f: FrameView) -> bool {
    let after = e.typed(f.out);
    let s = after.screen;
    &&& after.settled()
    &&& after.widths == e.widths
    &&& s.draws_plainly()
    &&& s.ds.renditions == f.rendition
    &&& s.ds.hyperlink == f.link
    &&& s.ds.modes.cursor_visible == f.visible
    &&& s.ds.next_print_will_wrap
    &&& s.ds.geo.cursor_col == s.ds.geo.width - 1
    &&& f.x == 0
    &&& f.y == s.ds.geo.cursor_row + 1
    &&& f.y < s.ds.geo.height
}

impl Screen {
    /// With the pending wrap carried out.
    pub open spec fn wrap_done(self) -> Screen {
        self.row_wrap_set(true).next_line()
    }
}

proof fn lemma_wrap_done(s: Screen)
    requires
        s.draws_plainly(),
        s.ds.geo.cursor_row + 1 < s.ds.geo.height,
    ensures
        ({
            let t = s.wrap_done();
            &&& t.draws_plainly()
            &&& s.drawn_over(t)
            &&& !t.ds.next_print_will_wrap
            &&& t.ds.geo.cursor_row == s.ds.geo.cursor_row + 1
            &&& t.ds.geo.cursor_col == 0
            &&& t.ds.renditions == s.ds.renditions
            &&& t.ds.hyperlink == s.ds.hyperlink
            &&& t.ds.modes == s.ds.modes
            &&& t.rows.len() == s.rows.len()
            &&& forall|i: int|
                0 <= i < s.rows.len() ==> row_looks((#[trigger] t.rows[i]).cells, s.rows[i].cells)
        }),
{
    reveal(Screen::autoscrolled);
    reveal(DrawView::row_moved);
    reveal(DrawView::col_moved);
    reveal(GeometryView::row_moved);
    reveal(GeometryView::col_moved);
    let t = s.wrap_done();
    let y = s.ds.geo.cursor_row;
    assert(s.rows[y].cells.len() == s.ds.geo.width);
    assert(t.rows == s.rows.update(y, s.rows[y].with_wrap(true)));
    assert forall|i: int| 0 <= i < s.rows.len() implies row_looks(
        (#[trigger] t.rows[i]).cells,
        s.rows[i].cells,
    ) by {
        if i == y {
            let (a, b) = (t.rows[i].cells, s.rows[i].cells);
            assert forall|j: int| 0 <= j < a.len() implies (#[trigger] a[j]).looks_like(b[j]) by {
                if j == a.len() - 1 {
                    assert(a[j] == (CellView { wrap: true, ..b[j] }));
                }
            }
        }
    }
    assert forall|i: int| 0 <= i < t.rows.len() implies (#[trigger] t.rows[i]).cells.len()
        == s.ds.geo.width by {
        assert(s.rows[i].cells.len() == s.ds.geo.width);
    }
}

/// A cluster that is printed with a wrap pending becomes the first cell of the next row.
proof fn lemma_cluster_wrapped(e: EmulatorView, g: Seq<char>, columns: int)
    requires
        e.settled(),
        e.screen.draws_plainly(),
        e.screen.ds.next_print_will_wrap,
        e.screen.ds.geo.cursor_row + 1 < e.screen.ds.geo.height,
        is_cluster(e.widths, g, columns),
        columns == 1 || columns == 2,
        columns <= e.screen.ds.geo.width,
    ensures
        e.typed(g) == (EmulatorView { screen: e.screen.wrap_done(), ..e }).typed(g),
{
    let d = EmulatorView { screen: e.screen.wrap_done(), ..e };
    let c = g[0];
    lemma_wrap_done(e.screen);
    assert(crate::typing::is_graphic(g[0]));
    lemma_print(e, c);
    lemma_print(d, c);
    reveal(Screen::printed);
    reveal(Screen::wrapped_for);
    assert(e.screen.printed(e.widths, c) == d.screen.printed(e.widths, c));
    assert(e.char_fed(c) =~= d.char_fed(c));
    lemma_typed_one(e, c);
    lemma_typed_one(d, c);
    let rest = g.drop_first();
    assert(g =~= seq![c] + rest);
    lemma_typed_concat(e, seq![c], rest);
    lemma_typed_concat(d, seq![c], rest);
}

/// The terminal after the first cell of a row was drawn by wrapping into it.
proof fn lemma_wrapped_text(e: EmulatorView, job: RowJob, f: FrameView)
    requires
        follows_to_wrap(e, f),
        f.y == job.y,
        job.cells.len() == drawn(e, f).ds.geo.width,
        is_tidy(e.widths, job.cells),
        f.link == job.cells[0].hyperlink,
    ensures
        ({
            let cell = job.cells[0];
            let g = job.wrapped_into(f);
            let s = drawn(e, f);
            let r = s.with_ds(DrawView { renditions: cell.renditions, ..s.ds });
            let d = r.wrap_done();
            &&& e.typed(f.out).shows(
                d.cell_put(d.text_cell(cell.grapheme(), cell.columns())),
                e.typed(g.out),
            )
            &&& r.draws_plainly()
            &&& d.draws_plainly()
            &&& d.ds.geo.cursor_col == 0
            &&& d.ds.geo.cursor_row == job.y
            &&& d.ds.renditions == cell.renditions
            &&& d.ds.hyperlink == cell.hyperlink
            &&& g.x == cell.columns()
            &&& g.y == job.y
            &&& g.link == cell.hyperlink
            &&& g.rendition == cell.renditions
            &&& g.visible == f.visible
            &&& cell.columns() <= job.cells.len()
        }),
{
    let cell = job.cells[0];
    assert(cell_tidy(e.widths, job.cells, 0));
    let columns = cell.columns();
    let a = e.typed(f.out);
    let r = f.rendered(cell.renditions, false);
    if f.rendition != cell.renditions {
        selected_renditions_are_read_back(a, cell.renditions);
        lemma_text(e, f, cell.renditions.sgr_text());
    }
    let b = e.typed(r.out);
    let s = a.screen;
    assert(b.screen == s.with_ds(DrawView { renditions: cell.renditions, ..s.ds }));
    assert(r.linked(cell.hyperlink, false) == r);
    let text = cell.grapheme();
    lemma_text(e, r, text);
    lemma_cluster_wrapped(b, text, columns);
    let d = EmulatorView { screen: b.screen.wrap_done(), ..b };
    lemma_wrap_done(b.screen);
    lemma_cluster_printed(d, text, columns);
}

/// The first cell of a row that the previous one wraps into is drawn as it should look.
proof fn lemma_wrapped_into(e: EmulatorView, job: RowJob, f: FrameView)
    requires
        follows_to_wrap(e, f),
        f.y == job.y,
        job.cells.len() == drawn(e, f).ds.geo.width,
        is_tidy(e.widths, job.cells),
        f.link == job.cells[0].hyperlink,
    ensures
        ({
            let g = job.wrapped_into(f);
            let (s, t) = (drawn(e, f), drawn(e, g));
            let columns = job.cells[0].columns();
            &&& follows(e, g)
            &&& s.drawn_over(t)
            &&& t.rows.len() == s.rows.len()
            &&& forall|i: int|
                0 <= i < s.rows.len() && i != job.y ==> row_looks(
                    (#[trigger] t.rows[i]).cells,
                    s.rows[i].cells,
                )
            &&& t.rows[job.y].cells.len() == s.rows[job.y].cells.len()
            &&& cells_look(t.rows[job.y].cells, job.cells, 0, columns)
            &&& cells_look(
                t.rows[job.y].cells,
                s.rows[job.y].cells,
                columns,
                job.cells.len() as int,
            )
            &&& columns <= job.cells.len()
            &&& !job.cells[columns - 1].wide
            &&& g.x == columns
            &&& g.y == job.y
        }),
{
    lemma_wrapped_text(e, job, f);
    let cell = job.cells[0];
    assert(cell_tidy(e.widths, job.cells, 0));
    let columns = cell.columns();
    let g = job.wrapped_into(f);
    let s = drawn(e, f);
    let r = s.with_ds(DrawView { renditions: cell.renditions, ..s.ds });
    let u = r.wrap_done();
    lemma_wrap_done(r);
    let made = u.text_cell(cell.grapheme(), columns);
    lemma_cell_put(u, made);
    let t = drawn(e, g);
    assert(t == u.cell_put(made));
    assert forall|i: int| 0 <= i < s.rows.len() && i != job.y implies row_looks(
        (#[trigger] t.rows[i]).cells,
        s.rows[i].cells,
    ) by {
        assert(t.rows[i] == u.rows[i]);
    }
    assert(row_looks(u.rows[job.y].cells, s.rows[job.y].cells));
    assert(cells_look(t.rows[job.y].cells, s.rows[job.y].cells, columns, job.cells.len() as int))
        by {
        assert forall|j: int| columns <= j < job.cells.len() implies (
        #[trigger] t.rows[job.y].cells[j]).looks_like(s.rows[job.y].cells[j]) by {
            assert(t.rows[job.y].cells[j] == u.rows[job.y].cells[j]);
        }
    }
    assert(cells_look(t.rows[job.y].cells, job.cells, 0, columns)) by {
        assert(t.rows[job.y].cells[0].looks_like(cell));
        if cell.wide {
            assert(t.rows[job.y].cells[1] == CellView::blank(cell.renditions.background_color));
        }
    }
}

/// What the drawing of a row comes to.
#[verifier::opaque]
pub open spec fn row_done(
    e: EmulatorView,
    job: RowJob,
    before: Screen,
    g: FrameView,
    wraps: bool,
) -> bool {
    let t = drawn(e, g);
    &&& before.drawn_over(t)
    &&& t.rows.len() == before.rows.len()
    &&& forall|i: int|
        0 <= i < before.rows.len() && i != job.y ==> row_looks(
            (#[trigger] t.rows[i]).cells,
            before.rows[i].cells,
        )
    &&& row_looks(t.rows[job.y].cells, job.cells)
    &&& if wraps {
        follows_to_wrap(e, g) && g.y == job.y + 1 && g.link == last_link(job.cells) && job.wraps
    } else {
        follows(e, g) && (g.x < job.cells.len() || g.y <= job.y)
    }
}

/// The row after it was begun: drawn by steps and flushed.
proof fn lemma_row_finished(
    e: EmulatorView,
    job: RowJob,
    first: Screen,
    p: RowProgress,
    last_row: bool,
)
    requires
        job.on_course(e, first, p),
        first.draws_plainly(),
        job.fits(e.widths, first, p.x),
        p.run.count == 0,
        last_row == (job.y == first.ds.geo.height - 1),
    ensures
        ({
            let q = job.end_flushed(job.steps(p));
            let (g, wraps) = if !q.wrote_last || last_row {
                (q.frame, false)
            } else if job.wraps {
                (q.frame.at(q.frame.y + 1, 0), true)
            } else {
                (q.frame.text("\r\n"@).at(q.frame.y + 1, 0), false)
            };
            row_done(e, job, first, g, wraps)
        }),
{
    reveal(row_done);
    lemma_steps(e, job, first, p.x, p);
    let r = job.steps(p);
    lemma_end_flushed(e, job, first, p.x, r);
    let q = job.end_flushed(r);
    let t = drawn(e, q.frame);
    assert forall|i: int| 0 <= i < first.rows.len() && i != job.y implies row_looks(
        (#[trigger] t.rows[i]).cells,
        first.rows[i].cells,
    ) by {
        assert(t.rows[i] == first.rows[i]);
    }
    if q.wrote_last && !last_row && !job.wraps {
        let a = e.typed(q.frame.out);
        reveal_strlit("\r\n");
        assert("\r\n"@ =~= seq!['\r'] + seq!['\n']);
        lemma_text(e, q.frame, "\r\n"@);
        lemma_return(a);
        lemma_typed_one(a, '\r');
        let b = a.char_fed('\r');
        lemma_line_feed(b);
        lemma_typed_one(b, '\n');
        lemma_typed_concat(a, seq!['\r'], seq!['\n']);
    }
}

/// A row is begun on course.
proof fn lemma_row_begun(e: EmulatorView, job: RowJob, f: FrameView, wrap: bool)
    requires
        drawn(e, f).draws_plainly(),
        job.fits(e.widths, drawn(e, f), 0),
        if wrap {
            follows_to_wrap(e, f) && f.y == job.y && f.link == job.cells[0].hyperlink
        } else {
            follows(e, f) && (f.x < drawn(e, f).ds.geo.width || f.y < job.y)
        },
    ensures
        ({
            let p = job.begun(f, wrap);
            let (before, first) = (drawn(e, f), drawn(e, p.frame));
            &&& first.draws_plainly()
            &&& job.fits(e.widths, first, p.x)
            &&& job.on_course(e, first, p)
            &&& before.drawn_over(first)
            &&& first.rows.len() == before.rows.len()
            &&& forall|i: int|
                0 <= i < before.rows.len() && i != job.y ==> row_looks(
                    (#[trigger] first.rows[i]).cells,
                    before.rows[i].cells,
                )
        }),
{
    let p = job.begun(f, wrap);
    let first = drawn(e, p.frame);
    let before = drawn(e, f);
    if wrap {
        lemma_wrapped_into(e, job, f);
        let columns = job.cells[0].columns();
        if job.initialized {
            assert forall|j: int| columns <= j < job.cells.len() implies (
            #[trigger] first.rows[job.y].cells[j]).looks_like(job.old[j]) by {
                assert(before.rows[job.y].cells[j].looks_like(job.old[j]));
            }
        }
    }
}

/// A row that is drawn looks like the row it was drawn for, and the others stay as they
/// look.
pub proof fn lemma_row_put(e: EmulatorView, job: RowJob, f: FrameView, wrap: bool, last_row: bool)
    requires
        drawn(e, f).draws_plainly(),
        job.fits(e.widths, drawn(e, f), 0),
        last_row == (job.y == drawn(e, f).ds.geo.height - 1),
        if wrap {
            follows_to_wrap(e, f) && f.y == job.y && f.link == job.cells[0].hyperlink
        } else {
            follows(e, f) && (f.x < drawn(e, f).ds.geo.width || f.y < job.y)
        },
    ensures
        row_done(
            e,
            job,
            drawn(e, f),
            job.row_put(f, wrap, last_row).0,
            job.row_put(f, wrap, last_row).1,
        ),
{
    let p = job.begun(f, wrap);
    let (before, first) = (drawn(e, f), drawn(e, p.frame));
    lemma_row_begun(e, job, f, wrap);
    lemma_row_finished(e, job, first, p, last_row);
    let (g, wraps) = job.row_put(f, wrap, last_row);
    let t = drawn(e, g);
    assert(row_done(e, job, first, g, wraps));
    reveal(row_done);
    assert forall|i: int| 0 <= i < before.rows.len() && i != job.y implies row_looks(
        (#[trigger] t.rows[i]).cells,
        before.rows[i].cells,
    ) by {
        assert(row_looks(first.rows[i].cells, before.rows[i].cells));
        lemma_row_looks_through(t.rows[i].cells, first.rows[i].cells, before.rows[i].cells);
    }
}

} // verus!
