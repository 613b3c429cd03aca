//! Frames: a terminal that shows one screen shows another after the frame between them.

use vstd::prelude::*;

use crate::cell::{CellView, Renditions};
use crate::display::{
    first_match, frame_scrolled, grid_put, match_end, row_job, rows_put, rows_scrolled, DisplayView,
};
use crate::dispatcher::{cursor_performed, entry_for, mode_performed, params_in, performed};
use crate::draw_state::{DrawView, GeometryView};
use crate::emulator::EmulatorView;
use crate::frame::{lemma_same_row_takes_no_steps, repeated, FrameView, RowJob};
use crate::framebuffer::{copies, rows_have_width, RowView, Screen};
use crate::likeness::{
    follows_to_wrap, is_tidy, last_link, lemma_row_put, row_done, row_looks,
};
use crate::mirror::{
    drawn, follows, lemma_line_feed_screen, lemma_linked, lemma_mode, lemma_placed, lemma_rendered,
    lemma_repeated_more, lemma_return, lemma_text, lemma_two_params, place_text,
};
use crate::row::blank_cells;
use crate::text::decimal;
use crate::typing::{csi, lemma_csi, lemma_typed_concat, lemma_typed_one, unwrapped};
use crate::widths::WidthRange;

verus! {

/// Where drawing row by row starts: behind the rows that merely scrolled.
pub open spec fn first_drawn(builds: bool, last: Screen, f: Screen) -> int {
    let shift = first_match(f.rows[0], last.rows, 0);
    if !builds || shift == 0 || shift >= last.rows.len() {
        0
    } else {
        match_end(f.rows, last.rows, shift, 1)
    }
}

/// The rows that are drawn over row by row: the old ones, scrolled if some merely scroll.
pub open spec fn rows_under(builds: bool, last: Screen, f: Screen) -> Seq<RowView> {
    let shift = first_match(f.rows[0], last.rows, 0);
    if !builds {
        f.rows
    } else if shift == 0 || shift >= last.rows.len() {
        last.rows
    } else {
        rows_scrolled(
            last.rows,
            shift,
            shift + match_end(f.rows, last.rows, shift, 1) - 1,
            RowView::blank(f.ds.geo.width as nat, 0, 0),
        )
    }
}

/// Is the row left alone: it is the same as before, and no text runs on into it?
pub open spec fn left_alone(
    builds: bool,
    rows: Seq<RowView>,
    old: Seq<RowView>,
    first: int,
    y: int,
) -> bool {
    builds && rows[y].cells == old[y].cells && !(y > first && rows[y - 1].wraps())
}

/// Can the row `y` be drawn if it is not left alone? Text that runs on into it from the row
/// before has to stay in its link, since a link that changes there cancels the wrap.
pub open spec fn row_drawable(
    widths: Seq<WidthRange>,
    builds: bool,
    rows: Seq<RowView>,
    old: Seq<RowView>,
    first: int,
    y: int,
) -> bool {
    left_alone(builds, rows, old, first, y) || {
        &&& is_tidy(widths, rows[y].cells)
        &&& builds ==> is_tidy(widths, old[y].cells)
        &&& y > first && rows[y - 1].wraps() && !left_alone(builds, rows, old, first, y - 1)
            ==> rows[y].cells[0].hyperlink == last_link(rows[y - 1].cells)
    }
}

/// Can every row from `first` on be drawn that is not left alone?
pub open spec fn rows_drawable(
    widths: Seq<WidthRange>,
    builds: bool,
    rows: Seq<RowView>,
    old: Seq<RowView>,
    first: int,
) -> bool {
    forall|y: int|
        first <= y < rows.len() ==> #[trigger] row_drawable(widths, builds, rows, old, first, y)
}

/// Can the grid be drawn on a terminal that takes characters to be this wide?
pub open spec fn grid_drawable(
    widths: Seq<WidthRange>,
    builds: bool,
    last: Screen,
    f: Screen,
) -> bool {
    rows_drawable(
        widths,
        builds,
        f.rows,
        rows_under(builds, last, f),
        first_drawn(builds, last, f),
    )
}

/// Do the rows from one up to another look like those of another screen?
pub open spec fn rows_look(a: Seq<RowView>, b: Seq<RowView>, from: int, to: int) -> bool {
    forall|i: int| from <= i < to ==> row_looks((#[trigger] a[i]).cells, b[i].cells)
}

/// May the row `y` be drawn next?
spec fn ready_for_row(
    e: EmulatorView,
    builds: bool,
    f: Screen,
    old: Seq<RowView>,
    first: int,
    frame: FrameView,
    y: int,
    wrap: bool,
) -> bool {
    if wrap {
        &&& first < y < f.rows.len()
        &&& !left_alone(builds, f.rows, old, first, y - 1)
        &&& follows_to_wrap(e, frame)
        &&& frame.y == y
        &&& frame.link == last_link(f.rows[y - 1].cells)
        &&& f.rows[y - 1].wraps()
    } else {
        follows(e, frame) && (frame.x < f.ds.geo.width || frame.y < y)
    }
}

/// Is this a screen of the same size that draws plainly?
pub open spec fn rows_fit(f: Screen, s: Screen) -> bool {
    &&& f.valid()
    &&& s.draws_plainly()
    &&& s.ds.geo.width == f.ds.geo.width
    &&& s.ds.geo.height == f.ds.geo.height
}

/// Does the screen show the old rows from row `y` on?
pub open spec fn shows_old(builds: bool, s: Screen, old: Seq<RowView>, y: int) -> bool {
    builds ==> old.len() == s.rows.len() && rows_have_width(old, s.ds.geo.width) && rows_look(
        s.rows,
        old,
        y,
        old.len() as int,
    )
}

/// Rows that are drawn look like those they were drawn for.
proof fn lemma_rows_put(
    e: EmulatorView,
    d: DisplayView,
    builds: bool,
    f: Screen,
    old: Seq<RowView>,
    first: int,
    frame: FrameView,
    y: int,
    wrap: bool,
)
    requires
        rows_fit(f, drawn(e, frame)),
        0 <= first <= y <= f.rows.len(),
        rows_drawable(e.widths, builds, f.rows, old, first),
        rows_look(drawn(e, frame).rows, f.rows, 0, y),
        shows_old(builds, drawn(e, frame), old, y),
        ready_for_row(e, builds, f, old, first, frame, y, wrap),
    ensures
        ({
            let g = rows_put(d, builds, f, old, frame, y, wrap);
            let t = drawn(e, g);
            &&& follows(e, g)
            &&& drawn(e, frame).drawn_over(t)
            &&& t.rows.len() == f.rows.len()
            &&& rows_look(t.rows, f.rows, 0, f.rows.len() as int)
        }),
    decreases f.rows.len() - y,
{
    let s = drawn(e, frame);
    if y < f.rows.len() && left_alone(builds, f.rows, old, first, y) {
        let job = row_job(d, builds, f, old, y);
        reveal(RowJob::end_flushed);
        lemma_same_row_takes_no_steps(job, job.begun(frame, false));
        assert(row_looks(s.rows[y].cells, old[y].cells));
        lemma_rows_put(e, d, builds, f, old, first, frame, y + 1, false);
    } else if y < f.rows.len() {
        assert(row_drawable(e.widths, builds, f.rows, old, first, y));
        let job = row_job(d, builds, f, old, y);
        let last_row = y >= f.rows.len() - 1;
        assert(f.rows[y].cells.len() == f.ds.geo.width);
        assert(s.rows[y].cells.len() == s.ds.geo.width);
        assert(is_tidy(e.widths, f.rows[y].cells));
        if builds {
            assert(old[y].cells.len() == s.ds.geo.width);
            assert(is_tidy(e.widths, old[y].cells));
            assert(row_looks(s.rows[y].cells, old[y].cells));
        }
        assert(job.fits(e.widths, s, 0));
        if wrap {
            assert(f.rows[y - 1].wraps());
        }
        lemma_row_put(e, job, frame, wrap, last_row);
        let (g, wraps) = job.row_put(frame, wrap, last_row);
        reveal(row_done);
        let t = drawn(e, g);
        assert(rows_look(t.rows, f.rows, 0, y + 1)) by {
            assert forall|i: int| 0 <= i < y + 1 implies row_looks(
                (#[trigger] t.rows[i]).cells,
                f.rows[i].cells,
            ) by {
                if i < y {
                    assert(row_looks(s.rows[i].cells, f.rows[i].cells));
                    lemma_looks_through(t.rows[i].cells, s.rows[i].cells, f.rows[i].cells);
                }
            }
        }
        if builds {
            assert forall|i: int| y + 1 <= i < old.len() implies row_looks(
                (#[trigger] t.rows[i]).cells,
                old[i].cells,
            ) by {
                assert(row_looks(s.rows[i].cells, old[i].cells));
                lemma_looks_through(t.rows[i].cells, s.rows[i].cells, old[i].cells);
            }
        }
        lemma_rows_put(e, d, builds, f, old, first, g, y + 1, wraps);
    }
}

proof fn lemma_looks_through(a: Seq<CellView>, b: Seq<CellView>, c: Seq<CellView>)
    requires
        row_looks(a, b),
        row_looks(b, c),
    ensures
        row_looks(a, c),
{
    assert forall|j: int| 0 <= j < a.len() implies (#[trigger] a[j]).looks_like(c[j]) by {
        assert(b[j].looks_like(c[j]));
    }
}

/// Are these the rows of `s` with those down to `bottom` moved up by `n`, and empty ones
/// below them?
pub open spec fn scrolled_up(s: Seq<RowView>, t: Seq<RowView>, bottom: int, n: int, width: nat) -> bool {
    &&& t.len() == s.len()
    &&& forall|i: int|
        0 <= i < s.len() ==> #[trigger] t[i].cells == if i > bottom {
            s[i].cells
        } else if i + n <= bottom {
            s[i + n].cells
        } else {
            blank_cells(width, 0)
        }
}

/// A line feed at the bottom of the region scrolls it.
proof fn lemma_scrolling_feed(e: EmulatorView)
    requires
        e.settled(),
        e.screen.valid(),
        !e.screen.ds.origin_mode,
        e.screen.ds.geo.region_top == 0,
        e.screen.ds.geo.region_bottom >= 1,
        e.screen.ds.geo.cursor_row == e.screen.ds.geo.region_bottom,
        e.screen.background() == 0,
    ensures
        ({
            let s = e.screen;
            let t = e.char_fed('\n').screen;
            &&& e.shows(t, e.char_fed('\n'))
            &&& t.valid()
            &&& s.drawn_over(t)
            &&& t.ds.renditions == s.ds.renditions
            &&& t.ds.hyperlink == s.ds.hyperlink
            &&& t.ds.modes == s.ds.modes
            &&& !t.ds.next_print_will_wrap
            &&& t.ds.geo.cursor_row == s.ds.geo.cursor_row
            &&& t.ds.geo.cursor_col == s.ds.geo.cursor_col
            &&& scrolled_up(
                s.rows,
                t.rows,
                s.ds.geo.region_bottom,
                1,
                s.ds.geo.width as nat,
            )
        }),
{
    lemma_line_feed_screen(e);
    reveal(Screen::autoscrolled);
    reveal(Screen::lines_deleted);
    reveal(DrawView::row_moved);
    reveal(GeometryView::row_moved);
    let s = unwrapped(e.screen);
    let t = e.char_fed('\n').screen;
    let b = s.ds.geo.region_bottom;
    assert(s.scroll_needed(1) == 1);
    assert(s.lines_moved(0, 1) == 1);
    let expected = s.rows.subrange(0, 0) + s.rows.subrange(1, b + 1) + copies(s.new_row(), 1)
        + s.rows.subrange(b + 1, s.rows.len() as int);
    assert(t.rows == expected);
    assert forall|i: int| 0 <= i < t.rows.len() implies (#[trigger] t.rows[i]).cells.len()
        == s.ds.geo.width by {
        if i < b {
            assert(t.rows[i] == s.rows[i + 1]);
        } else if i > b {
            assert(t.rows[i] == s.rows[i]);
        }
    }
}

/// Line feeds at the bottom of the region scroll it.
proof fn lemma_scrolling_feeds(e: EmulatorView, n: int)
    requires
        e.settled(),
        e.screen.valid(),
        !e.screen.ds.origin_mode,
        e.screen.ds.geo.region_top == 0,
        e.screen.ds.geo.region_bottom >= 1,
        e.screen.ds.geo.cursor_row == e.screen.ds.geo.region_bottom,
        e.screen.background() == 0,
        0 < n <= e.screen.ds.geo.region_bottom,
    ensures
        ({
            let s = e.screen;
            let t = e.typed(repeated('\n', n)).screen;
            &&& e.shows(t, e.typed(repeated('\n', n)))
            &&& t.valid()
            &&& s.drawn_over(t)
            &&& t.ds.renditions == s.ds.renditions
            &&& t.ds.hyperlink == s.ds.hyperlink
            &&& t.ds.modes == s.ds.modes
            &&& !t.ds.next_print_will_wrap
            &&& t.ds.geo.cursor_row == s.ds.geo.cursor_row
            &&& t.ds.geo.cursor_col == s.ds.geo.cursor_col
            &&& scrolled_up(
                s.rows,
                t.rows,
                s.ds.geo.region_bottom,
                n,
                s.ds.geo.width as nat,
            )
        }),
    decreases n,
{
    lemma_repeated_more('\n', n - 1);
    if n == 1 {
        assert(repeated('\n', 0) =~= Seq::empty());
        assert(e.typed(repeated('\n', 0)) == e);
        lemma_scrolling_feed(e);
    } else {
        lemma_scrolling_feeds(e, n - 1);
        let m = e.typed(repeated('\n', n - 1));
        lemma_scrolling_feed(m);
        let (s, u, t) = (e.screen, m.screen, m.char_fed('\n').screen);
        let b = s.ds.geo.region_bottom;
        assert forall|i: int| 0 <= i < s.rows.len() implies #[trigger] t.rows[i].cells == if i > b {
            s.rows[i].cells
        } else if i + n <= b {
            s.rows[i + n].cells
        } else {
            blank_cells(s.ds.geo.width as nat, 0)
        } by {
            if i > b {
                assert(u.rows[i].cells == s.rows[i].cells);
            } else if i + 1 <= b {
                assert(t.rows[i].cells == u.rows[i + 1].cells);
            }
        }
    }
}

impl Screen {
    /// With the scrolling region set from the top down to `bottom`, and the cursor in the
    /// corner.
    pub open spec fn region_down_to(self, bottom: int) -> Screen {
        let s = self.with_ds(
            DrawView {
                geo: GeometryView { region_top: 0, region_bottom: bottom, ..self.ds.geo },
                ..self.ds
            },
        );
        s.cursor_at(0, 0)
    }
}

proof fn lemma_margins(e: EmulatorView, bottom: int)
    requires
        e.settled(),
        e.screen.draws_plainly(),
        1 <= bottom < e.screen.ds.geo.height,
    ensures
        e.shows(
            e.screen.region_down_to(bottom),
            e.typed("\x1b[1;"@ + decimal((bottom + 1) as nat) + "r"@),
        ),
{
    reveal_strlit("\x1b[1;");
    reveal_strlit("r");
    reveal_strlit(";");
    let n = (bottom + 1) as nat;
    let params = decimal(1) + ";"@ + decimal(n);
    lemma_two_params(1, n);
    assert(decimal(1) =~= seq!['1']);
    assert("\x1b[1;"@ + decimal(n) + "r"@ =~= csi(params, 'r'));
    lemma_csi(e, params, 'r');
    reveal(entry_for);
    reveal(performed);
    reveal(cursor_performed);
    reveal(mode_performed);
    reveal(Screen::margins_set);
    reveal(DrawView::region_set);
    reveal(GeometryView::region_set);
    reveal(DrawView::row_moved);
    reveal(DrawView::col_moved);
    reveal(GeometryView::row_moved);
    reveal(GeometryView::col_moved);
}

/// The command that resets the scrolling region makes the whole window scroll.
pub proof fn lemma_margins_reset(e: EmulatorView)
    requires
        e.settled(),
        e.screen.valid(),
        !e.screen.ds.origin_mode,
        e.screen.ds.geo.region_top == 0,
        e.screen.ds.geo.height == 1 ==> e.screen.ds.geo.region_bottom == 0,
    ensures
        ({
            let (s, t) = (e.screen, e.typed("\x1b[r"@).screen);
            &&& e.shows(t, e.typed("\x1b[r"@))
            &&& if s.ds.geo.height > 1 {
                t == s.region_down_to(s.ds.geo.height - 1)
            } else {
                t == unwrapped(s)
            }
        }),
{
    reveal_strlit("\x1b[r");
    assert("\x1b[r"@ =~= csi(Seq::empty(), 'r'));
    lemma_csi(e, Seq::empty(), 'r');
    assert(params_in(Seq::empty()) =~= seq![-1int]);
    reveal(entry_for);
    reveal(performed);
    reveal(cursor_performed);
    reveal(mode_performed);
    reveal(Screen::margins_set);
    reveal(DrawView::region_set);
    reveal(GeometryView::region_set);
    reveal(DrawView::row_moved);
    reveal(DrawView::col_moved);
    reveal(GeometryView::row_moved);
    reveal(GeometryView::col_moved);
}

/// The text that scrolls the lines down to `bottom` by way of a region, with the cursor
/// hidden if it is visible.
spec fn region_scroll_text(visible: bool, bottom: int, shift: int) -> Seq<char> {
    ("\x1b[1;"@ + decimal((bottom + 1) as nat) + "r"@) + (if visible {
        "\x1b[?25l"@
    } else {
        Seq::empty()
    }) + place_text(bottom, 0) + repeated('\n', shift) + "\x1b[r"@
}

proof fn lemma_hidden(e: EmulatorView, visible: bool)
    requires
        e.settled(),
        e.screen.ds.modes.cursor_visible == visible,
    ensures
        e.shows(
            e.screen.with_ds(
                DrawView {
                    modes: crate::draw_state::Modes { cursor_visible: false, ..e.screen.ds.modes },
                    ..e.screen.ds
                },
            ),
            e.typed(
                if visible {
                    "\x1b[?25l"@
                } else {
                    Seq::empty()
                },
            ),
        ),
{
    if visible {
        crate::mirror::lemma_hide_text();
        lemma_mode(e, 25, false);
        reveal(Screen::private_mode_set);
        reveal(DrawView::flag_switched);
    }
}

proof fn lemma_region_scrolled(e: EmulatorView, bottom: int, shift: int)
    requires
        e.settled(),
        e.screen.draws_plainly(),
        e.screen.background() == 0,
        0 < shift <= bottom < e.screen.ds.geo.height,
    ensures
        ({
            let text = region_scroll_text(e.screen.ds.modes.cursor_visible, bottom, shift);
            let (s, t) = (e.screen, e.typed(text).screen);
            &&& e.shows(t, e.typed(text))
            &&& t.draws_plainly()
            &&& s.drawn_over(t)
            &&& t.ds.renditions == s.ds.renditions
            &&& t.ds.hyperlink == s.ds.hyperlink
            &&& !t.ds.modes.cursor_visible
            &&& scrolled_up(s.rows, t.rows, bottom, shift, s.ds.geo.width as nat)
        }),
{
    let visible = e.screen.ds.modes.cursor_visible;
    let t1 = "\x1b[1;"@ + decimal((bottom + 1) as nat) + "r"@;
    let t2 = if visible {
        "\x1b[?25l"@
    } else {
        Seq::empty()
    };
    lemma_margins(e, bottom);
    let a = e.typed(t1);
    lemma_hidden(a, visible);
    let b = a.typed(t2);
    lemma_typed_concat(e, t1, t2);
    lemma_placed(b, bottom, 0);
    let c = b.typed(place_text(bottom, 0));
    lemma_typed_concat(e, t1 + t2, place_text(bottom, 0));
    assert(c.screen.rows == e.screen.rows);
    lemma_scrolling_feeds(c, shift);
    let d = c.typed(repeated('\n', shift));
    lemma_typed_concat(e, t1 + t2 + place_text(bottom, 0), repeated('\n', shift));
    lemma_margins_reset(d);
    lemma_typed_concat(
        e,
        t1 + t2 + place_text(bottom, 0) + repeated('\n', shift),
        "\x1b[r"@,
    );
}

/// Lines that are scrolled move up, and empty ones come in below them.
proof fn lemma_frame_scrolled(
    e: EmulatorView,
    frame: FrameView,
    shift: int,
    bottom: int,
    height: int,
)
    requires
        follows(e, frame),
        0 <= frame.x < drawn(e, frame).ds.geo.width,
        height == drawn(e, frame).ds.geo.height,
        0 < shift <= bottom < height,
    ensures
        ({
            let g = frame_scrolled(frame, shift, bottom, height);
            let (s, t) = (drawn(e, frame), drawn(e, g));
            &&& follows(e, g)
            &&& g.x < s.ds.geo.width
            &&& s.drawn_over(t)
            &&& scrolled_up(s.rows, t.rows, bottom, shift, s.ds.geo.width as nat)
        }),
{
    reveal(frame_scrolled);
    let plain = Renditions::plain(0);
    let f1 = frame.rendered(plain, true);
    lemma_rendered(e, frame, plain, true);
    let f = f1.linked(None, true);
    lemma_linked(e, f1, None, true);
    let a = e.typed(f.out);
    let g = frame_scrolled(frame, shift, bottom, height);
    if bottom + 1 == height && f.y + 1 == height {
        lemma_return(a);
        lemma_typed_one(a, '\r');
        let b = a.char_fed('\r');
        lemma_scrolling_feeds(b, shift);
        lemma_text(e, f, seq!['\r']);
        lemma_text(e, f.text(seq!['\r']), repeated('\n', shift));
    } else {
        reveal(FrameView::silently_moved);
        reveal(FrameView::moved);
        let text = region_scroll_text(f.visible, bottom, shift);
        lemma_region_scrolled(a, bottom, shift);
        assert(g.out =~= f.out + text);
        lemma_text(e, f, text);
    }
}

/// The grid that is drawn looks like the one it was drawn for.
pub proof fn lemma_grid_put(e: EmulatorView, d: DisplayView, builds: bool, last: Screen, f: Screen, frame: FrameView)
    requires
        follows(e, frame),
        0 <= frame.x < drawn(e, frame).ds.geo.width,
        rows_fit(f, drawn(e, frame)),
        shows_old(builds, drawn(e, frame), last.rows, 0),
        grid_drawable(e.widths, builds, last, f),
    ensures
        ({
            let g = grid_put(d, builds, last, f, frame);
            let (s, t) = (drawn(e, frame), drawn(e, g));
            &&& follows(e, g)
            &&& s.drawn_over(t)
            &&& t.rows.len() == f.rows.len()
            &&& rows_look(t.rows, f.rows, 0, f.rows.len() as int)
        }),
{
    reveal(grid_put);
    let s = drawn(e, frame);
    if !builds {
        lemma_rows_put(e, d, false, f, f.rows, 0, frame, 0, false);
    } else {
        let shift = first_match(f.rows[0], last.rows, 0);
        lemma_first_match(f.rows[0], last.rows, 0);
        if shift == 0 || shift >= last.rows.len() {
            lemma_rows_put(e, d, true, f, last.rows, 0, frame, 0, false);
        } else {
            let kept = match_end(f.rows, last.rows, shift, 1);
            lemma_match_end(f.rows, last.rows, shift, 1);
            let bottom = shift + kept - 1;
            let w = f.ds.geo.width as nat;
            let blank = RowView::blank(w, 0, 0);
            let old = rows_scrolled(last.rows, shift, bottom, blank);
            let g = frame_scrolled(frame, shift, bottom, f.ds.geo.height);
            lemma_frame_scrolled(e, frame, shift, bottom, f.ds.geo.height);
            let t = drawn(e, g);
            lemma_scrolled_rows_look(s, t, last.rows, shift, bottom, old, blank);
            assert(rows_look(t.rows, f.rows, 0, kept)) by {
                assert forall|i: int| 0 <= i < kept implies row_looks(
                    (#[trigger] t.rows[i]).cells,
                    f.rows[i].cells,
                ) by {
                    assert(row_looks(t.rows[i].cells, old[i].cells));
                    assert(old[i] == last.rows[i + shift]);
                    assert(f.rows[i] == last.rows[i + shift]);
                }
            }
            lemma_rows_put(e, d, true, f, old, kept, g, kept, false);
        }
    }
}

proof fn lemma_first_match(row: RowView, old: Seq<RowView>, from: int)
    requires
        0 <= from <= old.len(),
    ensures
        from <= first_match(row, old, from) <= old.len(),
        first_match(row, old, from) < old.len() ==> old[first_match(row, old, from)] == row,
    decreases old.len() - from,
{
    if from < old.len() && old[from] != row {
        lemma_first_match(row, old, from + 1);
    }
}

proof fn lemma_match_end(new: Seq<RowView>, old: Seq<RowView>, shift: int, k: int)
    requires
        0 <= k,
        0 < shift < old.len(),
        k + shift <= old.len(),
        new.len() == old.len(),
        forall|i: int| 0 <= i < k ==> #[trigger] new[i] == old[i + shift],
    ensures
        k <= match_end(new, old, shift, k),
        match_end(new, old, shift, k) + shift <= old.len(),
        forall|i: int|
            0 <= i < match_end(new, old, shift, k) ==> #[trigger] new[i] == old[i + shift],
    decreases old.len() - k,
{
    if k + shift < old.len() && new[k] == old[k + shift] {
        lemma_match_end(new, old, shift, k + 1);
    }
}

/// A screen that was scrolled shows the old rows scrolled.
proof fn lemma_scrolled_rows_look(
    s: Screen,
    t: Screen,
    last: Seq<RowView>,
    shift: int,
    bottom: int,
    old: Seq<RowView>,
    blank: RowView,
)
    requires
        s.valid(),
        s.drawn_over(t),
        shows_old(true, s, last, 0),
        scrolled_up(s.rows, t.rows, bottom, shift, s.ds.geo.width as nat),
        0 < shift <= bottom < last.len(),
        old == rows_scrolled(last, shift, bottom, blank),
        blank == RowView::blank(s.ds.geo.width as nat, 0, 0),
    ensures
        shows_old(true, t, old, 0),
{
    assert forall|i: int| 0 <= i < old.len() implies row_looks(
        (#[trigger] t.rows[i]).cells,
        old[i].cells,
    ) && old[i].cells.len() == t.ds.geo.width by {
        if i > bottom {
            assert(row_looks(s.rows[i].cells, last[i].cells));
            assert(last[i].cells.len() == s.ds.geo.width);
        } else if i + shift <= bottom {
            assert(row_looks(s.rows[i + shift].cells, last[i + shift].cells));
            assert(last[i + shift].cells.len() == s.ds.geo.width);
        }
    }
    assert forall|i: int| 0 <= i < old.len() implies (#[trigger] old[i]).cells.len()
        == t.ds.geo.width by {
        assert(row_looks(t.rows[i].cells, old[i].cells));
    }
}

} // verus!
