//! Turning a screen into the bytes that draw it.
//!
//! Every character here reaches the user's real terminal, including which shortcut is
//! chosen for a given cursor move.

use std::rc::Rc;

use vstd::prelude::*;
use vstd::string::*;

pub use crate::frame::FrameState;

use crate::cell::{same_allocation, share, Cell, Hyperlink, Renditions};
use crate::draw_state::{MouseEncodingMode, MouseReportingMode, MAX_DIMENSION};
use crate::frame::{
    erase_usable, lemma_same_row_takes_no_steps, repeated, BlankRun, FrameView, RowJob, RowProgress,
};
use crate::framebuffer::{Framebuffer, Row, RowView, Screen};
use crate::text::{chars_eq, decimal};
use crate::views::{group_views, views};

verus! {

broadcast use group_views;

/// What the display knows about the terminal it writes to.
pub struct DisplayView {
    pub has_ech: bool,
    pub has_bce: bool,
    pub has_title: bool,
    pub smcup: Seq<char>,
    pub rmcup: Seq<char>,
}

/// What a terminal says about itself.
pub struct Capabilities {
    /// The terminal can erase a run of characters.
    pub ech: bool,
    /// Erases fill the cell with the background colour.
    pub bce: bool,
    /// The terminal's type, if it is known.
    pub term: Option<String>,
    /// The string that enters the alternate screen, if there is one to be used.
    pub smcup: Option<String>,
    /// The string that leaves the alternate screen, if there is one to be used.
    pub rmcup: Option<String>,
}

/// Does `s` begin with `prefix`?
pub open spec fn begins_with(s: Seq<char>, prefix: Seq<char>) -> bool {
    prefix.len() <= s.len() && s.subrange(0, prefix.len() as int) == prefix
}

/// Is this a terminal type known to support window titles? There is no reliable
/// capability for them.
pub open spec fn titled_term(term: Seq<char>) -> bool {
    begins_with(term, "xterm"@) || begins_with(term, "rxvt"@) || begins_with(term, "kterm"@)
        || begins_with(term, "Eterm"@) || begins_with(term, "alacritty"@) || begins_with(
        term,
        "screen"@,
    ) || begins_with(term, "tmux"@)
}

fn starts_with(s: &[char], prefix: &str) -> (r: bool)
    ensures
        r == begins_with(s@, prefix@),
{
    let p = crate::text::chars_of(prefix);
    if p.len() > s.len() {
        return false;
    }
    let mut i: usize = 0;
    while i < p.len()
        invariant
            i <= p.len() <= s.len(),
            p@ == prefix@,
            forall|k: int| 0 <= k < i ==> s@[k] == p@[k],
        decreases p.len() - i,
    {
        if s[i] != p[i] {
            assert(s@.subrange(0, p@.len() as int)[i as int] != p@[i as int]);
            return false;
        }
        i = i + 1;
    }
    assert(s@.subrange(0, p@.len() as int) =~= p@);
    true
}

fn is_titled_term(term: &str) -> (r: bool)
    ensures
        r == titled_term(term@),
{
    let t = crate::text::chars_of(term);
    let s = t.as_slice();
    starts_with(s, "xterm") || starts_with(s, "rxvt") || starts_with(s, "kterm") || starts_with(
        s,
        "Eterm",
    ) || starts_with(s, "alacritty") || starts_with(s, "screen") || starts_with(s, "tmux")
}

/// The text of an optional string.
pub open spec fn optional_text(s: Option<String>) -> Seq<char> {
    match s {
        Some(x) => x@,
        None => Seq::empty(),
    }
}

/// Is row 0 of `new` the row of `old` at `from` or after, and where? Their number if it
/// is not there.
pub open spec fn first_match(row: RowView, old: Seq<RowView>, from: int) -> int
    decreases old.len() - from,
{
    if from < 0 || from >= old.len() {
        old.len() as int
    } else if old[from] == row {
        from
    } else {
        first_match(row, old, from + 1)
    }
}

/// The first row from `k` on where `new` is not `old` moved up by `shift`.
pub open spec fn match_end(new: Seq<RowView>, old: Seq<RowView>, shift: int, k: int) -> int
    decreases old.len() - k,
{
    if k < 0 || shift < 0 || k + shift >= old.len() || k >= new.len() || new[k] != old[k + shift] {
        k
    } else {
        match_end(new, old, shift, k + 1)
    }
}

/// The old rows after the top `bottom + 1` of them moved up by `shift`.
pub open spec fn rows_scrolled(
    old: Seq<RowView>,
    shift: int,
    bottom: int,
    blank: RowView,
) -> Seq<RowView> {
    Seq::new(
        old.len(),
        |i: int|
            if i > bottom {
                old[i]
            } else if i + shift <= bottom {
                old[i + shift]
            } else {
                blank
            },
    )
}

/// The text that switches a DEC private mode.
pub open spec fn mode_text(on: bool, set: Seq<char>, unset: Seq<char>) -> Seq<char> {
    if on {
        set
    } else {
        unset
    }
}

/// The text that sets the icon name and window title of `f`.
pub open spec fn title_text(f: Screen) -> Seq<char> {
    if f.icon_name == f.window_title {
        "\x1b]0;"@ + f.window_title + seq!['\u{7}']
    } else {
        "\x1b]1;"@ + f.icon_name + seq!['\u{7}'] + "\x1b]2;"@ + f.window_title + seq!['\u{7}']
    }
}

/// Must the titles be sent?
pub open spec fn titles_changed(initialized: bool, last: Screen, f: Screen) -> bool {
    f.title_initialized && (!initialized || f.icon_name != last.icon_name || f.window_title
        != last.window_title)
}

impl FrameView {
    /// With more text, when there is reason for it.
    pub open spec fn text_if(self, cond: bool, s: Seq<char>) -> FrameView {
        if cond {
            self.text(s)
        } else {
            self
        }
    }
}

/// The frame with what is not on the grid: bell, titles, clipboard, colour queries and
/// reverse video. Clipboard and queries are events: a terminal that is being attached or
/// repainted does not get them again.
#[verifier::opaque]
pub open spec fn frame_prologue(
    d: DisplayView,
    initialized: bool,
    last: Screen,
    f: Screen,
    frame: FrameView,
) -> FrameView {
    frame.text_if(f.bell_count != last.bell_count, seq!['\u{7}']).text_if(
        d.has_title && titles_changed(initialized, last, f),
        title_text(f),
    ).text_if(
        initialized && f.clipboard_seq != last.clipboard_seq,
        "\x1b]52;"@ + f.clipboard + seq!['\u{7}'],
    ).text_if(initialized && f.color_query_seq != last.color_query_seq, f.color_queries).text_if(
        !initialized || f.ds.modes.reverse_video != last.ds.modes.reverse_video,
        mode_text(f.ds.modes.reverse_video, "\x1b[?5h"@, "\x1b[?5l"@),
    )
}

/// Can the frame build on what the terminal shows?
pub open spec fn frame_builds_on(initialized: bool, last: Screen, f: Screen) -> bool {
    initialized && f.ds.geo.width == last.ds.geo.width && f.ds.geo.height == last.ds.geo.height
}

/// The frame placed where the terminal is, or after the screen was cleared.
#[verifier::opaque]
pub open spec fn frame_placed(builds: bool, last: Screen, frame: FrameView) -> FrameView {
    if builds {
        FrameView {
            x: last.ds.geo.cursor_col,
            y: last.ds.geo.cursor_row,
            rendition: last.ds.renditions,
            link: last.ds.hyperlink,
            ..frame
        }
    } else {
        FrameView {
            x: 0,
            y: 0,
            rendition: Renditions::plain(0),
            link: None,
            visible: false,
            ..frame.text("\x1b[r"@).text("\x1b[0m\x1b[H\x1b[2J"@).text("\x1b[?25l"@)
        }
    }
}

/// The frame after the top lines were scrolled up by `shift`, down to row `bottom`.
#[verifier::opaque]
pub open spec fn frame_scrolled(
    frame: FrameView,
    shift: int,
    bottom: int,
    height: int,
) -> FrameView {
    let f = frame.rendered(Renditions::plain(0), true).linked(None, true);
    if bottom + 1 == height && f.y + 1 == height {
        let g = f.text(seq!['\r']).text(repeated('\n', shift));
        g.at(g.y, 0)
    } else {
        f.text("\x1b[1;"@).text(decimal((bottom + 1) as nat)).text("r"@).at(-1, -1).silently_moved(
            bottom,
            0,
        ).text(repeated('\n', shift)).text("\x1b[r"@).at(-1, -1)
    }
}

/// The rows from `y` on drawn over the old ones.
pub open spec fn rows_put(
    d: DisplayView,
    builds: bool,
    f: Screen,
    old: Seq<RowView>,
    frame: FrameView,
    y: int,
    wrap: bool,
) -> FrameView
    decreases f.rows.len() - y,
{
    if y < 0 || y >= f.rows.len() {
        frame
    } else {
        let (next, wraps) = row_job(d, builds, f, old, y).row_put(
            frame,
            wrap,
            y >= f.rows.len() - 1,
        );
        rows_put(d, builds, f, old, next, y + 1, wraps)
    }
}

/// The drawing of row `y`.
pub open spec fn row_job(
    d: DisplayView,
    builds: bool,
    f: Screen,
    old: Seq<RowView>,
    y: int,
) -> RowJob {
    RowJob {
        has_ech: d.has_ech,
        has_bce: d.has_bce,
        initialized: builds,
        wraps: f.rows[y].wraps(),
        y,
        cells: f.rows[y].cells,
        old: old[y].cells,
    }
}

/// The grid drawn: by moving lines that merely scrolled, then row by row.
#[verifier::opaque]
pub open spec fn grid_put(
    d: DisplayView,
    builds: bool,
    last: Screen,
    f: Screen,
    frame: FrameView,
) -> FrameView {
    if !builds {
        rows_put(d, false, f, f.rows, frame, 0, false)
    } else {
        let shift = first_match(f.rows[0], last.rows, 0);
        if shift == 0 || shift >= last.rows.len() {
            rows_put(d, true, f, last.rows, frame, 0, false)
        } else {
            let kept = match_end(f.rows, last.rows, shift, 1);
            let bottom = shift + kept - 1;
            let blank = RowView::blank(f.ds.geo.width as nat, 0, 0);
            rows_put(
                d,
                true,
                f,
                rows_scrolled(last.rows, shift, bottom, blank),
                frame_scrolled(frame, shift, bottom, f.ds.geo.height),
                kept,
                false,
            )
        }
    }
}

/// The text that changes the kind of mouse reports.
pub open spec fn mouse_reporting_text(last: Screen, f: Screen) -> Seq<char> {
    if f.ds.mouse.reporting_mode == MouseReportingMode::Off {
        "\x1b[?1003l\x1b[?1002l\x1b[?1001l\x1b[?1000l"@
    } else {
        (if last.ds.mouse.reporting_mode != MouseReportingMode::Off {
            "\x1b[?"@ + decimal(last.ds.mouse.reporting_mode.mode_number() as nat) + "l"@
        } else {
            Seq::empty()
        }) + "\x1b[?"@ + decimal(f.ds.mouse.reporting_mode.mode_number() as nat) + "h"@
    }
}

/// The text that changes how mouse reports are encoded.
pub open spec fn mouse_encoding_text(last: Screen, f: Screen) -> Seq<char> {
    if f.ds.mouse.encoding_mode == MouseEncodingMode::Default {
        "\x1b[?1015l\x1b[?1006l\x1b[?1005l"@
    } else {
        (if last.ds.mouse.encoding_mode != MouseEncodingMode::Default {
            "\x1b[?"@ + decimal(last.ds.mouse.encoding_mode.mode_number() as nat) + "l"@
        } else {
            Seq::empty()
        }) + "\x1b[?"@ + decimal(f.ds.mouse.encoding_mode.mode_number() as nat) + "h"@
    }
}

/// The frame with the cursor put in its place and its renditions and visibility set.
#[verifier::opaque]
pub open spec fn cursor_settled(builds: bool, f: Screen, frame: FrameView) -> FrameView {
    let geo = f.ds.geo;
    let moved = if !builds || geo.cursor_row != frame.y || geo.cursor_col != frame.x {
        frame.moved(geo.cursor_row, geo.cursor_col)
    } else {
        frame
    };
    moved.text_if(
        !builds || f.ds.modes.cursor_visible != moved.visible,
        mode_text(f.ds.modes.cursor_visible, "\x1b[?25h"@, "\x1b[?25l"@),
    ).rendered(f.ds.renditions, !builds).linked(f.ds.hyperlink, !builds)
}

/// The frame with the modes that changed.
#[verifier::opaque]
pub open spec fn modes_settled(
    builds: bool,
    last: Screen,
    f: Screen,
    frame: FrameView,
) -> FrameView {
    frame.text_if(
        !builds || f.ds.modes.bracketed_paste != last.ds.modes.bracketed_paste,
        mode_text(f.ds.modes.bracketed_paste, "\x1b[?2004h"@, "\x1b[?2004l"@),
    ).text_if(
        !builds || f.ds.mouse.reporting_mode != last.ds.mouse.reporting_mode,
        mouse_reporting_text(last, f),
    ).text_if(
        !builds || f.ds.mouse.focus_event != last.ds.mouse.focus_event,
        mode_text(f.ds.mouse.focus_event, "\x1b[?1004h"@, "\x1b[?1004l"@),
    ).text_if(
        !builds || f.ds.mouse.encoding_mode != last.ds.mouse.encoding_mode,
        mouse_encoding_text(last, f),
    )
}

/// The text that turns `last` into `f` on a terminal.
pub open spec fn frame_text(d: DisplayView, initialized: bool, last: Screen, f: Screen) -> Seq<
    char,
> {
    let start = FrameView {
        out: Seq::empty(),
        x: 0,
        y: 0,
        rendition: Renditions::plain(0),
        link: None,
        visible: last.ds.modes.cursor_visible,
    };
    let builds = frame_builds_on(initialized, last, f);
    let drawn = grid_put(
        d,
        builds,
        last,
        f,
        frame_placed(builds, last, frame_prologue(d, initialized, last, f, start)),
    );
    modes_settled(builds, last, f, cursor_settled(builds, f, drawn)).out
}

/// Knows what the user's terminal can do, and writes frames for it.
pub struct Display {
    /// Erase character. Part of vt200, but tmux does not support it (nor does the
    /// "screen" terminfo entry that tmux advertises).
    has_ech: bool,
    /// Erases fill the cell with the background colour.
    has_bce: bool,
    /// Supports setting the window title and icon name.
    has_title: bool,
    /// Enter and leave the alternate screen.
    smcup: Option<String>,
    rmcup: Option<String>,
}

impl View for Display {
    type V = DisplayView;

    closed spec fn view(&self) -> DisplayView {
        DisplayView {
            has_ech: self.has_ech,
            has_bce: self.has_bce,
            has_title: self.has_title,
            smcup: optional_text(self.smcup),
            rmcup: optional_text(self.rmcup),
        }
    }
}

impl Display {
    /// A display for a terminal with the given capabilities, or for one that is assumed
    /// to be capable.
    pub fn new(capabilities: Option<Capabilities>) -> (res: Self)
        ensures
            res@ == match capabilities {
                Some(c) => DisplayView {
                    has_ech: c.ech,
                    has_bce: c.bce,
                    has_title: match c.term {
                        Some(t) => titled_term(t@),
                        None => false,
                    },
                    smcup: optional_text(c.smcup),
                    rmcup: optional_text(c.rmcup),
                },
                None => DisplayView {
                    has_ech: true,
                    has_bce: true,
                    has_title: true,
                    smcup: Seq::empty(),
                    rmcup: Seq::empty(),
                },
            },
    {
        match capabilities {
            Some(c) => Display {
                has_ech: c.ech,
                has_bce: c.bce,
                has_title: match &c.term {
                    Some(t) => is_titled_term(t.as_str()),
                    None => false,
                },
                smcup: c.smcup,
                rmcup: c.rmcup,
            },
            None => Display {
                has_ech: true,
                has_bce: true,
                has_title: true,
                smcup: None,
                rmcup: None,
            },
        }
    }

    /// What to write when the session begins.
    pub fn open(&self) -> (s: String)
        ensures
            s@ == self@.smcup + "\x1b[?1h"@,
    {
        let mut s = String::new();
        match &self.smcup {
            Some(x) => s.append(x.as_str()),
            None => {},
        }
        s.append("\x1b[?1h");
        assert(s@ =~= self@.smcup + "\x1b[?1h"@);
        s
    }

    /// What to write when the session ends.
    pub fn close(&self) -> (s: String)
        ensures
            s@
                == "\x1b[?1l\x1b[0m\x1b[?25h\x1b[?1003l\x1b[?1002l\x1b[?1001l\x1b[?1000l\x1b[?1015l\x1b[?1006l\x1b[?1005l"@
                + self@.rmcup,
    {
        let mut s = String::new();
        s.append(
            "\x1b[?1l\x1b[0m\x1b[?25h\x1b[?1003l\x1b[?1002l\x1b[?1001l\x1b[?1000l\x1b[?1015l\x1b[?1006l\x1b[?1005l",
        );
        match &self.rmcup {
            Some(x) => s.append(x.as_str()),
            None => {},
        }
        assert(s@
            =~= "\x1b[?1l\x1b[0m\x1b[?25h\x1b[?1003l\x1b[?1002l\x1b[?1001l\x1b[?1000l\x1b[?1015l\x1b[?1006l\x1b[?1005l"@
            + self@.rmcup);
        s
    }

    fn can_use_erase(&self, frame: &FrameState) -> (b: bool)
        ensures
            b == erase_usable(self@.has_bce, frame@),
    {
        self.has_bce || (frame.current_rendition == Renditions::new(0)
            && frame.current_hyperlink.is_empty())
    }

    /// Moves to the start of a run of blanks and selects its renditions.
    fn start_run(
        &self,
        frame: &mut FrameState,
        run: &BlankRun,
        y: i32,
        x: i32,
        Ghost(job): Ghost<RowJob>,
    )
        requires
            job.y == y,
            0 <= y < MAX_DIMENSION,
            0 <= run@.count <= x <= MAX_DIMENSION + 2,
            old(frame)@.bounded(),
        ensures
            final(frame)@ == job.at_run(old(frame)@, run@, x as int),
            final(frame)@.x == x - run@.count,
            final(frame)@.y == y,
    {
        frame.append_silent_move(y, x - run.count);
        frame.update_rendition(&run.renditions, false);
        frame.update_hyperlink(&run.hyperlink, false);
    }

    /// Erases a pending run of blanks that ends before the end of the row.
    fn flush_run(
        &self,
        frame: &mut FrameState,
        run: &BlankRun,
        y: i32,
        x: i32,
        Ghost(job): Ghost<RowJob>,
    )
        requires
            job.y == y,
            job.has_ech == self@.has_ech,
            job.has_bce == self@.has_bce,
            0 <= y < MAX_DIMENSION,
            0 <= run@.count <= x <= MAX_DIMENSION + 2,
            old(frame)@.bounded(),
        ensures
            final(frame)@ == job.run_flushed(old(frame)@, run@, x as int),
            0 <= final(frame)@.x <= x,
            final(frame)@.y == y,
    {
        reveal(RowJob::run_flushed);
        self.start_run(frame, run, y, x, Ghost(job));
        let ghost f = frame@;
        if self.can_use_erase(frame) && self.has_ech && run.count > 4 {
            frame.append("\x1b[");
            frame.append_number(run.count as u64);
            frame.append("X");
            assert(frame@.out =~= f.out + ("\x1b["@ + decimal(run@.count as nat) + "X"@));
        } else {
            frame.append_repeated(run.count as usize, ' ');
            frame.cursor_x = x;
        }
    }

    /// Prints the cell at column `x`.
    fn draw_cell(
        &self,
        frame: &mut FrameState,
        cell: &Cell,
        y: i32,
        x: i32,
        row_width: i32,
        wraps: bool,
        Ghost(job): Ghost<RowJob>,
    )
        requires
            job.y == y,
            job.wraps == wraps,
            0 <= x < row_width,
            job.cells.len() == row_width <= MAX_DIMENSION,
            job.cells[x as int] == cell@,
            0 <= y < MAX_DIMENSION,
            old(frame)@.bounded(),
        ensures
            final(frame)@ == job.cell_printed(old(frame)@, x as int),
            final(frame)@.x == x + cell@.columns(),
            final(frame)@.y == y,
    {
        reveal(RowJob::cell_printed);
        let cell_width: i32 = cell.width() as i32;
        // About to print the last character of a wrapping row: throw away the known
        // cursor position to force explicit positioning. Our input terminal state may
        // have the cursor on the autowrap column ("column 81") while our output states
        // always snap it to the true last column, and the diff has to apply to either.
        if wraps && x + cell_width >= row_width {
            frame.cursor_x = -1;
            frame.cursor_y = -1;
        }
        frame.append_silent_move(y, x);
        frame.update_rendition(cell.renditions(), false);
        frame.update_hyperlink(cell.hyperlink(), false);
        frame.append_cell(cell);
        frame.cursor_x = frame.cursor_x + cell_width;
    }

    /// One step along a row; returns the column after it and whether the last cell of the
    /// row was written.
    fn step_row(
        &self,
        frame: &mut FrameState,
        run: &mut BlankRun,
        row: &Row,
        old_row: &Row,
        initialized: bool,
        y: i32,
        x: i32,
        wraps: bool,
        Ghost(job): Ghost<RowJob>,
        Ghost(p): Ghost<RowProgress>,
    ) -> (next: (i32, bool))
        requires
            job == (RowJob {
                has_ech: self@.has_ech,
                has_bce: self@.has_bce,
                initialized,
                wraps,
                y: y as int,
                cells: row@.cells,
                old: old_row@.cells,
            }),
            p.frame == old(frame)@,
            p.x == x,
            p.run == old(run)@,
            0 <= x < row@.cells.len() <= MAX_DIMENSION,
            0 <= y < MAX_DIMENSION,
            0 <= old(run)@.count <= x,
            old(frame)@.bounded(),
        ensures
            job.step(p) == (RowProgress {
                frame: final(frame)@,
                x: next.0 as int,
                run: final(run)@,
                wrote_last: p.wrote_last || next.1,
            }),
            x < next.0 <= x + 2,
            0 <= final(run)@.count <= next.0,
            old(frame)@.x <= row@.cells.len() + 1 ==> -1 <= final(frame)@.x <= row@.cells.len() + 1,
            final(frame)@.y == old(frame)@.y || final(frame)@.y == y,
            next.1 ==> final(frame)@.y == y,
            p.wrote_last && old(frame)@.y == y ==> final(frame)@.y == y,
    {
        reveal(RowJob::step);
        let cell = &row.cells[x as usize];
        assert(cell@ == job.cells[x as int]);
        // Unchanged cell with nothing pending? Skip it.
        if initialized && run.count == 0 && (x as usize) < old_row.cells.len() && *cell
            == old_row.cells[x as usize] {
            assert(job.unchanged(x as int));
            return (x + cell.width() as i32, false);
        }
        assert(!(p.run.count == 0 && job.unchanged(x as int)));
        // Gather a run of empty cells so they can be erased in one go.
        if cell.is_empty() {
            if run.count == 0 {
                run.renditions = *cell.renditions();
                run.hyperlink = cell.hyperlink().clone();
            }
            if *cell.renditions() == run.renditions && *cell.hyperlink() == run.hyperlink {
                run.count = run.count + 1;
                return (x + 1, false);
            }
        }
        // Flush a pending run of blanks that ends before the end of the row.

        if run.count != 0 {
            self.flush_run(frame, run, y, x, Ghost(job));
            run.count = 0;
            // Another empty cell in a different rendition starts a fresh run.
            if cell.is_empty() {
                run.renditions = *cell.renditions();
                run.hyperlink = cell.hyperlink().clone();
                run.count = 1;
                return (x + 1, false);
            }
        }
        let row_width: i32 = row.cells.len() as i32;
        self.draw_cell(frame, cell, y, x, row_width, wraps, Ghost(job));
        let next: i32 = x + cell.width() as i32;
        (next, next >= row_width)
    }

    /// Draw one row. Returns whether the next row must start by writing its first column.
    fn put_row(
        &self,
        initialized: bool,
        frame: &mut FrameState,
        f: &Framebuffer,
        frame_y: i32,
        old_row: &Rc<Row>,
        wrap: bool,
        Ghost(job): Ghost<RowJob>,
    ) -> (next_wrap: bool)
        requires
            f@.valid(),
            0 <= frame_y < f@.rows.len(),
            job == (RowJob {
                has_ech: self@.has_ech,
                has_bce: self@.has_bce,
                initialized,
                wraps: f@.rows[frame_y as int].wraps(),
                y: frame_y as int,
                cells: f@.rows[frame_y as int].cells,
                old: old_row@.cells,
            }),
            -1 <= old(frame)@.x <= f@.ds.geo.width + 1,
            -1 <= old(frame)@.y < f@.ds.geo.height,
            wrap ==> old(frame)@.x == 0,
        ensures
            (final(frame)@, next_wrap) == job.row_put(
                old(frame)@,
                wrap,
                frame_y >= f@.rows.len() - 1,
            ),
            -1 <= final(frame)@.x <= f@.ds.geo.width + 1,
            -1 <= final(frame)@.y < f@.ds.geo.height,
            next_wrap ==> final(frame)@.x == 0,
    {
        let mut frame_x: i32 = 0;
        let row: &Rc<Row> = &f.rows()[frame_y as usize];
        assert(row@ == f@.rows[frame_y as int]);
        assert(row@.cells.len() == f@.ds.geo.width);
        // A wrap from the previous row forces the first column to be written.
        if wrap {
            let cell = &row.cells[0];
            assert(cell@ == row@.cells[0]);
            frame.update_rendition(cell.renditions(), false);
            frame.update_hyperlink(cell.hyperlink(), false);
            frame.append_cell(cell);
            frame_x = cell.width() as i32;
            frame.cursor_x = frame.cursor_x + cell.width() as i32;
        }
        let ghost begun = job.begun(old(frame)@, wrap);
        assert(begun.frame == frame@ && begun.x == frame_x);
        // Same row object? Nothing at all to do.
        if initialized && same_allocation(row, old_row) {
            proof {
                reveal(RowJob::end_flushed);
                lemma_same_row_takes_no_steps(job, begun);
            }
            return false;
        }
        let wrap_this = row.wrap();
        let row_width: i32 = f.ds.width();
        let mut wrote_last_cell = false;
        let mut run = BlankRun {
            count: 0,
            renditions: Renditions::new(0),
            hyperlink: Hyperlink::default(),
        };
        while frame_x < row_width
            invariant
                f@.valid(),
                0 <= frame_y < f@.rows.len(),
                row@ == f@.rows[frame_y as int],
                row@.cells.len() == f@.ds.geo.width,
                row_width == f@.ds.geo.width,
                job == (RowJob {
                    has_ech: self@.has_ech,
                    has_bce: self@.has_bce,
                    initialized,
                    wraps: wrap_this,
                    y: frame_y as int,
                    cells: row@.cells,
                    old: old_row@.cells,
                }),
                0 <= frame_x <= row_width + 1,
                0 <= run@.count <= frame_x,
                -1 <= frame@.x <= row_width + 1,
                -1 <= frame@.y < f@.ds.geo.height,
                wrote_last_cell ==> frame@.y == frame_y,
                job.steps(begun) == job.steps(
                    RowProgress {
                        frame: frame@,
                        x: frame_x as int,
                        run: run@,
                        wrote_last: wrote_last_cell,
                    },
                ),
            decreases row_width + 2 - frame_x,
        {
            let ghost p = RowProgress {
                frame: frame@,
                x: frame_x as int,
                run: run@,
                wrote_last: wrote_last_cell,
            };
            let (next, wrote) = self.step_row(
                frame,
                &mut run,
                row,
                old_row,
                initialized,
                frame_y,
                frame_x,
                wrap_this,
                Ghost(job),
                Ghost(p),
            );
            frame_x = next;
            if wrote {
                wrote_last_cell = true;
            }
        }
        let ghost done = RowProgress {
            frame: frame@,
            x: frame_x as int,
            run: run@,
            wrote_last: wrote_last_cell,
        };
        assert(job.steps(begun) == done);
        proof {
            reveal(RowJob::end_flushed);
        }
        // Flush a run of blanks that reaches the end of the line.
        if run.count != 0 {
            self.start_run(frame, &run, frame_y, frame_x, Ghost(job));
            if self.can_use_erase(frame) && !wrap_this {
                frame.append("\x1b[K");
            } else {
                frame.append_repeated(run.count as usize, ' ');
                frame.cursor_x = frame_x;
                wrote_last_cell = true;
            }
        }
        assert(job.end_flushed(done).frame == frame@);
        assert(job.end_flushed(done).wrote_last == wrote_last_cell);
        if !(wrote_last_cell && frame_y < f.ds.height() - 1) {
            return false;
        }
        // Let the real cursor wrap where it wrapped for us, so that a word-select in the
        // user's terminal groups the end of one line with the start of the next.

        if wrap_this {
            frame.cursor_x = 0;
            frame.cursor_y = frame.cursor_y + 1;
            return true;
        }
        frame.append("\r\n");
        frame.cursor_x = 0;
        frame.cursor_y = frame.cursor_y + 1;
        false
    }

    fn append_prologue(
        &self,
        initialized: bool,
        last: &Framebuffer,
        f: &Framebuffer,
        frame: &mut FrameState,
    )
        ensures
            final(frame)@ == frame_prologue(self@, initialized, last@, f@, old(frame)@),
    {
        reveal(frame_prologue);
        // Has the bell been rung?
        if f.bell_count() != last.bell_count() {
            frame.append_char('\u{7}');
        }
        // Has the icon name or window title changed?

        if self.has_title && f.is_title_initialized() && (!initialized || !chars_eq(
            f.icon_name(),
            last.icon_name(),
        ) || !chars_eq(f.window_title(), last.window_title())) {
            Self::append_titles(f, frame);
        }
        // Has the clipboard been set or queried? Gated on `initialized` so a client
        // attaching or repainting does not replay a stale copy.

        if initialized && f.clipboard_seq() != last.clipboard_seq() {
            let ghost start = frame@;
            frame.append("\x1b]52;");
            frame.append_chars(f.clipboard());
            frame.append_char('\u{7}');
            assert(frame@.out =~= start.out + ("\x1b]52;"@ + f@.clipboard + seq!['\u{7}']));
        }
        // Has the application asked the terminal to report a colour? Gated for the same
        // reason as the clipboard.

        if initialized && f.color_query_seq() != last.color_query_seq() {
            frame.append(f.color_queries());
        }
        // Has reverse video changed?

        if !initialized || f.ds.modes.reverse_video != last.ds.modes.reverse_video {
            frame.append(
                if f.ds.modes.reverse_video {
                    "\x1b[?5h"
                } else {
                    "\x1b[?5l"
                },
            );
        }
    }

    fn append_titles(f: &Framebuffer, frame: &mut FrameState)
        ensures
            final(frame)@ == old(frame)@.text(title_text(f@)),
    {
        if chars_eq(f.icon_name(), f.window_title()) {
            // One sequence sets both.
            frame.append("\x1b]0;");
            frame.append_chars(f.window_title());
            // ST is more correct, but BEL is more widely supported.
            frame.append_char('\u{7}');
        } else {
            frame.append("\x1b]1;");
            frame.append_chars(f.icon_name());
            frame.append_char('\u{7}');
            frame.append("\x1b]2;");
            frame.append_chars(f.window_title());
            frame.append_char('\u{7}');
        }
        assert(frame@.out =~= old(frame)@.out + title_text(f@));
    }

    fn place_frame(builds: bool, last: &Framebuffer, frame: &mut FrameState)
        requires
            last@.valid(),
        ensures
            final(frame)@ == frame_placed(builds, last@, old(frame)@),
            builds ==> final(frame)@.x == last@.ds.geo.cursor_col && final(frame)@.y
                == last@.ds.geo.cursor_row,
            !builds ==> final(frame)@.x == 0 && final(frame)@.y == 0,
    {
        reveal(frame_placed);
        if builds {
            frame.cursor_x = last.ds.cursor_col();
            frame.cursor_y = last.ds.cursor_row();
            frame.current_rendition = *last.ds.renditions();
            frame.current_hyperlink = last.ds.hyperlink().clone();
        } else {
            frame.append("\x1b[r");  // reset scrolling region
            frame.append("\x1b[0m\x1b[H\x1b[2J");  // clear screen
            frame.cursor_x = 0;
            frame.cursor_y = 0;
            frame.current_rendition = Renditions::new(0);
            frame.current_hyperlink = Hyperlink::default();
            // Cursor visibility is not known.
            frame.cursor_visible = false;
            frame.append("\x1b[?25l");
        }
    }

    /// Where the first row of `f` is among the old rows.
    fn find_first_row(f: &Framebuffer, rows: &Vec<Rc<Row>>) -> (shift: usize)
        requires
            f@.rows.len() > 0,
        ensures
            shift == first_match(f@.rows[0], views(rows@), 0),
            shift <= rows@.len(),
            shift < rows@.len() ==> views(rows@)[shift as int] == f@.rows[0],
    {
        let new_row: &Rc<Row> = &f.rows()[0];
        assert(new_row@ == f@.rows[0]);
        let mut i: usize = 0;
        while i < rows.len()
            invariant
                i <= rows@.len(),
                new_row@ == f@.rows[0],
                first_match(f@.rows[0], views(rows@), 0) == first_match(
                    f@.rows[0],
                    views(rows@),
                    i as int,
                ),
            decreases rows.len() - i,
        {
            if same_allocation(new_row, &rows[i]) || **new_row == *rows[i] {
                return i;
            }
            i = i + 1;
        }
        i
    }

    /// How many of the first rows of `f` are old rows moved up by `shift`.
    fn count_kept_rows(f: &Framebuffer, rows: &Vec<Rc<Row>>, shift: usize) -> (kept: usize)
        requires
            f@.rows.len() == rows@.len(),
            shift < rows@.len(),
        ensures
            kept == match_end(f@.rows, views(rows@), shift as int, 1),
            1 <= kept <= rows@.len() - shift,
    {
        let new_rows = f.rows();
        assert(new_rows@.len() == f@.rows.len());
        let mut k: usize = 1;
        while k < rows.len() - shift
            invariant
                new_rows@.len() == f@.rows.len() == rows@.len(),
                views(new_rows@) == f@.rows,
                shift < rows@.len(),
                1 <= k <= rows@.len() - shift,
                match_end(f@.rows, views(rows@), shift as int, 1) == match_end(
                    f@.rows,
                    views(rows@),
                    shift as int,
                    k as int,
                ),
            decreases rows.len() - k,
        {
            assert(f@.rows[k as int] == new_rows@[k as int]@);
            if *new_rows[k] != *rows[k + shift] {
                return k;
            }
            k = k + 1;
        }
        k
    }

    fn scroll_frame(frame: &mut FrameState, shift: i32, bottom: i32, height: i32)
        requires
            0 < shift <= bottom < height <= MAX_DIMENSION,
            old(frame)@.bounded(),
        ensures
            final(frame)@ == frame_scrolled(
                old(frame)@,
                shift as int,
                bottom as int,
                height as int,
            ),
            -1 <= final(frame)@.x <= 0,
            -1 <= final(frame)@.y < height,
    {
        reveal(frame_scrolled);
        frame.update_rendition(&Renditions::new(0), true);
        frame.update_hyperlink(&Hyperlink::default(), true);
        // Common case: already on the bottom line and scrolling the whole screen, so a
        // carriage return and some line feeds will do.
        if bottom + 1 == height && frame.cursor_y + 1 == height {
            frame.append_char('\r');
            frame.append_repeated(shift as usize, '\n');
            frame.cursor_x = 0;
        } else {
            frame.append("\x1b[1;");
            frame.append_number((bottom + 1) as u64);
            frame.append("r");
            // Go to the bottom of the scrolling region.
            frame.cursor_x = -1;
            frame.cursor_y = -1;
            frame.append_silent_move(bottom, 0);
            frame.append_repeated(shift as usize, '\n');
            frame.append("\x1b[r");
            // The cursor position is unknown after unsetting the region.
            frame.cursor_x = -1;
            frame.cursor_y = -1;
        }
    }

    /// Mirrors a scroll in our copy of the old rows.
    fn scroll_rows(rows: &Vec<Rc<Row>>, shift: usize, bottom: usize, width: usize) -> (res: Vec<
        Rc<Row>,
    >)
        requires
            shift <= bottom < rows@.len(),
        ensures
            views(res@) == rows_scrolled(
                views(rows@),
                shift as int,
                bottom as int,
                RowView::blank(width as nat, 0, 0),
            ),
    {
        let blank = Rc::new(Row::with_generation(width, 0, 0));
        let mut res: Vec<Rc<Row>> = Vec::new();
        let mut i: usize = 0;
        while i < rows.len()
            invariant
                i <= rows@.len(),
                shift <= bottom < rows@.len(),
                res@.len() == i,
                blank@ == RowView::blank(width as nat, 0, 0),
                forall|k: int|
                    0 <= k < i ==> #[trigger] res@[k]@ == rows_scrolled(
                        views(rows@),
                        shift as int,
                        bottom as int,
                        blank@,
                    )[k],
            decreases rows.len() - i,
        {
            if i > bottom {
                res.push(share(&rows[i]));
            } else if i <= bottom - shift {
                res.push(share(&rows[i + shift]));
            } else {
                res.push(share(&blank));
            }
            i = i + 1;
        }
        assert(views(res@) =~= rows_scrolled(
            views(rows@),
            shift as int,
            bottom as int,
            RowView::blank(width as nat, 0, 0),
        ));
        res
    }

    /// Draws the rows from `y` on over the old ones.
    fn put_rows(
        &self,
        builds: bool,
        frame: &mut FrameState,
        f: &Framebuffer,
        rows: &Vec<Rc<Row>>,
        y: i32,
    )
        requires
            f@.valid(),
            rows@.len() == f@.rows.len(),
            0 <= y <= f@.rows.len(),
            -1 <= old(frame)@.x <= f@.ds.geo.width + 1,
            -1 <= old(frame)@.y < f@.ds.geo.height,
        ensures
            final(frame)@ == rows_put(
                self@,
                builds,
                f@,
                views(rows@),
                old(frame)@,
                y as int,
                false,
            ),
            final(frame)@.bounded(),
    {
        let height = f.ds.height();
        let mut frame_y: i32 = y;
        let mut wrap = false;
        while frame_y < height
            invariant
                f@.valid(),
                height == f@.rows.len(),
                rows@.len() == f@.rows.len(),
                0 <= frame_y <= height,
                -1 <= frame@.x <= f@.ds.geo.width + 1,
                -1 <= frame@.y < f@.ds.geo.height,
                wrap ==> frame@.x == 0,
                rows_put(self@, builds, f@, views(rows@), old(frame)@, y as int, false) == rows_put(
                    self@,
                    builds,
                    f@,
                    views(rows@),
                    frame@,
                    frame_y as int,
                    wrap,
                ),
            decreases height - frame_y,
        {
            wrap =
            self.put_row(
                builds,
                frame,
                f,
                frame_y,
                &rows[frame_y as usize],
                wrap,
                Ghost(row_job(self@, builds, f@, views(rows@), frame_y as int)),
            );
            frame_y = frame_y + 1;
        }
    }

    fn put_grid(
        &self,
        builds: bool,
        last: &Framebuffer,
        f: &Framebuffer,
        frame: &mut FrameState,
    )
        requires
            last@.valid(),
            f@.valid(),
            builds ==> f@.ds.geo.width == last@.ds.geo.width && f@.ds.geo.height
                == last@.ds.geo.height,
            0 <= old(frame)@.x < f@.ds.geo.width,
            0 <= old(frame)@.y < f@.ds.geo.height,
        ensures
            final(frame)@ == grid_put(self@, builds, last@, f@, old(frame)@),
            final(frame)@.bounded(),
    {
        reveal(grid_put);
        if !builds {
            self.put_rows(false, frame, f, &f.rows, 0);
            return ;
        }
        // Shortcut: has the display simply moved up by some number of lines?

        let shift = Self::find_first_row(f, &last.rows);
        // Row 0 matching means we are looking at ourselves, not a scroll.
        if shift == 0 || shift >= last.rows.len() {
            self.put_rows(true, frame, f, &last.rows, 0);
            return ;
        }
        // How tall is the region that scrolled?

        let kept = Self::count_kept_rows(f, &last.rows, shift);
        let bottom: usize = shift + kept - 1;
        Self::scroll_frame(frame, shift as i32, bottom as i32, f.ds.height());
        let rows = Self::scroll_rows(&last.rows, shift, bottom, f.ds.width() as usize);
        assert(rows@.len() == views(rows@).len());
        self.put_rows(true, frame, f, &rows, kept as i32);
    }

    fn settle_cursor(builds: bool, f: &Framebuffer, frame: &mut FrameState)
        requires
            f@.valid(),
            old(frame)@.bounded(),
        ensures
            final(frame)@ == cursor_settled(builds, f@, old(frame)@),
    {
        reveal(cursor_settled);
        // Has the cursor moved?
        if !builds || f.ds.cursor_row() != frame.cursor_y || f.ds.cursor_col() != frame.cursor_x {
            frame.append_move(f.ds.cursor_row(), f.ds.cursor_col());
        }
        // Has cursor visibility changed?

        if !builds || f.ds.modes.cursor_visible != frame.cursor_visible {
            frame.append(
                if f.ds.modes.cursor_visible {
                    "\x1b[?25h"
                } else {
                    "\x1b[?25l"
                },
            );
        }
        frame.update_rendition(f.ds.renditions(), !builds);
        frame.update_hyperlink(f.ds.hyperlink(), !builds);
    }

    fn append_mode(frame: &mut FrameState, number: u32, end: &str)
        ensures
            final(frame)@ == old(frame)@.text("\x1b[?"@ + decimal(number as nat) + end@),
    {
        frame.append("\x1b[?");
        frame.append_number(number as u64);
        frame.append(end);
        assert(frame@.out =~= old(frame)@.out + ("\x1b[?"@ + decimal(number as nat) + end@));
    }

    fn append_mouse_reporting(last: &Framebuffer, f: &Framebuffer, frame: &mut FrameState)
        ensures
            final(frame)@ == old(frame)@.text(mouse_reporting_text(last@, f@)),
    {
        if f.ds.mouse.reporting_mode == MouseReportingMode::Off {
            frame.append("\x1b[?1003l\x1b[?1002l\x1b[?1001l\x1b[?1000l");
        } else {
            if last.ds.mouse.reporting_mode != MouseReportingMode::Off {
                Self::append_mode(frame, last.ds.mouse.reporting_mode.number(), "l");
            }
            Self::append_mode(frame, f.ds.mouse.reporting_mode.number(), "h");
        }
        assert(frame@.out =~= old(frame)@.out + mouse_reporting_text(last@, f@));
    }

    fn append_mouse_encoding(last: &Framebuffer, f: &Framebuffer, frame: &mut FrameState)
        ensures
            final(frame)@ == old(frame)@.text(mouse_encoding_text(last@, f@)),
    {
        if f.ds.mouse.encoding_mode == MouseEncodingMode::Default {
            frame.append("\x1b[?1015l\x1b[?1006l\x1b[?1005l");
        } else {
            if last.ds.mouse.encoding_mode != MouseEncodingMode::Default {
                Self::append_mode(frame, last.ds.mouse.encoding_mode.number(), "l");
            }
            Self::append_mode(frame, f.ds.mouse.encoding_mode.number(), "h");
        }
        assert(frame@.out =~= old(frame)@.out + mouse_encoding_text(last@, f@));
    }

    fn settle_modes(builds: bool, last: &Framebuffer, f: &Framebuffer, frame: &mut FrameState)
        ensures
            final(frame)@ == modes_settled(builds, last@, f@, old(frame)@),
    {
        reveal(modes_settled);
        // Has bracketed paste changed?
        if !builds || f.ds.modes.bracketed_paste != last.ds.modes.bracketed_paste {
            frame.append(
                if f.ds.modes.bracketed_paste {
                    "\x1b[?2004h"
                } else {
                    "\x1b[?2004l"
                },
            );
        }
        // Has mouse reporting changed?

        if !builds || f.ds.mouse.reporting_mode != last.ds.mouse.reporting_mode {
            Self::append_mouse_reporting(last, f, frame);
        }
        // Has mouse focus reporting changed?

        if !builds || f.ds.mouse.focus_event != last.ds.mouse.focus_event {
            frame.append(
                if f.ds.mouse.focus_event {
                    "\x1b[?1004h"
                } else {
                    "\x1b[?1004l"
                },
            );
        }
        // Has mouse encoding changed?

        if !builds || f.ds.mouse.encoding_mode != last.ds.mouse.encoding_mode {
            Self::append_mouse_encoding(last, f, frame);
        }
    }

    /// The byte sequence that turns `last` into `f` on a real terminal.
    pub fn new_frame(&self, initialized: bool, last: &Framebuffer, f: &Framebuffer) -> (s: String)
        requires
            last@.valid(),
            f@.valid(),
        ensures
            s@ == frame_text(self@, initialized, last@, f@),
    {
        let mut frame = FrameState::new(last);
        self.append_prologue(initialized, last, f, &mut frame);
        // Has the size changed?
        let builds = initialized && f.ds.width() == last.ds.width() && f.ds.height()
            == last.ds.height();
        Self::place_frame(builds, last, &mut frame);
        // Update the display row by row.
        self.put_grid(builds, last, f, &mut frame);
        Self::settle_cursor(builds, f, &mut frame);
        Self::settle_modes(builds, last, f, &mut frame);
        frame.str
    }
}

proof fn lemma_same_rows_put_nothing(
    d: DisplayView,
    f: Screen,
    old: Seq<RowView>,
    frame: FrameView,
    y: int,
)
    requires
        old == f.rows,
        0 <= y,
    ensures
        rows_put(d, true, f, old, frame, y, false) == frame,
    decreases f.rows.len() - y,
{
    if y < f.rows.len() {
        let job = row_job(d, true, f, old, y);
        reveal(RowJob::end_flushed);
        lemma_same_row_takes_no_steps(job, job.begun(frame, false));
        lemma_same_rows_put_nothing(d, f, old, frame, y + 1);
    }
}

/// A screen that shows the same as the one before needs no frame at all: nothing is
/// written to a terminal that is up to date.
pub proof fn unchanged_screen_needs_no_frame(d: DisplayView, last: Screen, f: Screen)
    requires
        f.valid(),
        f.rows == last.rows,
        f.rest_same(last),
        f.icon_name == last.icon_name,
    ensures
        frame_text(d, true, last, f) == Seq::<char>::empty(),
{
    reveal(frame_prologue);
    reveal(frame_placed);
    reveal(grid_put);
    reveal(cursor_settled);
    reveal(modes_settled);
    let start = FrameView {
        out: Seq::empty(),
        x: 0,
        y: 0,
        rendition: Renditions::plain(0),
        link: None,
        visible: last.ds.modes.cursor_visible,
    };
    let placed = frame_placed(true, last, frame_prologue(d, true, last, f, start));
    assert(first_match(f.rows[0], last.rows, 0) == 0);
    lemma_same_rows_put_nothing(d, f, last.rows, placed, 0);
}

} // verus!
