//! The working state while one frame is built.

use vstd::prelude::*;
use vstd::string::*;

use crate::cell::{osc8_text, Cell, CellView, Hyperlink, Link, Renditions};
use crate::draw_state::MAX_DIMENSION;
use crate::framebuffer::Framebuffer;
use crate::text::{decimal, push_decimal};

verus! {

/// `c`, `n` times.
pub open spec fn repeated(c: char, n: int) -> Seq<char> {
    Seq::new(
        if n < 0 {
            0nat
        } else {
            n as nat
        },
        |i: int| c,
    )
}

/// The frame so far, and the state it leaves the terminal in. A cursor position of -1 is
/// not known.
pub struct FrameView {
    pub out: Seq<char>,
    pub x: int,
    pub y: int,
    pub rendition: Renditions,
    pub link: Option<Link>,
    pub visible: bool,
}

impl FrameView {
    /// With more text.
    pub open spec fn text(self, s: Seq<char>) -> FrameView {
        FrameView { out: self.out + s, ..self }
    }

    /// With the cursor taken to be somewhere else.
    pub open spec fn at(self, y: int, x: int) -> FrameView {
        FrameView { y, x, ..self }
    }

    /// The text that moves the cursor from where it is: line feeds to the start of one of
    /// the next few lines, a few backspaces, or else an absolute position.
    pub open spec fn move_text(self, y: int, x: int) -> Seq<char> {
        let known = self.x != -1 && self.y != -1;
        if known && x == 0 && 0 <= y - self.y < 5 {
            (if self.x != 0 {
                seq!['\r']
            } else {
                Seq::empty()
            }) + repeated('\n', y - self.y)
        } else if known && y == self.y && -5 < x - self.x < 0 {
            repeated('\u{8}', self.x - x)
        } else {
            "\x1b["@ + decimal((y + 1) as nat) + ";"@ + decimal((x + 1) as nat) + "H"@
        }
    }

    /// After a cursor movement.
    #[verifier::opaque]
    pub open spec fn moved(self, y: int, x: int) -> FrameView {
        self.text(self.move_text(y, x)).at(y, x)
    }

    /// After a cursor movement, with the cursor hidden first so that it is not seen.
    /// Nothing happens if the cursor is there already.
    #[verifier::opaque]
    pub open spec fn silently_moved(self, y: int, x: int) -> FrameView {
        if self.x == x && self.y == y {
            self
        } else if self.visible {
            (FrameView { visible: false, ..self.text("\x1b[?25l"@) }).moved(y, x)
        } else {
            self.moved(y, x)
        }
    }

    /// After the renditions were selected, unless they are selected already.
    pub open spec fn rendered(self, r: Renditions, force: bool) -> FrameView {
        if force || self.rendition != r {
            FrameView { rendition: r, ..self.text(r.sgr_text()) }
        } else {
            self
        }
    }

    /// After the hyperlink was opened, unless it is open already.
    pub open spec fn linked(self, h: Option<Link>, force: bool) -> FrameView {
        if force || self.link != h {
            FrameView { link: h, ..self.text(osc8_text(h)) }
        } else {
            self
        }
    }

    /// The cursor is at an unknown place or not far off the screen.
    pub open spec fn bounded(self) -> bool {
        &&& -1 <= self.x <= MAX_DIMENSION + 2
        &&& -1 <= self.y <= MAX_DIMENSION
    }
}

/// Working state while building one frame.
pub struct FrameState {
    pub str: String,
    pub cursor_x: i32,
    pub cursor_y: i32,
    pub current_rendition: Renditions,
    pub current_hyperlink: Hyperlink,
    pub cursor_visible: bool,
}

impl View for FrameState {
    type V = FrameView;

    open spec fn view(&self) -> FrameView {
        FrameView {
            out: self.str@,
            x: self.cursor_x as int,
            y: self.cursor_y as int,
            rendition: self.current_rendition,
            link: self.current_hyperlink@,
            visible: self.cursor_visible,
        }
    }
}

impl FrameState {
    pub fn new(last: &Framebuffer) -> (res: Self)
        ensures
            res@ == (FrameView {
                out: Seq::empty(),
                x: 0,
                y: 0,
                rendition: Renditions::plain(0),
                link: None,
                visible: last@.ds.modes.cursor_visible,
            }),
    {
        FrameState {
            str: String::new(),
            cursor_x: 0,
            cursor_y: 0,
            current_rendition: Renditions::new(0),
            current_hyperlink: Hyperlink::default(),
            cursor_visible: last.ds.modes.cursor_visible,
        }
    }

    pub fn append(&mut self, s: &str)
        ensures
            final(self)@ == old(self)@.text(s@),
    {
        self.str.append(s);
    }

    pub fn append_char(&mut self, c: char)
        ensures
            final(self)@ == old(self)@.text(seq![c]),
    {
        self.str.push(c);
        assert(self.str@ =~= old(self).str@ + seq![c]);
    }

    pub fn append_chars(&mut self, s: &[char])
        ensures
            final(self)@ == old(self)@.text(s@),
    {
        let mut i: usize = 0;
        while i < s.len()
            invariant
                i <= s.len(),
                self@ == old(self)@.text(s@.subrange(0, i as int)),
            decreases s.len() - i,
        {
            self.append_char(s[i]);
            i = i + 1;
            assert(s@.subrange(0, i as int) =~= s@.subrange(0, i - 1) + seq![s@[i - 1]]);
            assert(self@.out =~= old(self)@.out + s@.subrange(0, i as int));
        }
        assert(s@.subrange(0, i as int) =~= s@);
        assert(self@.out =~= old(self)@.out + s@);
    }

    pub fn append_number(&mut self, n: u64)
        ensures
            final(self)@ == old(self)@.text(decimal(n as nat)),
    {
        push_decimal(&mut self.str, n);
    }

    pub fn append_repeated(&mut self, n: usize, c: char)
        ensures
            final(self)@ == old(self)@.text(repeated(c, n as int)),
    {
        let mut i: usize = 0;
        while i < n
            invariant
                i <= n,
                self@ == old(self)@.text(repeated(c, i as int)),
            decreases n - i,
        {
            self.str.push(c);
            i = i + 1;
            assert(self@.out =~= old(self)@.out + repeated(c, i as int));
        }
        assert(self@.out =~= old(self)@.out + repeated(c, n as int));
    }

    pub fn append_cell(&mut self, cell: &Cell)
        ensures
            final(self)@ == old(self)@.text(cell@.grapheme()),
    {
        cell.print_grapheme(&mut self.str);
    }

    /// Move the cursor, hiding it first so the move is not seen.
    pub fn append_silent_move(&mut self, y: i32, x: i32)
        requires
            old(self)@.bounded(),
            0 <= y <= MAX_DIMENSION,
            0 <= x <= MAX_DIMENSION + 2,
        ensures
            final(self)@ == old(self)@.silently_moved(y as int, x as int),
            final(self)@.x == x,
            final(self)@.y == y,
    {
        reveal(FrameView::silently_moved);
        if self.cursor_x == x && self.cursor_y == y {
            return ;
        }
        if self.cursor_visible {
            self.append("\x1b[?25l");
            self.cursor_visible = false;
        }
        self.append_move(y, x);
    }

    pub fn append_move(&mut self, y: i32, x: i32)
        requires
            old(self)@.bounded(),
            0 <= y <= MAX_DIMENSION,
            0 <= x <= MAX_DIMENSION + 2,
        ensures
            final(self)@ == old(self)@.moved(y as int, x as int),
            final(self)@.x == x,
            final(self)@.y == y,
    {
        reveal(FrameView::moved);
        let last_x = self.cursor_x;
        let last_y = self.cursor_y;
        self.cursor_x = x;
        self.cursor_y = y;
        let ghost start = self@;
        // Only worth optimising when we know where the cursor actually is.
        if last_x != -1 && last_y != -1 {
            // Carriage return and line feeds are cheap and easier to read in a trace.
            if x == 0 && y - last_y >= 0 && y - last_y < 5 {
                if last_x != 0 {
                    self.append_char('\r');
                }
                self.append_repeated((y - last_y) as usize, '\n');
                assert(self@.out =~= start.out + old(self)@.move_text(y as int, x as int));
                return ;
            }
            // Backspaces are good too.

            if y == last_y && x - last_x < 0 && x - last_x > -5 {
                self.append_repeated((last_x - x) as usize, '\u{8}');
                return ;
            }
        }
        self.append("\x1b[");
        self.append_number((y + 1) as u64);
        self.append(";");
        self.append_number((x + 1) as u64);
        self.append("H");
        assert(self@.out =~= start.out + old(self)@.move_text(y as int, x as int));
    }

    pub fn update_rendition(&mut self, r: &Renditions, force: bool)
        ensures
            final(self)@ == old(self)@.rendered(*r, force),
    {
        if force || self.current_rendition != *r {
            let sgr = r.sgr();
            self.append(sgr.as_str());
            self.current_rendition = *r;
        }
    }

    pub fn update_hyperlink(&mut self, h: &Hyperlink, force: bool)
        ensures
            final(self)@ == old(self)@.linked(h@, force),
    {
        if force || self.current_hyperlink != *h {
            let osc8 = h.osc8();
            self.append(osc8.as_str());
            self.current_hyperlink = h.clone();
        }
    }
}

/// A run of empty cells that is waiting to be erased.
pub struct RunView {
    pub count: int,
    pub rendition: Renditions,
    pub link: Option<Link>,
}

/// A run of empty cells that is waiting to be erased.
pub struct BlankRun {
    pub count: i32,
    pub renditions: Renditions,
    pub hyperlink: Hyperlink,
}

impl View for BlankRun {
    type V = RunView;

    open spec fn view(&self) -> RunView {
        RunView {
            count: self.count as int,
            rendition: self.renditions,
            link: self.hyperlink@,
        }
    }
}

/// What is fixed while one row is drawn: what the terminal can do, whether it shows the
/// old cells, and the new ones.
pub struct RowJob {
    pub has_ech: bool,
    pub has_bce: bool,
    pub initialized: bool,
    pub wraps: bool,
    pub y: int,
    pub cells: Seq<CellView>,
    pub old: Seq<CellView>,
}

/// How far the drawing of a row has come.
pub struct RowProgress {
    pub frame: FrameView,
    pub x: int,
    pub run: RunView,
    pub wrote_last: bool,
}

/// May an erase stand for spaces in the current renditions?
pub open spec fn erase_usable(has_bce: bool, frame: FrameView) -> bool {
    has_bce || (frame.rendition == Renditions::plain(0) && frame.link is None)
}

impl RowJob {
    /// The frame with the cursor at the start of the run and its renditions selected.
    pub open spec fn at_run(self, frame: FrameView, run: RunView, x: int) -> FrameView {
        frame.silently_moved(self.y, x - run.count).rendered(run.rendition, false).linked(
            run.link,
            false,
        )
    }

    /// After a run that ends before column `x`, short of the end of the row.
    #[verifier::opaque]
    pub open spec fn run_flushed(self, frame: FrameView, run: RunView, x: int) -> FrameView {
        let f = self.at_run(frame, run, x);
        if erase_usable(self.has_bce, f) && self.has_ech && run.count > 4 {
            f.text("\x1b["@ + decimal(run.count as nat) + "X"@)
        } else {
            f.text(repeated(' ', run.count)).at(f.y, x)
        }
    }

    /// After the cell at column `x` was printed. The last character of a wrapping row is
    /// positioned explicitly: the terminal may be past the last column or on it.
    #[verifier::opaque]
    pub open spec fn cell_printed(self, frame: FrameView, x: int) -> FrameView {
        let cell = self.cells[x];
        let start = if self.wraps && x + cell.columns() >= self.cells.len() {
            frame.at(-1, -1)
        } else {
            frame
        };
        let f = start.silently_moved(self.y, x).rendered(cell.renditions, false).linked(
            cell.hyperlink,
            false,
        ).text(cell.grapheme());
        f.at(f.y, f.x + cell.columns())
    }

    /// Does the terminal show this cell already?
    pub open spec fn unchanged(self, x: int) -> bool {
        self.initialized && x < self.old.len() && self.cells[x] == self.old[x]
    }

    /// Can the empty cell at `x` join the run?
    pub open spec fn joins(self, run: RunView, x: int) -> bool {
        &&& self.cells[x].contents.len() == 0
        &&& run.count == 0 || (run.rendition == self.cells[x].renditions && run.link
            == self.cells[x].hyperlink)
    }

    /// The run that the cell at `x` starts.
    pub open spec fn run_from(self, x: int) -> RunView {
        RunView {
            count: 1,
            rendition: self.cells[x].renditions,
            link: self.cells[x].hyperlink,
        }
    }

    /// The column after the next step.
    pub open spec fn next_x(self, p: RowProgress) -> int {
        if p.run.count == 0 && self.unchanged(p.x) {
            p.x + self.cells[p.x].columns()
        } else if self.cells[p.x].contents.len() == 0 {
            p.x + 1
        } else {
            p.x + self.cells[p.x].columns()
        }
    }

    /// One step: skip an unchanged cell, let an empty one join the run, or print one,
    /// after the run that came before it.
    #[verifier::opaque]
    pub open spec fn step(self, p: RowProgress) -> RowProgress {
        let x = self.next_x(p);
        if p.run.count == 0 && self.unchanged(p.x) {
            RowProgress { x, ..p }
        } else if self.joins(p.run, p.x) {
            RowProgress {
                x,
                run: if p.run.count == 0 {
                    self.run_from(p.x)
                } else {
                    RunView { count: p.run.count + 1, ..p.run }
                },
                ..p
            }
        } else {
            let frame = if p.run.count != 0 {
                self.run_flushed(p.frame, p.run, p.x)
            } else {
                p.frame
            };
            if self.cells[p.x].contents.len() == 0 {
                RowProgress { x, frame, run: self.run_from(p.x), ..p }
            } else {
                RowProgress {
                    x,
                    frame: self.cell_printed(frame, p.x),
                    run: RunView { count: 0, ..p.run },
                    wrote_last: p.wrote_last || x >= self.cells.len(),
                }
            }
        }
    }

    /// All steps to the end of the row.
    pub open spec fn steps(self, p: RowProgress) -> RowProgress
        decreases self.cells.len() + 2 - p.x,
    {
        if p.x < 0 || p.x >= self.cells.len() {
            p
        } else {
            proof {
                reveal(RowJob::step);
            }
            self.steps(self.step(p))
        }
    }

    /// After the run that reaches the end of the row, if there is one.
    #[verifier::opaque]
    pub open spec fn end_flushed(self, p: RowProgress) -> RowProgress {
        if p.run.count == 0 {
            p
        } else {
            let f = self.at_run(p.frame, p.run, p.x);
            if erase_usable(self.has_bce, f) && !self.wraps {
                RowProgress { frame: f.text("\x1b[K"@), ..p }
            } else {
                RowProgress {
                    frame: f.text(repeated(' ', p.run.count)).at(f.y, p.x),
                    wrote_last: true,
                    ..p
                }
            }
        }
    }

    /// The first column written because the previous row wrapped into it.
    pub open spec fn wrapped_into(self, frame: FrameView) -> FrameView {
        let cell = self.cells[0];
        let f = frame.rendered(cell.renditions, false).linked(cell.hyperlink, false).text(
            cell.grapheme(),
        );
        f.at(f.y, f.x + cell.columns())
    }

    /// Before the first step.
    pub open spec fn begun(self, frame: FrameView, wrap: bool) -> RowProgress {
        RowProgress {
            frame: if wrap {
                self.wrapped_into(frame)
            } else {
                frame
            },
            x: if wrap {
                self.cells[0].columns()
            } else {
                0
            },
            run: RunView { count: 0, rendition: Renditions::plain(0), link: None },
            wrote_last: false,
        }
    }

    /// The frame after the row, and whether the next row must start by writing its first
    /// column so that the terminal wraps where the text wrapped.
    pub open spec fn row_put(self, frame: FrameView, wrap: bool, last_row: bool) -> (
        FrameView,
        bool,
    ) {
        let p = self.end_flushed(self.steps(self.begun(frame, wrap)));
        if !p.wrote_last || last_row {
            (p.frame, false)
        } else if self.wraps {
            (p.frame.at(p.frame.y + 1, 0), true)
        } else {
            (p.frame.text("\r\n"@).at(p.frame.y + 1, 0), false)
        }
    }
}

/// Drawing a row that the terminal shows already takes nothing.
pub proof fn lemma_same_row_takes_no_steps(job: RowJob, p: RowProgress)
    requires
        job.initialized,
        job.cells == job.old,
        p.run.count == 0,
        p.x >= 0,
    ensures
        job.steps(p) == (RowProgress { x: job.steps(p).x, ..p }),
    decreases job.cells.len() + 2 - p.x,
{
    reveal(RowJob::step);
    if p.x < job.cells.len() {
        lemma_same_row_takes_no_steps(job, job.step(p));
    }
}

} // verus!
