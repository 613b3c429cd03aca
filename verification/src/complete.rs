//! The server's state: the screen, plus how much of the user's typing it has echoed.

use std::collections::VecDeque;
use std::rc::Rc;
use vstd::prelude::*;
use vstd::string::*;
use vstd::utf8::*;

use crate::cell::{CellView, Link};
use crate::dispatcher::DispatcherView;
use crate::convergence::{
    cursor_falls_short, frame_drawable, frame_ready, frames_reach_the_screen, mirrors,
    titled_alike, titles_fit,
};
use crate::display::{
    frame_builds_on, frame_text, titles_changed, unchanged_screen_needs_no_frame, Display,
    DisplayView,
};
use crate::draw_state::{DrawView, GeometryView, MAX_DIMENSION};
use crate::emulator::{Emulator, EmulatorView};
use crate::framebuffer::{window_dimension, Framebuffer, Screen, MAX_WINDOW_DIMENSION};
use crate::indifference::{
    a_plain_form_shows_the_same, links_change_nothing_else, terminals_that_read_alike_show_alike,
};
use crate::likeness::row_looks;
use crate::protobufs::host as pb;
use crate::protobufs::host::{
    host_message_in, host_messages_round_trip, EchoAckView, HostBytesView, HostInstructionView, HostMessage,
};
use crate::protobufs::resize::ResizeView;
use crate::protobufs::{copy_bytes, Message};
use crate::reachable::{
    a_resized_screen_can_be_spelled, redrawn_rows_plain, sound_grids_are_drawable, sound_screens_are_sendable,
};
use crate::redraw::grid_drawable;
use crate::sender::{StateError, SyncState};
use crate::text::{decimal, push_decimal, text_eq};
use crate::typing::encoded_text_arrives_as_written;
use crate::user::ApplyError;
use crate::views::{group_views, views};
use crate::widths::{ascii_ranges, WidthRange, Widths};

verus! {

broadcast use group_views;

/// How long to wait before acknowledging a frame of input, in milliseconds, so that an
/// echo the client already predicted is not confirmed twice.
pub const ECHO_TIMEOUT: u64 = 50;

/// What the display that writes diffs knows of the terminal: every capability, since it
/// writes for another emulator.
pub open spec fn host_display() -> DisplayView {
    DisplayView {
        has_ech: true,
        has_bce: true,
        has_title: true,
        smcup: Seq::empty(),
        rmcup: Seq::empty(),
    }
}

/// The last frame of input that arrived at or before `cutoff`, or 0.
pub open spec fn newest_covered(history: Seq<(u64, u64)>, cutoff: int) -> u64
    decreases history.len(),
{
    if history.len() == 0 {
        0
    } else if history.last().1 <= cutoff {
        history.last().0
    } else {
        newest_covered(history.drop_last(), cutoff)
    }
}

/// The frames of input that are not older than `n`.
pub open spec fn frames_from(history: Seq<(u64, u64)>, n: u64) -> Seq<(u64, u64)>
    decreases history.len(),
{
    if history.len() == 0 {
        Seq::empty()
    } else if history.last().0 >= n {
        frames_from(history.drop_last(), n).push(history.last())
    } else {
        frames_from(history.drop_last(), n)
    }
}

/// The time before which a frame of input has to have arrived for its echo to be due.
pub open spec fn echo_cutoff(now: u64) -> int {
    if now >= ECHO_TIMEOUT {
        now - ECHO_TIMEOUT
    } else {
        0
    }
}

/// A screen and how much input it reflects.
#[verifier::ext_equal]
pub struct CompleteView {
    pub terminal: EmulatorView,
    /// Frame numbers paired with the time they arrived, oldest first.
    pub input_history: Seq<(u64, u64)>,
    pub echo_ack: u64,
}

/// The part of a diff that acknowledges input.
pub open spec fn echo_part(n: u64) -> HostInstructionView {
    HostInstructionView {
        hostbytes: None,
        resize: None,
        echoack: Some(EchoAckView { echo_ack_num: Some(n) }),
    }
}

/// The part of a diff that carries a new size.
pub open spec fn size_part(width: i32, height: i32) -> HostInstructionView {
    HostInstructionView {
        hostbytes: None,
        resize: Some(ResizeView { width: Some(width), height: Some(height) }),
        echoack: None,
    }
}

/// The part of a diff that carries what to draw.
pub open spec fn frame_part(frame: Seq<char>) -> HostInstructionView {
    HostInstructionView {
        hostbytes: Some(HostBytesView { hoststring: Some(encode_utf8(frame)) }),
        resize: None,
        echoack: None,
    }
}

/// A number, or 0.
pub open spec fn or_zero(x: Option<i32>) -> int {
    match x {
        Some(n) => n as int,
        None => 0,
    }
}

/// Do two screens have different sizes?
pub open spec fn sizes_differ(a: Screen, b: Screen) -> bool {
    a.ds.geo.width != b.ds.geo.width || a.ds.geo.height != b.ds.geo.height
}

/// Do two cells look different?
pub open spec fn cells_differ(a: CellView, b: CellView) -> bool {
    a.grapheme() != b.grapheme() || a.wide != b.wide || a.renditions != b.renditions
}

/// Do two screens of one size differ at a position?
pub open spec fn differ_at(a: Screen, b: Screen, y: int, x: int) -> bool {
    cells_differ(a.rows[y].cells[x], b.rows[y].cells[x])
}

/// Do two screens look different?
pub open spec fn screens_differ(a: Screen, b: Screen) -> bool {
    ||| sizes_differ(a, b)
    ||| exists|y: int, x: int|
        0 <= y < a.ds.geo.height && 0 <= x < a.ds.geo.width && #[trigger] differ_at(a, b, y, x)
    ||| a.ds.geo.cursor_row != b.ds.geo.cursor_row
    ||| a.ds.geo.cursor_col != b.ds.geo.cursor_col
}

/// How two screens differ.
#[derive(Debug, Clone, Copy, PartialEq, Eq, Structural)]
pub enum Difference {
    /// Their sizes differ.
    Size { width: i32, height: i32, other_width: i32, other_height: i32 },
    /// A cell looks different.
    Cell { row: i32, col: i32 },
    /// The cursor is elsewhere.
    Cursor { row: i32, col: i32, other_row: i32, other_col: i32 },
}

/// A number that is not negative, in decimal.
pub open spec fn number_text(n: i32) -> Seq<char> {
    decimal(n as nat)
}

impl Difference {
    /// The message for a person.
    pub open spec fn message(self) -> Seq<char> {
        match self {
            Difference::Size { width, height, other_width, other_height } => "Framebuffer size ("@
                + number_text(width) + "x"@ + number_text(height) + ", "@ + number_text(other_width)
                + "x"@ + number_text(other_height) + ") differs."@,
            Difference::Cell { row, col } => "Cell ("@ + number_text(row) + ", "@ + number_text(col)
                + ") differs."@,
            Difference::Cursor { row, col, other_row, other_col } => "Cursor mismatch: ("@
                + number_text(row) + ", "@ + number_text(col) + ") vs. ("@ + number_text(other_row)
                + ", "@ + number_text(other_col) + ")."@,
        }
    }

    /// Are all of its numbers sizes or positions?
    pub open spec fn on_screens(self) -> bool {
        match self {
            Difference::Size { width, height, other_width, other_height } => width >= 0 && height
                >= 0 && other_width >= 0 && other_height >= 0,
            Difference::Cell { row, col } => row >= 0 && col >= 0,
            Difference::Cursor { row, col, other_row, other_col } => row >= 0 && col >= 0
                && other_row >= 0 && other_col >= 0,
        }
    }

    /// The message for a person.
    pub fn text(&self) -> (s: String)
        requires
            self.on_screens(),
        ensures
            s@ == self.message(),
    {
        match *self {
            Difference::Size { width, height, other_width, other_height } => {
                let mut s = "Framebuffer size (".to_owned();
                push_decimal(&mut s, width as u64);
                s.append("x");
                push_decimal(&mut s, height as u64);
                s.append(", ");
                push_decimal(&mut s, other_width as u64);
                s.append("x");
                push_decimal(&mut s, other_height as u64);
                s.append(") differs.");
                s
            },
            Difference::Cell { row, col } => {
                let mut s = "Cell (".to_owned();
                push_decimal(&mut s, row as u64);
                s.append(", ");
                push_decimal(&mut s, col as u64);
                s.append(") differs.");
                s
            },
            Difference::Cursor { row, col, other_row, other_col } => {
                let mut s = "Cursor mismatch: (".to_owned();
                push_decimal(&mut s, row as u64);
                s.append(", ");
                push_decimal(&mut s, col as u64);
                s.append(") vs. (");
                push_decimal(&mut s, other_row as u64);
                s.append(", ");
                push_decimal(&mut s, other_col as u64);
                s.append(").");
                s
            },
        }
    }
}

/// The differences in the first `n` cells of row `y`.
pub open spec fn row_differences(a: Screen, b: Screen, y: int, n: int) -> Seq<Difference>
    decreases n,
{
    if n <= 0 {
        Seq::empty()
    } else {
        let before = row_differences(a, b, y, n - 1);
        if differ_at(a, b, y, n - 1) {
            before.push(Difference::Cell { row: y as i32, col: (n - 1) as i32 })
        } else {
            before
        }
    }
}

/// The differences in the first `n` rows.
pub open spec fn rows_differences(a: Screen, b: Screen, n: int) -> Seq<Difference>
    decreases n,
{
    if n <= 0 {
        Seq::empty()
    } else {
        rows_differences(a, b, n - 1) + row_differences(a, b, n - 1, a.ds.geo.width)
    }
}

/// How two screens differ: in their size, or cell by cell and in the cursor.
pub open spec fn differences(a: Screen, b: Screen) -> Seq<Difference> {
    let (g, h) = (a.ds.geo, b.ds.geo);
    if sizes_differ(a, b) {
        seq![
            Difference::Size {
                width: g.width as i32,
                height: g.height as i32,
                other_width: h.width as i32,
                other_height: h.height as i32,
            },
        ]
    } else {
        let cells = rows_differences(a, b, g.height);
        if g.cursor_row != h.cursor_row || g.cursor_col != h.cursor_col {
            cells.push(
                Difference::Cursor {
                    row: g.cursor_row as i32,
                    col: g.cursor_col as i32,
                    other_row: h.cursor_row as i32,
                    other_col: h.cursor_col as i32,
                },
            )
        } else {
            cells
        }
    }
}

/// What is said of differences.
pub open spec fn messages(list: Seq<Difference>) -> Seq<Seq<char>> {
    list.map_values(|d: Difference| d.message())
}

impl CompleteView {
    pub open spec fn valid(self) -> bool {
        self.terminal.valid()
    }

    /// A blank screen that reflects no input.
    pub open spec fn initial(
        width: int,
        height: int,
        gen: u64,
        widths: Seq<WidthRange>,
    ) -> CompleteView {
        CompleteView {
            terminal: EmulatorView::initial(width, height, gen, widths),
            input_history: Seq::empty(),
            echo_ack: 0,
        }
    }

    /// With the reply to the application taken.
    pub open spec fn reply_taken(self) -> CompleteView {
        CompleteView {
            terminal: EmulatorView {
                dispatch: DispatcherView { reply: Seq::empty(), ..self.terminal.dispatch },
                ..self.terminal
            },
            ..self
        }
    }

    /// Without its colour queries.
    pub open spec fn queries_cleared(self) -> CompleteView {
        CompleteView {
            terminal: EmulatorView {
                screen: Screen { color_queries: Seq::empty(), ..self.terminal.screen },
                ..self.terminal
            },
            ..self
        }
    }

    /// After output from the host, before the reply to it is taken.
    pub open spec fn fed(self, bytes: Seq<u8>) -> CompleteView {
        CompleteView { terminal: self.terminal.fed(bytes), ..self }
    }

    /// After a resize to the nearest size that a terminal can have, before the reply is
    /// taken.
    pub open spec fn resized(self, width: int, height: int) -> CompleteView {
        CompleteView {
            terminal: EmulatorView {
                screen: self.terminal.screen.resized(
                    window_dimension(width),
                    window_dimension(height),
                ),
                ..self.terminal
            },
            ..self
        }
    }

    /// After one part of a diff. What the terminal would reply is dropped: a state update
    /// is not a channel back. An acknowledgement can only move forward.
    pub open spec fn part_applied(self, part: HostInstructionView) -> CompleteView {
        match part.hostbytes {
            Some(b) => self.fed(
                match b.hoststring {
                    Some(s) => s,
                    None => Seq::empty(),
                },
            ).reply_taken(),
            None => match part.resize {
                Some(size) => self.resized(
                    or_zero(size.width),
                    or_zero(size.height),
                ).reply_taken(),
                None => match part.echoack {
                    Some(a) => {
                        let n = match a.echo_ack_num {
                            Some(n) => n,
                            None => 0,
                        };
                        if n >= self.echo_ack {
                            CompleteView { echo_ack: n, ..self }
                        } else {
                            self
                        }
                    },
                    None => self,
                },
            },
        }
    }

    /// After the parts of a diff.
    pub open spec fn parts_applied(self, parts: Seq<HostInstructionView>) -> CompleteView
        decreases parts.len(),
    {
        if parts.len() == 0 {
            self
        } else {
            self.parts_applied(parts.drop_last()).part_applied(parts.last())
        }
    }

    /// After a diff, or nothing if the diff is malformed.
    pub open spec fn applied(self, diff: Seq<u8>) -> Option<CompleteView> {
        match host_message_in(diff) {
            Some(parts) => Some(self.parts_applied(parts)),
            None => None,
        }
    }

    /// The part of the diff from `existing` about input.
    pub open spec fn echo_parts(self, existing: CompleteView) -> Seq<HostInstructionView> {
        if existing.echo_ack != self.echo_ack {
            seq![echo_part(self.echo_ack)]
        } else {
            Seq::empty()
        }
    }

    /// The part of the diff from `existing` about the size.
    pub open spec fn size_parts(self, existing: CompleteView) -> Seq<HostInstructionView> {
        let screen = self.terminal.screen;
        if sizes_differ(existing.terminal.screen, screen) {
            seq![size_part(screen.ds.geo.width as i32, screen.ds.geo.height as i32)]
        } else {
            Seq::empty()
        }
    }

    /// The part of the diff from `existing` about what to draw.
    pub open spec fn frame_parts(self, existing: CompleteView) -> Seq<HostInstructionView> {
        let frame = frame_text(
            host_display(),
            true,
            existing.terminal.screen,
            self.terminal.screen,
        );
        if frame.len() > 0 {
            seq![frame_part(frame)]
        } else {
            Seq::empty()
        }
    }

    /// The parts of the diff from `existing`, given whether the screens were found to be
    /// the same.
    pub open spec fn diff_parts(self, existing: CompleteView, screens_same: bool) -> Seq<
        HostInstructionView,
    > {
        if screens_same {
            self.echo_parts(existing)
        } else {
            self.echo_parts(existing) + self.size_parts(existing) + self.frame_parts(existing)
        }
    }

    /// The diff from `existing`, given whether the screens were found to be the same.
    pub open spec fn diff(self, existing: CompleteView, screens_same: bool) -> Seq<u8> {
        HostMessage::encoding(self.diff_parts(existing, screens_same))
    }

    /// Is `diff` the diff from `existing`? Screens that look the same may or may not be
    /// found to be the same.
    pub open spec fn possible_diff(self, existing: CompleteView, diff: Seq<u8>) -> bool {
        ||| diff == self.diff(existing, false)
        ||| diff == self.diff(existing, true) && self.same_screen(existing)
    }

    /// Do both states show the same rows, and otherwise the same?
    pub open spec fn same_screen(self, other: CompleteView) -> bool {
        self.terminal.screen.rows == other.terminal.screen.rows
            && self.terminal.screen.rest_same(other.terminal.screen)
    }

    /// Do both states show the same, with as much input acknowledged?
    pub open spec fn same_state(self, other: CompleteView) -> bool {
        self.same_screen(other) && self.echo_ack == other.echo_ack
    }

    /// A blank screen of this size.
    pub open spec fn blank(self, gen: u64) -> CompleteView {
        CompleteView::initial(
            self.terminal.screen.ds.geo.width,
            self.terminal.screen.ds.geo.height,
            gen,
            ascii_ranges(),
        )
    }

    /// After the echo acknowledgement was advanced to cover what is old enough.
    pub open spec fn echo_advanced(self, now: u64) -> CompleteView {
        let newest = newest_covered(self.input_history, echo_cutoff(now));
        CompleteView {
            input_history: frames_from(self.input_history, newest),
            echo_ack: newest,
            ..self
        }
    }

    /// How long until the echo acknowledgement can move.
    pub open spec fn wait(self, now: u64) -> i32 {
        if self.input_history.len() < 2 {
            i32::MAX
        } else {
            let due = self.input_history[1].1 + ECHO_TIMEOUT;
            if due <= now {
                0
            } else {
                (due - now) as i32
            }
        }
    }

    /// Do both states show the same, whatever generations their next rows will be of?
    pub open spec fn copy_of(self, other: CompleteView) -> bool {
        self == CompleteView {
            terminal: EmulatorView {
                screen: Screen {
                    next_gen: self.terminal.screen.next_gen,
                    ..other.terminal.screen
                },
                ..other.terminal
            },
            ..other
        }
    }
}

/// A complete screen state, as one endpoint believes it to be.
pub struct Complete {
    pub(crate) terminal: Emulator,
    pub(crate) display: Display,
    pub(crate) input_history: VecDeque<(u64, u64)>,
    pub(crate) echo_ack: u64,
}

impl View for Complete {
    type V = CompleteView;

    open(crate) spec fn view(&self) -> CompleteView {
        CompleteView {
            terminal: self.terminal@,
            input_history: self.input_history@,
            echo_ack: self.echo_ack,
        }
    }
}

fn copy_history(history: &VecDeque<(u64, u64)>) -> (copy: VecDeque<(u64, u64)>)
    ensures
        copy@ == history@,
{
    let mut copy: VecDeque<(u64, u64)> = VecDeque::new();
    let mut i: usize = 0;
    while i < history.len()
        invariant
            i <= history@.len(),
            copy@ == history@.subrange(0, i as int),
        decreases history@.len() - i,
    {
        copy.push_back(history[i]);
        i = i + 1;
        assert(copy@ =~= history@.subrange(0, i as int));
    }
    assert(copy@ =~= history@);
    copy
}

impl Clone for Complete {
    /// A snapshot that shares its rows with this state.
    fn clone(&self) -> (res: Self)
        ensures
            res@.copy_of(self@),
            self.well_formed() ==> res.well_formed(),
    {
        Complete {
            terminal: self.terminal.clone(),
            display: Display::new(None),
            input_history: copy_history(&self.input_history),
            echo_ack: self.echo_ack,
        }
    }
}

impl Complete {
    /// The screen is consistent, and the display knows what it is assumed to.
    pub open(crate) spec fn well_formed(&self) -> bool {
        self@.valid() && self.display@ == host_display()
    }

    /// What is well formed is valid.
    pub proof fn lemma_well_formed(&self)
        requires
            self.well_formed(),
        ensures
            self@.valid(),
    {
    }

    /// A blank screen that knows the widths of the portable character set.
    pub fn new(width: i32, height: i32) -> (res: Self)
        requires
            1 <= width <= MAX_DIMENSION,
            1 <= height <= MAX_DIMENSION,
        ensures
            res.well_formed(),
            exists|gen: u64|
                res@ == CompleteView::initial(width as int, height as int, gen, ascii_ranges()),
    {
        Complete::with_widths(width, height, Rc::new(Widths::default()))
    }

    /// A blank screen that knows the given character widths.
    pub fn with_widths(width: i32, height: i32, widths: Rc<Widths>) -> (res: Self)
        requires
            1 <= width <= MAX_DIMENSION,
            1 <= height <= MAX_DIMENSION,
        ensures
            res.well_formed(),
            exists|gen: u64|
                res@ == CompleteView::initial(width as int, height as int, gen, widths@),
    {
        let res = Complete {
            terminal: Emulator::with_widths(width, height, widths),
            display: Display::new(None),
            input_history: VecDeque::new(),
            echo_ack: 0,
        };
        proof {
            let gen = choose|gen: u64|
                res.terminal@ == EmulatorView::initial(width as int, height as int, gen, widths@);
            assert(res@ =~= CompleteView::initial(width as int, height as int, gen, widths@));
        }
        res
    }

    /// Feed output from the host, returning whatever the terminal owes it in reply.
    pub fn act(&mut self, bytes: &[u8]) -> (reply: String)
        requires
            old(self).well_formed(),
        ensures
            final(self)@ == old(self)@.fed(bytes@).reply_taken(),
            reply@ == old(self)@.fed(bytes@).terminal.dispatch.reply,
            final(self).well_formed(),
    {
        self.terminal.input(bytes);
        self.terminal.read_octets_to_host()
    }

    /// Forget the colour queries, which the client has by now been told about.
    ///
    /// They accumulate until then: an application writes more than one batch of output
    /// before it is transmitted, and dropping the earlier batch's queries would lose them.
    pub fn clear_color_queries(&mut self)
        requires
            old(self).well_formed(),
        ensures
            final(self)@ == old(self)@.queries_cleared(),
            final(self).well_formed(),
    {
        self.terminal.clear_color_queries();
    }

    /// Apply a resize.
    pub fn act_resize(&mut self, width: i32, height: i32) -> (reply: String)
        requires
            old(self).well_formed(),
        ensures
            final(self)@ == old(self)@.resized(width as int, height as int).reply_taken(),
            reply@ == old(self)@.terminal.dispatch.reply,
            final(self).well_formed(),
    {
        self.terminal.resize(width, height);
        self.terminal.read_octets_to_host()
    }

    pub fn fb(&self) -> (fb: &Framebuffer)
        ensures
            fb@ == self@.terminal.screen,
    {
        self.terminal.fb()
    }

    pub fn echo_ack(&self) -> (n: u64)
        ensures
            n == self@.echo_ack,
    {
        self.echo_ack
    }

    /// Encode the change from `existing` to this state. Whether the screens share their
    /// rows decides how much there is to say.
    pub fn diff_from(&self, existing: &Complete) -> (diff: Vec<u8>)
        requires
            self.well_formed(),
            existing.well_formed(),
        ensures
            self@.possible_diff(existing@, diff@),
    {
        let screens_same = *self.fb() == *existing.fb();
        self.diff_given(existing, screens_same)
    }

    /// Encode the change from `existing` to this state, given whether the screens are the
    /// same.
    pub fn diff_given(&self, existing: &Complete, screens_same: bool) -> (diff: Vec<u8>)
        requires
            self.well_formed(),
            existing.well_formed(),
        ensures
            diff@ == self@.diff(existing@, screens_same),
    {
        let mut output = HostMessage { instruction: Vec::new() };
        assert(output@ =~= Seq::<HostInstructionView>::empty());
        if existing.echo_ack != self.echo_ack {
            let part = pb::Instruction {
                hostbytes: None,
                resize: None,
                echoack: Some(pb::EchoAck { echo_ack_num: Some(self.echo_ack) }),
            };
            assert(part@ == echo_part(self@.echo_ack));
            output.instruction.push(part);
        }
        let ghost first = output@;
        assert(first =~= self@.echo_parts(existing@));
        if !screens_same {
            let (width, height) = (self.fb().ds.width(), self.fb().ds.height());
            if existing.fb().ds.width() != width || existing.fb().ds.height() != height {
                let part = pb::Instruction {
                    hostbytes: None,
                    resize: Some(pb::ResizeMessage { width: Some(width), height: Some(height) }),
                    echoack: None,
                };
                assert(part@ == size_part(width, height));
                output.instruction.push(part);
            }
            let ghost second = output@;
            assert(second =~= first + self@.size_parts(existing@));
            let update = self.display.new_frame(true, existing.fb(), self.fb());
            let update_bytes = update.as_str().as_bytes();
            proof {
                lemma_empty_encoding(update@);
            }
            if update_bytes.len() > 0 {
                let part = pb::Instruction {
                    hostbytes: Some(pb::HostBytes { hoststring: Some(copy_bytes(update_bytes)) }),
                    resize: None,
                    echoack: None,
                };
                assert(part@ == frame_part(update@));
                output.instruction.push(part);
            }
            assert(output@ =~= second + self@.frame_parts(existing@));
        }
        output.encode_to_vec()
    }

    /// Are the two states the same, given whether the screens are?
    pub fn same_given(&self, other: &Complete, screens_same: bool) -> (r: bool)
        ensures
            r == (screens_same && self@.echo_ack == other@.echo_ack),
    {
        screens_same && self.echo_ack == other.echo_ack
    }

    /// Encode this state from nothing.
    pub fn init_diff(&self) -> (diff: Vec<u8>)
        requires
            self.well_formed(),
        ensures
            exists|gen: u64| #[trigger] self@.possible_diff(self@.blank(gen), diff@),
    {
        let blank = Complete::new(self.fb().ds.width(), self.fb().ds.height());
        let diff = self.diff_from(&blank);
        proof {
            let screen = self@.terminal.screen;
            let gen = choose|gen: u64|
                blank@ == CompleteView::initial(
                    screen.ds.geo.width,
                    screen.ds.geo.height,
                    gen,
                    ascii_ranges(),
                );
            assert(self@.possible_diff(self@.blank(gen), diff@));
        }
        diff
    }

    /// Apply a diff received from the peer.
    pub fn apply_string(&mut self, diff: &[u8]) -> (r: Result<(), ApplyError>)
        requires
            old(self).well_formed(),
        ensures
            match old(self)@.applied(diff@) {
                Some(v) => r is Ok && final(self)@ == v,
                None => r == Err::<(), ApplyError>(ApplyError::Malformed) && final(self)@ == old(
                    self,
                )@,
            },
            final(self).well_formed(),
    {
        let input = match HostMessage::decode(diff) {
            Ok(input) => input,
            Err(_) => {
                return Err(ApplyError::Malformed);
            },
        };
        let ghost parts = input@;
        let mut i: usize = 0;
        assert(parts.subrange(0, 0) =~= Seq::<HostInstructionView>::empty());
        while i < input.instruction.len()
            invariant
                parts == input@,
                i <= parts.len(),
                self.well_formed(),
                self@ == old(self)@.parts_applied(parts.subrange(0, i as int)),
            decreases parts.len() - i,
        {
            proof {
                let next = parts.subrange(0, i + 1);
                assert(next.drop_last() =~= parts.subrange(0, i as int));
                assert(next.last() == input.instruction@[i as int]@);
            }
            self.apply_part(&input.instruction[i]);
            i = i + 1;
        }
        assert(parts.subrange(0, i as int) =~= parts);
        Ok(())
    }

    fn apply_part(&mut self, part: &pb::Instruction)
        requires
            old(self).well_formed(),
        ensures
            final(self)@ == old(self)@.part_applied(part@),
            final(self).well_formed(),
    {
        if let Some(hostbytes) = &part.hostbytes {
            match &hostbytes.hoststring {
                Some(s) => {
                    let _reply = self.act(s.as_slice());
                },
                None => {
                    let empty: Vec<u8> = Vec::new();
                    assert(empty@ =~= Seq::<u8>::empty());
                    let _reply = self.act(empty.as_slice());
                },
            }
            return ;
        }
        if let Some(size) = &part.resize {
            let width: i32 = match size.width {
                Some(n) => n,
                None => 0,
            };
            let height: i32 = match size.height {
                Some(n) => n,
                None => 0,
            };
            let _reply = self.act_resize(width, height);
            return ;
        }
        if let Some(echoack) = &part.echoack {
            let n: u64 = match echoack.echo_ack_num {
                Some(n) => n,
                None => 0,
            };
            if n >= self.echo_ack {
                self.echo_ack = n;
            }
        }
    }

    /// Advance the echo acknowledgement to cover every frame older than the timeout.
    ///
    /// Returns whether it moved.
    pub fn set_echo_ack(&mut self, now: u64) -> (moved: bool)
        ensures
            final(self)@ == old(self)@.echo_advanced(now),
            moved == (old(self)@.echo_ack != final(self)@.echo_ack),
            old(self).well_formed() ==> final(self).well_formed(),
    {
        let cutoff: u64 = if now >= ECHO_TIMEOUT {
            now - ECHO_TIMEOUT
        } else {
            0
        };
        let newest = self.newest_before(cutoff);
        let kept = self.frames_since(newest);
        self.input_history = kept;
        let moved = self.echo_ack != newest;
        self.echo_ack = newest;
        moved
    }

    fn newest_before(&self, cutoff: u64) -> (n: u64)
        ensures
            n == newest_covered(self@.input_history, cutoff as int),
    {
        let mut newest: u64 = 0;
        let mut i: usize = 0;
        let ghost history = self@.input_history;
        assert(history.subrange(0, 0) =~= Seq::<(u64, u64)>::empty());
        while i < self.input_history.len()
            invariant
                history == self.input_history@,
                i <= history.len(),
                newest == newest_covered(history.subrange(0, i as int), cutoff as int),
            decreases history.len() - i,
        {
            proof {
                let next = history.subrange(0, i + 1);
                assert(next.drop_last() =~= history.subrange(0, i as int));
            }
            let (frame, at) = self.input_history[i];
            if at <= cutoff {
                newest = frame;
            }
            i = i + 1;
        }
        assert(history.subrange(0, i as int) =~= history);
        newest
    }

    fn frames_since(&self, newest: u64) -> (kept: VecDeque<(u64, u64)>)
        ensures
            kept@ == frames_from(self@.input_history, newest),
    {
        let mut kept: VecDeque<(u64, u64)> = VecDeque::new();
        let mut i: usize = 0;
        let ghost history = self@.input_history;
        assert(history.subrange(0, 0) =~= Seq::<(u64, u64)>::empty());
        while i < self.input_history.len()
            invariant
                history == self.input_history@,
                i <= history.len(),
                kept@ == frames_from(history.subrange(0, i as int), newest),
            decreases history.len() - i,
        {
            proof {
                let next = history.subrange(0, i + 1);
                assert(next.drop_last() =~= history.subrange(0, i as int));
            }
            let (frame, at) = self.input_history[i];
            if frame >= newest {
                kept.push_back((frame, at));
            }
            i = i + 1;
        }
        assert(history.subrange(0, i as int) =~= history);
        kept
    }

    pub fn register_input_frame(&mut self, n: u64, now: u64)
        ensures
            final(self)@ == (CompleteView {
                input_history: old(self)@.input_history.push((n, now)),
                ..old(self)@
            }),
            old(self).well_formed() ==> final(self).well_formed(),
    {
        self.input_history.push_back((n, now));
    }

    /// How long until [`Complete::set_echo_ack`] would have something to do.
    pub fn wait_time(&self, now: u64) -> (ms: i32)
        ensures
            ms == self@.wait(now),
    {
        if self.input_history.len() < 2 {
            return i32::MAX;
        }
        let (_frame, at) = self.input_history[1];
        let due: u128 = at as u128 + ECHO_TIMEOUT as u128;
        if due <= now as u128 {
            return 0;
        }
        #[verifier::truncate]
        ((due - now as u128) as i32)
    }

    /// Does this screen look different from another? For the round-trip self-check.
    pub fn compare(&self, other: &Complete) -> (r: bool)
        requires
            self.well_formed(),
            other.well_formed(),
        ensures
            r == screens_differ(self@.terminal.screen, other@.terminal.screen),
    {
        let (fb, other_fb) = (self.fb(), other.fb());
        let ghost (a, b) = (fb@, other_fb@);
        if fb.ds.height() != other_fb.ds.height() || fb.ds.width() != other_fb.ds.width() {
            return true;
        }
        let mut y: i32 = 0;
        while y < fb.ds.height()
            invariant
                a == fb@,
                b == other_fb@,
                a == self@.terminal.screen,
                b == other@.terminal.screen,
                a.valid(),
                b.valid(),
                !sizes_differ(a, b),
                0 <= y <= a.ds.geo.height,
                forall|k: int, x: int|
                    0 <= k < y && 0 <= x < a.ds.geo.width ==> !#[trigger] differ_at(a, b, k, x),
            decreases a.ds.geo.height - y,
        {
            if row_differs(fb, other_fb, y) {
                proof {
                    let x = choose|x: int|
                        0 <= x < a.ds.geo.width && #[trigger] differ_at(a, b, y as int, x);
                    assert(differ_at(a, b, y as int, x));
                }
                return true;
            }
            y = y + 1;
        }
        fb.ds.cursor_row() != other_fb.ds.cursor_row() || fb.ds.cursor_col()
            != other_fb.ds.cursor_col()
    }

    /// How this screen looks different from another: in its size, or cell by cell and in
    /// the cursor.
    pub fn differences(&self, other: &Complete) -> (list: Vec<Difference>)
        requires
            self.well_formed(),
            other.well_formed(),
        ensures
            list@ == differences(self@.terminal.screen, other@.terminal.screen),
            forall|i: int| 0 <= i < list@.len() ==> (#[trigger] list@[i]).on_screens(),
            list@.len() > 0 <==> screens_differ(self@.terminal.screen, other@.terminal.screen),
    {
        let (fb, other_fb) = (self.fb(), other.fb());
        let ghost (a, b) = (fb@, other_fb@);
        proof {
            lemma_differences(a, b);
        }
        let mut list: Vec<Difference> = Vec::new();
        if fb.ds.height() != other_fb.ds.height() || fb.ds.width() != other_fb.ds.width() {
            list.push(
                Difference::Size {
                    width: fb.ds.width(),
                    height: fb.ds.height(),
                    other_width: other_fb.ds.width(),
                    other_height: other_fb.ds.height(),
                },
            );
            assert(list@ =~= differences(a, b));
            return list;
        }
        let mut y: i32 = 0;
        assert(list@ =~= rows_differences(a, b, 0));
        while y < fb.ds.height()
            invariant
                a == fb@,
                b == other_fb@,
                a.valid(),
                b.valid(),
                !sizes_differ(a, b),
                0 <= y <= a.ds.geo.height,
                list@ == rows_differences(a, b, y as int),
            decreases a.ds.geo.height - y,
        {
            push_row_differences(fb, other_fb, y, &mut list);
            y = y + 1;
        }
        if fb.ds.cursor_row() != other_fb.ds.cursor_row() || fb.ds.cursor_col()
            != other_fb.ds.cursor_col() {
            list.push(
                Difference::Cursor {
                    row: fb.ds.cursor_row(),
                    col: fb.ds.cursor_col(),
                    other_row: other_fb.ds.cursor_row(),
                    other_col: other_fb.ds.cursor_col(),
                },
            );
        }
        list
    }
}

proof fn lemma_row_differences(a: Screen, b: Screen, y: int, n: int)
    requires
        0 <= y <= MAX_DIMENSION,
        n <= MAX_DIMENSION,
    ensures
        forall|i: int|
            0 <= i < row_differences(a, b, y, n).len() ==> (#[trigger] row_differences(
                a,
                b,
                y,
                n,
            )[i]).on_screens(),
        row_differences(a, b, y, n).len() > 0 <==> exists|x: int|
            0 <= x < n && #[trigger] differ_at(a, b, y, x),
    decreases n,
{
    if n > 0 {
        lemma_row_differences(a, b, y, n - 1);
        if row_differences(a, b, y, n - 1).len() > 0 {
            let x = choose|x: int| 0 <= x < n - 1 && #[trigger] differ_at(a, b, y, x);
            assert(differ_at(a, b, y, x));
        }
    }
}

proof fn lemma_rows_differences(a: Screen, b: Screen, n: int)
    requires
        n <= MAX_DIMENSION,
        a.ds.geo.width <= MAX_DIMENSION,
    ensures
        forall|i: int|
            0 <= i < rows_differences(a, b, n).len() ==> (#[trigger] rows_differences(
                a,
                b,
                n,
            )[i]).on_screens(),
        rows_differences(a, b, n).len() > 0 <==> exists|y: int, x: int|
            0 <= y < n && 0 <= x < a.ds.geo.width && #[trigger] differ_at(a, b, y, x),
    decreases n,
{
    if n > 0 {
        let w = a.ds.geo.width;
        lemma_rows_differences(a, b, n - 1);
        lemma_row_differences(a, b, n - 1, w);
        let (before, row) = (rows_differences(a, b, n - 1), row_differences(a, b, n - 1, w));
        assert forall|i: int| 0 <= i < (before + row).len() implies (
        #[trigger] (before + row)[i]).on_screens() by {
            if i >= before.len() {
                assert((before + row)[i] == row[i - before.len()]);
            }
        }
        if before.len() > 0 {
            let (y, x) = choose|y: int, x: int|
                0 <= y < n - 1 && 0 <= x < w && #[trigger] differ_at(a, b, y, x);
            assert(differ_at(a, b, y, x));
        }
        if row.len() > 0 {
            let x = choose|x: int| 0 <= x < w && #[trigger] differ_at(a, b, n - 1, x);
            assert(differ_at(a, b, n - 1, x));
        }
    }
}

/// There are differences exactly where two screens look different.
proof fn lemma_differences(a: Screen, b: Screen)
    requires
        a.valid(),
        b.valid(),
    ensures
        forall|i: int|
            0 <= i < differences(a, b).len() ==> (#[trigger] differences(
                a,
                b,
            )[i]).on_screens(),
        differences(a, b).len() > 0 <==> screens_differ(a, b),
{
    lemma_rows_differences(a, b, a.ds.geo.height);
}

/// Does a cell look different on two screens of one size?
fn cell_differs(fb: &Framebuffer, other_fb: &Framebuffer, y: i32, x: i32) -> (r: bool)
    requires
        fb@.valid(),
        other_fb@.valid(),
        !sizes_differ(fb@, other_fb@),
        0 <= y < fb@.ds.geo.height,
        0 <= x < fb@.ds.geo.width,
    ensures
        r == differ_at(fb@, other_fb@, y as int, x as int),
{
    if let (Some(a), Some(b)) = (fb.cell(y, x), other_fb.cell(y, x)) {
        let mut ga = String::new();
        let mut gb = String::new();
        a.print_grapheme(&mut ga);
        b.print_grapheme(&mut gb);
        assert(ga@ =~= a@.grapheme());
        assert(gb@ =~= b@.grapheme());
        return !text_eq(ga.as_str(), gb.as_str()) || a.wide() != b.wide() || *a.renditions()
            != *b.renditions();
    }
    false
}

/// Adds the differences in a row.
fn push_row_differences(
    fb: &Framebuffer,
    other_fb: &Framebuffer,
    y: i32,
    out: &mut Vec<Difference>,
)
    requires
        fb@.valid(),
        other_fb@.valid(),
        !sizes_differ(fb@, other_fb@),
        0 <= y < fb@.ds.geo.height,
    ensures
        final(out)@ == old(out)@ + row_differences(
            fb@,
            other_fb@,
            y as int,
            fb@.ds.geo.width,
        ),
{
    let mut x: i32 = 0;
    assert(out@ =~= old(out)@ + row_differences(fb@, other_fb@, y as int, 0));
    while x < fb.ds.width()
        invariant
            fb@.valid(),
            other_fb@.valid(),
            !sizes_differ(fb@, other_fb@),
            0 <= y < fb@.ds.geo.height,
            0 <= x <= fb@.ds.geo.width,
            out@ == old(out)@ + row_differences(fb@, other_fb@, y as int, x as int),
        decreases fb@.ds.geo.width - x,
    {
        if cell_differs(fb, other_fb, y, x) {
            out.push(Difference::Cell { row: y, col: x });
        }
        x = x + 1;
        assert(out@ =~= old(out)@ + row_differences(fb@, other_fb@, y as int, x as int));
    }
}

/// Does a row look different on two screens of one size?
fn row_differs(fb: &Framebuffer, other_fb: &Framebuffer, y: i32) -> (r: bool)
    requires
        fb@.valid(),
        other_fb@.valid(),
        !sizes_differ(fb@, other_fb@),
        0 <= y < fb@.ds.geo.height,
    ensures
        r == exists|x: int|
            0 <= x < fb@.ds.geo.width && #[trigger] differ_at(fb@, other_fb@, y as int, x),
{
    let mut x: i32 = 0;
    while x < fb.ds.width()
        invariant
            fb@.valid(),
            other_fb@.valid(),
            !sizes_differ(fb@, other_fb@),
            0 <= y < fb@.ds.geo.height,
            0 <= x <= fb@.ds.geo.width,
            forall|k: int| 0 <= k < x ==> !#[trigger] differ_at(fb@, other_fb@, y as int, k),
        decreases fb@.ds.geo.width - x,
    {
        if cell_differs(fb, other_fb, y, x) {
            return true;
        }
        x = x + 1;
    }
    false
}

/// Only an empty text is encoded as nothing.
proof fn lemma_empty_encoding(s: Seq<char>)
    ensures
        (encode_utf8(s).len() == 0) == (s.len() == 0),
{
    if encode_utf8(s).len() == 0 {
        assert(encode_utf8(s) =~= encode_utf8(Seq::<char>::empty()));
        crate::text::lemma_encoding_is_injective(s, Seq::<char>::empty());
    }
}

impl PartialEq for Complete {
    fn eq(&self, other: &Self) -> (r: bool)
        ensures
            r ==> self@.same_state(other@),
    {
        let screens_same = self.terminal == other.terminal;
        self.same_given(other, screens_same)
    }
}

impl vstd::std_specs::cmp::PartialEqSpecImpl for Complete {
    open spec fn obeys_eq_spec() -> bool {
        false
    }

    open spec fn eq_spec(&self, other: &Self) -> bool {
        self@.same_state(other@)
    }
}

impl Eq for Complete {

}

impl SyncState for Complete {
    open spec fn consistent(&self) -> bool {
        self.well_formed()
    }

    open spec fn is_snapshot_of(&self, original: &Self) -> bool {
        self@.copy_of(original@)
    }

    open spec fn subtracted(before: Self, prefix: Self, after: Self) -> bool {
        after@ == before@
    }

    open spec fn is_diff(&self, existing: &Self, diff: Seq<u8>) -> bool {
        self@.possible_diff(existing@, diff)
    }

    open spec fn is_init_diff(&self, diff: Seq<u8>) -> bool {
        exists|gen: u64| #[trigger] self@.possible_diff(self@.blank(gen), diff)
    }

    open spec fn readable(diff: Seq<u8>) -> bool {
        host_message_in(diff) is Some
    }

    open spec fn applied(before: Self, diff: Seq<u8>, after: Self) -> bool {
        before@.applied(diff) == Some(after@)
    }

    open spec fn input_reset(before: Self, after: Self) -> bool {
        after@ == before@
    }

    /// Rows are told apart by identity, so states that look the same may be found to be
    /// different. Those that are found to be the same are.
    open spec fn found_same(&self, other: &Self, same: bool) -> bool {
        same ==> self@.same_state(other@)
    }

    open spec fn differs(&self, other: &Self) -> bool {
        screens_differ(self@.terminal.screen, other@.terminal.screen)
    }

    open spec fn reported(&self, other: &Self, lines: Seq<Seq<char>>) -> bool {
        lines == messages(differences(self@.terminal.screen, other@.terminal.screen))
    }

    fn snapshot(&self) -> (copy: Self) {
        self.clone()
    }

    /// A screen does not grow, so there is no prefix to drop.
    fn subtract(&mut self, _prefix: &Self) {
    }

    fn diff_from(&self, existing: &Self) -> (diff: Vec<u8>) {
        Complete::diff_from(self, existing)
    }

    fn init_diff(&self) -> (diff: Vec<u8>) {
        Complete::init_diff(self)
    }

    fn apply_string(&mut self, diff: &[u8]) -> (r: Result<(), StateError>) {
        match Complete::apply_string(self, diff) {
            Ok(()) => Ok(()),
            Err(_) => Err(StateError),
        }
    }

    fn reset_input(&mut self) {
    }

    fn same_as(&self, other: &Self) -> (same: bool) {
        *self == *other
    }

    fn compare(&self, other: &Self) -> (r: bool) {
        Complete::compare(self, other)
    }

    fn report(&self, other: &Self) -> (lines: Vec<String>) {
        let list = self.differences(other);
        let mut lines: Vec<String> = Vec::new();
        let mut i: usize = 0;
        assert(views(lines@) =~= messages(list@).subrange(0, 0));
        while i < list.len()
            invariant
                i <= list@.len(),
                forall|k: int| 0 <= k < list@.len() ==> (#[trigger] list@[k]).on_screens(),
                views(lines@) == messages(list@).subrange(0, i as int),
            decreases list@.len() - i,
        {
            lines.push(list[i].text());
            i = i + 1;
            assert(views(lines@) =~= messages(list@).subrange(0, i as int));
        }
        assert(messages(list@).subrange(0, i as int) =~= messages(list@));
        lines
    }
}

/// A state that shows what another shows needs no diff from it, whether or not the two
/// are found to share their rows.
pub proof fn an_unchanged_state_needs_no_diff(state: CompleteView, copy: CompleteView, diff: Seq<u8>)
    requires
        state.valid(),
        copy.copy_of(state),
        state.possible_diff(copy, diff),
    ensures
        diff == Seq::<u8>::empty(),
{
    unchanged_screen_needs_no_frame(host_display(), copy.terminal.screen, state.terminal.screen);
    assert(state.diff_parts(copy, false) =~= Seq::<HostInstructionView>::empty());
    assert(state.diff_parts(copy, true) =~= Seq::<HostInstructionView>::empty());
}

/// A diff that was written can be read, and what it says about input and size takes
/// effect: afterwards the acknowledgement is the newer state's.
pub proof fn applying_a_diff_reaches_the_acknowledgement(
    older: CompleteView,
    newer: CompleteView,
    diff: Seq<u8>,
)
    requires
        older.echo_ack <= newer.echo_ack,
        newer.possible_diff(older, diff),
        diff.len() <= u64::MAX,
    ensures
        older.applied(diff) is Some,
        older.applied(diff)->0.echo_ack == newer.echo_ack,
{
    let same = diff == newer.diff(older, true);
    let parts = newer.diff_parts(older, same);
    host_messages_round_trip(parts);
    let echo = newer.echo_parts(older);
    let rest = if same {
        Seq::empty()
    } else {
        newer.size_parts(older) + newer.frame_parts(older)
    };
    assert(parts =~= echo + rest);
    lemma_parts_applied_concat(older, echo, rest);
    lemma_parts_keep_acknowledgement(older.parts_applied(echo), rest);
    lemma_echo_applied(older, newer.echo_ack);
}

proof fn lemma_echo_applied(v: CompleteView, n: u64)
    requires
        v.echo_ack <= n,
    ensures
        v.parts_applied(seq![echo_part(n)]).echo_ack == n,
        v.parts_applied(Seq::empty()) == v,
{
    let parts = seq![echo_part(n)];
    assert(parts.drop_last() =~= Seq::<HostInstructionView>::empty());
    assert(v.parts_applied(parts) == v.parts_applied(parts.drop_last()).part_applied(
        parts.last(),
    ));
}

proof fn lemma_parts_applied_concat(
    v: CompleteView,
    a: Seq<HostInstructionView>,
    b: Seq<HostInstructionView>,
)
    ensures
        v.parts_applied(a + b) == v.parts_applied(a).parts_applied(b),
    decreases b.len(),
{
    if b.len() == 0 {
        assert(a + b =~= a);
    } else {
        assert((a + b).drop_last() =~= a + b.drop_last());
        lemma_parts_applied_concat(v, a, b.drop_last());
    }
}

proof fn lemma_parts_keep_acknowledgement(v: CompleteView, parts: Seq<HostInstructionView>)
    requires
        forall|i: int| 0 <= i < parts.len() ==> (#[trigger] parts[i]).echoack is None,
    ensures
        v.parts_applied(parts).echo_ack == v.echo_ack,
    decreases parts.len(),
{
    if parts.len() > 0 {
        lemma_parts_keep_acknowledgement(v, parts.drop_last());
        assert(parts.last() == parts[parts.len() - 1]);
    }
}

/// An acknowledgement of input never moves back, whatever a peer sends.
pub proof fn acknowledgements_only_move_forward(v: CompleteView, parts: Seq<HostInstructionView>)
    ensures
        v.parts_applied(parts).echo_ack >= v.echo_ack,
    decreases parts.len(),
{
    if parts.len() > 0 {
        acknowledgements_only_move_forward(v, parts.drop_last());
    }
}

impl CompleteView {
    /// Does this state, whose terminal only ever sees frames, show what another state holds?
    pub open spec fn mirrors(self, other: CompleteView) -> bool {
        &&& self.terminal.settled()
        &&& mirrors(self.terminal.screen, other.terminal.screen)
    }

    /// Do both states have the same titles?
    pub open spec fn titled_like(self, other: CompleteView) -> bool {
        titled_alike(self.terminal.screen, other.terminal.screen)
    }

    /// Are the titles of this state told to one that has those of `older`? They are if an
    /// application set them, if they fit, and if not only the icon name changed: that alone
    /// makes no difference between states.
    pub open spec fn titles_told(self, older: CompleteView) -> bool {
        let (last, f) = (older.terminal.screen, self.terminal.screen);
        &&& titles_fit(f)
        &&& f.title_initialized || titled_alike(f, last)
        &&& self.same_screen(older) ==> f.icon_name == last.icon_name
    }

    /// Can a diff from `older` carry this state to a terminal that takes characters to be
    /// this wide?
    ///
    /// Of the screens that applications draw, these cannot be carried:
    /// - a row to redraw holds a wide character half of which was overwritten, colour
    ///   components above 255, or combining characters without a base that fill their cell;
    /// - a link changes where redrawn text runs on into the next row, which cancels the wrap;
    /// - the size changes while a link is open;
    /// - the frame writes the last column of the last row and the cursor belongs a few
    ///   columns before it: the backspaces that lead there leave it one column short;
    /// - the pen has colour components above 255, or the window is larger than a message
    ///   about its size can tell.
    pub open spec fn diffable(self, older: CompleteView, widths: Seq<WidthRange>) -> bool {
        let (last, f) = (older.terminal.screen, self.terminal.screen);
        &&& self.spellable(older, widths)
        &&& sizes_differ(last, f) ==> last.ds.hyperlink is None
    }

    /// Can a diff from `older` spell this state, links aside, to a terminal that takes
    /// characters to be this wide? See [`CompleteView::diffable`].
    pub open spec fn spellable(self, older: CompleteView, widths: Seq<WidthRange>) -> bool {
        let (last, f) = (older.terminal.screen, self.terminal.screen);
        &&& last.valid()
        &&& f.sendable()
        &&& f.events_sendable(last)
        &&& grid_drawable(widths, frame_builds_on(true, last, f), last, f)
        &&& f.ds.geo.width <= MAX_WINDOW_DIMENSION
        &&& f.ds.geo.height <= MAX_WINDOW_DIMENSION
        &&& !cursor_falls_short(host_display(), true, last, f)
    }
}

/// A change of size leaves a terminal that draws plainly so.
proof fn lemma_resized_plainly(s: Screen, width: int, height: int)
    requires
        s.draws_plainly(),
        1 <= width <= MAX_WINDOW_DIMENSION,
        1 <= height <= MAX_WINDOW_DIMENSION,
    ensures
        ({
            let t = s.resized(width, height);
            &&& t.draws_plainly()
            &&& t.ds.geo.width == width
            &&& t.ds.geo.height == height
            &&& t.ds.next_print_will_wrap == s.ds.next_print_will_wrap
            &&& t.ds.hyperlink == s.ds.hyperlink
            &&& t.ds.modes == s.ds.modes
            &&& titled_alike(t, s)
        }),
{
    reveal(Screen::resized);
    reveal(DrawView::resized);
    reveal(GeometryView::resized);
    let t = s.resized(width, height);
    assert forall|i: int| 0 <= i < t.rows.len() implies (#[trigger] t.rows[i]).cells.len()
        == width by {
        if i < s.rows.len() {
            assert(s.rows[i].cells.len() == s.ds.geo.width);
        }
    }
}

/// The state after the part of a diff about the size.
proof fn lemma_size_applied(client: CompleteView, older: CompleteView, newer: CompleteView)
    requires
        client.mirrors(older),
        newer.diffable(older, client.terminal.widths),
    ensures
        ({
            let m = client.parts_applied(newer.size_parts(older));
            let builds = frame_builds_on(true, older.terminal.screen, newer.terminal.screen);
            &&& frame_ready(m.terminal, builds, older.terminal.screen)
            &&& m.terminal.widths == client.terminal.widths
            &&& m.terminal.screen.ds.geo.width == newer.terminal.screen.ds.geo.width
            &&& m.terminal.screen.ds.geo.height == newer.terminal.screen.ds.geo.height
            &&& m.terminal.screen.ds.modes == client.terminal.screen.ds.modes
            &&& titled_alike(m.terminal.screen, client.terminal.screen)
        }),
{
    let (last, f) = (older.terminal.screen, newer.terminal.screen);
    let parts = newer.size_parts(older);
    if sizes_differ(last, f) {
        assert(parts.drop_last() =~= Seq::empty());
        assert(client.parts_applied(parts.drop_last()) == client);
        lemma_resized_plainly(client.terminal.screen, f.ds.geo.width, f.ds.geo.height);
    }
}

/// The state after the part of a diff about what to draw.
proof fn lemma_frame_applied(m: CompleteView, older: CompleteView, newer: CompleteView)
    requires
        frame_drawable(
            m.terminal,
            host_display(),
            true,
            older.terminal.screen,
            newer.terminal.screen,
        ),
    ensures
        ({
            let (last, f) = (older.terminal.screen, newer.terminal.screen);
            let after = m.parts_applied(newer.frame_parts(older));
            &&& after.terminal.settled()
            &&& after.terminal.widths == m.terminal.widths
            &&& mirrors(after.terminal.screen, f)
            &&& if titles_changed(true, last, f) {
                titles_fit(f) ==> titled_alike(after.terminal.screen, f)
            } else {
                titled_alike(after.terminal.screen, m.terminal.screen)
            }
        }),
{
    let (last, f) = (older.terminal.screen, newer.terminal.screen);
    frames_reach_the_screen(m.terminal, host_display(), true, last, f);
    let frame = frame_text(host_display(), true, last, f);
    encoded_text_arrives_as_written(m.terminal, frame);
    let parts = newer.frame_parts(older);
    if frame.len() > 0 {
        assert(parts.drop_last() =~= Seq::empty());
        assert(m.parts_applied(parts.drop_last()) == m);
    } else {
        assert(m.terminal.typed(frame) == m.terminal);
    }
}

/// A diff takes a peer from one state to the next: applied to a state that shows what the
/// older one holds, it gives a state that shows what the newer one holds, and is ready for
/// the next diff. [`CompleteView::diffable`] says which states are left out.
pub proof fn applying_a_diff_reaches_the_newer_screen(
    client: CompleteView,
    older: CompleteView,
    newer: CompleteView,
    diff: Seq<u8>,
)
    requires
        client.mirrors(older),
        newer.diffable(older, client.terminal.widths),
        newer.possible_diff(older, diff),
        diff.len() <= u64::MAX,
    ensures
        client.applied(diff) is Some,
        client.applied(diff)->0.mirrors(newer),
        client.applied(diff)->0.terminal.widths == client.terminal.widths,
        client.titled_like(older) && newer.titles_told(older)
            ==> client.applied(diff)->0.titled_like(newer),
{
    let same = diff == newer.diff(older, true) && newer.same_screen(older);
    let parts = newer.diff_parts(older, same);
    host_messages_round_trip(parts);
    let (echo, size, frame) = (
        newer.echo_parts(older),
        newer.size_parts(older),
        newer.frame_parts(older),
    );
    let a = client.parts_applied(echo);
    assert(a.terminal == client.terminal) by {
        if echo.len() > 0 {
            assert(echo.drop_last() =~= Seq::empty());
            assert(client.parts_applied(echo.drop_last()) == client);
        }
    }
    if same {
        let (last, f) = (older.terminal.screen, newer.terminal.screen);
        assert(last.rows == f.rows);
        assert(mirrors(client.terminal.screen, f));
    } else {
        lemma_parts_applied_concat(client, echo, size);
        lemma_parts_applied_concat(client, echo + size, frame);
        lemma_size_applied(a, older, newer);
        let b = a.parts_applied(size);
        lemma_frame_applied(b, older, newer);
    }
}

/// A diff applied to a copy of the older state reproduces the newer one: the same size,
/// every cell, the same cursor and the same acknowledgement. The older state is one that a
/// diff can be applied to, as every state is that came about by diffs alone.
pub proof fn a_diff_applied_to_the_older_state_reproduces_the_newer_one(
    copy: CompleteView,
    older: CompleteView,
    newer: CompleteView,
    diff: Seq<u8>,
)
    requires
        copy.copy_of(older),
        older.mirrors(older),
        newer.diffable(older, older.terminal.widths),
        newer.possible_diff(older, diff),
        newer.echo_ack >= older.echo_ack,
        diff.len() <= u64::MAX,
    ensures
        copy.applied(diff) is Some,
        !screens_differ(copy.applied(diff)->0.terminal.screen, newer.terminal.screen),
        copy.applied(diff)->0.echo_ack == newer.echo_ack,
        copy.applied(diff)->0.mirrors(newer),
{
    applying_a_diff_reaches_the_newer_screen(copy, older, newer, diff);
    let parts = if diff == newer.diff(older, true) && newer.same_screen(older) {
        newer.diff_parts(older, true)
    } else {
        newer.diff_parts(older, false)
    };
    lemma_same_acknowledgement(copy, older, parts);
    host_messages_round_trip(parts);
    applying_a_diff_reaches_the_acknowledgement(older, newer, diff);
    let (s, f) = (copy.applied(diff)->0.terminal.screen, newer.terminal.screen);
    assert forall|y: int, x: int|
        0 <= y < s.ds.geo.height && 0 <= x < s.ds.geo.width implies !(#[trigger] differ_at(
        s,
        f,
        y,
        x,
    )) by {
        assert(row_looks(s.rows[y].cells, f.rows[y].cells));
        assert(s.rows[y].cells[x].looks_like(f.rows[y].cells[x]));
    }
}

impl CompleteView {
    /// The terminal that the frame of a diff from `older` is drawn on, when the diff is
    /// applied to this state.
    pub open spec fn canvas(self, older: CompleteView, newer: CompleteView) -> EmulatorView {
        self.parts_applied(newer.size_parts(older)).terminal
    }

    /// Does the frame of a diff from `older` do the same on this state as on a terminal that
    /// draws plainly? The terminal may be one that an application has put into insert or
    /// origin mode, whose margins it has set, or that is about to wrap; and where the size
    /// changes, one inside a link.
    pub open spec fn reads_plainly(self, older: CompleteView, newer: CompleteView) -> bool {
        let (last, f) = (older.terminal.screen, newer.terminal.screen);
        let e = self.canvas(older, newer);
        e.reads_like(e.made_plain(link_kept(last, f)), frame_text(host_display(), true, last, f))
    }
}

/// The link that a frame from `last` to `f` takes the terminal to be in. One that does not
/// build on the last screen knows of none.
pub open spec fn link_kept(last: Screen, f: Screen) -> Option<Link> {
    if sizes_differ(last, f) {
        None
    } else {
        last.ds.hyperlink
    }
}

/// The terminal after the part of a diff about the size.
proof fn lemma_canvas(copy: CompleteView, older: CompleteView, newer: CompleteView)
    requires
        copy.copy_of(older),
        older.terminal.sound(),
        older.terminal.settled(),
        newer.spellable(older, older.terminal.widths),
    ensures
        ({
            let (last, f) = (older.terminal.screen, newer.terminal.screen);
            let e = copy.canvas(older, newer);
            let s = copy.terminal.screen;
            &&& e == (EmulatorView {
                screen: if sizes_differ(last, f) {
                    s.resized(f.ds.geo.width, f.ds.geo.height)
                } else {
                    s
                },
                dispatch: e.dispatch,
                ..copy.terminal
            })
            &&& e.sound()
            &&& e.screen.ds.geo.width == f.ds.geo.width
            &&& e.screen.ds.geo.height == f.ds.geo.height
            &&& e.screen.ds.modes == last.ds.modes
        }),
{
    let (last, f) = (older.terminal.screen, newer.terminal.screen);
    let parts = newer.size_parts(older);
    let s = copy.terminal.screen;
    assert(s.sound(older.terminal.widths));
    if sizes_differ(last, f) {
        assert(parts.drop_last() =~= Seq::empty());
        assert(copy.parts_applied(parts.drop_last()) == copy);
        assert(copy.parts_applied(parts) == copy.part_applied(parts.last()));
        a_resized_screen_can_be_spelled(
            s,
            older.terminal.widths,
            f.ds.geo.width,
            f.ds.geo.height,
        );
        assert(copy.canvas(older, newer).screen == s.resized(f.ds.geo.width, f.ds.geo.height));
        assert(s.resized(f.ds.geo.width, f.ds.geo.height).ds == s.ds.resized(
            f.ds.geo.width,
            f.ds.geo.height,
        )) by {
            reveal(Screen::resized);
        }
        reveal(DrawView::resized);
        reveal(GeometryView::resized);
    } else {
        assert(copy.parts_applied(parts) == copy);
    }
}

/// A frame can be drawn on the plain form of the terminal.
proof fn lemma_plain_canvas(copy: CompleteView, older: CompleteView, newer: CompleteView)
    requires
        copy.copy_of(older),
        older.terminal.sound(),
        older.terminal.settled(),
        newer.spellable(older, older.terminal.widths),
    ensures
        ({
            let (last, f) = (older.terminal.screen, newer.terminal.screen);
            let p = copy.canvas(older, newer).made_plain(link_kept(last, f));
            frame_drawable(p, host_display(), true, last, f)
        }),
{
    lemma_canvas(copy, older, newer);
    let (last, f) = (older.terminal.screen, newer.terminal.screen);
    let e = copy.canvas(older, newer);
    let p = e.made_plain(link_kept(last, f));
    assert(p.screen.draws_plainly());
    if !sizes_differ(last, f) {
        assert forall|i: int| 0 <= i < last.rows.len() implies row_looks(
            (#[trigger] p.screen.rows[i]).cells,
            last.rows[i].cells,
        ) by {
            assert(p.screen.rows[i] == last.rows[i]);
        }
        assert(mirrors(p.screen, last));
    }
}

/// A terminal that shows what another does, links and modes aside, is no different from
/// what that one mirrors.
proof fn lemma_alike_screens(s: Screen, t: Screen, f: Screen)
    requires
        s.alike(t),
        mirrors(t, f),
        f.valid(),
    ensures
        !screens_differ(s, f),
{
    let (u, v) = (s.unlinked().modeless(), t.unlinked().modeless());
    assert(u.ds.geo == v.ds.geo);
    assert(s.rows.len() == u.rows.len() && t.rows.len() == v.rows.len());
    assert forall|y: int, x: int|
        0 <= y < s.ds.geo.height && 0 <= x < s.ds.geo.width implies !(#[trigger] differ_at(
        s,
        f,
        y,
        x,
    )) by {
        assert(row_looks(t.rows[y].cells, f.rows[y].cells));
        assert(t.rows[y].cells[x].looks_like(f.rows[y].cells[x]));
        assert(u.rows[y] == s.rows[y].unlinked() && v.rows[y] == t.rows[y].unlinked());
        assert(s.rows[y].unlinked().cells.len() == t.rows[y].unlinked().cells.len());
        assert(u.rows[y].cells[x] == s.rows[y].cells[x].unlinked());
        assert(v.rows[y].cells[x] == t.rows[y].cells[x].unlinked());
    }
}

/// The state after a diff is the one after its parts.
proof fn lemma_diff_parts(copy: CompleteView, older: CompleteView, newer: CompleteView, same: bool)
    ensures
        ({
            let parts = newer.diff_parts(older, same);
            let a = copy.parts_applied(newer.echo_parts(older));
            &&& a.terminal == copy.terminal
            &&& copy.parts_applied(parts) == if same {
                a
            } else {
                a.parts_applied(newer.size_parts(older)).parts_applied(newer.frame_parts(older))
            }
        }),
{
    let (echo, size, frame) = (
        newer.echo_parts(older),
        newer.size_parts(older),
        newer.frame_parts(older),
    );
    if echo.len() > 0 {
        assert(echo.drop_last() =~= Seq::empty());
        assert(copy.parts_applied(echo.drop_last()) == copy);
    }
    if same {
        assert(newer.diff_parts(older, same) =~= echo);
    } else {
        lemma_parts_applied_concat(copy, echo, size);
        lemma_parts_applied_concat(copy, echo + size, frame);
        assert(newer.diff_parts(older, same) =~= echo + size + frame);
    }
}

/// A diff applied to a copy of the older state makes it look like the newer one, whatever
/// modes an application has left the older state in, if only the frame does the same there
/// as on a terminal that draws plainly.
pub proof fn a_diff_applied_to_any_copy_makes_it_look_like_the_newer_state(
    copy: CompleteView,
    older: CompleteView,
    newer: CompleteView,
    diff: Seq<u8>,
)
    requires
        copy.copy_of(older),
        older.terminal.sound(),
        older.terminal.settled(),
        newer.terminal.screen.valid(),
        newer.spellable(older, older.terminal.widths),
        newer.possible_diff(older, diff),
        copy.reads_plainly(older, newer) || (newer.same_screen(older) && diff == newer.diff(
            older,
            true,
        )),
        newer.echo_ack >= older.echo_ack,
        diff.len() <= u64::MAX,
    ensures
        copy.applied(diff) is Some,
        !screens_differ(copy.applied(diff)->0.terminal.screen, newer.terminal.screen),
        copy.applied(diff)->0.echo_ack == newer.echo_ack,
{
    let same = diff == newer.diff(older, true) && newer.same_screen(older);
    let parts = newer.diff_parts(older, same);
    host_messages_round_trip(parts);
    lemma_same_acknowledgement(copy, older, parts);
    applying_a_diff_reaches_the_acknowledgement(older, newer, diff);
    lemma_diff_parts(copy, older, newer, same);
    let a = copy.parts_applied(newer.echo_parts(older));
    if same {
        assert(copy.terminal.screen.rows == newer.terminal.screen.rows);
    } else {
        lemma_size_terminal(a, copy, older, newer);
        lemma_frame_read(a.parts_applied(newer.size_parts(older)), copy, older, newer);
    }
}

/// The state after the part of a diff about what to draw, where the frame reads as it does
/// on a terminal that draws plainly.
proof fn lemma_frame_read(
    b: CompleteView,
    copy: CompleteView,
    older: CompleteView,
    newer: CompleteView,
)
    requires
        copy.copy_of(older),
        older.terminal.sound(),
        older.terminal.settled(),
        newer.terminal.screen.valid(),
        newer.spellable(older, older.terminal.widths),
        copy.reads_plainly(older, newer),
        b.terminal == copy.canvas(older, newer),
    ensures
        !screens_differ(
            b.parts_applied(newer.frame_parts(older)).terminal.screen,
            newer.terminal.screen,
        ),
{
    let (last, f) = (older.terminal.screen, newer.terminal.screen);
    let e = copy.canvas(older, newer);
    let frame = newer.frame_parts(older);
    lemma_canvas(copy, older, newer);
    lemma_plain_canvas(copy, older, newer);
    let p = e.made_plain(link_kept(last, f));
    a_plain_form_shows_the_same(e, link_kept(last, f));
    let text = frame_text(host_display(), true, last, f);
    frames_reach_the_screen(p, host_display(), true, last, f);
    terminals_that_read_alike_show_alike(e, p, text);
    lemma_alike_screens(e.typed(text).screen, p.typed(text).screen, f);
    encoded_text_arrives_as_written(e, text);
    if text.len() > 0 {
        assert(frame.drop_last() =~= Seq::empty());
        assert(b.parts_applied(frame.drop_last()) == b);
    } else {
        assert(e.typed(text) == e);
    }
}

/// The part of a diff about the size does the same to states with the same terminal.
proof fn lemma_size_terminal(
    a: CompleteView,
    b: CompleteView,
    older: CompleteView,
    newer: CompleteView,
)
    requires
        a.terminal == b.terminal,
    ensures
        a.canvas(older, newer) == b.canvas(older, newer),
{
    let parts = newer.size_parts(older);
    if parts.len() > 0 {
        assert(parts.drop_last() =~= Seq::empty());
        assert(a.parts_applied(parts.drop_last()) == a);
        assert(b.parts_applied(parts.drop_last()) == b);
    }
}

/// A frame reads plainly on a copy that draws plainly, whatever link it is in. Where the size
/// changes, neither do the margins matter: they are set back.
pub proof fn frames_read_plainly_whatever_the_link(
    copy: CompleteView,
    older: CompleteView,
    newer: CompleteView,
)
    requires
        copy.copy_of(older),
        older.terminal.sound(),
        older.terminal.settled(),
        newer.spellable(older, older.terminal.widths),
        older.terminal.screen.ds.auto_wrap_mode,
        !older.terminal.screen.ds.insert_mode,
        !older.terminal.screen.ds.origin_mode,
        !older.terminal.screen.ds.next_print_will_wrap,
        sizes_differ(older.terminal.screen, newer.terminal.screen)
            || older.terminal.screen.scrolls_whole(),
    ensures
        copy.reads_plainly(older, newer),
{
    let (last, f) = (older.terminal.screen, newer.terminal.screen);
    lemma_canvas(copy, older, newer);
    let e = copy.canvas(older, newer);
    let p = e.made_plain(link_kept(last, f));
    a_plain_form_shows_the_same(e, link_kept(last, f));
    assert(e.screen.ds.unlinked() == p.screen.ds.unlinked()) by {
        reveal(Screen::resized);
        reveal(DrawView::resized);
        reveal(GeometryView::resized);
    }
    assert(e.screen.unlinked() =~= p.screen.unlinked());
    links_change_nothing_else(e, p, frame_text(host_display(), true, last, f));
}

/// The acknowledgement after a diff depends on nothing but the one before.
proof fn lemma_same_acknowledgement(
    a: CompleteView,
    b: CompleteView,
    parts: Seq<HostInstructionView>,
)
    requires
        a.echo_ack == b.echo_ack,
    ensures
        a.parts_applied(parts).echo_ack == b.parts_applied(parts).echo_ack,
    decreases parts.len(),
{
    if parts.len() > 0 {
        lemma_same_acknowledgement(a, b, parts.drop_last());
    }
}

/// States that applications drew can be carried by a diff, but for what no frame can spell:
/// see [`CompleteView::diffable`].
pub proof fn states_that_applications_draw_are_diffable(
    older: CompleteView,
    newer: CompleteView,
    widths: Seq<WidthRange>,
)
    requires
        older.terminal.screen.sound(widths),
        newer.terminal.screen.sound(widths),
        newer.terminal.screen.ds.renditions.selectable(),
        newer.terminal.screen.ds.geo.width <= MAX_WINDOW_DIMENSION,
        newer.terminal.screen.ds.geo.height <= MAX_WINDOW_DIMENSION,
        redrawn_rows_plain(
            !sizes_differ(older.terminal.screen, newer.terminal.screen),
            older.terminal.screen,
            newer.terminal.screen,
        ),
        sizes_differ(older.terminal.screen, newer.terminal.screen)
            ==> older.terminal.screen.ds.hyperlink is None,
        !cursor_falls_short(
            host_display(),
            true,
            older.terminal.screen,
            newer.terminal.screen,
        ),
    ensures
        newer.diffable(older, widths),
{
    let (last, f) = (older.terminal.screen, newer.terminal.screen);
    sound_screens_are_sendable(f, last, widths);
    sound_grids_are_drawable(widths, frame_builds_on(true, last, f), last, f);
}

/// A fresh terminal shows a fresh screen of its size, so diffs can start from there.
pub proof fn a_fresh_state_shows_a_fresh_one(
    width: int,
    height: int,
    a: u64,
    b: u64,
    v: Seq<WidthRange>,
    w: Seq<WidthRange>,
)
    requires
        1 <= width <= MAX_WINDOW_DIMENSION,
        1 <= height <= MAX_WINDOW_DIMENSION,
    ensures
        CompleteView::initial(width, height, a, v).mirrors(
            CompleteView::initial(width, height, b, w),
        ),
        CompleteView::initial(width, height, a, v).titled_like(
            CompleteView::initial(width, height, b, w),
        ),
        Screen::initial(width, height, b).valid(),
{
    let (s, t) = (Screen::initial(width, height, a), Screen::initial(width, height, b));
    assert(encode_utf8(Seq::<char>::empty()).len() == 0);
    assert forall|i: int| 0 <= i < s.rows.len() implies row_looks(
        (#[trigger] s.rows[i]).cells,
        t.rows[i].cells,
    ) by {
        assert(s.rows[i].cells == t.rows[i].cells);
    }
}

} // verus!
