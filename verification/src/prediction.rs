//! Guessing what the server will echo, and withdrawing the guess when it does not.
//!
//! Predictions are grouped into epochs. When one turns out wrong, the whole epoch it
//! belongs to is abandoned rather than the individual guess, because a wrong prediction
//! usually means the model of the remote application was wrong, not that one character
//! was mistyped.

use std::rc::Rc;

use vstd::prelude::*;

use crate::draw_state::MAX_DIMENSION;
use crate::framebuffer::{Framebuffer, Screen};
use crate::overlay::{
    ConditionalCursorMove, ConditionalOverlay, ConditionalOverlayRow, OverlayCellView,
    OverlayRowView, Validity,
};
use crate::parser::{Action, Kind, ParserView, State, Utf8Parser};
use crate::predicted::Stamp;
use crate::views::{group_views, views};
use crate::widths::{width_in, WidthRange, Widths};

verus! {

broadcast use group_views;

/// Round-trip times, in milliseconds, that turn prediction display on and off. The gap
/// between them is hysteresis, so display does not flicker at the boundary.
pub const SRTT_TRIGGER_LOW: u64 = 20;

pub const SRTT_TRIGGER_HIGH: u64 = 30;

/// The same idea for underlining.
pub const FLAG_TRIGGER_LOW: u64 = 50;

pub const FLAG_TRIGGER_HIGH: u64 = 80;

/// A prediction outstanding this long is a glitch.
pub const GLITCH_THRESHOLD: u64 = 250;

/// Prompt confirmations needed to work off a glitch.
pub const GLITCH_REPAIR_COUNT: u64 = 10;

/// Minimum gap between confirmations that count towards repair.
pub const GLITCH_REPAIR_MININTERVAL: u64 = 150;

/// Outstanding this long and predictions get underlined.
pub const GLITCH_FLAG_THRESHOLD: u64 = 5000;

#[derive(Debug, Clone, Copy, PartialEq, Eq, Structural)]
pub enum DisplayPreference {
    Always,
    Never,
    Adaptive,
    Experimental,
}

/// The frames of the local state: the last one sent, the last one the server has, and the
/// last one whose effect is on the screen.
#[derive(Debug, Clone, Copy, PartialEq, Eq, Structural)]
pub struct Frames {
    pub sent: u64,
    pub acked: u64,
    pub late_acked: u64,
}

/// The epoch predictions are made in, and the last one that was confirmed.
#[derive(Debug, Clone, Copy, PartialEq, Eq, Structural)]
pub struct Epochs {
    pub prediction: u64,
    pub confirmed: u64,
}

/// What decides whether predictions are shown, and how.
#[derive(Debug, Clone, Copy, PartialEq, Eq, Structural)]
pub struct Triggers {
    /// Whether predictions are underlined.
    pub flagging: bool,
    /// Show predictions because the round trip is slow.
    pub srtt_trigger: bool,
    /// Show predictions because one has been outstanding a long time.
    pub glitch_trigger: u64,
    pub last_quick_confirmation: u64,
    pub send_interval: u64,
}

/// The size of the screen that predictions were made for.
#[derive(Debug, Clone, Copy, PartialEq, Eq, Structural)]
pub struct Size {
    pub height: i32,
    pub width: i32,
}

/// What the user asked for.
#[derive(Debug, Clone, Copy, PartialEq, Eq, Structural)]
pub struct Preferences {
    pub display: DisplayPreference,
    pub overwrite: bool,
}

/// `a - b`, or zero if that is negative.
pub open spec fn sat_sub(a: u64, b: u64) -> int {
    if a >= b {
        a - b
    } else {
        0
    }
}

impl Triggers {
    /// After the round trip was looked at. Both triggers use hysteresis so that display
    /// does not flicker at the boundary, and display only stops once nothing is on screen.
    pub open spec fn updated(self, active: bool) -> Triggers {
        Triggers {
            srtt_trigger: if self.send_interval > SRTT_TRIGGER_HIGH {
                true
            } else if self.srtt_trigger && self.send_interval <= SRTT_TRIGGER_LOW && !active {
                false
            } else {
                self.srtt_trigger
            },
            flagging: self.glitch_trigger > GLITCH_REPAIR_COUNT || (if self.send_interval
                > FLAG_TRIGGER_HIGH {
                true
            } else if self.send_interval <= FLAG_TRIGGER_LOW {
                false
            } else {
                self.flagging
            }),
            ..self
        }
    }

    /// After a prediction made at `prediction_time` was confirmed. Predictions confirmed
    /// quickly slowly work off a glitch.
    pub open spec fn repaired(self, prediction_time: u64, now: u64) -> Triggers {
        if sat_sub(now, prediction_time) < GLITCH_THRESHOLD && self.glitch_trigger > 0 && sat_sub(
            now,
            GLITCH_REPAIR_MININTERVAL,
        ) >= self.last_quick_confirmation {
            Triggers {
                glitch_trigger: (self.glitch_trigger - 1) as u64,
                last_quick_confirmation: now,
                ..self
            }
        } else {
            self
        }
    }

    /// After a prediction made at `prediction_time` was found to be outstanding. A long
    /// time means the link is worse than the round-trip estimate suggests.
    pub open spec fn glitched(self, prediction_time: u64, now: u64) -> Triggers {
        let elapsed = sat_sub(now, prediction_time);
        if elapsed >= GLITCH_FLAG_THRESHOLD {
            Triggers { glitch_trigger: 20, ..self }
        } else if elapsed >= GLITCH_THRESHOLD && self.glitch_trigger < GLITCH_REPAIR_COUNT {
            Triggers { glitch_trigger: GLITCH_REPAIR_COUNT, ..self }
        } else {
            self
        }
    }

    fn update(&mut self, active: bool)
        ensures
            *final(self) == old(self).updated(active),
    {
        if self.send_interval > SRTT_TRIGGER_HIGH {
            self.srtt_trigger = true;
        } else if self.srtt_trigger && self.send_interval <= SRTT_TRIGGER_LOW && !active {
            // Only stop once nothing is on screen, or predictions would vanish abruptly.
            self.srtt_trigger = false;
        }
        if self.send_interval > FLAG_TRIGGER_HIGH {
            self.flagging = true;
        } else if self.send_interval <= FLAG_TRIGGER_LOW {
            self.flagging = false;
        }
        // A bad enough glitch also turns on underlining.

        if self.glitch_trigger > GLITCH_REPAIR_COUNT {
            self.flagging = true;
        }
    }

    fn repair(&mut self, prediction_time: u64, now: u64)
        ensures
            *final(self) == old(self).repaired(prediction_time, now),
    {
        if now.saturating_sub(prediction_time) < GLITCH_THRESHOLD && self.glitch_trigger > 0
            && now.saturating_sub(GLITCH_REPAIR_MININTERVAL) >= self.last_quick_confirmation {
            self.glitch_trigger = self.glitch_trigger - 1;
            self.last_quick_confirmation = now;
        }
    }

    fn glitch(&mut self, prediction_time: u64, now: u64)
        ensures
            *final(self) == old(self).glitched(prediction_time, now),
    {
        let elapsed = now.saturating_sub(prediction_time);
        if elapsed >= GLITCH_FLAG_THRESHOLD {
            self.glitch_trigger = 20;  // show and underline
        } else if elapsed >= GLITCH_THRESHOLD && self.glitch_trigger < GLITCH_REPAIR_COUNT {
            self.glitch_trigger = GLITCH_REPAIR_COUNT;  // just show
        }
    }
}

/// The first row from `i` on with the given number, or how many rows there are.
pub open spec fn row_index(rows: Seq<OverlayRowView>, row_num: i32, i: int) -> int
    decreases rows.len() - i,
{
    if i < 0 || i >= rows.len() {
        rows.len() as int
    } else if rows[i].row_num == row_num {
        i
    } else {
        row_index(rows, row_num, i + 1)
    }
}

/// The cursor predictions that are shown at the given epoch.
pub open spec fn shown_cursors(cursors: Seq<ConditionalCursorMove>, epoch: u64) -> Seq<
    ConditionalCursorMove,
>
    decreases cursors.len(),
{
    if cursors.len() == 0 {
        cursors
    } else {
        let rest = shown_cursors(cursors.drop_last(), epoch);
        if cursors.last().base.withheld(epoch) {
            rest
        } else {
            rest.push(cursors.last())
        }
    }
}

/// The cursor predictions that are still outstanding.
pub open spec fn pending_cursors(
    cursors: Seq<ConditionalCursorMove>,
    s: Screen,
    late_acked: u64,
) -> Seq<ConditionalCursorMove>
    decreases cursors.len(),
{
    if cursors.len() == 0 {
        cursors
    } else {
        let rest = pending_cursors(cursors.drop_last(), s, late_acked);
        if cursors.last().validity(s, late_acked) == Validity::Pending {
            rest.push(cursors.last())
        } else {
            rest
        }
    }
}

/// The rows that are on a screen of the given height.
pub open spec fn rows_on_screen(rows: Seq<OverlayRowView>, height: int) -> Seq<OverlayRowView>
    decreases rows.len(),
{
    if rows.len() == 0 {
        rows
    } else {
        let rest = rows_on_screen(rows.drop_last(), height);
        if 0 <= rows.last().row_num < height {
            rest.push(rows.last())
        } else {
            rest
        }
    }
}

/// Every row has the given number of cells.
pub open spec fn rows_fit(rows: Seq<OverlayRowView>, width: int) -> bool {
    forall|i: int| 0 <= i < rows.len() ==> (#[trigger] rows[i]).cells.len() == width
}

/// Every cursor lies on a screen of the given size.
pub open spec fn cursors_fit(cursors: Seq<ConditionalCursorMove>, size: Size) -> bool {
    forall|i: int|
        0 <= i < cursors.len() ==> 0 <= (#[trigger] cursors[i]).row < size.height && 0
            <= cursors[i].base.col < size.width
}

/// Why the judging of predictions stops early.
#[derive(Debug, Clone, Copy, PartialEq, Eq, Structural)]
pub enum Stop {
    /// A withheld prediction was wrong: its epoch is abandoned.
    Kill(u64),
    /// A shown prediction was wrong: our whole model of the remote application is suspect,
    /// so start over.
    Reset,
}

/// The state of the engine.
#[verifier::ext_equal]
pub struct EngineView {
    pub last_byte: u8,
    pub parser: ParserView,
    pub overlays: Seq<OverlayRowView>,
    pub cursors: Seq<ConditionalCursorMove>,
    pub frames: Frames,
    pub epochs: Epochs,
    pub triggers: Triggers,
    pub size: Size,
    pub prefs: Preferences,
    pub widths: Seq<WidthRange>,
}

impl EngineView {
    pub open spec fn initial(widths: Seq<WidthRange>) -> EngineView {
        EngineView {
            last_byte: 0,
            parser: ParserView { state: State::Ground, buf: Seq::empty() },
            overlays: Seq::empty(),
            cursors: Seq::empty(),
            frames: Frames { sent: 0, acked: 0, late_acked: 0 },
            epochs: Epochs { prediction: 1, confirmed: 0 },
            triggers: Triggers {
                flagging: false,
                srtt_trigger: false,
                glitch_trigger: 0,
                last_quick_confirmation: 0,
                send_interval: 250,
            },
            size: Size { height: 0, width: 0 },
            prefs: Preferences { display: DisplayPreference::Adaptive, overwrite: false },
            widths,
        }
    }

    /// Predictions lie on the screen they were made for.
    pub open spec fn valid(self) -> bool {
        &&& self.parser.valid()
        &&& 0 <= self.size.width <= MAX_DIMENSION
        &&& 0 <= self.size.height <= MAX_DIMENSION
        &&& rows_fit(self.overlays, self.size.width as int)
        &&& cursors_fit(self.cursors, self.size)
    }

    /// Were the predictions made for a screen of this size?
    pub open spec fn fits(self, s: Screen) -> bool {
        self.size.width == s.ds.geo.width && self.size.height == s.ds.geo.height
    }

    /// Is anything being predicted at all?
    pub open spec fn is_active(self) -> bool {
        self.cursors.len() > 0 || exists|i: int|
            0 <= i < self.overlays.len() && (#[trigger] self.overlays[i]).any_active()
    }

    /// Are predictions shown?
    pub open spec fn showing(self) -> bool {
        self.prefs.display != DisplayPreference::Never && (self.triggers.srtt_trigger
            || self.triggers.glitch_trigger != 0 || self.prefs.display == DisplayPreference::Always
            || self.prefs.display == DisplayPreference::Experimental)
    }

    /// The screen with the first `n` cursor predictions.
    pub open spec fn cursors_shown(self, s: Screen, n: int) -> Screen
        decreases n,
    {
        if n <= 0 {
            s
        } else {
            self.cursors[n - 1].shown_on(self.cursors_shown(s, n - 1), self.epochs.confirmed)
        }
    }

    /// The screen with the predictions of the first `n` rows.
    pub open spec fn rows_shown(self, s: Screen, n: int) -> Screen
        decreases n,
    {
        if n <= 0 {
            s
        } else {
            self.overlays[n - 1].shown_on(
                self.rows_shown(s, n - 1),
                self.epochs.confirmed,
                self.triggers.flagging,
                self.overlays[n - 1].cells.len() as int,
            )
        }
    }

    /// The screen with the predictions drawn onto it.
    #[verifier::opaque]
    pub open spec fn shown_on(self, s: Screen) -> Screen {
        if self.showing() {
            self.rows_shown(
                self.cursors_shown(s, self.cursors.len() as int),
                self.overlays.len() as int,
            )
        } else {
            s
        }
    }

    /// In a new epoch, so that predictions made from here are judged together.
    pub open spec fn tentative(self) -> EngineView {
        if self.prefs.display != DisplayPreference::Experimental {
            EngineView {
                epochs: Epochs {
                    prediction: self.epochs.prediction.wrapping_add(1),
                    ..self.epochs
                },
                ..self
            }
        } else {
            self
        }
    }

    /// With every prediction dropped.
    pub open spec fn reset(self) -> EngineView {
        EngineView { cursors: Seq::empty(), overlays: Seq::empty(), ..self }.tentative()
    }

    /// When a prediction made now is made.
    pub open spec fn stamp(self, now: u64) -> Stamp {
        Stamp {
            epoch: self.epochs.prediction,
            frame: self.frames.sent.wrapping_add(1),
            now,
        }
    }

    /// A prediction that the cursor is at the given position.
    pub open spec fn cursor_at(self, row: int, col: int) -> ConditionalCursorMove {
        ConditionalCursorMove {
            base: ConditionalOverlay {
                active: true,
                ..ConditionalOverlay::initial(
                    self.frames.sent.wrapping_add(1),
                    col as i32,
                    self.epochs.prediction,
                )
            },
            row: row as i32,
        }
    }

    /// With a cursor prediction of the current epoch: from where the cursor is, or, when
    /// the epoch moved on, from where we think it is.
    #[verifier::opaque]
    pub open spec fn cursor_ready(self, s: Screen) -> EngineView {
        if self.cursors.len() == 0 {
            EngineView {
                cursors: self.cursors.push(
                    self.cursor_at(s.ds.geo.cursor_row, s.ds.geo.cursor_col),
                ),
                ..self
            }
        } else if self.cursors.last().base.tentative_until_epoch != self.epochs.prediction {
            let c = self.cursors.last();
            EngineView {
                cursors: self.cursors.push(self.cursor_at(c.row as int, c.base.col as int)),
                ..self
            }
        } else {
            self
        }
    }

    /// With the latest cursor prediction replaced.
    pub open spec fn with_cursor(self, c: ConditionalCursorMove) -> EngineView {
        EngineView { cursors: self.cursors.update(self.cursors.len() - 1, c), ..self }
    }

    /// With the latest cursor prediction moved to another column and made anew.
    pub open spec fn cursor_shifted(self, col: int, now: u64) -> EngineView {
        let c = self.cursors.last();
        self.with_cursor(
            ConditionalCursorMove {
                base: ConditionalOverlay { col: col as i32, ..c.base }.expiring(
                    self.frames.sent.wrapping_add(1),
                    now,
                ),
                ..c
            },
        )
    }

    /// With a whole epoch of predictions abandoned, and another started.
    #[verifier::opaque]
    pub open spec fn epoch_killed(self, epoch: u64, s: Screen) -> EngineView {
        let limit = sat_sub(epoch, 1) as u64;
        EngineView {
            cursors: shown_cursors(self.cursors, limit).push(
                self.cursor_at(s.ds.geo.cursor_row, s.ds.geo.cursor_col),
            ),
            overlays: Seq::new(
                self.overlays.len(),
                |i: int| self.overlays[i].without_withheld(limit),
            ),
            ..self
        }.tentative()
    }

    /// With an overlay row for the given row of the screen.
    pub open spec fn row_ready(self, row_num: i32, width: int) -> EngineView {
        if row_index(self.overlays, row_num, 0) < self.overlays.len() {
            self
        } else {
            EngineView {
                overlays: self.overlays.push(
                    OverlayRowView::initial(row_num, width, self.epochs.prediction),
                ),
                ..self
            }
        }
    }

    /// With one overlay row replaced.
    pub open spec fn with_row(self, ri: int, r: OverlayRowView) -> EngineView {
        EngineView { overlays: self.overlays.update(ri, r), ..self }
    }

    /// Why judging stops at a cell, if it does. Experimental predictions are judged one by
    /// one.
    pub open spec fn stop_at(self, ri: int, ci: int, s: Screen) -> Option<Stop> {
        let row = self.overlays[ri];
        let cell = row.cells[ci];
        if cell.validity(s, row.row_num, self.frames.late_acked) != Validity::Incorrect
            || self.prefs.display == DisplayPreference::Experimental {
            None
        } else if cell.base.withheld(self.epochs.confirmed) {
            Some(Stop::Kill(cell.base.tentative_until_epoch))
        } else {
            Some(Stop::Reset)
        }
    }

    /// After a cell was judged and judging goes on.
    #[verifier::opaque]
    pub open spec fn cell_judged(self, ri: int, ci: int, s: Screen, now: u64) -> EngineView {
        let row = self.overlays[ri];
        let cell = row.cells[ci];
        match cell.validity(s, row.row_num, self.frames.late_acked) {
            Validity::Correct => {
                let adopted = if s.has_cell(row.row_num as int, ci) {
                    row.adopting(ci, s.cell_at(row.row_num as int, ci).renditions)
                } else {
                    row
                };
                EngineView {
                    epochs: Epochs {
                        confirmed: if cell.base.tentative_until_epoch > self.epochs.confirmed {
                            cell.base.tentative_until_epoch
                        } else {
                            self.epochs.confirmed
                        },
                        ..self.epochs
                    },
                    triggers: self.triggers.repaired(cell.base.prediction_time, now),
                    ..self.with_row(ri, adopted.with_cell(ci, adopted.cells[ci].forgotten()))
                }
            },
            Validity::CorrectNoCredit | Validity::Incorrect => self.with_row(
                ri,
                row.with_cell(ci, cell.forgotten()),
            ),
            Validity::Pending => EngineView {
                triggers: self.triggers.glitched(cell.base.prediction_time, now),
                ..self
            },
            Validity::Inactive => self,
        }
    }

    /// After the cells of a row from `ci` up to `n` were judged, and why that stopped early.
    pub open spec fn row_judged(self, ri: int, ci: int, n: int, s: Screen, now: u64) -> (
        EngineView,
        Option<Stop>,
    )
        decreases n - ci,
    {
        if ci >= n {
            (self, None)
        } else {
            match self.stop_at(ri, ci, s) {
                Some(stop) => (self, Some(stop)),
                None => self.cell_judged(ri, ci, s, now).row_judged(ri, ci + 1, n, s, now),
            }
        }
    }

    /// After the rows from `ri` up to `n` were judged, and why that stopped early.
    pub open spec fn rows_judged(self, ri: int, n: int, s: Screen, now: u64) -> (
        EngineView,
        Option<Stop>,
    )
        decreases n - ri,
    {
        if ri >= n {
            (self, None)
        } else {
            let (next, stop) = self.row_judged(ri, 0, self.overlays[ri].cells.len() as int, s, now);
            match stop {
                Some(x) => (next, Some(x)),
                None => next.rows_judged(ri + 1, n, s, now),
            }
        }
    }

    /// Milliseconds until guesses that are out there should be judged again.
    pub open spec fn judging_in(self) -> u64 {
        if !(self.triggers.glitch_trigger != 0 && self.triggers.flagging) && self.is_active() {
            50
        } else {
            u64::MAX
        }
    }

    /// Ready to judge predictions against a screen: those made for another size are
    /// dropped, and so are rows that are off it.
    #[verifier::opaque]
    pub open spec fn judging(self, s: Screen) -> EngineView {
        let sized = if self.fits(s) {
            self
        } else {
            EngineView {
                size: Size {
                    height: s.ds.geo.height as i32,
                    width: s.ds.geo.width as i32,
                },
                ..self
            }.reset()
        };
        EngineView {
            triggers: sized.triggers.updated(sized.is_active()),
            overlays: rows_on_screen(sized.overlays, s.ds.geo.height),
            ..sized
        }
    }

    /// With the cursor predictions judged. A wrong one is as damning as a wrong cell.
    #[verifier::opaque]
    pub open spec fn cursors_judged(self, s: Screen) -> EngineView {
        if self.cursors.len() > 0 && self.cursors.last().validity(s, self.frames.late_acked)
            == Validity::Incorrect {
            if self.prefs.display == DisplayPreference::Experimental {
                EngineView { cursors: Seq::empty(), ..self }
            } else {
                self.reset()
            }
        } else {
            EngineView {
                cursors: pending_cursors(self.cursors, s, self.frames.late_acked),
                ..self
            }
        }
    }

    /// With outstanding predictions judged against what the server actually sent.
    #[verifier::opaque]
    pub open spec fn culled(self, s: Screen, now: u64) -> EngineView {
        if self.prefs.display == DisplayPreference::Never {
            self
        } else {
            let e = self.judging(s);
            let (judged, stop) = e.rows_judged(0, e.overlays.len() as int, s, now);
            match stop {
                Some(Stop::Reset) => judged.reset(),
                Some(Stop::Kill(epoch)) => judged.epoch_killed(epoch, s).cursors_judged(s),
                None => judged.cursors_judged(s),
            }
        }
    }

    /// The stretch of a row that moves right when a character is typed at `col`.
    pub open spec fn rightmost(self, col: int, width: int) -> int {
        if self.prefs.overwrite {
            col
        } else {
            width - 1
        }
    }

    /// With the prediction that a character is printed where the cursor is thought to be.
    #[verifier::opaque]
    pub open spec fn char_predicted(self, ch: char, s: Screen, now: u64) -> EngineView {
        let width = s.ds.geo.width;
        let row = self.cursors.last().row;
        let col = self.cursors.last().base.col as int;
        let line = s.rows[row as int].cells;
        let ri = row_index(self.overlays, row, 0);
        let with_row = self.row_ready(row, width);
        // The last column behaves differently in different applications: emacs shows a
        // wrap marker, a shell just writes the character. Do not commit.
        let e = if col + 1 >= width {
            with_row.tentative()
        } else {
            with_row
        };
        let typed = e.with_row(
            ri,
            e.overlays[ri].printed(
                line,
                col,
                self.rightmost(col, width),
                e.stamp(now),
                s.ds.renditions,
                ch,
            ),
        );
        if col < width - 1 {
            typed.cursor_shifted(col + 1, now)
        } else {
            typed.cursor_shifted(col, now).tentative().newline_predicted(s, now)
        }
    }

    /// With the prediction that the cursor goes to the start of the next line. Scrolling is
    /// not predicted, so on the last row the row is blanked and the server tells what
    /// really happened.
    #[verifier::opaque]
    pub open spec fn newline_predicted(self, s: Screen, now: u64) -> EngineView {
        let ready = self.cursor_ready(s);
        let c = ready.cursors.last();
        let at_start = ConditionalCursorMove {
            base: ConditionalOverlay { col: 0, ..c.base },
            ..c
        };
        if c.row == s.ds.geo.height - 1 {
            let e = ready.with_cursor(at_start).row_ready(c.row, s.ds.geo.width);
            let ri = row_index(ready.overlays, c.row, 0);
            e.with_row(ri, e.overlays[ri].emptied(e.stamp(now)))
        } else {
            ready.with_cursor(ConditionalCursorMove { row: (c.row + 1) as i32, ..at_start })
        }
    }

    /// With the prediction that the character before the cursor is erased.
    #[verifier::opaque]
    pub open spec fn backspace_predicted(self, s: Screen, now: u64) -> EngineView {
        let row = self.cursors.last().row;
        let col = self.cursors.last().base.col - 1;
        if col < 0 {
            self
        } else {
            let line = s.rows[row as int].cells;
            let ri = row_index(self.overlays, row, 0);
            let e = self.row_ready(row, s.ds.geo.width).cursor_shifted(col, now);
            if self.prefs.overwrite {
                e.with_row(
                    ri,
                    e.overlays[ri].with_cell(
                        col,
                        e.overlays[ri].cells[col].blanked(e.stamp(now), line[col]),
                    ),
                )
            } else {
                e.with_row(ri, e.overlays[ri].shifted_left(line, col, e.stamp(now)))
            }
        }
    }

    /// With the prediction of what a typed character does. Only ordinary single-width
    /// characters are predictable; anything else could do something we cannot model.
    #[verifier::opaque]
    pub open spec fn print_predicted(self, ch: char, s: Screen, now: u64) -> EngineView {
        let e = self.cursor_ready(s);
        if ch == '\u{7f}' {
            e.backspace_predicted(s, now)
        } else if (ch as u32) < 0x20 || width_in(self.widths, ch, 0) != Some(1u8) {
            e.tentative()
        } else {
            e.char_predicted(ch, s, now)
        }
    }

    /// With the prediction of what an arrow key does.
    #[verifier::opaque]
    pub open spec fn arrow_predicted(self, right: bool, s: Screen, now: u64) -> EngineView {
        let e = self.cursor_ready(s);
        let col = e.cursors.last().base.col;
        if right && col < s.ds.geo.width - 1 {
            e.cursor_shifted(col + 1, now)
        } else if !right && col > 0 {
            e.cursor_shifted(col - 1, now)
        } else {
            e
        }
    }

    /// With the prediction of what a parser action on the user's input does.
    #[verifier::opaque]
    pub open spec fn acted(self, action: Action, s: Screen, now: u64) -> EngineView {
        match action.kind {
            Kind::Print => match action.ch {
                Some(ch) => self.print_predicted(ch, s, now),
                None => self,
            },
            Kind::Execute => if action.ch == Some('\r') {
                self.tentative().newline_predicted(s, now)
            } else {
                self.tentative()
            },
            Kind::EscDispatch => self.tentative(),
            Kind::CsiDispatch => if action.ch == Some('C') {
                self.arrow_predicted(true, s, now)
            } else if action.ch == Some('D') {
                self.arrow_predicted(false, s, now)
            } else {
                self.tentative()
            },
            _ => self,
        }
    }

    /// With the predictions of a run of actions.
    pub open spec fn all_acted(self, actions: Seq<Action>, s: Screen, now: u64) -> EngineView
        decreases actions.len(),
    {
        if actions.len() == 0 {
            self
        } else {
            self.all_acted(actions.drop_last(), s, now).acted(actions.last(), s, now)
        }
    }

    /// The byte that the parser sees: an application-mode cursor key is rewritten into its
    /// ANSI form, so that there is one spelling rather than two.
    pub open spec fn rewritten(self, byte: u8) -> u8 {
        if self.last_byte == 0x1b && byte == 0x4f {
            0x5b
        } else {
            byte
        }
    }

    /// After the user typed a byte.
    #[verifier::opaque]
    pub open spec fn typed(self, byte: u8, s: Screen, now: u64) -> EngineView {
        if self.prefs.display == DisplayPreference::Never {
            self
        } else {
            let started = if self.prefs.display == DisplayPreference::Experimental {
                EngineView {
                    epochs: Epochs {
                        prediction: self.epochs.confirmed,
                        ..self.epochs
                    },
                    ..self
                }
            } else {
                self
            };
            let e = started.culled(s, now);
            let b = e.rewritten(byte);
            let fed = e.parser.fed(b);
            EngineView {
                last_byte: b,
                parser: ParserView { state: fed.state, buf: fed.buf },
                ..e
            }.all_acted(fed.raised, s, now)
        }
    }
}

/// Decides what to predict, and when to stop.
pub struct PredictionEngine {
    last_byte: u8,
    parser: Utf8Parser,
    overlays: Vec<ConditionalOverlayRow>,
    cursors: Vec<ConditionalCursorMove>,
    frames: Frames,
    epochs: Epochs,
    triggers: Triggers,
    size: Size,
    prefs: Preferences,
    widths: Rc<Widths>,
}

impl View for PredictionEngine {
    type V = EngineView;

    closed spec fn view(&self) -> EngineView {
        EngineView {
            last_byte: self.last_byte,
            parser: self.parser@,
            overlays: views(self.overlays@),
            cursors: self.cursors@,
            frames: self.frames,
            epochs: self.epochs,
            triggers: self.triggers,
            size: self.size,
            prefs: self.prefs,
            widths: self.widths@,
        }
    }
}

impl Default for PredictionEngine {
    fn default() -> (e: Self)
        ensures
            e@ == EngineView::initial(crate::widths::ascii_ranges()),
            e@.valid(),
    {
        Self::new()
    }
}

impl PredictionEngine {
    /// An engine that knows the widths of the portable character set.
    pub fn new() -> (e: Self)
        ensures
            e@ == EngineView::initial(crate::widths::ascii_ranges()),
            e@.valid(),
    {
        Self::with_widths(Rc::new(Widths::default()))
    }

    /// An engine that knows the given character widths.
    pub fn with_widths(widths: Rc<Widths>) -> (e: Self)
        ensures
            e@ == EngineView::initial(widths@),
            e@.valid(),
    {
        let e = PredictionEngine {
            last_byte: 0,
            parser: Utf8Parser::new(),
            overlays: Vec::new(),
            cursors: Vec::new(),
            frames: Frames { sent: 0, acked: 0, late_acked: 0 },
            epochs: Epochs { prediction: 1, confirmed: 0 },
            triggers: Triggers {
                flagging: false,
                srtt_trigger: false,
                glitch_trigger: 0,
                last_quick_confirmation: 0,
                send_interval: 250,
            },
            size: Size { height: 0, width: 0 },
            prefs: Preferences { display: DisplayPreference::Adaptive, overwrite: false },
            widths,
        };
        assert(e@ =~= EngineView::initial(widths@));
        e
    }

    pub fn set_display_preference(&mut self, p: DisplayPreference)
        ensures
            final(self)@ == (EngineView {
                prefs: Preferences { display: p, ..old(self)@.prefs },
                ..old(self)@
            }),
    {
        self.prefs.display = p;
    }

    pub fn set_predict_overwrite(&mut self, overwrite: bool)
        ensures
            final(self)@ == (EngineView {
                prefs: Preferences { overwrite, ..old(self)@.prefs },
                ..old(self)@
            }),
    {
        self.prefs.overwrite = overwrite;
    }

    pub fn set_local_frame_sent(&mut self, x: u64)
        ensures
            final(self)@ == (EngineView {
                frames: Frames { sent: x, ..old(self)@.frames },
                ..old(self)@
            }),
    {
        self.frames.sent = x;
    }

    pub fn set_local_frame_acked(&mut self, x: u64)
        ensures
            final(self)@ == (EngineView {
                frames: Frames { acked: x, ..old(self)@.frames },
                ..old(self)@
            }),
    {
        self.frames.acked = x;
    }

    pub fn set_local_frame_late_acked(&mut self, x: u64)
        ensures
            final(self)@ == (EngineView {
                frames: Frames { late_acked: x, ..old(self)@.frames },
                ..old(self)@
            }),
    {
        self.frames.late_acked = x;
    }

    pub fn set_send_interval(&mut self, x: u64)
        ensures
            final(self)@ == (EngineView {
                triggers: Triggers { send_interval: x, ..old(self)@.triggers },
                ..old(self)@
            }),
    {
        self.triggers.send_interval = x;
    }

    /// Is anything being predicted at all?
    pub fn active(&self) -> (b: bool)
        ensures
            b == self@.is_active(),
    {
        if self.cursors.len() > 0 {
            return true;
        }
        let mut i: usize = 0;
        while i < self.overlays.len()
            invariant
                i <= self.overlays.len(),
                forall|k: int| 0 <= k < i ==> !(#[trigger] self@.overlays[k]).any_active(),
            decreases self.overlays.len() - i,
        {
            if self.overlays[i].has_active() {
                assert(self@.overlays[i as int].any_active());
                return true;
            }
            i = i + 1;
        }
        false
    }

    /// Are there timing triggers that have not fired yet?
    fn timing_tests_necessary(&self) -> (b: bool)
        ensures
            b == !(self@.triggers.glitch_trigger != 0 && self@.triggers.flagging),
    {
        !(self.triggers.glitch_trigger != 0 && self.triggers.flagging)
    }

    /// How long until predictions should be judged again, in milliseconds.
    pub fn wait_time(&self) -> (ms: u64)
        ensures
            ms == self@.judging_in(),
    {
        if self.timing_tests_necessary() && self.active() {
            50
        } else {
            u64::MAX
        }
    }

    /// Draw the predictions onto a screen.
    pub fn apply(&self, fb: &mut Framebuffer)
        requires
            old(fb)@.valid(),
        ensures
            final(fb)@ == self@.shown_on(old(fb)@),
            final(fb)@.valid(),
    {
        reveal(EngineView::shown_on);
        let showing = self.triggers.srtt_trigger || self.triggers.glitch_trigger != 0
            || self.prefs.display == DisplayPreference::Always || self.prefs.display
            == DisplayPreference::Experimental;
        if self.prefs.display == DisplayPreference::Never || !showing {
            return ;
        }
        let mut i: usize = 0;
        while i < self.cursors.len()
            invariant
                i <= self.cursors.len(),
                fb@.valid(),
                fb@ == self@.cursors_shown(old(fb)@, i as int),
            decreases self.cursors.len() - i,
        {
            self.cursors[i].apply(fb, self.epochs.confirmed);
            i = i + 1;
        }
        let ghost with_cursors = fb@;
        let mut i: usize = 0;
        while i < self.overlays.len()
            invariant
                i <= self.overlays.len(),
                fb@.valid(),
                fb@ == self@.rows_shown(with_cursors, i as int),
            decreases self.overlays.len() - i,
        {
            self.overlays[i].apply(fb, self.epochs.confirmed, self.triggers.flagging);
            i = i + 1;
        }
    }

    pub fn reset(&mut self)
        requires
            old(self)@.valid(),
        ensures
            final(self)@ == old(self)@.reset(),
            final(self)@.valid(),
    {
        self.cursors = Vec::new();
        self.overlays = Vec::new();
        self.become_tentative();
        assert(self@ =~= old(self)@.reset());
    }

    /// Start a new epoch, so predictions made from here are judged together.
    fn become_tentative(&mut self)
        ensures
            final(self)@ == old(self)@.tentative(),
            old(self)@.valid() ==> final(self)@.valid(),
    {
        if self.prefs.display != DisplayPreference::Experimental {
            self.epochs.prediction = self.epochs.prediction.wrapping_add(1);
        }
    }

    fn stamp_now(&self, now: u64) -> (s: Stamp)
        ensures
            s == self@.stamp(now),
    {
        Stamp { epoch: self.epochs.prediction, frame: self.frames.sent.wrapping_add(1), now }
    }

    fn push_cursor(&mut self, row: i32, col: i32)
        requires
            old(self)@.valid(),
            0 <= row < old(self)@.size.height,
            0 <= col < old(self)@.size.width,
        ensures
            final(self)@ == (EngineView {
                cursors: old(self)@.cursors.push(old(self)@.cursor_at(row as int, col as int)),
                ..old(self)@
            }),
            final(self)@.valid(),
    {
        let mut c = ConditionalCursorMove::new(
            self.frames.sent.wrapping_add(1),
            row,
            col,
            self.epochs.prediction,
        );
        c.base.active = true;
        self.cursors.push(c);
    }

    fn init_cursor(&mut self, fb: &Framebuffer)
        requires
            old(self)@.valid(),
            fb@.valid(),
            old(self)@.fits(fb@),
        ensures
            final(self)@ == old(self)@.cursor_ready(fb@),
            final(self)@.valid(),
            final(self)@.fits(fb@),
            final(self)@.cursors.len() > 0,
    {
        reveal(EngineView::cursor_ready);
        let n: usize = self.cursors.len();
        if n == 0 {
            self.push_cursor(fb.ds.cursor_row(), fb.ds.cursor_col());
        } else {
            let c = self.cursors[n - 1];
            assert(c == self@.cursors[n - 1]);
            if c.base.tentative_until_epoch != self.epochs.prediction {
                // The epoch moved on, so start a fresh prediction from where we think we
                // are.
                self.push_cursor(c.row, c.base.col);
            }
        }
    }

    fn set_cursor(&mut self, c: ConditionalCursorMove)
        requires
            old(self)@.valid(),
            old(self)@.cursors.len() > 0,
            0 <= c.row < old(self)@.size.height,
            0 <= c.base.col < old(self)@.size.width,
        ensures
            final(self)@ == old(self)@.with_cursor(c),
            final(self)@.valid(),
    {
        let n: usize = self.cursors.len();
        self.cursors.set(n - 1, c);
    }

    fn shift_cursor(&mut self, col: i32, now: u64)
        requires
            old(self)@.valid(),
            old(self)@.cursors.len() > 0,
            0 <= col < old(self)@.size.width,
        ensures
            final(self)@ == old(self)@.cursor_shifted(col as int, now),
            final(self)@.valid(),
    {
        let mut c = self.cursors[self.cursors.len() - 1];
        assert(c == self@.cursors.last());
        c.base.col = col;
        c.base.expire(self.frames.sent.wrapping_add(1), now);
        self.set_cursor(c);
    }

    /// Abandon a whole epoch of predictions, then start another.
    fn kill_epoch(&mut self, epoch: u64, fb: &Framebuffer)
        requires
            old(self)@.valid(),
            fb@.valid(),
            old(self)@.fits(fb@),
        ensures
            final(self)@ == old(self)@.epoch_killed(epoch, fb@),
            final(self)@.valid(),
            final(self)@.fits(fb@),
    {
        reveal(EngineView::epoch_killed);
        let limit = epoch.saturating_sub(1);
        let kept = keep_shown(&self.cursors, limit, Ghost(self.size));
        self.cursors = kept;
        self.push_cursor(fb.ds.cursor_row(), fb.ds.cursor_col());
        let ghost before = self@;
        let n: usize = self.overlays.len();
        let mut i: usize = 0;
        while i < n
            invariant
                i <= n,
                n == self@.overlays.len() == before.overlays.len(),
                before.valid(),
                self@ == (EngineView { overlays: self@.overlays, ..before }),
                forall|k: int|
                    0 <= k < i ==> #[trigger] self@.overlays[k]
                        == before.overlays[k].without_withheld(limit),
                forall|k: int|
                    i <= k < n ==> #[trigger] self@.overlays[k] == before.overlays[k],
            decreases n - i,
        {
            let ghost prev = self@;
            self.overlays[i].forget_withheld(limit);
            assert(self@.overlays =~= prev.overlays.update(
                i as int,
                prev.overlays[i as int].without_withheld(limit),
            ));
            i = i + 1;
        }
        assert(self@.overlays =~= Seq::new(
            before.overlays.len(),
            |i: int| before.overlays[i].without_withheld(limit),
        ));
        self.become_tentative();
    }

    /// Index of the overlay row for `row_num`, creating it if needed.
    fn get_or_make_row(&mut self, row_num: i32, num_cols: i32) -> (ri: usize)
        requires
            old(self)@.valid(),
            num_cols == old(self)@.size.width,
        ensures
            final(self)@ == old(self)@.row_ready(row_num, num_cols as int),
            final(self)@.valid(),
            ri == row_index(old(self)@.overlays, row_num, 0),
            ri < final(self)@.overlays.len(),
    {
        let n: usize = self.overlays.len();
        let mut i: usize = 0;
        while i < n
            invariant
                i <= n,
                self@ == old(self)@,
                self@.valid(),
                n == self@.overlays.len(),
                row_index(self@.overlays, row_num, 0) == row_index(
                    self@.overlays,
                    row_num,
                    i as int,
                ),
            decreases n - i,
        {
            if self.overlays[i].row_num == row_num {
                assert(self@.overlays[i as int].row_num == row_num);
                return i;
            }
            assert(self@.overlays[i as int].row_num != row_num);
            i = i + 1;
        }
        let r = ConditionalOverlayRow::for_epoch(row_num, num_cols, self.epochs.prediction);
        self.overlays.push(r);
        n
    }

    /// Why judging stops at a cell, if it does.
    fn stop_for(&self, ri: usize, ci: usize, fb: &Framebuffer, validity: Validity) -> (stop: Option<
        Stop,
    >)
        requires
            ri < self@.overlays.len(),
            ci < self@.overlays[ri as int].cells.len(),
            validity == self@.overlays[ri as int].cells[ci as int].validity(
                fb@,
                self@.overlays[ri as int].row_num,
                self@.frames.late_acked,
            ),
        ensures
            stop == self@.stop_at(ri as int, ci as int, fb@),
    {
        let cell = &self.overlays[ri].overlay_cells[ci];
        assert(cell@ == self@.overlays[ri as int].cells[ci as int]);
        if validity != Validity::Incorrect || self.prefs.display
            == DisplayPreference::Experimental {
            None
        } else if cell.base.tentative(self.epochs.confirmed) {
            Some(Stop::Kill(cell.base.tentative_until_epoch))
        } else {
            Some(Stop::Reset)
        }
    }

    fn forget_cell(&mut self, ri: usize, ci: usize)
        requires
            old(self)@.valid(),
            ri < old(self)@.overlays.len(),
            ci < old(self)@.overlays[ri as int].cells.len(),
        ensures
            final(self)@ == old(self)@.with_row(
                ri as int,
                old(self)@.overlays[ri as int].with_cell(
                    ci as int,
                    old(self)@.overlays[ri as int].cells[ci as int].forgotten(),
                ),
            ),
            final(self)@.valid(),
    {
        self.overlays[ri].overlay_cells[ci].reset();
        assert(self@.overlays =~= old(self)@.overlays.update(
            ri as int,
            old(self)@.overlays[ri as int].with_cell(
                ci as int,
                old(self)@.overlays[ri as int].cells[ci as int].forgotten(),
            ),
        ));
    }

    fn adopt_renditions(&mut self, ri: usize, ci: usize, fb: &Framebuffer)
        requires
            old(self)@.valid(),
            ri < old(self)@.overlays.len(),
            ci < old(self)@.overlays[ri as int].cells.len(),
        ensures
            ({
                let row = old(self)@.overlays[ri as int];
                final(self)@ == old(self)@.with_row(
                    ri as int,
                    if fb@.has_cell(row.row_num as int, ci as int) {
                        row.adopting(
                            ci as int,
                            fb@.cell_at(row.row_num as int, ci as int).renditions,
                        )
                    } else {
                        row
                    },
                )
            }),
            final(self)@.valid(),
            final(self)@.overlays[ri as int].cells.len() == old(self)@.overlays[ri as int].cells.len(),
    {
        let row_num = self.overlays[ri].row_num;
        assert(row_num == self@.overlays[ri as int].row_num);
        match fb.cell(row_num, ci as i32) {
            Some(actual) => {
                let r = *actual.renditions();
                self.overlays[ri].adopt(ci, r);
                assert(self@.overlays =~= old(self)@.overlays.update(
                    ri as int,
                    old(self)@.overlays[ri as int].adopting(ci as int, r),
                ));
            },
            None => {
                assert(self@.overlays =~= old(self)@.overlays.update(
                    ri as int,
                    old(self)@.overlays[ri as int],
                ));
            },
        }
    }

    /// Judges one cell; returns why judging stops here, if it does.
    fn judge_cell(&mut self, ri: usize, ci: usize, fb: &Framebuffer, now: u64) -> (stop: Option<
        Stop,
    >)
        requires
            old(self)@.valid(),
            ri < old(self)@.overlays.len(),
            ci < old(self)@.overlays[ri as int].cells.len(),
        ensures
            stop == old(self)@.stop_at(ri as int, ci as int, fb@),
            final(self)@ == if stop is Some {
                old(self)@
            } else {
                old(self)@.cell_judged(ri as int, ci as int, fb@, now)
            },
            final(self)@.valid(),
            final(self)@.size == old(self)@.size,
            final(self)@.overlays.len() == old(self)@.overlays.len(),
    {
        reveal(EngineView::cell_judged);
        let row_num = self.overlays[ri].row_num;
        let late_acked = self.frames.late_acked;
        let cell = &self.overlays[ri].overlay_cells[ci];
        assert(cell@ == self@.overlays[ri as int].cells[ci as int]);
        let base = cell.base;
        let validity = cell.get_validity(fb, row_num, late_acked);
        let stop = self.stop_for(ri, ci, fb, validity);
        if stop.is_some() {
            return stop;
        }
        match validity {
            Validity::Correct => {
                // Adopt the renditions the server actually used for the rest of the row,
                // so later predictions inherit them.
                self.adopt_renditions(ri, ci, fb);
                self.forget_cell(ri, ci);
                if base.tentative_until_epoch > self.epochs.confirmed {
                    self.epochs.confirmed = base.tentative_until_epoch;
                }
                self.triggers.repair(base.prediction_time, now);
                assert(self@.overlays =~= old(self)@.cell_judged(
                    ri as int,
                    ci as int,
                    fb@,
                    now,
                ).overlays);
                return None;
            },
            Validity::CorrectNoCredit | Validity::Incorrect => {
                self.forget_cell(ri, ci);
                return None;
            },
            Validity::Pending => {
                self.triggers.glitch(base.prediction_time, now);
                return None;
            },
            Validity::Inactive => {
                return None;
            },
        }
    }

    fn judge_rows(&mut self, fb: &Framebuffer, now: u64) -> (stop: Option<Stop>)
        requires
            old(self)@.valid(),
        ensures
            (final(self)@, stop) == old(self)@.rows_judged(
                0,
                old(self)@.overlays.len() as int,
                fb@,
                now,
            ),
            final(self)@.valid(),
            final(self)@.size == old(self)@.size,
    {
        let n: usize = self.overlays.len();
        let ghost goal = old(self)@.rows_judged(0, n as int, fb@, now);
        let mut ri: usize = 0;
        while ri < n
            invariant
                ri <= n,
                n == self@.overlays.len(),
                self@.valid(),
                self@.size == old(self)@.size,
                goal == old(self)@.rows_judged(0, old(self)@.overlays.len() as int, fb@, now),
                goal == self@.rows_judged(ri as int, n as int, fb@, now),
            decreases n - ri,
        {
            let m: usize = self.overlays[ri].overlay_cells.len();
            let ghost before = self@;
            assert(m == before.overlays[ri as int].cells.len());
            let mut ci: usize = 0;
            while ci < m
                invariant
                    ri < n,
                    n == self@.overlays.len(),
                    ci <= m,
                    self@.valid(),
                    m == self@.size.width,
                    self@.size == old(self)@.size,
                    goal == old(self)@.rows_judged(0, old(self)@.overlays.len() as int, fb@, now),
                    goal == before.rows_judged(ri as int, n as int, fb@, now),
                    m == before.overlays[ri as int].cells.len(),
                    before.row_judged(ri as int, 0, m as int, fb@, now) == self@.row_judged(
                        ri as int,
                        ci as int,
                        m as int,
                        fb@,
                        now,
                    ),
                decreases m - ci,
            {
                let stop = self.judge_cell(ri, ci, fb, now);
                if stop.is_some() {
                    return stop;
                }
                ci = ci + 1;
            }
            ri = ri + 1;
        }
        None
    }
}

/// The cursor predictions that are shown at the given epoch.
fn keep_shown(cursors: &Vec<ConditionalCursorMove>, epoch: u64, Ghost(size): Ghost<Size>) -> (kept: Vec<
    ConditionalCursorMove,
>)
    requires
        cursors_fit(cursors@, size),
    ensures
        kept@ == shown_cursors(cursors@, epoch),
        cursors_fit(kept@, size),
{
    let mut kept: Vec<ConditionalCursorMove> = Vec::new();
    let mut i: usize = 0;
    assert(cursors@.subrange(0, 0) =~= Seq::<ConditionalCursorMove>::empty());
    while i < cursors.len()
        invariant
            i <= cursors.len(),
            cursors_fit(cursors@, size),
            kept@ == shown_cursors(cursors@.subrange(0, i as int), epoch),
            cursors_fit(kept@, size),
        decreases cursors.len() - i,
    {
        proof {
            let next = cursors@.subrange(0, i + 1);
            assert(next.drop_last() =~= cursors@.subrange(0, i as int));
        }
        if !cursors[i].base.tentative(epoch) {
            kept.push(cursors[i]);
        }
        i = i + 1;
    }
    assert(cursors@.subrange(0, i as int) =~= cursors@);
    kept
}

/// The cursor predictions that are still outstanding.
fn keep_pending(
    cursors: &Vec<ConditionalCursorMove>,
    fb: &Framebuffer,
    late_acked: u64,
    Ghost(size): Ghost<Size>,
) -> (kept: Vec<ConditionalCursorMove>)
    requires
        cursors_fit(cursors@, size),
    ensures
        kept@ == pending_cursors(cursors@, fb@, late_acked),
        cursors_fit(kept@, size),
{
    let mut kept: Vec<ConditionalCursorMove> = Vec::new();
    let mut i: usize = 0;
    assert(cursors@.subrange(0, 0) =~= Seq::<ConditionalCursorMove>::empty());
    while i < cursors.len()
        invariant
            i <= cursors.len(),
            cursors_fit(cursors@, size),
            kept@ == pending_cursors(cursors@.subrange(0, i as int), fb@, late_acked),
            cursors_fit(kept@, size),
        decreases cursors.len() - i,
    {
        proof {
            let next = cursors@.subrange(0, i + 1);
            assert(next.drop_last() =~= cursors@.subrange(0, i as int));
        }
        if cursors[i].get_validity(fb, late_acked) == Validity::Pending {
            kept.push(cursors[i]);
        }
        i = i + 1;
    }
    assert(cursors@.subrange(0, i as int) =~= cursors@);
    kept
}

/// The rows that are on a screen of the given height.
fn keep_on_screen(rows: &Vec<ConditionalOverlayRow>, height: i32, Ghost(width): Ghost<int>) -> (kept: Vec<
    ConditionalOverlayRow,
>)
    requires
        rows_fit(views(rows@), width),
    ensures
        views(kept@) == rows_on_screen(views(rows@), height as int),
        rows_fit(views(kept@), width),
{
    let mut kept: Vec<ConditionalOverlayRow> = Vec::new();
    let mut i: usize = 0;
    assert(views(rows@).subrange(0, 0) =~= Seq::<OverlayRowView>::empty());
    assert(views(kept@) =~= Seq::<OverlayRowView>::empty());
    while i < rows.len()
        invariant
            i <= rows.len(),
            rows_fit(views(rows@), width),
            views(kept@) == rows_on_screen(views(rows@).subrange(0, i as int), height as int),
            rows_fit(views(kept@), width),
        decreases rows.len() - i,
    {
        proof {
            let next = views(rows@).subrange(0, i + 1);
            assert(next.drop_last() =~= views(rows@).subrange(0, i as int));
            assert(next.last() == rows@[i as int]@);
        }
        if 0 <= rows[i].row_num && rows[i].row_num < height {
            assert(views(rows@)[i as int] == rows@[i as int]@);
            kept.push(rows[i].clone());
        }
        i = i + 1;
    }
    assert(views(rows@).subrange(0, i as int) =~= views(rows@));
    kept
}

impl PredictionEngine {
    /// Makes ready to judge predictions against a screen.
    fn start_judging(&mut self, fb: &Framebuffer)
        requires
            old(self)@.valid(),
            fb@.valid(),
        ensures
            final(self)@ == old(self)@.judging(fb@),
            final(self)@.valid(),
            final(self)@.fits(fb@),
    {
        reveal(EngineView::judging);
        // A resize invalidates every prediction's coordinates.
        if self.size.height != fb.ds.height() || self.size.width != fb.ds.width() {
            self.cursors = Vec::new();
            self.overlays = Vec::new();
            self.size.height = fb.ds.height();
            self.size.width = fb.ds.width();
            self.become_tentative();
            assert(self@ =~= EngineView {
                size: Size {
                    height: fb@.ds.geo.height as i32,
                    width: fb@.ds.geo.width as i32,
                },
                ..old(self)@
            }.reset());
        }
        let active = self.active();
        self.triggers.update(active);
        // Rows that a resize put off screen.
        let kept = keep_on_screen(&self.overlays, fb.ds.height(), Ghost(self.size.width as int));
        self.overlays = kept;
    }

    fn judge_cursors(&mut self, fb: &Framebuffer)
        requires
            old(self)@.valid(),
        ensures
            final(self)@ == old(self)@.cursors_judged(fb@),
            final(self)@.valid(),
            final(self)@.size == old(self)@.size,
    {
        reveal(EngineView::cursors_judged);
        let late_acked = self.frames.late_acked;
        let n: usize = self.cursors.len();
        if n > 0 && self.cursors[n - 1].get_validity(fb, late_acked) == Validity::Incorrect {
            if self.prefs.display == DisplayPreference::Experimental {
                self.cursors = Vec::new();
                assert(self@.cursors =~= Seq::empty());
            } else {
                self.reset();
            }
            return ;
        }
        let kept = keep_pending(&self.cursors, fb, late_acked, Ghost(self.size));
        self.cursors = kept;
    }

    /// Judge outstanding predictions against what the server actually sent.
    pub fn cull(&mut self, fb: &Framebuffer, now: u64)
        requires
            old(self)@.valid(),
            fb@.valid(),
        ensures
            final(self)@ == old(self)@.culled(fb@, now),
            final(self)@.valid(),
            old(self)@.prefs.display != DisplayPreference::Never ==> final(self)@.fits(fb@),
    {
        reveal(EngineView::culled);
        if self.prefs.display == DisplayPreference::Never {
            return ;
        }
        self.start_judging(fb);
        match self.judge_rows(fb, now) {
            Some(Stop::Reset) => {
                self.reset();
                return ;
            },
            Some(Stop::Kill(epoch)) => {
                self.kill_epoch(epoch, fb);
                self.judge_cursors(fb);
                return ;
            },
            None => {
                self.judge_cursors(fb);
                return ;
            },
        }
    }

    /// Predicts a printed character at the predicted cursor.
    fn predict_char(&mut self, ch: char, fb: &Framebuffer, now: u64)
        requires
            old(self)@.valid(),
            fb@.valid(),
            old(self)@.fits(fb@),
            old(self)@.cursors.len() > 0,
        ensures
            final(self)@ == old(self)@.char_predicted(ch, fb@, now),
            final(self)@.valid(),
            final(self)@.fits(fb@),
    {
        reveal(EngineView::char_predicted);
        let c = self.cursors[self.cursors.len() - 1];
        assert(c == self@.cursors.last());
        let row = c.row;
        let col = c.base.col;
        let width = fb.ds.width();
        let ri = self.get_or_make_row(row, width);
        if col + 1 >= width {
            // The last column behaves differently in different applications: emacs shows
            // a wrap marker, a shell just writes the character. Do not commit.
            self.become_tentative();
        }
        let ghost e = self@;
        assert(e.overlays[ri as int].cells.len() == width);
        let stamp = self.stamp_now(now);
        let line_row = &*fb.rows[row as usize];
        assert(line_row@ == fb@.rows[row as int]);
        let line = &line_row.cells;
        // Shift the rest of the row right to make room, unless overwriting.
        let rightmost: usize = if self.prefs.overwrite {
            col as usize
        } else {
            (width - 1) as usize
        };
        let pen = *fb.ds.renditions();
        self.overlays[ri].print_at(line, col as usize, rightmost, stamp, pen, ch);
        assert(self@.overlays =~= e.overlays.update(
            ri as int,
            e.overlays[ri as int].printed(
                views(line@),
                col as int,
                rightmost as int,
                stamp,
                pen,
                ch,
            ),
        ));
        if col < width - 1 {
            self.shift_cursor(col + 1, now);
        } else {
            self.shift_cursor(col, now);
            self.become_tentative();
            self.newline_carriage_return(fb, now);
        }
    }

    fn predict_print(&mut self, ch: char, fb: &Framebuffer, now: u64)
        requires
            old(self)@.valid(),
            fb@.valid(),
            old(self)@.fits(fb@),
        ensures
            final(self)@ == old(self)@.print_predicted(ch, fb@, now),
            final(self)@.valid(),
            final(self)@.fits(fb@),
    {
        reveal(EngineView::print_predicted);
        self.init_cursor(fb);
        assert(self@.widths == old(self)@.widths) by {
            reveal(EngineView::cursor_ready);
        }
        if ch == '\u{7f}' {
            self.predict_backspace(fb, now);
            return ;
        }
        // Only ordinary single-width characters are predictable; anything else could do
        // something we cannot model.

        let single = match self.widths.wcwidth(ch) {
            Some(w) => w == 1,
            None => false,
        };
        if (ch as u32) < 0x20 || !single {
            self.become_tentative();
            return ;
        }
        self.predict_char(ch, fb, now);
    }

    fn predict_backspace(&mut self, fb: &Framebuffer, now: u64)
        requires
            old(self)@.valid(),
            fb@.valid(),
            old(self)@.fits(fb@),
            old(self)@.cursors.len() > 0,
        ensures
            final(self)@ == old(self)@.backspace_predicted(fb@, now),
            final(self)@.valid(),
            final(self)@.fits(fb@),
    {
        reveal(EngineView::backspace_predicted);
        let c = self.cursors[self.cursors.len() - 1];
        assert(c == self@.cursors.last());
        let row = c.row;
        if c.base.col <= 0 {
            return ;
        }
        let col = c.base.col - 1;
        let width = fb.ds.width();
        let ri = self.get_or_make_row(row, width);
        self.shift_cursor(col, now);
        let ghost e = self@;
        assert(e.overlays[ri as int].cells.len() == width);
        let stamp = self.stamp_now(now);
        let line_row = &*fb.rows[row as usize];
        assert(line_row@ == fb@.rows[row as int]);
        let line = &line_row.cells;
        if self.prefs.overwrite {
            // Just blank the cell we backed over.
            self.overlays[ri].overlay_cells[col as usize].predict_blank(stamp, &line[col as usize]);
            assert(self@.overlays =~= e.overlays.update(
                ri as int,
                e.overlays[ri as int].with_cell(
                    col as int,
                    e.overlays[ri as int].cells[col as int].blanked(
                        stamp,
                        views(line@)[col as int],
                    ),
                ),
            ));
            return ;
        }
        // Otherwise the rest of the row shifts left.

        self.overlays[ri].shift_left(line, col as usize, stamp);
        assert(self@.overlays =~= e.overlays.update(
            ri as int,
            e.overlays[ri as int].shifted_left(views(line@), col as int, stamp),
        ));
    }

    fn newline_carriage_return(&mut self, fb: &Framebuffer, now: u64)
        requires
            old(self)@.valid(),
            fb@.valid(),
            old(self)@.fits(fb@),
        ensures
            final(self)@ == old(self)@.newline_predicted(fb@, now),
            final(self)@.valid(),
            final(self)@.fits(fb@),
    {
        reveal(EngineView::newline_predicted);
        self.init_cursor(fb);
        let mut c = self.cursors[self.cursors.len() - 1];
        assert(c == self@.cursors.last());
        c.base.col = 0;
        if c.row == fb.ds.height() - 1 {
            // Scrolling is not predicted -- that would need versioned cell predictions --
            // so blank the last row and let the server tell us what really happened.
            self.set_cursor(c);
            let ri = self.get_or_make_row(c.row, fb.ds.width());
            let ghost e = self@;
            let stamp = self.stamp_now(now);
            self.overlays[ri].empty_all(stamp);
            assert(self@.overlays =~= e.overlays.update(
                ri as int,
                e.overlays[ri as int].emptied(stamp),
            ));
            return ;
        }
        c.row = c.row + 1;
        self.set_cursor(c);
    }

    fn predict_arrow(&mut self, right: bool, fb: &Framebuffer, now: u64)
        requires
            old(self)@.valid(),
            fb@.valid(),
            old(self)@.fits(fb@),
        ensures
            final(self)@ == old(self)@.arrow_predicted(right, fb@, now),
            final(self)@.valid(),
            final(self)@.fits(fb@),
    {
        reveal(EngineView::arrow_predicted);
        self.init_cursor(fb);
        let c = self.cursors[self.cursors.len() - 1];
        assert(c == self@.cursors.last());
        let col = c.base.col;
        if right && col < fb.ds.width() - 1 {
            self.shift_cursor(col + 1, now);
        } else if !right && col > 0 {
            self.shift_cursor(col - 1, now);
        }
    }

    fn act(&mut self, action: &Action, fb: &Framebuffer, now: u64)
        requires
            old(self)@.valid(),
            fb@.valid(),
            old(self)@.fits(fb@),
        ensures
            final(self)@ == old(self)@.acted(*action, fb@, now),
            final(self)@.valid(),
            final(self)@.fits(fb@),
    {
        reveal(EngineView::acted);
        match action.kind {
            Kind::Print => {
                if let Some(ch) = action.ch {
                    self.predict_print(ch, fb, now);
                }
                return ;
            },
            Kind::Execute => {
                self.become_tentative();
                if let Some(ch) = action.ch {
                    if ch == '\r' {
                        self.newline_carriage_return(fb, now);
                    }
                }
                return ;
            },
            Kind::EscDispatch => {
                self.become_tentative();
                return ;
            },
            Kind::CsiDispatch => {
                if let Some(ch) = action.ch {
                    if ch == 'C' {
                        // Right arrow.
                        self.predict_arrow(true, fb, now);
                        return ;
                    }
                    if ch == 'D' {
                        // Left arrow.
                        self.predict_arrow(false, fb, now);
                        return ;
                    }
                }
                self.become_tentative();
                return ;
            },
            _ => {},
        }
    }

    /// Take one byte the user typed and predict what it will do.
    pub fn new_user_byte(&mut self, the_byte: u8, fb: &Framebuffer, now: u64)
        requires
            old(self)@.valid(),
            fb@.valid(),
        ensures
            final(self)@ == old(self)@.typed(the_byte, fb@, now),
            final(self)@.valid(),
    {
        reveal(EngineView::typed);
        if self.prefs.display == DisplayPreference::Never {
            return ;
        }
        if self.prefs.display == DisplayPreference::Experimental {
            self.epochs.prediction = self.epochs.confirmed;
        }
        self.cull(fb, now);
        // Rewrite an application-mode cursor key into its ANSI form, so the arrow handling
        // below sees one spelling rather than two.
        let byte: u8 = if self.last_byte == 0x1b && the_byte == 0x4f {
            0x5b
        } else {
            the_byte
        };
        let ghost e = self@;
        self.last_byte = byte;
        let mut actions: Vec<Action> = Vec::new();
        self.parser.input(byte, &mut actions);
        let ghost fed = e.parser.fed(byte);
        let ghost start = self@;
        assert(actions@ =~= fed.raised);
        assert(start == (EngineView {
            last_byte: byte,
            parser: ParserView { state: fed.state, buf: fed.buf },
            ..e
        }));
        let mut i: usize = 0;
        assert(actions@.subrange(0, 0) =~= Seq::<Action>::empty());
        while i < actions.len()
            invariant
                i <= actions.len(),
                fb@.valid(),
                self@.valid(),
                self@.fits(fb@),
                self@ == start.all_acted(actions@.subrange(0, i as int), fb@, now),
            decreases actions.len() - i,
        {
            proof {
                let next = actions@.subrange(0, i + 1);
                assert(next.drop_last() =~= actions@.subrange(0, i as int));
            }
            self.act(&actions[i], fb, now);
            i = i + 1;
        }
        assert(actions@.subrange(0, i as int) =~= actions@);
    }
}

/// A user who wants no predictions gets none: nothing is predicted from what is typed,
/// nothing is judged, and nothing is drawn.
pub proof fn unwanted_predictions_are_not_made(e: EngineView, byte: u8, s: Screen, now: u64)
    requires
        e.prefs.display == DisplayPreference::Never,
    ensures
        e.typed(byte, s, now) == e,
        e.culled(s, now) == e,
        e.shown_on(s) == s,
{
    reveal(EngineView::typed);
    reveal(EngineView::culled);
    reveal(EngineView::shown_on);
}

impl EngineView {
    /// Is everything that is predicted still too speculative to show?
    pub open spec fn all_withheld(self) -> bool {
        &&& forall|i: int|
            0 <= i < self.cursors.len() ==> !(#[trigger] self.cursors[i]).base.active
                || self.cursors[i].base.withheld(self.epochs.confirmed)
        &&& forall|i: int, j: int|
            0 <= i < self.overlays.len() && 0 <= j < self.overlays[i].cells.len() ==> !(
            #[trigger] self.overlays[i].cells[j]).base.active
                || self.overlays[i].cells[j].base.withheld(self.epochs.confirmed)
    }
}

proof fn lemma_withheld_cursors(e: EngineView, s: Screen, n: int)
    requires
        e.all_withheld(),
        n <= e.cursors.len(),
    ensures
        e.cursors_shown(s, n) == s,
    decreases n,
{
    reveal(ConditionalCursorMove::shown_on);
    if n > 0 {
        lemma_withheld_cursors(e, s, n - 1);
    }
}

proof fn lemma_withheld_cells(e: EngineView, s: Screen, i: int, n: int)
    requires
        e.all_withheld(),
        0 <= i < e.overlays.len(),
        n <= e.overlays[i].cells.len(),
    ensures
        e.overlays[i].shown_on(s, e.epochs.confirmed, e.triggers.flagging, n) == s,
    decreases n,
{
    reveal(OverlayCellView::shown_on);
    if n > 0 {
        lemma_withheld_cells(e, s, i, n - 1);
    }
}

proof fn lemma_withheld_rows(e: EngineView, s: Screen, n: int)
    requires
        e.all_withheld(),
        n <= e.overlays.len(),
    ensures
        e.rows_shown(s, n) == s,
    decreases n,
{
    if n > 0 {
        lemma_withheld_rows(e, s, n - 1);
        lemma_withheld_cells(e, s, n - 1, e.overlays[n - 1].cells.len() as int);
    }
}

/// Predictions that are still too speculative do not show on the screen.
pub proof fn withheld_predictions_do_not_show(e: EngineView, s: Screen)
    requires
        e.all_withheld(),
    ensures
        e.shown_on(s) == s,
{
    reveal(EngineView::shown_on);
    lemma_withheld_cursors(e, s, e.cursors.len() as int);
    lemma_withheld_rows(e, s, e.overlays.len() as int);
}

/// Predictions that were made for a screen of another size are dropped when they are
/// judged, and the screen then shows what the server sent.
pub proof fn a_resize_drops_every_prediction(e: EngineView, s: Screen, now: u64)
    requires
        s.valid(),
        !e.fits(s),
        e.prefs.display != DisplayPreference::Never,
    ensures
        e.culled(s, now).overlays.len() == 0,
        e.culled(s, now).cursors.len() == 0,
        e.culled(s, now).fits(s),
        e.culled(s, now).shown_on(s) == s,
{
    reveal(EngineView::culled);
    reveal(EngineView::judging);
    reveal(EngineView::cursors_judged);
    reveal_with_fuel(rows_on_screen, 1);
    reveal_with_fuel(pending_cursors, 1);
    let j = e.judging(s);
    assert(j.overlays.len() == 0);
    assert(j.rows_judged(0, 0, s, now) == (j, None::<Stop>));
    withheld_predictions_do_not_show(e.culled(s, now), s);
}

/// The cursor predictions that are shown at an epoch are those that are not withheld.
proof fn lemma_shown_cursors(cursors: Seq<ConditionalCursorMove>, epoch: u64)
    ensures
        forall|i: int|
            0 <= i < shown_cursors(cursors, epoch).len() ==> !(#[trigger] shown_cursors(
                cursors,
                epoch,
            )[i]).base.withheld(epoch),
        forall|c: ConditionalCursorMove|
            cursors.contains(c) && !c.base.withheld(epoch) ==> #[trigger] shown_cursors(
                cursors,
                epoch,
            ).contains(c),
    decreases cursors.len(),
{
    if cursors.len() > 0 {
        let init = cursors.drop_last();
        lemma_shown_cursors(init, epoch);
        let (rest, all) = (shown_cursors(init, epoch), shown_cursors(cursors, epoch));
        assert forall|c: ConditionalCursorMove|
            cursors.contains(c) && !c.base.withheld(epoch) implies #[trigger] all.contains(c) by {
            let k = choose|k: int| 0 <= k < cursors.len() && cursors[k] == c;
            if k < init.len() {
                assert(init[k] == c);
                assert(rest.contains(c));
                let m = choose|m: int| 0 <= m < rest.len() && rest[m] == c;
                assert(all[m] == c);
            } else {
                assert(all[all.len() - 1] == c);
            }
        }
    }
}

/// A wrong prediction condemns its whole epoch: nothing of that epoch or a later one stays
/// predicted, except that the cursor is where the server says, and what was predicted
/// before stays.
pub proof fn abandoning_an_epoch_drops_its_predictions(e: EngineView, epoch: u64, s: Screen)
    requires
        epoch > 0,
    ensures
        ({
            let after = e.epoch_killed(epoch, s);
            &&& after.overlays.len() == e.overlays.len()
            &&& forall|i: int, j: int|
                0 <= i < e.overlays.len() && 0 <= j < e.overlays[i].cells.len() ==> (if e.overlays[i].cells[j].base.tentative_until_epoch
                    >= epoch {
                    !(#[trigger] after.overlays[i].cells[j]).base.active
                } else {
                    after.overlays[i].cells[j] == e.overlays[i].cells[j]
                })
            &&& after.cursors.last() == e.cursor_at(s.ds.geo.cursor_row, s.ds.geo.cursor_col)
            &&& forall|i: int|
                0 <= i < after.cursors.len() - 1 ==> (
                #[trigger] after.cursors[i]).base.tentative_until_epoch < epoch
            &&& forall|c: ConditionalCursorMove|
                e.cursors.contains(c) && c.base.tentative_until_epoch < epoch
                    ==> #[trigger] after.cursors.contains(c)
        }),
{
    reveal(EngineView::epoch_killed);
    let limit = (epoch - 1) as u64;
    lemma_shown_cursors(e.cursors, limit);
    let kept = shown_cursors(e.cursors, limit);
    let after = e.epoch_killed(epoch, s);
    assert(after.cursors == kept.push(e.cursor_at(s.ds.geo.cursor_row, s.ds.geo.cursor_col)));
    assert forall|c: ConditionalCursorMove|
        e.cursors.contains(c) && c.base.tentative_until_epoch
            < epoch implies #[trigger] after.cursors.contains(c) by {
        assert(kept.contains(c));
        let m = choose|m: int| 0 <= m < kept.len() && kept[m] == c;
        assert(after.cursors[m] == c);
    }
}

proof fn lemma_row_confirms(e: EngineView, ri: int, ci: int, n: int, s: Screen, now: u64)
    ensures
        e.row_judged(ri, ci, n, s, now).0.epochs.confirmed >= e.epochs.confirmed,
    decreases n - ci,
{
    if ci < n && e.stop_at(ri, ci, s) is None {
        reveal(EngineView::cell_judged);
        lemma_row_confirms(e.cell_judged(ri, ci, s, now), ri, ci + 1, n, s, now);
    }
}

proof fn lemma_rows_confirm(e: EngineView, ri: int, n: int, s: Screen, now: u64)
    ensures
        e.rows_judged(ri, n, s, now).0.epochs.confirmed >= e.epochs.confirmed,
    decreases n - ri,
{
    if ri < n {
        let cells = e.overlays[ri].cells.len() as int;
        lemma_row_confirms(e, ri, 0, cells, s, now);
        lemma_rows_confirm(e.row_judged(ri, 0, cells, s, now).0, ri + 1, n, s, now);
    }
}

/// An epoch that was confirmed stays confirmed: judging never takes back what it earned.
pub proof fn confirmations_only_move_forward(e: EngineView, s: Screen, now: u64)
    ensures
        e.culled(s, now).epochs.confirmed >= e.epochs.confirmed,
{
    reveal(EngineView::culled);
    reveal(EngineView::judging);
    reveal(EngineView::cursors_judged);
    reveal(EngineView::epoch_killed);
    let j = e.judging(s);
    lemma_rows_confirm(j, 0, j.overlays.len() as int, s, now);
}

} // verus!
