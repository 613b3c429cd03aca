//! Speculative changes the client shows before the server has confirmed them.
//!
//! A prediction is provisional: it is displayed, then later judged against what the
//! server actually sent. Judging it is the delicate part, because a prediction that
//! merely *looks* right must not earn credit -- credit is what decides whether the
//! client keeps predicting at all.

use vstd::prelude::*;

use crate::cell::{Attribute, Cell, CellView};
use crate::framebuffer::{Framebuffer, Screen};
use crate::views::{group_views, views};

verus! {

broadcast use group_views;

/// The verdict on a prediction once the server has spoken.
#[derive(Debug, Clone, Copy, PartialEq, Eq, Structural)]
pub enum Validity {
    /// The server has not confirmed this far yet.
    Pending,
    /// Right, and it counts towards trusting predictions.
    Correct,
    /// Right, but too easily right to be evidence of anything.
    CorrectNoCredit,
    Incorrect,
    /// Not a prediction at all.
    Inactive,
}

/// State shared by every kind of prediction.
#[derive(Debug, Clone, Copy, PartialEq, Eq, Structural)]
pub struct ConditionalOverlay {
    /// The local frame number after which this can be judged.
    pub expiration_frame: u64,
    pub col: i32,
    /// Whether this represents a prediction at all.
    pub active: bool,
    /// Epoch until which this is held back from display.
    pub tentative_until_epoch: u64,
    /// When the prediction was made, used to find long-pending ones.
    pub prediction_time: u64,
}

impl ConditionalOverlay {
    /// A place for a prediction, with none made yet.
    pub open spec fn initial(expiration_frame: u64, col: i32, epoch: u64) -> ConditionalOverlay {
        ConditionalOverlay {
            expiration_frame,
            col,
            active: false,
            tentative_until_epoch: epoch,
            prediction_time: u64::MAX,
        }
    }

    /// Is this still too speculative to show?
    pub open spec fn withheld(self, confirmed_epoch: u64) -> bool {
        self.tentative_until_epoch > confirmed_epoch
    }

    /// With no prediction made.
    pub open spec fn forgotten(self) -> ConditionalOverlay {
        ConditionalOverlay {
            expiration_frame: u64::MAX,
            tentative_until_epoch: u64::MAX,
            active: false,
            ..self
        }
    }

    /// With a prediction made now, to be judged from the given frame on.
    pub open spec fn expiring(self, expiration_frame: u64, now: u64) -> ConditionalOverlay {
        ConditionalOverlay { expiration_frame, prediction_time: now, ..self }
    }

    pub fn new(expiration_frame: u64, col: i32, tentative_until_epoch: u64) -> (o: Self)
        ensures
            o == ConditionalOverlay::initial(expiration_frame, col, tentative_until_epoch),
    {
        ConditionalOverlay {
            expiration_frame,
            col,
            active: false,
            tentative_until_epoch,
            prediction_time: u64::MAX,
        }
    }

    /// Is this still too speculative to show?
    pub fn tentative(&self, confirmed_epoch: u64) -> (b: bool)
        ensures
            b == self.withheld(confirmed_epoch),
    {
        self.tentative_until_epoch > confirmed_epoch
    }

    pub fn reset(&mut self)
        ensures
            *final(self) == old(self).forgotten(),
    {
        self.expiration_frame = u64::MAX;
        self.tentative_until_epoch = u64::MAX;
        self.active = false;
    }

    pub fn expire(&mut self, expiration_frame: u64, now: u64)
        ensures
            *final(self) == old(self).expiring(expiration_frame, now),
    {
        self.expiration_frame = expiration_frame;
        self.prediction_time = now;
    }
}

/// A predicted cursor position.
#[derive(Debug, Clone, Copy, PartialEq, Eq, Structural)]
pub struct ConditionalCursorMove {
    pub base: ConditionalOverlay,
    pub row: i32,
}

impl ConditionalCursorMove {
    /// The screen with the predicted cursor, if it is to be shown and lies on the screen.
    #[verifier::opaque]
    pub open spec fn shown_on(self, s: Screen, confirmed_epoch: u64) -> Screen {
        if !self.base.active || self.base.withheld(confirmed_epoch) || self.row
            >= s.ds.geo.height || self.base.col >= s.ds.geo.width || s.ds.origin_mode {
            s
        } else {
            s.cursor_placed(self.row as int, self.base.col as int)
        }
    }

    /// The verdict on the prediction, when frames up to `late_ack` are confirmed.
    pub open spec fn validity(self, s: Screen, late_ack: u64) -> Validity {
        if !self.base.active {
            Validity::Inactive
        } else if self.row >= s.ds.geo.height || self.base.col >= s.ds.geo.width {
            Validity::Incorrect
        } else if late_ack < self.base.expiration_frame {
            Validity::Pending
        } else if s.ds.geo.cursor_col == self.base.col && s.ds.geo.cursor_row == self.row {
            Validity::Correct
        } else {
            Validity::Incorrect
        }
    }

    pub fn new(expiration_frame: u64, row: i32, col: i32, tentative_until_epoch: u64) -> (c: Self)
        ensures
            c == (ConditionalCursorMove {
                base: ConditionalOverlay::initial(expiration_frame, col, tentative_until_epoch),
                row,
            }),
    {
        ConditionalCursorMove {
            base: ConditionalOverlay::new(expiration_frame, col, tentative_until_epoch),
            row,
        }
    }

    pub fn apply(&self, fb: &mut Framebuffer, confirmed_epoch: u64)
        requires
            old(fb)@.valid(),
        ensures
            final(fb)@ == self.shown_on(old(fb)@, confirmed_epoch),
            final(fb)@.valid(),
            final(fb)@.ds.geo.width == old(fb)@.ds.geo.width,
            final(fb)@.ds.geo.height == old(fb)@.ds.geo.height,
    {
        reveal(ConditionalCursorMove::shown_on);
        if !self.base.active || self.base.tentative(confirmed_epoch) {
            return ;
        }
        // A prediction that outlived a resize would otherwise move the cursor off screen,
        // so drop it.

        if self.row >= fb.ds.height() || self.base.col >= fb.ds.width() || fb.ds.origin_mode {
            return ;
        }
        fb.ds.move_row(self.row, false);
        fb.ds.move_col(self.base.col, false, false);
    }

    pub fn get_validity(&self, fb: &Framebuffer, late_ack: u64) -> (v: Validity)
        ensures
            v == self.validity(fb@, late_ack),
    {
        if !self.base.active {
            return Validity::Inactive;
        }
        // A resize can strand a prediction outside the screen.

        if self.row >= fb.ds.height() || self.base.col >= fb.ds.width() {
            return Validity::Incorrect;
        }
        if late_ack >= self.base.expiration_frame {
            if fb.ds.cursor_col() == self.base.col && fb.ds.cursor_row() == self.row {
                return Validity::Correct;
            }
            return Validity::Incorrect;
        }
        Validity::Pending
    }
}

/// A predicted change to one cell.
#[verifier::ext_equal]
pub struct OverlayCellView {
    pub base: ConditionalOverlay,
    pub replacement: CellView,
    pub unknown: bool,
    pub originals: Seq<CellView>,
}

/// Do two cells hold the same, as far as can be seen?
pub open spec fn looks_same(a: CellView, b: CellView) -> bool {
    (a.looks_blank() && b.looks_blank()) || a.contents == b.contents
}

impl OverlayCellView {
    /// A place for a prediction, with none made yet.
    pub open spec fn initial(expiration_frame: u64, col: i32, epoch: u64) -> OverlayCellView {
        OverlayCellView {
            base: ConditionalOverlay::initial(expiration_frame, col, epoch),
            replacement: CellView::blank(0),
            unknown: false,
            originals: Seq::empty(),
        }
    }

    /// With no prediction made.
    pub open spec fn forgotten(self) -> OverlayCellView {
        OverlayCellView {
            base: self.base.forgotten(),
            unknown: false,
            originals: Seq::empty(),
            ..self
        }
    }

    /// With no prediction made, but with what was predicted remembered, so that a later
    /// identical prediction is recognised as unearned.
    pub open spec fn remembered(self) -> OverlayCellView {
        if !self.base.active || self.unknown {
            self.forgotten()
        } else {
            OverlayCellView {
                base: self.base.forgotten(),
                originals: self.originals.push(self.replacement),
                ..self
            }
        }
    }

    /// Is the prediction to be shown in the given row?
    pub open spec fn visible(self, s: Screen, confirmed_epoch: u64, row: i32) -> bool {
        &&& self.base.active
        &&& row < s.ds.geo.height
        &&& self.base.col < s.ds.geo.width
        &&& !self.base.withheld(confirmed_epoch)
        &&& s.has_cell(row as int, self.base.col as int)
    }

    /// The cell as it is shown. An unknown prediction is only underlined, and not in the
    /// last column, where that could provoke a wrap. Underlining a blank that is predicted
    /// to stay blank would be noise.
    pub open spec fn shown_cell(self, current: CellView, flag: bool, last_col: bool) -> CellView {
        let f = flag && !(self.replacement.looks_blank() && current.looks_blank());
        if self.unknown {
            if f && !last_col {
                underlined(current)
            } else {
                current
            }
        } else if current != self.replacement {
            if f {
                underlined(self.replacement)
            } else {
                self.replacement
            }
        } else {
            current
        }
    }

    /// The screen with the prediction in the given row.
    #[verifier::opaque]
    pub open spec fn shown_on(
        self,
        s: Screen,
        confirmed_epoch: u64,
        row: i32,
        flag: bool,
    ) -> Screen {
        if !self.visible(s, confirmed_epoch, row) {
            s
        } else {
            s.with_cell(
                row as int,
                self.base.col as int,
                self.shown_cell(
                    s.cell_at(row as int, self.base.col as int),
                    flag,
                    self.base.col == s.ds.geo.width - 1,
                ),
            )
        }
    }

    /// The verdict on the prediction, when frames up to `late_ack` are confirmed. Being
    /// right about a blank, or about what was there before, earns no credit.
    pub open spec fn validity(self, s: Screen, row: i32, late_ack: u64) -> Validity {
        if !self.base.active {
            Validity::Inactive
        } else if row >= s.ds.geo.height || self.base.col >= s.ds.geo.width || !s.has_cell(
            row as int,
            self.base.col as int,
        ) {
            Validity::Incorrect
        } else if late_ack < self.base.expiration_frame {
            Validity::Pending
        } else if self.unknown || self.replacement.looks_blank() {
            Validity::CorrectNoCredit
        } else if !looks_same(s.cell_at(row as int, self.base.col as int), self.replacement) {
            Validity::Incorrect
        } else if exists|i: int|
            0 <= i < self.originals.len() && looks_same(
                #[trigger] self.originals[i],
                self.replacement,
            ) {
            Validity::CorrectNoCredit
        } else {
            Validity::Correct
        }
    }
}

/// The cell, underlined.
pub open spec fn underlined(c: CellView) -> CellView {
    CellView { renditions: c.renditions.with_attribute(Attribute::Underlined, true), ..c }
}

/// A predicted change to one cell.
#[derive(Debug)]
pub struct ConditionalOverlayCell {
    pub base: ConditionalOverlay,
    pub replacement: Cell,
    /// True when we know the cell changed but not what it became.
    pub unknown: bool,
    /// What was there before. A prediction that merely restores one of these is right
    /// by luck, so it earns no credit.
    pub original_contents: Vec<Cell>,
}

impl View for ConditionalOverlayCell {
    type V = OverlayCellView;

    open spec fn view(&self) -> OverlayCellView {
        OverlayCellView {
            base: self.base,
            replacement: self.replacement@,
            unknown: self.unknown,
            originals: views(self.original_contents@),
        }
    }
}

impl Clone for ConditionalOverlayCell {
    fn clone(&self) -> (res: Self)
        ensures
            res@ == self@,
    {
        let original_contents = self.original_contents.clone();
        assert(views(original_contents@) =~= views(self.original_contents@));
        ConditionalOverlayCell {
            base: self.base,
            replacement: self.replacement.clone(),
            unknown: self.unknown,
            original_contents,
        }
    }
}

impl ConditionalOverlayCell {
    pub fn new(expiration_frame: u64, col: i32, tentative_until_epoch: u64) -> (o: Self)
        ensures
            o@ == OverlayCellView::initial(expiration_frame, col, tentative_until_epoch),
    {
        let o = ConditionalOverlayCell {
            base: ConditionalOverlay::new(expiration_frame, col, tentative_until_epoch),
            replacement: Cell::new(0),
            unknown: false,
            original_contents: Vec::new(),
        };
        assert(o@ =~= OverlayCellView::initial(expiration_frame, col, tentative_until_epoch));
        o
    }

    pub fn reset(&mut self)
        ensures
            final(self)@ == old(self)@.forgotten(),
    {
        self.unknown = false;
        self.original_contents = Vec::new();
        self.base.reset();
        assert(self@ =~= old(self)@.forgotten());
    }

    /// Reset, but remember what we had predicted so a later identical prediction is
    /// recognised as unearned.
    pub fn reset_with_orig(&mut self)
        ensures
            final(self)@ == old(self)@.remembered(),
    {
        if !self.base.active || self.unknown {
            self.reset();
            return ;
        }
        self.original_contents.push(self.replacement.clone());
        self.base.reset();
        assert(self@ =~= old(self)@.remembered());
    }

    pub fn apply(&self, fb: &mut Framebuffer, confirmed_epoch: u64, row: i32, flag: bool)
        requires
            old(fb)@.valid(),
        ensures
            final(fb)@ == self@.shown_on(old(fb)@, confirmed_epoch, row, flag),
            final(fb)@.valid(),
            final(fb)@.ds == old(fb)@.ds,
    {
        reveal(OverlayCellView::shown_on);
        if !self.base.active || row >= fb.ds.height() || self.base.col >= fb.ds.width() {
            return ;
        }
        if self.base.tentative(confirmed_epoch) {
            return ;
        }
        let shown: Option<Cell>;
        match fb.cell(row, self.base.col) {
            Some(current) => {
                let last_col = self.base.col == fb.ds.width() - 1;
                shown = self.cell_to_show(current, flag, last_col);
            },
            None => {
                return ;
            },
        }
        match shown {
            Some(cell) => {
                let c = fb.mutable_cell(row, self.base.col);
                *c = cell;
            },
            None => {
                let ghost r = old(fb)@.rows[old(fb)@.row_named(row as int)];
                let ghost k = old(fb)@.col_named(self@.base.col as int);
                assert(r.cells.update(k, r.cells[k]) =~= r.cells);
                assert(old(fb)@.rows.update(old(fb)@.row_named(row as int), r) =~= old(fb)@.rows);
            },
        }
    }

    /// The cell as it is shown, if that is not how it is.
    fn cell_to_show(&self, current: &Cell, flag: bool, last_col: bool) -> (c: Option<Cell>)
        ensures
            match c {
                Some(cell) => cell@ == self@.shown_cell(current@, flag, last_col),
                None => current@ == self@.shown_cell(current@, flag, last_col),
            },
    {
        // Underlining a blank that is predicted to stay blank would be noise.
        let flag = flag && !(self.replacement.is_blank() && current.is_blank());
        if self.unknown {
            // The last column is left alone: underlining there can push the terminal into
            // a wrap we did not intend.
            if flag && !last_col {
                let mut c = current.clone();
                c.renditions_mut().set_attribute(Attribute::Underlined, true);
                return Some(c);
            }
            return None;
        }
        if *current != self.replacement {
            let mut c = self.replacement.clone();
            if flag {
                c.renditions_mut().set_attribute(Attribute::Underlined, true);
            }
            return Some(c);
        }
        None
    }

    pub fn get_validity(&self, fb: &Framebuffer, row: i32, late_ack: u64) -> (v: Validity)
        ensures
            v == self@.validity(fb@, row, late_ack),
    {
        if !self.base.active {
            return Validity::Inactive;
        }
        if row >= fb.ds.height() || self.base.col >= fb.ds.width() {
            return Validity::Incorrect;
        }
        match fb.cell(row, self.base.col) {
            Some(current) => self.judge(current, late_ack),
            None => Validity::Incorrect,
        }
    }

    /// The verdict on an active prediction for the given cell.
    fn judge(&self, current: &Cell, late_ack: u64) -> (v: Validity)
        ensures
            v == if late_ack < self@.base.expiration_frame {
                Validity::Pending
            } else if self@.unknown || self@.replacement.looks_blank() {
                Validity::CorrectNoCredit
            } else if !looks_same(current@, self@.replacement) {
                Validity::Incorrect
            } else if exists|i: int|
                0 <= i < self@.originals.len() && looks_same(
                    #[trigger] self@.originals[i],
                    self@.replacement,
                ) {
                Validity::CorrectNoCredit
            } else {
                Validity::Correct
            },
    {
        // Not updated this far yet.
        if late_ack < self.base.expiration_frame {
            return Validity::Pending;
        }
        // Predicting a blank is too easy to be right by accident.

        if self.unknown || self.replacement.is_blank() {
            return Validity::CorrectNoCredit;
        }
        if !current.contents_match(&self.replacement) {
            return Validity::Incorrect;
        }
        let mut i: usize = 0;
        while i < self.original_contents.len()
            invariant
                i <= self.original_contents.len(),
                late_ack >= self@.base.expiration_frame,
                !self@.unknown && !self@.replacement.looks_blank(),
                looks_same(current@, self@.replacement),
                forall|k: int|
                    0 <= k < i ==> !looks_same(
                        #[trigger] self@.originals[k],
                        self@.replacement,
                    ),
            decreases self.original_contents.len() - i,
        {
            // Right, but only because it matches what was already there.
            if self.original_contents[i].contents_match(&self.replacement) {
                assert(looks_same(self@.originals[i as int], self@.replacement));
                return Validity::CorrectNoCredit;
            }
            i = i + 1;
        }
        Validity::Correct
    }
}

/// One row's worth of predicted cells.
#[verifier::ext_equal]
pub struct OverlayRowView {
    pub row_num: i32,
    pub cells: Seq<OverlayCellView>,
}

impl OverlayRowView {
    /// A row of places for predictions, with none made yet.
    pub open spec fn initial(row_num: i32, num_cols: int, epoch: u64) -> OverlayRowView {
        OverlayRowView {
            row_num,
            cells: Seq::new(
                if num_cols < 0 {
                    0nat
                } else {
                    num_cols as nat
                },
                |i: int| OverlayCellView::initial(0, i as i32, epoch),
            ),
        }
    }

    /// The screen with the first `n` predictions.
    pub open spec fn shown_on(self, s: Screen, confirmed_epoch: u64, flag: bool, n: int) -> Screen
        decreases n,
    {
        if n <= 0 {
            s
        } else {
            self.cells[n - 1].shown_on(
                self.shown_on(s, confirmed_epoch, flag, n - 1),
                confirmed_epoch,
                self.row_num,
                flag,
            )
        }
    }
}

/// One row's worth of predicted cells.
#[derive(Debug)]
pub struct ConditionalOverlayRow {
    pub row_num: i32,
    pub overlay_cells: Vec<ConditionalOverlayCell>,
}

impl View for ConditionalOverlayRow {
    type V = OverlayRowView;

    open spec fn view(&self) -> OverlayRowView {
        OverlayRowView { row_num: self.row_num, cells: views(self.overlay_cells@) }
    }
}

impl Clone for ConditionalOverlayRow {
    fn clone(&self) -> (res: Self)
        ensures
            res@ == self@,
    {
        let overlay_cells = self.overlay_cells.clone();
        assert(views(overlay_cells@) =~= views(self.overlay_cells@));
        ConditionalOverlayRow { row_num: self.row_num, overlay_cells }
    }
}

impl ConditionalOverlayRow {
    pub fn new(row_num: i32, num_cols: i32) -> (r: Self)
        ensures
            r@ == OverlayRowView::initial(row_num, num_cols as int, 0),
    {
        ConditionalOverlayRow::for_epoch(row_num, num_cols, 0)
    }

    /// A row whose predictions are withheld until the given epoch.
    pub fn for_epoch(row_num: i32, num_cols: i32, epoch: u64) -> (r: Self)
        ensures
            r@ == OverlayRowView::initial(row_num, num_cols as int, epoch),
    {
        let mut overlay_cells: Vec<ConditionalOverlayCell> = Vec::new();
        let mut col: i32 = 0;
        while col < num_cols
            invariant
                0 <= col,
                num_cols >= 0 ==> col <= num_cols,
                num_cols < 0 ==> col == 0,
                overlay_cells@.len() == col,
                forall|k: int|
                    0 <= k < col ==> #[trigger] overlay_cells@[k]@ == OverlayCellView::initial(
                        0,
                        k as i32,
                        epoch,
                    ),
            decreases num_cols - col,
        {
            overlay_cells.push(ConditionalOverlayCell::new(0, col, epoch));
            col = col + 1;
        }
        let r = ConditionalOverlayRow { row_num, overlay_cells };
        assert(r@ =~= OverlayRowView::initial(row_num, num_cols as int, epoch));
        r
    }

    pub fn apply(&self, fb: &mut Framebuffer, confirmed_epoch: u64, flag: bool)
        requires
            old(fb)@.valid(),
        ensures
            final(fb)@ == self@.shown_on(
                old(fb)@,
                confirmed_epoch,
                flag,
                self@.cells.len() as int,
            ),
            final(fb)@.valid(),
            final(fb)@.ds == old(fb)@.ds,
    {
        let mut i: usize = 0;
        while i < self.overlay_cells.len()
            invariant
                i <= self.overlay_cells.len(),
                fb@.valid(),
                fb@.ds == old(fb)@.ds,
                fb@ == self@.shown_on(old(fb)@, confirmed_epoch, flag, i as int),
            decreases self.overlay_cells.len() - i,
        {
            self.overlay_cells[i].apply(fb, confirmed_epoch, self.row_num, flag);
            i = i + 1;
        }
    }
}

} // verus!
