//! The predictions for one row of the screen, and how each kind of guess changes them.

use vstd::prelude::*;

use crate::cell::{Cell, CellView, Renditions};
use crate::overlay::{
    ConditionalOverlay, ConditionalOverlayCell, ConditionalOverlayRow, OverlayCellView,
    OverlayRowView,
};
use crate::views::{group_views, views};

verus! {

broadcast use group_views;

/// When a prediction is made: its epoch, the frame it is judged from, and the time.
#[derive(Debug, Clone, Copy)]
pub struct Stamp {
    pub epoch: u64,
    pub frame: u64,
    pub now: u64,
}

impl ConditionalOverlay {
    /// With a prediction made.
    pub open spec fn stamped(self, stamp: Stamp) -> ConditionalOverlay {
        ConditionalOverlay {
            active: true,
            tentative_until_epoch: stamp.epoch,
            expiration_frame: stamp.frame,
            prediction_time: stamp.now,
            ..self
        }
    }

    pub(crate) fn stamp(&mut self, stamp: Stamp)
        ensures
            *final(self) == old(self).stamped(stamp),
    {
        self.active = true;
        self.tentative_until_epoch = stamp.epoch;
        self.expire(stamp.frame, stamp.now);
    }
}

impl OverlayCellView {
    /// With a new prediction made, where `original` was before. What it predicts is still
    /// to be filled in.
    pub open spec fn predicted(self, stamp: Stamp, original: CellView) -> OverlayCellView {
        let c = self.remembered();
        OverlayCellView {
            base: c.base.stamped(stamp),
            originals: c.originals.push(original),
            ..c
        }
    }

    /// With the prediction that a neighbour moves here, as it was predicted or as it
    /// actually is. What comes in over the edge is not knowable.
    pub open spec fn moved_in(
        self,
        stamp: Stamp,
        original: CellView,
        neighbour: OverlayCellView,
        neighbour_actual: CellView,
        edge: bool,
    ) -> OverlayCellView {
        let c = self.predicted(stamp, original);
        if edge || (neighbour.base.active && neighbour.unknown) {
            OverlayCellView { unknown: true, ..c }
        } else if neighbour.base.active {
            OverlayCellView { unknown: false, replacement: neighbour.replacement, ..c }
        } else {
            OverlayCellView { unknown: false, replacement: neighbour_actual, ..c }
        }
    }

    /// With the prediction that a character is printed here.
    pub open spec fn printed(
        self,
        stamp: Stamp,
        original: CellView,
        renditions: Renditions,
        ch: char,
    ) -> OverlayCellView {
        let c = self.predicted(stamp, original);
        OverlayCellView {
            replacement: CellView { contents: seq![ch], renditions, ..c.replacement },
            ..c
        }
    }

    /// With the prediction that the cell is blanked.
    pub open spec fn blanked(self, stamp: Stamp, original: CellView) -> OverlayCellView {
        OverlayCellView {
            replacement: CellView { contents: seq![' '], ..original },
            ..self.predicted(stamp, original)
        }
    }

    /// With the prediction that the cell is emptied by a scroll.
    pub open spec fn emptied(self, stamp: Stamp) -> OverlayCellView {
        OverlayCellView {
            base: self.base.stamped(stamp),
            replacement: CellView { contents: Seq::empty(), ..self.replacement },
            ..self
        }
    }
}

impl ConditionalOverlayCell {
    pub(crate) fn predict(&mut self, stamp: Stamp, original: &Cell)
        ensures
            final(self)@ == old(self)@.predicted(stamp, original@),
    {
        self.reset_with_orig();
        self.base.stamp(stamp);
        self.original_contents.push(original.clone());
        assert(self@ =~= old(self)@.predicted(stamp, original@));
    }

    pub(crate) fn predict_move(
        &mut self,
        stamp: Stamp,
        original: &Cell,
        neighbour: &ConditionalOverlayCell,
        neighbour_actual: &Cell,
        edge: bool,
    )
        ensures
            final(self)@ == old(self)@.moved_in(
                stamp,
                original@,
                neighbour@,
                neighbour_actual@,
                edge,
            ),
    {
        self.predict(stamp, original);
        if edge || (neighbour.base.active && neighbour.unknown) {
            // What crosses the edge is not knowable.
            self.unknown = true;
        } else if neighbour.base.active {
            self.unknown = false;
            self.replacement = neighbour.replacement.clone();
        } else {
            self.unknown = false;
            self.replacement = neighbour_actual.clone();
        }
    }

    pub(crate) fn predict_print(&mut self, stamp: Stamp, original: &Cell, renditions: Renditions, ch: char)
        ensures
            final(self)@ == old(self)@.printed(stamp, original@, renditions, ch),
    {
        self.predict(stamp, original);
        self.replacement.set_renditions(renditions);
        self.replacement.clear();
        self.replacement.append(ch);
        assert(self.replacement@.contents =~= seq![ch]);
    }

    pub(crate) fn predict_blank(&mut self, stamp: Stamp, original: &Cell)
        ensures
            final(self)@ == old(self)@.blanked(stamp, original@),
    {
        self.predict(stamp, original);
        self.replacement = original.clone();
        self.replacement.clear();
        self.replacement.append(' ');
        assert(self.replacement@.contents =~= seq![' ']);
    }

    pub(crate) fn predict_empty(&mut self, stamp: Stamp)
        ensures
            final(self)@ == old(self)@.emptied(stamp),
    {
        self.base.stamp(stamp);
        self.replacement.clear();
    }
}

impl OverlayRowView {
    /// With the prediction that the cells right of `col`, up to `rightmost`, move right to
    /// make room. `line` is what the screen shows.
    pub open spec fn shifted_right(
        self,
        line: Seq<CellView>,
        col: int,
        rightmost: int,
        stamp: Stamp,
    ) -> OverlayRowView {
        OverlayRowView {
            cells: Seq::new(
                self.cells.len(),
                |i: int|
                    if col < i <= rightmost {
                        self.cells[i].moved_in(
                            stamp,
                            line[i],
                            self.cells[i - 1],
                            line[i - 1],
                            i == self.cells.len() - 1,
                        )
                    } else {
                        self.cells[i]
                    },
            ),
            ..self
        }
    }

    /// With the prediction that the cells right of `col` move left over it.
    pub open spec fn shifted_left(self, line: Seq<CellView>, col: int, stamp: Stamp) -> OverlayRowView {
        OverlayRowView {
            cells: Seq::new(
                self.cells.len(),
                |i: int|
                    if col <= i {
                        self.cells[i].moved_in(
                            stamp,
                            line[i],
                            self.cells[i + 1],
                            line[i + 1],
                            i + 2 >= self.cells.len(),
                        )
                    } else {
                        self.cells[i]
                    },
            ),
            ..self
        }
    }

    /// With one cell replaced.
    pub open spec fn with_cell(self, col: int, c: OverlayCellView) -> OverlayRowView {
        OverlayRowView { cells: self.cells.update(col, c), ..self }
    }

    /// With the prediction that a character is printed at `col`, after the cells up to
    /// `rightmost` moved right to make room.
    pub open spec fn printed(
        self,
        line: Seq<CellView>,
        col: int,
        rightmost: int,
        stamp: Stamp,
        pen: Renditions,
        ch: char,
    ) -> OverlayRowView {
        let shifted = self.shifted_right(line, col, rightmost, stamp);
        shifted.with_cell(
            col,
            shifted.cells[col].printed(
                stamp,
                line[col],
                shifted.renditions_at(line, col, pen),
                ch,
            ),
        )
    }

    /// With every cell predicted to be emptied by a scroll.
    pub open spec fn emptied(self, stamp: Stamp) -> OverlayRowView {
        OverlayRowView {
            cells: Seq::new(self.cells.len(), |i: int| self.cells[i].emptied(stamp)),
            ..self
        }
    }

    /// With the renditions that the server used adopted from `col` on, so that later
    /// predictions inherit them.
    pub open spec fn adopting(self, col: int, r: Renditions) -> OverlayRowView {
        OverlayRowView {
            cells: Seq::new(
                self.cells.len(),
                |i: int|
                    if col <= i {
                        OverlayCellView {
                            replacement: CellView { renditions: r, ..self.cells[i].replacement },
                            ..self.cells[i]
                        }
                    } else {
                        self.cells[i]
                    },
            ),
            ..self
        }
    }

    /// With the predictions that are withheld at the given epoch forgotten.
    pub open spec fn without_withheld(self, epoch: u64) -> OverlayRowView {
        OverlayRowView {
            cells: Seq::new(
                self.cells.len(),
                |i: int|
                    if self.cells[i].base.withheld(epoch) {
                        self.cells[i].forgotten()
                    } else {
                        self.cells[i]
                    },
            ),
            ..self
        }
    }

    /// Is anything predicted in this row?
    pub open spec fn any_active(self) -> bool {
        exists|i: int| 0 <= i < self.cells.len() && (#[trigger] self.cells[i]).base.active
    }

    /// The renditions for a character at `col`: those of the character to the left, which
    /// is a better guess than the draw state when the application is mid-sequence.
    pub open spec fn renditions_at(self, line: Seq<CellView>, col: int, pen: Renditions) -> Renditions {
        if col <= 0 {
            pen
        } else if self.cells[col - 1].base.active && !self.cells[col - 1].unknown {
            self.cells[col - 1].replacement.renditions
        } else {
            line[col - 1].renditions
        }
    }
}

impl ConditionalOverlayRow {
    pub(crate) fn shift_right(&mut self, line: &Vec<Cell>, col: usize, rightmost: usize, stamp: Stamp)
        requires
            old(self)@.cells.len() == line@.len(),
            col <= rightmost < line@.len(),
        ensures
            final(self)@ == old(self)@.shifted_right(
                views(line@),
                col as int,
                rightmost as int,
                stamp,
            ),
    {
        let n: usize = self.overlay_cells.len();
        let ghost goal = old(self)@.shifted_right(
            views(line@),
            col as int,
            rightmost as int,
            stamp,
        );
        let mut i: usize = rightmost;
        while i > col
            invariant
                col <= i <= rightmost < n,
                n == self@.cells.len() == old(self)@.cells.len() == line@.len(),
                self@.row_num == old(self)@.row_num,
                goal == old(self)@.shifted_right(
                    views(line@),
                    col as int,
                    rightmost as int,
                    stamp,
                ),
                forall|k: int| 0 <= k <= i ==> #[trigger] self@.cells[k] == old(self)@.cells[k],
                forall|k: int| i < k < n ==> #[trigger] self@.cells[k] == goal.cells[k],
            decreases i,
        {
            let ghost before = self@;
            let neighbour = self.overlay_cells[i - 1].clone();
            assert(neighbour@ == before.cells[i - 1]);
            self.overlay_cells[i].predict_move(stamp, &line[i], &neighbour, &line[i - 1], i == n - 1);
            assert(views(line@)[i as int] == line@[i as int]@);
            assert(views(line@)[i - 1] == line@[i - 1]@);
            assert(before.cells[i as int] == old(self)@.cells[i as int]);
            assert(before.cells[i - 1] == old(self)@.cells[i - 1]);
            assert(self@.cells[i as int] == goal.cells[i as int]);
            assert(self@.cells =~= before.cells.update(i as int, goal.cells[i as int]));
            i = i - 1;
        }
        assert(self@ =~= goal);
    }

    pub(crate) fn shift_left(&mut self, line: &Vec<Cell>, col: usize, stamp: Stamp)
        requires
            old(self)@.cells.len() == line@.len(),
            col <= line@.len(),
        ensures
            final(self)@ == old(self)@.shifted_left(views(line@), col as int, stamp),
    {
        let n: usize = self.overlay_cells.len();
        let ghost goal = old(self)@.shifted_left(views(line@), col as int, stamp);
        let mut i: usize = col;
        while i < n
            invariant
                col <= i <= n,
                n == self@.cells.len() == old(self)@.cells.len() == line@.len(),
                self@.row_num == old(self)@.row_num,
                goal == old(self)@.shifted_left(views(line@), col as int, stamp),
                forall|k: int| i <= k < n ==> #[trigger] self@.cells[k] == old(self)@.cells[k],
                forall|k: int| 0 <= k < i ==> #[trigger] self@.cells[k] == goal.cells[k],
            decreases n - i,
        {
            let ghost before = self@;
            assert(views(line@)[i as int] == line@[i as int]@);
            if n - i > 2 {
                let neighbour = self.overlay_cells[i + 1].clone();
                assert(neighbour@ == before.cells[i + 1]);
                assert(views(line@)[i + 1] == line@[i + 1]@);
                self.overlay_cells[i].predict_move(
                    stamp,
                    &line[i],
                    &neighbour,
                    &line[i + 1],
                    false,
                );
            } else {
                // What scrolls in from beyond the edge is not knowable.
                self.overlay_cells[i].predict(stamp, &line[i]);
                self.overlay_cells[i].unknown = true;
            }
            assert(before.cells[i as int] == old(self)@.cells[i as int]);
            assert(i + 1 < n ==> before.cells[i + 1] == old(self)@.cells[i + 1]);
            assert(self@.cells[i as int] == goal.cells[i as int]);
            assert(self@.cells =~= before.cells.update(i as int, goal.cells[i as int]));
            i = i + 1;
        }
        assert(self@ =~= goal);
    }

    pub(crate) fn empty_all(&mut self, stamp: Stamp)
        ensures
            final(self)@ == old(self)@.emptied(stamp),
    {
        let n: usize = self.overlay_cells.len();
        let mut i: usize = 0;
        while i < n
            invariant
                i <= n,
                n == self@.cells.len() == old(self)@.cells.len(),
                self@.row_num == old(self)@.row_num,
                forall|k: int| i <= k < n ==> #[trigger] self@.cells[k] == old(self)@.cells[k],
                forall|k: int|
                    0 <= k < i ==> #[trigger] self@.cells[k] == old(self)@.cells[k].emptied(stamp),
            decreases n - i,
        {
            let ghost before = self@;
            self.overlay_cells[i].predict_empty(stamp);
            assert(self@.cells =~= before.cells.update(
                i as int,
                before.cells[i as int].emptied(stamp),
            ));
            i = i + 1;
        }
        assert(self@ =~= old(self)@.emptied(stamp));
    }

    pub(crate) fn adopt(&mut self, col: usize, r: Renditions)
        ensures
            final(self)@ == old(self)@.adopting(col as int, r),
    {
        let n: usize = self.overlay_cells.len();
        let ghost goal = old(self)@.adopting(col as int, r);
        let mut i: usize = if col < n {
            col
        } else {
            n
        };
        while i < n
            invariant
                i <= n,
                i < n ==> col <= i,
                n == self@.cells.len() == old(self)@.cells.len(),
                self@.row_num == old(self)@.row_num,
                goal == old(self)@.adopting(col as int, r),
                forall|k: int| i <= k < n ==> #[trigger] self@.cells[k] == old(self)@.cells[k],
                forall|k: int| 0 <= k < i ==> #[trigger] self@.cells[k] == goal.cells[k],
            decreases n - i,
        {
            let ghost before = self@;
            self.overlay_cells[i].replacement.set_renditions(r);
            assert(before.cells[i as int] == old(self)@.cells[i as int]);
            assert(self@.cells[i as int] == goal.cells[i as int]);
            assert(self@.cells =~= before.cells.update(i as int, goal.cells[i as int]));
            i = i + 1;
        }
        assert(self@ =~= goal);
    }

    pub(crate) fn forget_withheld(&mut self, epoch: u64)
        ensures
            final(self)@ == old(self)@.without_withheld(epoch),
    {
        let n: usize = self.overlay_cells.len();
        let ghost goal = old(self)@.without_withheld(epoch);
        let mut i: usize = 0;
        while i < n
            invariant
                i <= n,
                n == self@.cells.len() == old(self)@.cells.len(),
                self@.row_num == old(self)@.row_num,
                goal == old(self)@.without_withheld(epoch),
                forall|k: int| i <= k < n ==> #[trigger] self@.cells[k] == old(self)@.cells[k],
                forall|k: int| 0 <= k < i ==> #[trigger] self@.cells[k] == goal.cells[k],
            decreases n - i,
        {
            let ghost before = self@;
            if self.overlay_cells[i].base.tentative(epoch) {
                self.overlay_cells[i].reset();
            }
            assert(before.cells[i as int] == old(self)@.cells[i as int]);
            assert(self@.cells[i as int] == goal.cells[i as int]);
            assert(self@.cells =~= before.cells.update(i as int, goal.cells[i as int]));
            i = i + 1;
        }
        assert(self@ =~= goal);
    }

    pub(crate) fn has_active(&self) -> (b: bool)
        ensures
            b == self@.any_active(),
    {
        let mut i: usize = 0;
        while i < self.overlay_cells.len()
            invariant
                i <= self.overlay_cells.len(),
                forall|k: int| 0 <= k < i ==> !(#[trigger] self@.cells[k]).base.active,
            decreases self.overlay_cells.len() - i,
        {
            if self.overlay_cells[i].base.active {
                assert(self@.cells[i as int].base.active);
                return true;
            }
            i = i + 1;
        }
        false
    }

    pub(crate) fn print_at(
        &mut self,
        line: &Vec<Cell>,
        col: usize,
        rightmost: usize,
        stamp: Stamp,
        pen: Renditions,
        ch: char,
    )
        requires
            old(self)@.cells.len() == line@.len(),
            col <= rightmost < line@.len(),
        ensures
            final(self)@ == old(self)@.printed(
                views(line@),
                col as int,
                rightmost as int,
                stamp,
                pen,
                ch,
            ),
    {
        self.shift_right(line, col, rightmost, stamp);
        let ghost shifted = self@;
        assert(self.overlay_cells@.len() == shifted.cells.len());
        let r = self.renditions_for(line, col, pen);
        self.overlay_cells[col].predict_print(stamp, &line[col], r, ch);
        assert(views(line@)[col as int] == line@[col as int]@);
        assert(self@ =~= old(self)@.printed(
            views(line@),
            col as int,
            rightmost as int,
            stamp,
            pen,
            ch,
        ));
    }

    pub(crate) fn renditions_for(&self, line: &Vec<Cell>, col: usize, pen: Renditions) -> (r: Renditions)
        requires
            col < line@.len(),
            line@.len() == self@.cells.len(),
        ensures
            r == self@.renditions_at(views(line@), col as int, pen),
    {
        if col == 0 {
            return pen;
        }
        let left = &self.overlay_cells[col - 1];
        assert(left@ == self@.cells[col - 1]);
        if left.base.active && !left.unknown {
            *left.replacement.renditions()
        } else {
            *line[col - 1].renditions()
        }
    }
}

} // verus!
