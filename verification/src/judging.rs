//! How predictions are held against what the server sent.

use vstd::prelude::*;

use crate::cell::CellView;
use crate::control::at;
use crate::drawing::orderly;
use crate::framebuffer::Screen;
use crate::overlay::{ConditionalCursorMove, OverlayCellView, OverlayRowView, Validity};
use crate::prediction::{
    pending_cursors, rows_on_screen, DisplayPreference, EngineView, Stop, Triggers,
};

verus! {

/// Can the prediction be judged: is its frame confirmed?
pub open spec fn is_due(c: OverlayCellView, late_acked: u64) -> bool {
    c.base.active && c.base.expiration_frame <= late_acked
}

/// Does what was predicted say something that can be seen?
pub open spec fn says_something(c: OverlayCellView) -> bool {
    &&& !c.unknown
    &&& c.replacement.contents.len() > 0
    &&& c.replacement.contents != seq![' ']
    &&& c.replacement.contents != seq!['\u{a0}']
}

/// Is the prediction due, and wrong: does the cell hold something else?
pub open spec fn is_wrong(c: OverlayCellView, actual: CellView, late_acked: u64) -> bool {
    is_due(c, late_acked) && says_something(c) && actual.contents != c.replacement.contents
}

/// Is the prediction due, right, and more than what was there before?
pub open spec fn is_earned(c: OverlayCellView, actual: CellView, late_acked: u64) -> bool {
    &&& is_due(c, late_acked)
    &&& says_something(c)
    &&& actual.contents == c.replacement.contents
    &&& forall|i: int|
        0 <= i < c.originals.len() ==> (#[trigger] c.originals[i]).contents
            != c.replacement.contents
}

/// A prediction is judged once its frame is confirmed, by what the cell holds: it is wrong if
/// that is something else, it is right if that is the same, and it earns trust only if it
/// says something that was not there before.
pub proof fn cells_are_judged_by_what_they_hold(c: OverlayCellView, s: Screen, row: i32, late_acked: u64)
    requires
        s.valid(),
        0 <= row < s.ds.geo.height,
        0 <= c.base.col < s.ds.geo.width,
    ensures
        ({
            let actual = at(s, row as int, c.base.col as int);
            let v = c.validity(s, row, late_acked);
            &&& (v == Validity::Inactive <==> !c.base.active)
            &&& (v == Validity::Pending <==> c.base.active && late_acked < c.base.expiration_frame)
            &&& (v == Validity::Incorrect <==> is_wrong(c, actual, late_acked))
            &&& (v == Validity::Correct <==> is_earned(c, actual, late_acked))
        }),
{
    assert(s.rows[row as int].cells.len() == s.ds.geo.width);
    let actual = at(s, row as int, c.base.col as int);
    assert(s.cell_at(row as int, c.base.col as int) == actual);
    assert(s.has_cell(row as int, c.base.col as int));
    assert(c.replacement.looks_blank() <==> !(c.replacement.contents.len() > 0
        && c.replacement.contents != seq![' '] && c.replacement.contents != seq!['\u{a0}'])) by {
        if c.replacement.contents.len() == 0 {
            assert(c.replacement.contents =~= Seq::empty());
        }
    }
    if is_due(c, late_acked) && says_something(c) && actual.contents == c.replacement.contents {
        assert(!c.replacement.looks_blank());
        if !is_earned(c, actual, late_acked) {
            let i = choose|i: int|
                0 <= i < c.originals.len() && (#[trigger] c.originals[i]).contents
                    == c.replacement.contents;
            assert(crate::overlay::looks_same(c.originals[i], c.replacement));
        }
    }
}

/// A cursor prediction is judged once its frame is confirmed, by where the cursor is.
pub proof fn cursors_are_judged_by_where_they_are(c: ConditionalCursorMove, s: Screen, late_acked: u64)
    requires
        s.valid(),
        c.base.active,
    ensures
        ({
            let there = s.ds.geo.cursor_row == c.row && s.ds.geo.cursor_col == c.base.col;
            let fits = c.row < s.ds.geo.height && c.base.col < s.ds.geo.width;
            let v = c.validity(s, late_acked);
            &&& (v == Validity::Pending <==> fits && late_acked < c.base.expiration_frame)
            &&& (v == Validity::Correct <==> there && c.base.expiration_frame <= late_acked)
            &&& (v == Validity::Incorrect <==> !fits || (c.base.expiration_frame <= late_acked
                && !there))
        }),
{
}

/// Are the cells of a row, from a column on, those of another, but for how they look?
spec fn same_from(r: OverlayRowView, q: OverlayRowView, ci: int) -> bool {
    &&& r.row_num == q.row_num
    &&& r.cells.len() == q.cells.len()
    &&& forall|j: int|
        ci <= j < q.cells.len() ==> (#[trigger] r.cells[j]).base == q.cells[j].base
            && r.cells[j].unknown == q.cells[j].unknown && r.cells[j].originals
            == q.cells[j].originals && r.cells[j].replacement.contents
            == q.cells[j].replacement.contents
}

/// What is left of a cell when it was judged and nothing was wrong.
spec fn left_over(r: OverlayCellView, q: OverlayCellView, late_acked: u64) -> bool {
    if is_due(q, late_acked) {
        !r.base.active
    } else {
        r.base == q.base && r.unknown == q.unknown && r.replacement.contents
            == q.replacement.contents
    }
}

/// Is anything in the row, from a column on, wrong?
pub open spec fn wrong_in(r: OverlayRowView, s: Screen, late_acked: u64, ci: int) -> bool {
    exists|j: int|
        ci <= j < r.cells.len() && is_wrong(
            #[trigger] r.cells[j],
            at(s, r.row_num as int, j),
            late_acked,
        )
}

/// Is the row one of the screen, with each prediction under its column?
spec fn in_place(r: OverlayRowView, s: Screen) -> bool {
    &&& s.valid()
    &&& 0 <= r.row_num < s.ds.geo.height
    &&& r.cells.len() == s.ds.geo.width
    &&& forall|j: int| 0 <= j < r.cells.len() ==> (#[trigger] r.cells[j]).base.col == j
}

proof fn lemma_row_judged(e: EngineView, base: OverlayRowView, ri: int, ci: int, s: Screen, now: u64)
    requires
        0 <= ri < e.overlays.len(),
        in_place(base, s),
        same_from(e.overlays[ri], base, ci),
        0 <= ci <= base.cells.len(),
        forall|j: int|
            0 <= j < ci ==> left_over(
                #[trigger] e.overlays[ri].cells[j],
                base.cells[j],
                e.frames.late_acked,
            ),
        e.prefs.display != DisplayPreference::Experimental,
        forall|j: int|
            0 <= j < base.cells.len() && (#[trigger] base.cells[j]).base.active
                ==> base.cells[j].base.tentative_until_epoch <= e.epochs.confirmed,
    ensures
        ({
            let (t, stop) = e.row_judged(ri, ci, base.cells.len() as int, s, now);
            let late = e.frames.late_acked;
            &&& wrong_in(base, s, late, ci) ==> stop == Some(Stop::Reset)
            &&& !wrong_in(base, s, late, ci) ==> {
                &&& stop is None
                &&& t == (EngineView {
                    overlays: t.overlays,
                    epochs: t.epochs,
                    triggers: t.triggers,
                    ..e
                })
                &&& t.epochs.prediction == e.epochs.prediction
                &&& t.epochs.confirmed == e.epochs.confirmed
                &&& t.overlays.len() == e.overlays.len()
                &&& t.overlays[ri].row_num == base.row_num
                &&& t.overlays[ri].cells.len() == base.cells.len()
                &&& forall|i: int|
                    0 <= i < e.overlays.len() && i != ri ==> #[trigger] t.overlays[i]
                        == e.overlays[i]
                &&& forall|j: int|
                    0 <= j < base.cells.len() ==> left_over(
                        #[trigger] t.overlays[ri].cells[j],
                        base.cells[j],
                        late,
                    )
            }
            &&& stop is Some ==> t == (EngineView {
                overlays: t.overlays,
                epochs: t.epochs,
                triggers: t.triggers,
                ..e
            }) && t.epochs.prediction == e.epochs.prediction
        }),
    decreases base.cells.len() - ci,
{
    let n = base.cells.len() as int;
    let late = e.frames.late_acked;
    if ci < n {
        let row = e.overlays[ri];
        let cell = row.cells[ci];
        assert(base.cells[ci].base.col == ci);
        assert(cell.base == base.cells[ci].base);
        cells_are_judged_by_what_they_hold(cell, s, row.row_num, late);
        let actual = at(s, row.row_num as int, ci);
        assert(is_wrong(cell, actual, late) == is_wrong(base.cells[ci], actual, late));
        if is_wrong(base.cells[ci], actual, late) {
            assert(wrong_in(base, s, late, ci));
        } else {
            assert(e.stop_at(ri, ci, s) is None);
            let m = e.cell_judged(ri, ci, s, now);
            reveal(EngineView::cell_judged);
            assert(m.overlays.len() == e.overlays.len());
            assert(same_from(m.overlays[ri], base, ci + 1));
            assert forall|j: int| 0 <= j < ci + 1 implies left_over(
                #[trigger] m.overlays[ri].cells[j],
                base.cells[j],
                late,
            ) by {
                if j < ci {
                    assert(left_over(e.overlays[ri].cells[j], base.cells[j], late));
                }
            }
            assert(m.epochs.confirmed == e.epochs.confirmed);
            lemma_row_judged(m, base, ri, ci + 1, s, now);
            if wrong_in(base, s, late, ci) {
                let j = choose|j: int|
                    ci <= j < base.cells.len() && is_wrong(
                        #[trigger] base.cells[j],
                        at(s, base.row_num as int, j),
                        late,
                    );
                assert(j > ci);
                assert(wrong_in(base, s, late, ci + 1));
            } else {
                assert(!wrong_in(base, s, late, ci + 1));
            }
        }
    }
}

/// Is anything wrong in the rows from `ri` on?
pub open spec fn wrong_from(e: EngineView, s: Screen, ri: int) -> bool {
    exists|i: int|
        ri <= i < e.overlays.len() && wrong_in(
            #[trigger] e.overlays[i],
            s,
            e.frames.late_acked,
            0,
        )
}

/// Is everything that is predicted shown, or ready to be?
pub open spec fn all_ready(e: EngineView) -> bool {
    forall|i: int, j: int|
        0 <= i < e.overlays.len() && 0 <= j < e.overlays[i].cells.len()
            && (#[trigger] e.overlays[i].cells[j]).base.active
            ==> e.overlays[i].cells[j].base.tentative_until_epoch <= e.epochs.confirmed
}

proof fn lemma_rows_judged(e: EngineView, base: EngineView, ri: int, s: Screen, now: u64)
    requires
        orderly(base, s),
        all_ready(base),
        e.overlays.len() == base.overlays.len(),
        0 <= ri <= base.overlays.len(),
        e.frames == base.frames,
        e.prefs == base.prefs,
        e.epochs == base.epochs,
        e.prefs.display != DisplayPreference::Experimental,
        forall|i: int| ri <= i < base.overlays.len() ==> #[trigger] e.overlays[i]
            == base.overlays[i],
        forall|i: int, j: int|
            0 <= i < ri && 0 <= j < base.overlays[i].cells.len() ==> left_over(
                #[trigger] e.overlays[i].cells[j],
                base.overlays[i].cells[j],
                base.frames.late_acked,
            ),
    ensures
        ({
            let (t, stop) = e.rows_judged(ri, base.overlays.len() as int, s, now);
            let late = base.frames.late_acked;
            &&& wrong_from(base, s, ri) ==> stop == Some(Stop::Reset)
            &&& !wrong_from(base, s, ri) ==> {
                &&& stop is None
                &&& t.overlays.len() == base.overlays.len()
                &&& forall|i: int, j: int|
                    0 <= i < base.overlays.len() && 0 <= j < base.overlays[i].cells.len()
                        ==> left_over(
                        #[trigger] t.overlays[i].cells[j],
                        base.overlays[i].cells[j],
                        late,
                    )
                &&& t.epochs == e.epochs
            }
            &&& t == (EngineView {
                overlays: t.overlays,
                epochs: t.epochs,
                triggers: t.triggers,
                ..e
            })
            &&& t.epochs.prediction == e.epochs.prediction
        }),
    decreases base.overlays.len() - ri,
{
    let n = base.overlays.len() as int;
    let late = base.frames.late_acked;
    if ri < n {
        let r = base.overlays[ri];
        assert(e.overlays[ri] == r);
        assert(r.cells.len() == s.ds.geo.width);
        assert(in_place(r, s)) by {
            assert forall|j: int| 0 <= j < r.cells.len() implies (
            #[trigger] r.cells[j]).base.col == j by {
                assert(base.overlays[ri].cells[j].base.col == j);
            }
        }
        assert forall|j: int|
            0 <= j < r.cells.len() && (
            #[trigger] r.cells[j]).base.active implies r.cells[j].base.tentative_until_epoch
            <= e.epochs.confirmed by {
            assert(base.overlays[ri].cells[j].base.active);
        }
        lemma_row_judged(e, r, ri, 0, s, now);
        if wrong_in(r, s, late, 0) {
            assert(wrong_in(base.overlays[ri], s, late, 0));
            assert(wrong_from(base, s, ri));
        } else {
            let m = e.row_judged(ri, 0, r.cells.len() as int, s, now).0;
            assert(m.epochs == e.epochs);
            assert forall|i: int| ri + 1 <= i < n implies #[trigger] m.overlays[i]
                == base.overlays[i] by {
                assert(m.overlays[i] == e.overlays[i]);
            }
            assert forall|i: int, j: int|
                0 <= i < ri + 1 && 0 <= j < base.overlays[i].cells.len() implies left_over(
                #[trigger] m.overlays[i].cells[j],
                base.overlays[i].cells[j],
                late,
            ) by {
                if i < ri {
                    assert(m.overlays[i] == e.overlays[i]);
                    assert(left_over(e.overlays[i].cells[j], base.overlays[i].cells[j], late));
                }
            }
            lemma_rows_judged(m, base, ri + 1, s, now);
            if wrong_from(base, s, ri) {
                let i = choose|i: int|
                    ri <= i < base.overlays.len() && wrong_in(
                        #[trigger] base.overlays[i],
                        s,
                        late,
                        0,
                    );
                assert(i > ri);
                assert(wrong_from(base, s, ri + 1));
            } else {
                assert(!wrong_from(base, s, ri + 1));
            }
        }
    }
}

proof fn lemma_rows_kept(rows: Seq<OverlayRowView>, height: int)
    requires
        forall|i: int| 0 <= i < rows.len() ==> 0 <= (#[trigger] rows[i]).row_num < height,
    ensures
        rows_on_screen(rows, height) == rows,
    decreases rows.len(),
{
    if rows.len() > 0 {
        lemma_rows_kept(rows.drop_last(), height);
        assert(rows.drop_last().push(rows.last()) =~= rows);
    }
}

proof fn lemma_judging(e: EngineView, s: Screen)
    requires
        orderly(e, s),
    ensures
        ({
            let j = e.judging(s);
            &&& j == (EngineView { triggers: j.triggers, ..e })
            &&& j.triggers == e.triggers.updated(e.is_active())
            &&& orderly(j, s)
        }),
{
    reveal(EngineView::judging);
    lemma_rows_kept(e.overlays, s.ds.geo.height);
}

/// A prediction that was shown and is wrong condemns everything: every prediction is dropped,
/// and a new epoch begins.
pub proof fn a_wrong_prediction_drops_them_all(e: EngineView, s: Screen, now: u64)
    requires
        orderly(e, s),
        all_ready(e),
        e.prefs.display == DisplayPreference::Always || e.prefs.display
            == DisplayPreference::Adaptive,
        wrong_from(e, s, 0),
    ensures
        ({
            let t = e.culled(s, now);
            &&& t.overlays.len() == 0
            &&& t.cursors.len() == 0
            &&& t.epochs.prediction == e.epochs.prediction.wrapping_add(1)
        }),
{
    reveal(EngineView::culled);
    lemma_judging(e, s);
    let j = e.judging(s);
    assert(all_ready(j)) by {
        assert forall|a: int, b: int|
            0 <= a < j.overlays.len() && 0 <= b < j.overlays[a].cells.len() && (
            #[trigger] j.overlays[a].cells[b]).base.active implies j.overlays[a].cells[b].base.tentative_until_epoch
            <= j.epochs.confirmed by {
            assert(e.overlays[a].cells[b].base.active);
        }
    }
    assert(wrong_from(j, s, 0)) by {
        let i = choose|i: int|
            0 <= i < e.overlays.len() && wrong_in(
                #[trigger] e.overlays[i],
                s,
                e.frames.late_acked,
                0,
            );
        assert(wrong_in(j.overlays[i], s, j.frames.late_acked, 0));
    }
    lemma_rows_judged(j, j, 0, s, now);
}

/// Where nothing that was shown is wrong, the predictions whose frames are confirmed are
/// done with, and the others stay as they are; so do the epochs.
pub proof fn right_predictions_are_done_with(e: EngineView, s: Screen, now: u64)
    requires
        orderly(e, s),
        all_ready(e),
        e.prefs.display == DisplayPreference::Always || e.prefs.display
            == DisplayPreference::Adaptive,
        !wrong_from(e, s, 0),
        e.cursors.len() > 0 ==> e.cursors.last().validity(s, e.frames.late_acked)
            != Validity::Incorrect,
    ensures
        ({
            let t = e.culled(s, now);
            &&& t.overlays.len() == e.overlays.len()
            &&& t.epochs == e.epochs
            &&& forall|i: int, j: int|
                0 <= i < e.overlays.len() && 0 <= j < s.ds.geo.width ==> {
                    let (before, after) = (e.overlays[i].cells[j], #[trigger] t.overlays[i].cells[j]);
                    if is_due(before, e.frames.late_acked) {
                        !after.base.active
                    } else {
                        after.base == before.base && after.unknown == before.unknown
                            && after.replacement.contents == before.replacement.contents
                    }
                }
            &&& forall|i: int|
                0 <= i < t.cursors.len() ==> (#[trigger] t.cursors[i]).base.expiration_frame
                    > e.frames.late_acked
        }),
{
    reveal(EngineView::culled);
    reveal(EngineView::cursors_judged);
    lemma_judging(e, s);
    let j = e.judging(s);
    assert(all_ready(j)) by {
        assert forall|a: int, b: int|
            0 <= a < j.overlays.len() && 0 <= b < j.overlays[a].cells.len() && (
            #[trigger] j.overlays[a].cells[b]).base.active implies j.overlays[a].cells[b].base.tentative_until_epoch
            <= j.epochs.confirmed by {
            assert(e.overlays[a].cells[b].base.active);
        }
    }
    if wrong_from(j, s, 0) {
        let i = choose|i: int|
            0 <= i < j.overlays.len() && wrong_in(
                #[trigger] j.overlays[i],
                s,
                j.frames.late_acked,
                0,
            );
        assert(wrong_in(e.overlays[i], s, e.frames.late_acked, 0));
        assert(false);
    }
    lemma_rows_judged(j, j, 0, s, now);
    lemma_pending(e.cursors, s, e.frames.late_acked);
    let t = e.culled(s, now);
    assert forall|i: int, k: int| 0 <= i < e.overlays.len() && 0 <= k < s.ds.geo.width implies ({
        let (before, after) = (e.overlays[i].cells[k], #[trigger] t.overlays[i].cells[k]);
        if is_due(before, e.frames.late_acked) {
            !after.base.active
        } else {
            after.base == before.base && after.unknown == before.unknown
                && after.replacement.contents == before.replacement.contents
        }
    }) by {
        assert(j.overlays[i].cells.len() == s.ds.geo.width);
        assert(left_over(t.overlays[i].cells[k], j.overlays[i].cells[k], e.frames.late_acked));
    }
}

/// Cursor predictions that are pending are those whose frames are not confirmed.
proof fn lemma_pending(cursors: Seq<ConditionalCursorMove>, s: Screen, late_acked: u64)
    ensures
        forall|i: int|
            0 <= i < pending_cursors(cursors, s, late_acked).len() ==> (#[trigger] pending_cursors(
                cursors,
                s,
                late_acked,
            )[i]).base.expiration_frame > late_acked,
    decreases cursors.len(),
{
    if cursors.len() > 0 {
        let init = cursors.drop_last();
        lemma_pending(init, s, late_acked);
        let (rest, all) = (
            pending_cursors(init, s, late_acked),
            pending_cursors(cursors, s, late_acked),
        );
        assert forall|i: int| 0 <= i < all.len() implies (#[trigger] all[i]).base.expiration_frame
            > late_acked by {
            if i < rest.len() {
                assert(all[i] == rest[i]);
            }
        }
    } else {
        assert(pending_cursors(cursors, s, late_acked).len() == 0);
    }
}

/// A cursor that is not where it was predicted condemns everything as well.
pub proof fn a_wrong_cursor_drops_them_all(e: EngineView, s: Screen)
    requires
        e.cursors.len() > 0,
        e.cursors.last().validity(s, e.frames.late_acked) == Validity::Incorrect,
        e.prefs.display != DisplayPreference::Experimental,
    ensures
        e.cursors_judged(s).cursors.len() == 0,
        e.cursors_judged(s).overlays.len() == 0,
        e.cursors_judged(s).epochs.prediction == e.epochs.prediction.wrapping_add(1),
{
    reveal(EngineView::cursors_judged);
}

/// A prediction that earned trust confirms its epoch, and teaches the look of the cells from
/// it on; a prediction that is pending is kept.
pub proof fn earned_trust_confirms_the_epoch(e: EngineView, ri: int, ci: int, s: Screen, now: u64)
    requires
        orderly(e, s),
        0 <= ri < e.overlays.len(),
        0 <= ci < s.ds.geo.width,
        is_earned(
            e.overlays[ri].cells[ci],
            at(s, e.overlays[ri].row_num as int, ci),
            e.frames.late_acked,
        ),
    ensures
        ({
            let t = e.cell_judged(ri, ci, s, now);
            let epoch = e.overlays[ri].cells[ci].base.tentative_until_epoch;
            let look = at(s, e.overlays[ri].row_num as int, ci).renditions;
            &&& t.epochs.confirmed >= epoch
            &&& t.epochs.confirmed == epoch || t.epochs.confirmed == e.epochs.confirmed
            &&& !t.overlays[ri].cells[ci].base.active
            &&& forall|j: int|
                ci <= j < s.ds.geo.width ==> (
                #[trigger] t.overlays[ri].cells[j]).replacement.renditions == look
            &&& forall|j: int|
                0 <= j < ci ==> #[trigger] t.overlays[ri].cells[j] == e.overlays[ri].cells[j]
        }),
{
    reveal(EngineView::cell_judged);
    let c = e.overlays[ri].cells[ci];
    assert(e.overlays[ri].cells.len() == s.ds.geo.width);
    assert(c.base.col == ci);
    cells_are_judged_by_what_they_hold(c, s, e.overlays[ri].row_num, e.frames.late_acked);
    assert(s.rows[e.overlays[ri].row_num as int].cells.len() == s.ds.geo.width);
}

/// Predictions are shown once the round trip takes over 30 ms, until it takes at most 20 and
/// none is left; they are underlined once it takes over 80 ms, until it takes at most 50, and
/// whenever a glitch is bad. In between, nothing changes.
pub proof fn slow_links_show_predictions(t: Triggers, active: bool)
    ensures
        ({
            let u = t.updated(active);
            &&& t.send_interval > 30 ==> u.srtt_trigger
            &&& 20 < t.send_interval <= 30 ==> u.srtt_trigger == t.srtt_trigger
            &&& t.send_interval <= 20 ==> u.srtt_trigger == (t.srtt_trigger && active)
            &&& t.glitch_trigger > 10 || t.send_interval > 80 ==> u.flagging
            &&& t.glitch_trigger <= 10 && 50 < t.send_interval <= 80 ==> u.flagging == t.flagging
            &&& t.glitch_trigger <= 10 && t.send_interval <= 50 ==> !u.flagging
            &&& u.glitch_trigger == t.glitch_trigger
            &&& u.send_interval == t.send_interval
            &&& u.last_quick_confirmation == t.last_quick_confirmation
        }),
{
}

/// A prediction that is outstanding for 250 ms is a glitch, which ten prompt confirmations
/// work off, 150 ms apart or more; one that is outstanding for five seconds counts twice that.
pub proof fn glitches_are_worked_off(t: Triggers, made: u64, now: u64)
    ensures
        ({
            let g = t.glitched(made, now);
            let r = t.repaired(made, now);
            &&& now - made >= 5000 ==> g.glitch_trigger == 20
            &&& 250 <= now - made < 5000 ==> g.glitch_trigger == (if t.glitch_trigger < 10 {
                10
            } else {
                t.glitch_trigger
            })
            &&& now - made < 250 ==> g == t
            &&& now - made < 250 && t.glitch_trigger > 0 && now >= 150 && now - 150
                >= t.last_quick_confirmation ==> r.glitch_trigger == t.glitch_trigger - 1
                && r.last_quick_confirmation == now
            &&& now - made >= 250 || t.glitch_trigger == 0 || (now >= 150 && now - 150
                < t.last_quick_confirmation) ==> r == t
        }),
{
}

/// Is everything that is predicted of one epoch?
pub open spec fn all_of_epoch(e: EngineView, epoch: u64) -> bool {
    forall|i: int, j: int|
        0 <= i < e.overlays.len() && 0 <= j < e.overlays[i].cells.len()
            && (#[trigger] e.overlays[i].cells[j]).base.active
            ==> e.overlays[i].cells[j].base.tentative_until_epoch == epoch
}

/// Has no prediction earned trust?
pub open spec fn none_earned(e: EngineView, s: Screen) -> bool {
    forall|i: int, j: int|
        0 <= i < e.overlays.len() && 0 <= j < e.overlays[i].cells.len() ==> !is_earned(
            #[trigger] e.overlays[i].cells[j],
            at(s, e.overlays[i].row_num as int, j),
            e.frames.late_acked,
        )
}

/// Are the active cells of a row of one epoch?
spec fn row_of_epoch(r: OverlayRowView, epoch: u64) -> bool {
    forall|j: int|
        0 <= j < r.cells.len() && (#[trigger] r.cells[j]).base.active
            ==> r.cells[j].base.tentative_until_epoch == epoch
}

proof fn lemma_withheld_row_judged(
    e: EngineView,
    base: OverlayRowView,
    epoch: u64,
    ri: int,
    ci: int,
    s: Screen,
    now: u64,
)
    requires
        0 <= ri < e.overlays.len(),
        in_place(base, s),
        same_from(e.overlays[ri], base, ci),
        0 <= ci <= base.cells.len(),
        row_of_epoch(e.overlays[ri], epoch),
        epoch > e.epochs.confirmed,
        e.prefs.display != DisplayPreference::Experimental,
        forall|j: int|
            0 <= j < base.cells.len() ==> !is_earned(
                #[trigger] base.cells[j],
                at(s, base.row_num as int, j),
                e.frames.late_acked,
            ),
    ensures
        ({
            let (t, stop) = e.row_judged(ri, ci, base.cells.len() as int, s, now);
            &&& stop == (if wrong_in(base, s, e.frames.late_acked, ci) {
                Some(Stop::Kill(epoch))
            } else {
                None
            })
            &&& t == (EngineView { overlays: t.overlays, triggers: t.triggers, ..e })
            &&& t.overlays.len() == e.overlays.len()
            &&& row_of_epoch(t.overlays[ri], epoch)
            &&& forall|i: int|
                0 <= i < e.overlays.len() && i != ri ==> #[trigger] t.overlays[i] == e.overlays[i]
        }),
    decreases base.cells.len() - ci,
{
    let n = base.cells.len() as int;
    let late = e.frames.late_acked;
    if ci < n {
        let row = e.overlays[ri];
        let cell = row.cells[ci];
        assert(base.cells[ci].base.col == ci);
        assert(cell.base == base.cells[ci].base);
        cells_are_judged_by_what_they_hold(cell, s, row.row_num, late);
        let actual = at(s, row.row_num as int, ci);
        assert(is_wrong(cell, actual, late) == is_wrong(base.cells[ci], actual, late));
        assert(!is_earned(cell, actual, late)) by {
            assert(!is_earned(base.cells[ci], actual, late));
            assert(cell.originals == base.cells[ci].originals);
        }
        if is_wrong(base.cells[ci], actual, late) {
            assert(wrong_in(base, s, late, ci));
        } else {
            assert(e.stop_at(ri, ci, s) is None);
            let m = e.cell_judged(ri, ci, s, now);
            reveal(EngineView::cell_judged);
            assert(same_from(m.overlays[ri], base, ci + 1));
            assert(m.epochs == e.epochs);
            lemma_withheld_row_judged(m, base, epoch, ri, ci + 1, s, now);
            if wrong_in(base, s, late, ci) {
                let j = choose|j: int|
                    ci <= j < base.cells.len() && is_wrong(
                        #[trigger] base.cells[j],
                        at(s, base.row_num as int, j),
                        late,
                    );
                assert(j > ci);
                assert(wrong_in(base, s, late, ci + 1));
            } else {
                assert(!wrong_in(base, s, late, ci + 1));
            }
        }
    } else {
        assert(!wrong_in(base, s, late, ci));
    }
}

proof fn lemma_withheld_rows_judged(
    e: EngineView,
    base: EngineView,
    epoch: u64,
    ri: int,
    s: Screen,
    now: u64,
)
    requires
        orderly(base, s),
        all_of_epoch(base, epoch),
        none_earned(base, s),
        0 <= ri <= base.overlays.len(),
        e == (EngineView { overlays: e.overlays, triggers: e.triggers, ..base }),
        e.overlays.len() == base.overlays.len(),
        epoch > base.epochs.confirmed,
        base.prefs.display != DisplayPreference::Experimental,
        forall|i: int| ri <= i < base.overlays.len() ==> #[trigger] e.overlays[i]
            == base.overlays[i],
        forall|i: int| 0 <= i < ri ==> row_of_epoch(#[trigger] e.overlays[i], epoch),
    ensures
        ({
            let (t, stop) = e.rows_judged(ri, base.overlays.len() as int, s, now);
            &&& stop == (if wrong_from(base, s, ri) {
                Some(Stop::Kill(epoch))
            } else {
                None
            })
            &&& t == (EngineView { overlays: t.overlays, triggers: t.triggers, ..base })
            &&& t.overlays.len() == base.overlays.len()
            &&& forall|i: int|
                0 <= i < t.overlays.len() ==> row_of_epoch(#[trigger] t.overlays[i], epoch)
        }),
    decreases base.overlays.len() - ri,
{
    let n = base.overlays.len() as int;
    let late = base.frames.late_acked;
    assert forall|i: int| ri <= i < n implies row_of_epoch(#[trigger] e.overlays[i], epoch) by {
        assert(e.overlays[i] == base.overlays[i]);
        assert forall|j: int|
            0 <= j < e.overlays[i].cells.len() && (
            #[trigger] e.overlays[i].cells[j]).base.active implies e.overlays[i].cells[j].base.tentative_until_epoch
            == epoch by {
            assert(base.overlays[i].cells[j].base.active);
        }
    }
    if ri < n {
        let r = base.overlays[ri];
        assert(e.overlays[ri] == r);
        assert(r.cells.len() == s.ds.geo.width);
        assert(in_place(r, s)) by {
            assert forall|j: int| 0 <= j < r.cells.len() implies (
            #[trigger] r.cells[j]).base.col == j by {
                assert(base.overlays[ri].cells[j].base.col == j);
            }
        }
        assert forall|j: int| 0 <= j < r.cells.len() implies !is_earned(
            #[trigger] r.cells[j],
            at(s, r.row_num as int, j),
            late,
        ) by {
            assert(!is_earned(
                base.overlays[ri].cells[j],
                at(s, base.overlays[ri].row_num as int, j),
                late,
            ));
        }
        lemma_withheld_row_judged(e, r, epoch, ri, 0, s, now);
        let m = e.row_judged(ri, 0, r.cells.len() as int, s, now).0;
        assert forall|i: int| 0 <= i < n implies row_of_epoch(
            #[trigger] m.overlays[i],
            epoch,
        ) by {
            if i != ri {
                assert(m.overlays[i] == e.overlays[i]);
                assert(row_of_epoch(e.overlays[i], epoch));
            }
        }
        if wrong_in(r, s, late, 0) {
            assert(wrong_in(base.overlays[ri], s, late, 0));
            assert(wrong_from(base, s, ri));
        } else {
            assert forall|i: int| ri + 1 <= i < n implies #[trigger] m.overlays[i]
                == base.overlays[i] by {
                assert(m.overlays[i] == e.overlays[i]);
            }
            lemma_withheld_rows_judged(m, base, epoch, ri + 1, s, now);
            if wrong_from(base, s, ri) {
                let i = choose|i: int|
                    ri <= i < base.overlays.len() && wrong_in(
                        #[trigger] base.overlays[i],
                        s,
                        late,
                        0,
                    );
                assert(i > ri);
                assert(wrong_from(base, s, ri + 1));
            } else {
                assert(!wrong_from(base, s, ri + 1));
            }
        }
    } else {
        assert(!wrong_from(base, s, ri));
    }
}

/// A prediction that was still withheld and is wrong takes its epoch with it: of the
/// predictions of that epoch none is left, and a new epoch begins.
pub proof fn a_wrong_withheld_prediction_ends_its_epoch(e: EngineView, epoch: u64, s: Screen, now: u64)
    requires
        orderly(e, s),
        all_of_epoch(e, epoch),
        none_earned(e, s),
        epoch > e.epochs.confirmed,
        e.prefs.display == DisplayPreference::Always || e.prefs.display
            == DisplayPreference::Adaptive,
        wrong_from(e, s, 0),
    ensures
        ({
            let t = e.culled(s, now);
            &&& forall|i: int, j: int|
                0 <= i < t.overlays.len() && 0 <= j < t.overlays[i].cells.len() ==> !(
                #[trigger] t.overlays[i].cells[j]).base.active
            &&& t.epochs.prediction == e.epochs.prediction.wrapping_add(1)
                || t.epochs.prediction == e.epochs.prediction.wrapping_add(1).wrapping_add(1)
            &&& t.epochs.confirmed == e.epochs.confirmed
        }),
{
    reveal(EngineView::culled);
    reveal(EngineView::epoch_killed);
    reveal(EngineView::cursors_judged);
    lemma_judging(e, s);
    let j = e.judging(s);
    assert(all_of_epoch(j, epoch)) by {
        assert forall|a: int, b: int|
            0 <= a < j.overlays.len() && 0 <= b < j.overlays[a].cells.len() && (
            #[trigger] j.overlays[a].cells[b]).base.active implies j.overlays[a].cells[b].base.tentative_until_epoch
            == epoch by {
            assert(e.overlays[a].cells[b].base.active);
        }
    }
    assert(none_earned(j, s)) by {
        assert forall|a: int, b: int|
            0 <= a < j.overlays.len() && 0 <= b < j.overlays[a].cells.len() implies !is_earned(
            #[trigger] j.overlays[a].cells[b],
            at(s, j.overlays[a].row_num as int, b),
            j.frames.late_acked,
        ) by {
            assert(!is_earned(
                e.overlays[a].cells[b],
                at(s, e.overlays[a].row_num as int, b),
                e.frames.late_acked,
            ));
        }
    }
    assert(wrong_from(j, s, 0)) by {
        let i = choose|i: int|
            0 <= i < e.overlays.len() && wrong_in(
                #[trigger] e.overlays[i],
                s,
                e.frames.late_acked,
                0,
            );
        assert(wrong_in(j.overlays[i], s, j.frames.late_acked, 0));
    }
    lemma_withheld_rows_judged(j, j, epoch, 0, s, now);
    let judged = j.rows_judged(0, j.overlays.len() as int, s, now).0;
    let killed = judged.epoch_killed(epoch, s);
    assert forall|a: int, b: int|
        0 <= a < killed.overlays.len() && 0 <= b < killed.overlays[a].cells.len() implies !(
    #[trigger] killed.overlays[a].cells[b]).base.active by {
        assert(row_of_epoch(judged.overlays[a], epoch));
        let c = judged.overlays[a].cells[b];
        if c.base.active {
            assert(c.base.tentative_until_epoch == epoch);
        }
    }
}

/// A prediction that is pending is kept. Once it has been so for 250 ms it counts as a glitch,
/// and predictions are shown; after five seconds they are underlined.
pub proof fn long_pending_predictions_are_glitches(e: EngineView, ri: int, ci: int, s: Screen, now: u64)
    requires
        orderly(e, s),
        0 <= ri < e.overlays.len(),
        0 <= ci < s.ds.geo.width,
        e.overlays[ri].cells[ci].base.active,
        e.overlays[ri].cells[ci].base.expiration_frame > e.frames.late_acked,
        now >= e.overlays[ri].cells[ci].base.prediction_time,
    ensures
        ({
            let t = e.cell_judged(ri, ci, s, now);
            let age = now - e.overlays[ri].cells[ci].base.prediction_time;
            &&& t == (EngineView { triggers: t.triggers, ..e })
            &&& age < 250 ==> t.triggers == e.triggers
            &&& age >= 250 ==> t.triggers.glitch_trigger >= 10
            &&& age >= 5000 ==> t.triggers.glitch_trigger == 20
        }),
{
    reveal(EngineView::cell_judged);
    let c = e.overlays[ri].cells[ci];
    assert(e.overlays[ri].cells.len() == s.ds.geo.width);
    assert(c.base.col == ci);
    cells_are_judged_by_what_they_hold(c, s, e.overlays[ri].row_num, e.frames.late_acked);
}

/// A prediction that earned trust promptly works off a glitch.
pub proof fn earned_trust_works_off_glitches(e: EngineView, ri: int, ci: int, s: Screen, now: u64)
    requires
        orderly(e, s),
        0 <= ri < e.overlays.len(),
        0 <= ci < s.ds.geo.width,
        is_earned(
            e.overlays[ri].cells[ci],
            at(s, e.overlays[ri].row_num as int, ci),
            e.frames.late_acked,
        ),
        now - e.overlays[ri].cells[ci].base.prediction_time < 250,
        now >= 150,
        now - 150 >= e.triggers.last_quick_confirmation,
        e.triggers.glitch_trigger > 0,
    ensures
        e.cell_judged(ri, ci, s, now).triggers.glitch_trigger == e.triggers.glitch_trigger - 1,
        e.cell_judged(ri, ci, s, now).triggers.last_quick_confirmation == now,
{
    reveal(EngineView::cell_judged);
    let c = e.overlays[ri].cells[ci];
    assert(e.overlays[ri].cells.len() == s.ds.geo.width);
    assert(c.base.col == ci);
    cells_are_judged_by_what_they_hold(c, s, e.overlays[ri].row_num, e.frames.late_acked);
}

/// Experimental predictions are judged one by one: a wrong one is forgotten, and the others
/// stay. No new epoch begins.
pub proof fn experimental_predictions_are_judged_one_by_one(
    e: EngineView,
    ri: int,
    ci: int,
    s: Screen,
    now: u64,
)
    requires
        orderly(e, s),
        e.prefs.display == DisplayPreference::Experimental,
        0 <= ri < e.overlays.len(),
        0 <= ci < s.ds.geo.width,
    ensures
        e.stop_at(ri, ci, s) is None,
        e.tentative() == e,
        is_wrong(
            e.overlays[ri].cells[ci],
            at(s, e.overlays[ri].row_num as int, ci),
            e.frames.late_acked,
        ) ==> {
            let t = e.cell_judged(ri, ci, s, now);
            &&& !t.overlays[ri].cells[ci].base.active
            &&& forall|j: int|
                0 <= j < s.ds.geo.width && j != ci ==> #[trigger] t.overlays[ri].cells[j]
                    == e.overlays[ri].cells[j]
            &&& t.epochs == e.epochs
            &&& t.cursors == e.cursors
        },
{
    reveal(EngineView::cell_judged);
    let c = e.overlays[ri].cells[ci];
    assert(e.overlays[ri].cells.len() == s.ds.geo.width);
    assert(c.base.col == ci);
    cells_are_judged_by_what_they_hold(c, s, e.overlays[ri].row_num, e.frames.late_acked);
}

/// Predictions for rows that are off the screen are dropped, and those for others stay.
pub proof fn rows_off_the_screen_are_dropped(rows: Seq<OverlayRowView>, height: int, r: OverlayRowView)
    ensures
        rows_on_screen(rows, height).contains(r) <==> rows.contains(r) && 0 <= r.row_num < height,
    decreases rows.len(),
{
    if rows.len() > 0 {
        let init = rows.drop_last();
        rows_off_the_screen_are_dropped(init, height, r);
        let (rest, all) = (rows_on_screen(init, height), rows_on_screen(rows, height));
        if all.contains(r) {
            let i = choose|i: int| 0 <= i < all.len() && all[i] == r;
            if i < rest.len() {
                assert(rest[i] == r);
                assert(rest.contains(r));
                let k = choose|k: int| 0 <= k < init.len() && init[k] == r;
                assert(rows[k] == r);
            } else {
                assert(rows[rows.len() - 1] == r);
            }
        }
        if rows.contains(r) && 0 <= r.row_num < height {
            let k = choose|k: int| 0 <= k < rows.len() && rows[k] == r;
            if k < init.len() {
                assert(init[k] == r);
                assert(rest.contains(r));
                let i = choose|i: int| 0 <= i < rest.len() && rest[i] == r;
                assert(all[i] == r);
            } else {
                assert(all[all.len() - 1] == r);
            }
        }
    }
}

/// Whenever predictions are judged, the round trip is looked at.
pub proof fn judging_looks_at_the_round_trip(e: EngineView, s: Screen, now: u64)
    requires
        e.valid(),
        e.fits(s),
        e.overlays.len() == 0,
        e.cursors.len() == 0,
        e.prefs.display != DisplayPreference::Never,
    ensures
        e.culled(s, now).triggers == e.triggers.updated(false),
        e.culled(s, now).epochs == e.epochs,
{
    reveal(EngineView::culled);
    reveal(EngineView::judging);
    reveal(EngineView::cursors_judged);
    let j = e.judging(s);
    assert(rows_on_screen(e.overlays, s.ds.geo.height) == e.overlays);
    assert(!e.is_active());
    assert(j.rows_judged(0, 0, s, now) == (j, None::<Stop>));
}

} // verus!
