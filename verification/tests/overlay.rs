use mosh::cell::{Attribute, Cell};
use mosh::framebuffer::Framebuffer;
use mosh::overlay::{
    ConditionalCursorMove, ConditionalOverlayCell, ConditionalOverlayRow, Validity,
};

fn cell_with(text: &str) -> Cell {
    let mut c = Cell::new(0);
    for ch in text.chars() {
        c.append(ch);
    }
    c
}

fn overlay_cell(col: i32, text: &str, expiration: u64) -> ConditionalOverlayCell {
    let mut o = ConditionalOverlayCell::new(expiration, col, 0);
    o.base.active = true;
    o.replacement = cell_with(text);
    o
}

#[test]
fn an_inactive_prediction_is_not_judged() {
    let fb = Framebuffer::new(10, 3);
    let o = ConditionalOverlayCell::new(0, 0, 0);
    assert_eq!(o.get_validity(&fb, 0, 100), Validity::Inactive);
}

#[test]
fn a_prediction_the_server_has_not_reached_is_pending() {
    let fb = Framebuffer::new(10, 3);
    let o = overlay_cell(0, "x", 50);
    // The server has only confirmed up to frame 10, so we cannot know yet.
    assert_eq!(o.get_validity(&fb, 0, 10), Validity::Pending);
}

#[test]
fn a_matching_prediction_is_correct() {
    let mut fb = Framebuffer::new(10, 3);
    fb.mutable_cell(0, 0).append('x');
    let o = overlay_cell(0, "x", 5);
    assert_eq!(o.get_validity(&fb, 0, 10), Validity::Correct);
}

#[test]
fn a_mismatching_prediction_is_incorrect() {
    let mut fb = Framebuffer::new(10, 3);
    fb.mutable_cell(0, 0).append('y');
    let o = overlay_cell(0, "x", 5);
    assert_eq!(o.get_validity(&fb, 0, 10), Validity::Incorrect);
}

#[test]
fn predicting_a_blank_earns_no_credit() {
    let fb = Framebuffer::new(10, 3);
    let mut o = ConditionalOverlayCell::new(5, 0, 0);
    o.base.active = true;
    // Blank replacement: right far too easily to be evidence of anything.
    assert_eq!(o.get_validity(&fb, 0, 10), Validity::CorrectNoCredit);
}

#[test]
fn an_unknown_prediction_earns_no_credit() {
    let mut fb = Framebuffer::new(10, 3);
    fb.mutable_cell(0, 0).append('x');
    let mut o = overlay_cell(0, "x", 5);
    o.unknown = true;
    assert_eq!(o.get_validity(&fb, 0, 10), Validity::CorrectNoCredit);
}

#[test]
fn restoring_what_was_already_there_earns_no_credit() {
    let mut fb = Framebuffer::new(10, 3);
    fb.mutable_cell(0, 0).append('x');

    let mut o = overlay_cell(0, "x", 5);
    // We previously predicted this same content here, so being right now says
    // nothing about whether we are predicting well.
    o.original_contents.push(cell_with("x"));
    assert_eq!(o.get_validity(&fb, 0, 10), Validity::CorrectNoCredit);

    // With a different history, the same prediction does earn credit.
    let mut o = overlay_cell(0, "x", 5);
    o.original_contents.push(cell_with("q"));
    assert_eq!(o.get_validity(&fb, 0, 10), Validity::Correct);
}

#[test]
fn a_prediction_stranded_by_a_resize_is_incorrect() {
    let fb = Framebuffer::new(4, 2);
    // Predicted at a column that no longer exists.
    let o = overlay_cell(9, "x", 5);
    assert_eq!(o.get_validity(&fb, 0, 10), Validity::Incorrect);
    // And at a row that no longer exists.
    let o = overlay_cell(0, "x", 5);
    assert_eq!(o.get_validity(&fb, 9, 10), Validity::Incorrect);
}

#[test]
fn applying_a_prediction_changes_the_cell() {
    let mut fb = Framebuffer::new(10, 3);
    let o = overlay_cell(2, "z", 5);
    o.apply(&mut fb, 0, 0, false);
    assert_eq!(fb.cell(0, 2).unwrap().contents(), "z");
}

#[test]
fn a_tentative_prediction_is_not_shown() {
    let mut fb = Framebuffer::new(10, 3);
    let mut o = overlay_cell(2, "z", 5);
    // Held back until a later epoch than the one confirmed.
    o.base.tentative_until_epoch = 7;
    o.apply(&mut fb, 3, 0, false);
    assert!(fb.cell(0, 2).unwrap().is_empty());

    // Once the epoch is confirmed it appears.
    o.apply(&mut fb, 7, 0, false);
    assert_eq!(fb.cell(0, 2).unwrap().contents(), "z");
}

#[test]
fn flagging_underlines_a_prediction() {
    let mut fb = Framebuffer::new(10, 3);
    let o = overlay_cell(2, "z", 5);
    o.apply(&mut fb, 0, 0, true);
    assert!(fb
        .cell(0, 2)
        .unwrap()
        .renditions()
        .attribute(Attribute::Underlined));
}

#[test]
fn a_blank_predicted_over_a_blank_is_not_underlined() {
    let mut fb = Framebuffer::new(10, 3);
    let mut o = ConditionalOverlayCell::new(5, 2, 0);
    o.base.active = true;
    // Underlining a blank that stays blank would be visible noise for no reason.
    o.apply(&mut fb, 0, 0, true);
    assert!(!fb
        .cell(0, 2)
        .unwrap()
        .renditions()
        .attribute(Attribute::Underlined));
}

#[test]
fn an_unknown_prediction_underlines_but_does_not_overwrite() {
    let mut fb = Framebuffer::new(10, 3);
    fb.mutable_cell(0, 2).append('q');
    let mut o = overlay_cell(2, "z", 5);
    o.unknown = true;
    o.apply(&mut fb, 0, 0, true);
    // We know something changed but not what, so the content is left alone.
    assert_eq!(fb.cell(0, 2).unwrap().contents(), "q");
    assert!(fb
        .cell(0, 2)
        .unwrap()
        .renditions()
        .attribute(Attribute::Underlined));
}

#[test]
fn the_last_column_is_never_underlined_for_an_unknown() {
    let mut fb = Framebuffer::new(10, 3);
    let mut o = overlay_cell(9, "z", 5);
    o.unknown = true;
    o.apply(&mut fb, 0, 0, true);
    // Underlining the final column can provoke a wrap we did not intend.
    assert!(!fb
        .cell(0, 9)
        .unwrap()
        .renditions()
        .attribute(Attribute::Underlined));
}

#[test]
fn reset_with_orig_remembers_what_was_predicted() {
    let mut o = overlay_cell(0, "x", 5);
    o.reset_with_orig();
    assert!(!o.base.active);
    assert_eq!(o.original_contents.len(), 1);

    // An unknown prediction has nothing worth remembering.
    let mut o = overlay_cell(0, "x", 5);
    o.unknown = true;
    o.reset_with_orig();
    assert!(o.original_contents.is_empty());
}

#[test]
fn a_cursor_prediction_is_judged_on_position() {
    let mut fb = Framebuffer::new(10, 5);
    fb.ds.move_row(2, false);
    fb.ds.move_col(3, false, false);

    let mut c = ConditionalCursorMove::new(5, 2, 3, 0);
    c.base.active = true;
    assert_eq!(c.get_validity(&fb, 10), Validity::Correct);

    let mut c = ConditionalCursorMove::new(5, 1, 3, 0);
    c.base.active = true;
    assert_eq!(c.get_validity(&fb, 10), Validity::Incorrect);

    // Not confirmed that far yet.
    let mut c = ConditionalCursorMove::new(50, 2, 3, 0);
    c.base.active = true;
    assert_eq!(c.get_validity(&fb, 10), Validity::Pending);
}

#[test]
fn a_cursor_prediction_moves_the_cursor() {
    let mut fb = Framebuffer::new(10, 5);
    let mut c = ConditionalCursorMove::new(5, 2, 3, 0);
    c.base.active = true;
    c.apply(&mut fb, 0);
    assert_eq!((fb.ds.cursor_row(), fb.ds.cursor_col()), (2, 3));
}

#[test]
fn a_cursor_prediction_outside_the_screen_is_dropped() {
    // A prediction that outlived a resize would move the cursor off screen, so it is
    // discarded instead.
    let mut fb = Framebuffer::new(4, 2);
    let mut c = ConditionalCursorMove::new(5, 9, 9, 0);
    c.base.active = true;
    c.apply(&mut fb, 0);
    assert_eq!((fb.ds.cursor_row(), fb.ds.cursor_col()), (0, 0));
}

#[test]
fn a_row_applies_every_cell_it_holds() {
    let mut fb = Framebuffer::new(5, 2);
    let mut row = ConditionalOverlayRow::new(0, 5);
    for (i, ch) in "abc".chars().enumerate() {
        row.overlay_cells[i].base.active = true;
        row.overlay_cells[i].replacement = cell_with(&ch.to_string());
    }
    row.apply(&mut fb, 0, false);
    let mut line = String::new();
    for x in 0..3 {
        fb.cell(0, x).unwrap().print_grapheme(&mut line);
    }
    assert_eq!(line, "abc");
}
