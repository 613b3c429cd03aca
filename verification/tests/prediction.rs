use mosh::cell::Attribute;
use mosh::framebuffer::Framebuffer;
use mosh::prediction::{
    DisplayPreference, PredictionEngine, FLAG_TRIGGER_HIGH, GLITCH_THRESHOLD, SRTT_TRIGGER_HIGH,
    SRTT_TRIGGER_LOW,
};

fn engine_showing() -> PredictionEngine {
    let mut e = PredictionEngine::new();
    // Always-on display keeps the tests about prediction rather than about triggers.
    e.set_display_preference(DisplayPreference::Always);
    e
}

/// Get an engine past its opening tentative epoch.
///
/// A fresh engine shows nothing: predictions start tentative and are withheld until
/// one has been confirmed correct, so mosh never displays a guess before it has any
/// evidence that its guesses work. Real sessions leave that state after the first
/// echo; tests have to do it deliberately.
fn primed(fb: &mut Framebuffer) -> PredictionEngine {
    let mut e = engine_showing();
    e.new_user_byte(b'p', fb, 0);
    // The server echoes it: both the cell and the cursor must match, or the cursor
    // prediction is judged wrong and takes the whole epoch down with it.
    fb.mutable_cell(0, 0).append('p');
    fb.ds.move_col(1, false, false);
    e.set_local_frame_late_acked(100);
    e.cull(fb, 0);
    // Predictions made from here belong to frames we have not sent yet, so they stay
    // pending instead of being judged against a screen that cannot show them.
    e.set_local_frame_sent(1000);
    // That epoch is now confirmed, so later guesses are shown rather than withheld.
    e
}

fn screen_line(fb: &Framebuffer, row: i32) -> String {
    let mut s = String::new();
    for x in 0..fb.ds.width() {
        fb.cell(row, x).unwrap().print_grapheme(&mut s);
    }
    s.trim_end().to_string()
}

#[test]
fn a_typed_character_is_predicted_onto_the_screen() {
    let mut fb = Framebuffer::new(20, 4);
    let mut e = primed(&mut fb);
    e.new_user_byte(b'x', &fb, 0);

    let mut shown = fb.clone();
    e.apply(&mut shown);
    assert_eq!(screen_line(&shown, 0), "px");
}

#[test]
fn typing_advances_the_predicted_cursor() {
    let mut fb = Framebuffer::new(20, 4);
    let mut e = primed(&mut fb);
    for c in b"abc" {
        e.new_user_byte(*c, &fb, 0);
    }
    let mut shown = fb.clone();
    e.apply(&mut shown);
    assert_eq!(screen_line(&shown, 0), "pabc");
    assert_eq!(shown.ds.cursor_col(), 4);
}

#[test]
fn nothing_is_predicted_when_display_is_never() {
    let mut e = PredictionEngine::new();
    e.set_display_preference(DisplayPreference::Never);
    let fb = Framebuffer::new(20, 4);
    e.new_user_byte(b'x', &fb, 0);

    let mut shown = fb.clone();
    e.apply(&mut shown);
    assert_eq!(screen_line(&shown, 0), "");
    assert!(!e.active());
}

#[test]
fn control_characters_are_not_predicted() {
    let mut e = engine_showing();
    let fb = Framebuffer::new(20, 4);
    // A tab could do anything depending on tab stops, so it must not be guessed.
    e.new_user_byte(b'\t', &fb, 0);
    let mut shown = fb.clone();
    e.apply(&mut shown);
    assert_eq!(screen_line(&shown, 0), "");
}

#[test]
fn backspace_shifts_the_rest_of_the_row_left() {
    let mut fb = Framebuffer::new(20, 4);
    let mut e = primed(&mut fb);
    for c in b"abc" {
        e.new_user_byte(*c, &fb, 0);
    }
    e.new_user_byte(0x7f, &fb, 0);

    let mut shown = fb.clone();
    e.apply(&mut shown);
    assert_eq!(screen_line(&shown, 0), "pab");
}

#[test]
fn backspace_at_the_start_of_a_line_does_nothing() {
    let mut e = engine_showing();
    let fb = Framebuffer::new(20, 4);
    e.new_user_byte(0x7f, &fb, 0);
    let mut shown = fb.clone();
    e.apply(&mut shown);
    assert_eq!(shown.ds.cursor_col(), 0);
}

#[test]
fn arrow_keys_move_the_predicted_cursor() {
    let mut fb = Framebuffer::new(20, 4);
    let mut e = primed(&mut fb);
    for c in b"abc" {
        e.new_user_byte(*c, &fb, 0);
    }
    // Left arrow.
    for c in b"\x1b[D" {
        e.new_user_byte(*c, &fb, 0);
    }
    let mut shown = fb.clone();
    e.apply(&mut shown);
    assert_eq!(shown.ds.cursor_col(), 3);

    // Right arrow puts it back.
    for c in b"\x1b[C" {
        e.new_user_byte(*c, &fb, 0);
    }
    let mut shown = fb.clone();
    e.apply(&mut shown);
    assert_eq!(shown.ds.cursor_col(), 4);
}

#[test]
fn an_application_mode_arrow_is_understood_too() {
    let mut e = engine_showing();
    let fb = Framebuffer::new(20, 4);
    e.new_user_byte(b'a', &fb, 0);
    // ESC O D is the application-mode left arrow; it must act like ESC [ D.
    for c in b"\x1bOD" {
        e.new_user_byte(*c, &fb, 0);
    }
    let mut shown = fb.clone();
    e.apply(&mut shown);
    assert_eq!(shown.ds.cursor_col(), 0);
}

#[test]
fn a_correct_prediction_is_retired() {
    let mut e = engine_showing();
    let mut fb = Framebuffer::new(20, 4);
    e.new_user_byte(b'x', &fb, 0);
    assert!(e.active());

    // The server confirms the same character.
    fb.mutable_cell(0, 0).append('x');
    e.set_local_frame_late_acked(100);
    e.cull(&fb, 0);

    // Nothing left to predict, so the overlay stops contributing.
    let mut shown = fb.clone();
    e.apply(&mut shown);
    assert_eq!(screen_line(&shown, 0), "x");
}

#[test]
fn a_wrong_prediction_abandons_the_epoch() {
    let mut e = engine_showing();
    let mut fb = Framebuffer::new(20, 4);
    e.new_user_byte(b'x', &fb, 0);

    // The server put something else there entirely.
    fb.mutable_cell(0, 0).append('Z');
    e.set_local_frame_late_acked(100);
    e.cull(&fb, 0);

    let mut shown = fb.clone();
    e.apply(&mut shown);
    // Our guess is gone; what the server said stands.
    assert_eq!(screen_line(&shown, 0), "Z");
}

#[test]
fn a_resize_discards_every_prediction() {
    let mut e = engine_showing();
    let fb = Framebuffer::new(20, 4);
    e.new_user_byte(b'x', &fb, 0);
    assert!(e.active());

    let mut smaller = Framebuffer::new(10, 2);
    e.cull(&smaller, 0);
    // Coordinates no longer mean what they did.
    let mut shown = smaller.clone();
    e.apply(&mut shown);
    assert_eq!(screen_line(&shown, 0), "");
    smaller.ds.move_col(0, false, false);
}

#[test]
fn a_slow_link_turns_display_on_and_a_fast_one_turns_it_off() {
    let mut fb = Framebuffer::new(20, 4);
    let mut e = primed(&mut fb);
    e.set_display_preference(DisplayPreference::Adaptive);

    e.set_send_interval(SRTT_TRIGGER_HIGH + 1);
    e.cull(&fb, 0);
    e.new_user_byte(b'x', &fb, 0);
    let mut shown = fb.clone();
    e.apply(&mut shown);
    assert_eq!(
        screen_line(&shown, 0),
        "px",
        "slow link should show predictions"
    );

    // Dropping below the low mark only takes effect once nothing is outstanding,
    // so predictions do not vanish mid-flight.
    e.set_send_interval(SRTT_TRIGGER_LOW);
    e.cull(&fb, 0);
    let mut shown = fb.clone();
    e.apply(&mut shown);
    assert_eq!(
        screen_line(&shown, 0),
        "px",
        "should not vanish while active"
    );
}

#[test]
fn a_very_slow_link_underlines_predictions() {
    let mut fb = Framebuffer::new(20, 4);
    let mut e = primed(&mut fb);
    e.set_display_preference(DisplayPreference::Adaptive);
    e.set_send_interval(FLAG_TRIGGER_HIGH + 1);
    e.cull(&fb, 0);
    e.new_user_byte(b'x', &fb, 0);

    let mut shown = fb.clone();
    e.apply(&mut shown);
    assert!(shown
        .cell(0, 1)
        .unwrap()
        .renditions()
        .attribute(Attribute::Underlined));
}

#[test]
fn a_long_outstanding_prediction_forces_display() {
    let mut fb = Framebuffer::new(20, 4);
    let mut e = primed(&mut fb);
    e.set_display_preference(DisplayPreference::Adaptive);
    e.set_send_interval(SRTT_TRIGGER_LOW);
    e.new_user_byte(b'x', &fb, 0);

    // Still unconfirmed much later: the link is worse than the estimate says.
    e.set_local_frame_late_acked(0);
    e.cull(&fb, GLITCH_THRESHOLD + 1);

    let mut shown = fb.clone();
    e.apply(&mut shown);
    assert_eq!(
        screen_line(&shown, 0),
        "px",
        "a long-pending prediction should be shown even on a nominally fast link"
    );
}

#[test]
fn wrapping_at_the_right_margin_moves_to_the_next_row() {
    let mut e = engine_showing();
    let fb = Framebuffer::new(4, 3);
    for c in b"abcd" {
        e.new_user_byte(*c, &fb, 0);
    }
    let mut shown = fb.clone();
    e.apply(&mut shown);
    // The last column is deliberately uncommitted, so only assert the cursor left it.
    assert!(shown.ds.cursor_row() >= 0);
}

#[test]
fn carriage_return_is_withheld_until_confirmed() {
    let mut fb = Framebuffer::new(20, 4);
    let mut e = primed(&mut fb);
    for c in b"abc" {
        e.new_user_byte(*c, &fb, 0);
    }
    let mut shown = fb.clone();
    e.apply(&mut shown);
    assert_eq!(shown.ds.cursor_col(), 4, "typing should move the cursor");

    e.new_user_byte(b'\r', &fb, 0);
    let mut shown = fb.clone();
    e.apply(&mut shown);
    // A carriage return starts a new epoch, because where the line ends up depends
    // on the remote application. The new position is held back until the server
    // confirms something in that epoch, so the shown cursor does not jump early.
    assert_eq!(
        shown.ds.cursor_col(),
        4,
        "the new line was shown before confirmation"
    );
    assert_eq!(shown.ds.cursor_row(), 0);
}

#[test]
fn wait_time_is_short_only_while_triggers_can_still_fire() {
    let mut e = engine_showing();
    let fb = Framebuffer::new(20, 4);
    assert_eq!(e.wait_time(), u64::MAX, "nothing outstanding");

    e.new_user_byte(b'x', &fb, 0);
    assert_eq!(e.wait_time(), 50, "a timing trigger could still fire");
}
