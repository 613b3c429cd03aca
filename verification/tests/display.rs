use mosh::display::Display;
use mosh::emulator::Emulator;
use mosh::frame::FrameState;
use mosh::framebuffer::Framebuffer;

/// A display that assumes a capable terminal.
fn display() -> Display {
    Display::new(None)
}

#[test]
fn an_unchanged_screen_produces_almost_nothing() {
    let emu = Emulator::new(20, 4);
    let d = display();
    let frame = d.new_frame(true, emu.fb(), emu.fb());
    assert!(
        frame.is_empty(),
        "an identical screen still emitted {frame:?}"
    );
}

#[test]
fn an_uninitialised_frame_clears_and_repaints() {
    let mut emu = Emulator::new(10, 2);
    emu.input(b"hi");
    let d = display();
    let frame = d.new_frame(false, &Framebuffer::new(10, 2), emu.fb());
    assert!(frame.contains("\x1b[2J"), "no clear screen: {frame:?}");
    assert!(frame.contains("hi"), "content missing: {frame:?}");
}

#[test]
fn a_single_changed_cell_is_a_small_diff() {
    let mut before = Emulator::new(20, 4);
    before.input(b"hello");
    let mut after = before.clone();
    after.input(b"!");

    let d = display();
    let frame = d.new_frame(true, before.fb(), after.fb());
    assert!(frame.contains('!'), "the change is missing: {frame:?}");
    // The unchanged text must not be repainted.
    assert!(
        !frame.contains("hello"),
        "repainted the whole row: {frame:?}"
    );
}

#[test]
fn a_size_change_forces_a_full_repaint() {
    let mut before = Emulator::new(10, 2);
    before.input(b"hi");
    let mut after = before.clone();
    after.resize(20, 4);

    let d = display();
    let frame = d.new_frame(true, before.fb(), after.fb());
    assert!(frame.contains("\x1b[r"), "scrolling region not reset");
    assert!(frame.contains("\x1b[2J"), "screen not cleared");
}

#[test]
fn the_bell_is_forwarded_once() {
    let mut before = Emulator::new(10, 2);
    let mut after = before.clone();
    after.input(b"\x07");

    let d = display();
    let frame = d.new_frame(true, before.fb(), after.fb());
    assert_eq!(frame.matches('\u{7}').count(), 1);

    // Ringing it again produces another bell.
    before = after.clone();
    let mut after2 = after.clone();
    after2.input(b"\x07");
    let frame = d.new_frame(true, before.fb(), after2.fb());
    assert_eq!(frame.matches('\u{7}').count(), 1);
}

#[test]
fn a_title_change_is_sent_as_one_sequence_when_both_match() {
    let mut before = Emulator::new(10, 2);
    before.input(b"x");
    let mut after = before.clone();
    after.input(b"\x1b]0;hi\x07");

    let d = display();
    let frame = d.new_frame(true, before.fb(), after.fb());
    assert!(frame.contains("\x1b]0;hi\u{7}"), "{frame:?}");
}

#[test]
fn separate_icon_and_title_are_sent_separately() {
    let mut before = Emulator::new(10, 2);
    before.input(b"x");
    let mut after = before.clone();
    after.input(b"\x1b]1;icon\x07");
    after.input(b"\x1b]2;title\x07");

    let d = display();
    let frame = d.new_frame(true, before.fb(), after.fb());
    assert!(frame.contains("\x1b]1;icon\u{7}"), "{frame:?}");
    assert!(frame.contains("\x1b]2;title\u{7}"), "{frame:?}");
}

#[test]
fn the_clipboard_is_not_replayed_on_a_fresh_attach() {
    let mut before = Emulator::new(10, 2);
    let mut after = before.clone();
    after.input(b"\x1b]52;c;aGk=\x07");

    let d = display();
    // Uninitialised means a client is attaching; a stale copy must not be replayed.
    let frame = d.new_frame(false, before.fb(), after.fb());
    assert!(
        !frame.contains("\x1b]52;"),
        "replayed the clipboard: {frame:?}"
    );

    // Once initialised, the change is forwarded.
    before = Emulator::new(10, 2);
    let frame = d.new_frame(true, before.fb(), after.fb());
    assert!(frame.contains("\x1b]52;c;aGk=\u{7}"), "{frame:?}");
}

#[test]
fn colour_queries_are_not_replayed_on_a_fresh_attach() {
    let before = Emulator::new(10, 2);
    let mut after = before.clone();
    after.input(b"\x1b]4;1;?\x07");

    let d = display();
    let frame = d.new_frame(false, before.fb(), after.fb());
    assert!(!frame.contains("\x1b]4;1;?"), "{frame:?}");

    let frame = d.new_frame(true, before.fb(), after.fb());
    assert!(frame.contains("\x1b]4;1;?\x1b\\"), "{frame:?}");
}

#[test]
fn mode_changes_are_emitted() {
    let before = Emulator::new(10, 2);

    let d = display();
    for (input, expected) in [
        (&b"\x1b[?2004h"[..], "\x1b[?2004h"),
        (b"\x1b[?5h", "\x1b[?5h"),
        (b"\x1b[?1004h", "\x1b[?1004h"),
        (b"\x1b[?1000h", "\x1b[?1000h"),
        (b"\x1b[?1006h", "\x1b[?1006h"),
    ] {
        let mut after = before.clone();
        after.input(input);
        let frame = d.new_frame(true, before.fb(), after.fb());
        assert!(
            frame.contains(expected),
            "{expected:?} missing from {frame:?}"
        );
    }
}

#[test]
fn cursor_visibility_changes_are_emitted() {
    let before = Emulator::new(10, 2);
    let mut after = before.clone();
    after.input(b"\x1b[?25l");

    let d = display();
    let frame = d.new_frame(true, before.fb(), after.fb());
    assert!(frame.contains("\x1b[?25l"), "{frame:?}");
}

#[test]
fn short_cursor_moves_prefer_backspaces_and_newlines() {
    let mut frame = FrameState::new(&Framebuffer::new(80, 24));
    frame.cursor_x = 5;
    frame.cursor_y = 0;
    frame.append_move(0, 3);
    assert_eq!(
        frame.str, "\u{8}\u{8}",
        "a short move left should backspace"
    );

    let mut frame = FrameState::new(&Framebuffer::new(80, 24));
    frame.cursor_x = 5;
    frame.cursor_y = 0;
    frame.append_move(2, 0);
    assert_eq!(frame.str, "\r\n\n", "a move to column 0 should use CR/LF");

    // A long move is worth an absolute position.
    let mut frame = FrameState::new(&Framebuffer::new(80, 24));
    frame.cursor_x = 0;
    frame.cursor_y = 0;
    frame.append_move(10, 40);
    assert_eq!(frame.str, "\x1b[11;41H");
}

#[test]
fn an_unknown_cursor_position_forces_absolute_addressing() {
    let mut frame = FrameState::new(&Framebuffer::new(80, 24));
    frame.cursor_x = -1;
    frame.cursor_y = -1;
    frame.append_move(0, 0);
    assert_eq!(frame.str, "\x1b[1;1H");
}

#[test]
fn scrolling_is_rendered_as_line_feeds_not_a_repaint() {
    let mut before = Emulator::new(10, 3);
    before.input(b"aaa\r\nbbb\r\nccc");
    let mut after = before.clone();
    after.input(b"\r\nddd");

    let d = display();
    let frame = d.new_frame(true, before.fb(), after.fb());
    // The scroll shortcut should avoid repainting the surviving rows.
    assert!(
        !frame.contains("bbb"),
        "repainted a scrolled row: {frame:?}"
    );
    assert!(frame.contains("ddd"), "new row missing: {frame:?}");
}

#[test]
fn open_and_close_bracket_the_session() {
    let d = display();
    assert!(d.open().contains("\x1b[?1h"));
    let close = d.close();
    assert!(close.contains("\x1b[?1l"));
    assert!(close.contains("\x1b[?25h"), "cursor left hidden");
    assert!(close.contains("\x1b[0m"), "renditions left set");
}
