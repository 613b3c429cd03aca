//! A frame drawn on a terminal makes it show what the screen holds.

use std::rc::Rc;

use mosh::cell::Attribute;
use mosh::complete::Complete;
use mosh::display::Display;
use mosh::emulator::Emulator;
use mosh::framebuffer::Framebuffer;
use mosh::widths::{WidthRange, Widths};

/// ASCII, the combining diacritical marks, and the unified ideographs.
fn widths() -> Rc<Widths> {
    Rc::new(Widths::new(vec![
        WidthRange { first: 0x20, last: 0x7e, columns: 1 },
        WidthRange { first: 0x300, last: 0x36f, columns: 0 },
        WidthRange { first: 0x4e00, last: 0x9fff, columns: 2 },
    ]))
}

fn assert_mirrors(shown: &Framebuffer, held: &Framebuffer) {
    assert_eq!(shown.ds.width(), held.ds.width());
    assert_eq!(shown.ds.height(), held.ds.height());
    for y in 0..held.ds.height() {
        for x in 0..held.ds.width() {
            let (a, b) = (shown.cell(y, x).unwrap(), held.cell(y, x).unwrap());
            let (mut drawn, mut wanted) = (String::new(), String::new());
            a.print_grapheme(&mut drawn);
            b.print_grapheme(&mut wanted);
            assert_eq!(drawn, wanted, "row {y}, column {x}");
            assert_eq!(a.renditions(), b.renditions(), "row {y}, column {x}");
            assert_eq!(a.hyperlink().osc8(), b.hyperlink().osc8(), "row {y}, column {x}");
            assert_eq!(a.wide(), b.wide(), "row {y}, column {x}");
        }
    }
    assert_eq!(shown.ds.cursor_row(), held.ds.cursor_row());
    assert_eq!(shown.ds.cursor_col(), held.ds.cursor_col());
    assert_eq!(shown.ds.renditions(), held.ds.renditions());
    assert_eq!(shown.ds.hyperlink().osc8(), held.ds.hyperlink().osc8());
    assert_eq!(shown.ds.modes.cursor_visible, held.ds.modes.cursor_visible);
    assert_eq!(shown.ds.modes.reverse_video, held.ds.modes.reverse_video);
    assert_eq!(shown.ds.modes.bracketed_paste, held.ds.modes.bracketed_paste);
    assert_eq!(shown.window_title(), held.window_title());
    assert_eq!(shown.icon_name(), held.icon_name());
}

/// Draw the screen after each step on a terminal that saw the frames before it.
fn follow(width: i32, height: i32, steps: &[&str]) {
    let display = Display::new(None);
    let mut host = Emulator::with_widths(width, height, widths());
    let mut terminal = Emulator::with_widths(width, height, widths());
    let mut last = host.fb().clone();
    let mut initialized = false;
    for step in steps {
        host.input(step.as_bytes());
        let frame = display.new_frame(initialized, &last, host.fb());
        terminal.input(frame.as_bytes());
        assert_mirrors(terminal.fb(), host.fb());
        last = host.fb().clone();
        initialized = true;
    }
}

#[test]
fn frames_follow_text_and_renditions() {
    follow(
        20,
        4,
        &[
            "hello",
            " \x1b[1;31mworld\x1b[0m",
            "\x1b[2;3H\x1b[4mlink\x1b[m",
            "\x1b[1;1H\x1b[K",
            "\x1b[48;5;200m\x1b[J\x1b[0m",
        ],
    );
}

#[test]
fn frames_follow_scrolling() {
    follow(
        10,
        3,
        &["one\r\ntwo\r\nthree", "\r\nfour", "\r\nfive\r\nsix", "\x1b[H\x1b[2J"],
    );
}

#[test]
fn frames_follow_wrapped_lines() {
    follow(8, 4, &["abcdefghijkl", "\x1b[1;1Hxyz", "\x1b[3;1Hmnopqrstuv"]);
}

#[test]
fn frames_follow_wide_and_combining_characters() {
    follow(10, 3, &["\u{4e2d}\u{6587} e\u{301}", "\r\n\u{4e2d}", "\x1b[1;1H\x1b[K"]);
}

#[test]
fn frames_follow_links_modes_and_titles() {
    follow(
        20,
        3,
        &[
            "\x1b]8;id=7;http://example.com\x1b\\here\x1b]8;;\x1b\\ there",
            "\x1b[?2004h\x1b[?25l",
            "\x1b]0;title\x07",
            "\x1b[?25h\x1b[?5h",
        ],
    );
}

#[test]
fn selected_renditions_come_back() {
    let mut host = Emulator::new(10, 1);
    host.input(b"\x1b[1;3;4;7;38;2;10;20;30;48;5;200m");
    let wanted = *host.fb().ds.renditions();
    assert!(wanted.attribute(Attribute::Bold));

    let mut terminal = Emulator::new(10, 1);
    terminal.input(b"\x1b[5;32m");
    terminal.input(wanted.sgr().as_bytes());
    assert_eq!(*terminal.fb().ds.renditions(), wanted);
}

#[test]
fn opened_links_come_back() {
    let mut host = Emulator::new(10, 1);
    host.input(b"\x1b]8;id=a;http://x/y\x07");
    let spelled = host.fb().ds.hyperlink().osc8();

    let mut terminal = Emulator::new(10, 1);
    terminal.input(spelled.as_bytes());
    assert_eq!(terminal.fb().ds.hyperlink().osc8(), "\x1b]8;id=a;http://x/y\x1b\\");
}

#[test]
fn diffs_take_a_peer_from_screen_to_screen() {
    let mut server = Complete::with_widths(12, 3, widths());
    let mut client = Complete::with_widths(12, 3, widths());
    assert_mirrors(client.fb(), server.fb());
    for step in ["abc", "\r\n\x1b[7mdef\x1b[m", "\r\n\u{4e2d}\r\nghi", "\x1b]2;t\x07"] {
        let older = server.clone();
        server.act(step.as_bytes());
        client.apply_string(&server.diff_from(&older)).unwrap();
        assert_mirrors(client.fb(), server.fb());
    }
    let older = server.clone();
    server.act_resize(16, 5);
    client.apply_string(&server.diff_from(&older)).unwrap();
    assert_mirrors(client.fb(), server.fb());
}

#[test]
fn text_may_arrive_in_pieces() {
    let text = "a\x1b[1mb\u{4e2d}\x1b]0;t\x07c".as_bytes();
    let mut whole = Emulator::with_widths(10, 2, widths());
    whole.input(text);
    for cut in 0..=text.len() {
        let mut parts = Emulator::with_widths(10, 2, widths());
        parts.input(&text[..cut]);
        parts.input(&text[cut..]);
        assert_mirrors(parts.fb(), whole.fb());
    }
}

/// The states of a server and of a client that took in a diff after each step.
fn carried(width: i32, height: i32, steps: &[&str]) -> (Complete, Complete) {
    let mut server = Complete::with_widths(width, height, widths());
    let mut client = Complete::with_widths(width, height, widths());
    for step in steps {
        let older = server.clone();
        server.act(step.as_bytes());
        client.apply_string(&server.diff_from(&older)).unwrap();
    }
    (server, client)
}

#[test]
fn a_wide_character_that_was_cut_is_drawn_whole() {
    let (server, client) = carried(10, 3, &["\x1b[1;4H\u{4e2d}\x1b[1;5Ha"]);
    assert!(client.compare(&server));
    // It does not matter in a row that is left alone.
    let mut next = server.clone();
    next.act(b"\x1b[3;1Hc");
    let mut target = server.clone();
    target.apply_string(&next.diff_from(&server)).unwrap();
    assert!(!target.compare(&next));
}

#[test]
fn colour_components_are_cut_to_a_byte() {
    let (server, client) = carried(10, 3, &["\x1b[38;2;600;0;0mX"]);
    assert!(client.compare(&server));
    let (server, client) = carried(10, 3, &["\x1b[38;2;255;0;0mX"]);
    assert!(!client.compare(&server));
}

#[test]
fn a_base_takes_room_from_combining_characters() {
    let (server, client) = carried(10, 3, &["\u{301}".repeat(16).as_str()]);
    assert!(client.compare(&server));
    let (server, client) = carried(10, 3, &["\u{301}".repeat(15).as_str()]);
    assert!(!client.compare(&server));
}

#[test]
fn a_link_that_changes_at_a_wrap_cancels_it() {
    let text = "\x1b]8;;http://a\x07abcdefgh\x1b]8;;http://b\x07ij";
    let (server, client) = carried(8, 3, &[text]);
    assert!(client.compare(&server));
    let (server, client) = carried(8, 3, &["\x1b]8;;http://a\x07abcdefghij"]);
    assert!(!client.compare(&server));
}

#[test]
fn backspaces_from_the_last_column_fall_one_short() {
    let (server, client) = carried(10, 3, &["\x1b[3;1Habcdefghij\x1b[3;8H"]);
    assert!(client.compare(&server));
    assert_eq!(server.fb().ds.cursor_col(), 7);
    assert_eq!(client.fb().ds.cursor_col(), 6);
    // From further away the cursor is placed.
    let (server, client) = carried(10, 3, &["\x1b[3;1Habcdefghij\x1b[3;3H"]);
    assert!(!client.compare(&server));
}

#[test]
fn a_resize_leaves_an_open_link_open() {
    let (mut server, mut client) = carried(10, 3, &["y\x1b]8;;http://a\x07x"]);
    let older = server.clone();
    server.act_resize(12, 4);
    client.apply_string(&server.diff_from(&older)).unwrap();
    assert!(server.fb().cell(0, 0).unwrap().hyperlink().is_empty());
    assert!(!client.fb().cell(0, 0).unwrap().hyperlink().is_empty());
    // Links aside, the screens look the same.
    assert!(!client.compare(&server));
}

/// Does the diff of what `more` does make a copy of the state after `first` look the same?
fn reproduced(first: &[u8], more: &[u8]) -> bool {
    let mut old = Complete::with_widths(10, 5, widths());
    old.act(first);
    let mut new = old.clone();
    new.act(more);
    let mut copy = old.clone();
    copy.apply_string(&new.diff_from(&old)).unwrap();
    !copy.compare(&new)
}

#[test]
fn modes_that_a_frame_does_not_ask_for_make_no_difference() {
    // Margins, where no line feed reaches the end of the region.
    assert!(reproduced(b"ab\r\ncd\x1b[2;4r", b"\x1b[2;2HX"));
    // Insert mode, where nothing is printed.
    assert!(reproduced(b"ab\x1b[4h", b"\x1b[2;3H"));
    assert!(!reproduced(b"ab\x1b[4h", b"\x1b[1;1HX"));
    // A pending wrap, where the cursor moves before anything is printed.
    assert!(reproduced(b"abcdefghij", b"\x1b[2;1HX"));
    // Origin mode, while the margins take in the whole screen.
    assert!(reproduced(b"ab\x1b[?6h", b"\x1b[2;2HX"));
}

#[test]
fn a_change_of_size_sets_the_margins_back() {
    let mut old = Complete::with_widths(10, 5, widths());
    old.act(b"ab\r\ncd\x1b[2;3r\x1b]8;;http://a\x07e");
    let mut new = old.clone();
    new.act_resize(12, 6);
    new.act(b"\x1b[6;1Hxyz");
    let mut copy = old.clone();
    copy.apply_string(&new.diff_from(&old)).unwrap();
    assert!(!copy.compare(&new));
}

#[test]
fn a_diff_is_for_a_terminal_that_only_saw_diffs() {
    let mut old = Complete::with_widths(10, 3, widths());
    old.act(b"ab\x1b[4h");
    let mut new = old.clone();
    new.act(b"\x1b[1;1HX");
    let diff = new.diff_from(&old);
    // In insert mode, what is drawn pushes the rest of the row on.
    let mut target = old.clone();
    target.apply_string(&diff).unwrap();
    assert!(target.compare(&new));
    let (_, mut client) = carried(10, 3, &["ab"]);
    client.apply_string(&diff).unwrap();
    assert!(!client.compare(&new));

    // With a wrap pending, a character drawn in the last column goes to the next row.
    let mut old = Complete::with_widths(10, 3, widths());
    old.act(b"abcdefghij");
    let mut new = old.clone();
    new.act(b"\x1b[1;10HX");
    let diff = new.diff_from(&old);
    let mut target = old.clone();
    target.apply_string(&diff).unwrap();
    assert!(target.compare(&new));
    let (_, mut client) = carried(10, 3, &["abcdefghij"]);
    client.apply_string(&diff).unwrap();
    assert!(!client.compare(&new));
}

#[test]
fn an_emptied_clipboard_is_not_sent() {
    let (server, client) = carried(10, 3, &["\x1b]52;c;YQ==\x07\x1bc"]);
    assert!(!client.compare(&server));
    assert!(client.fb().clipboard().is_empty());
}
