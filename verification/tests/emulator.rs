use std::rc::Rc;

use mosh::cell::Attribute;
use mosh::emulator::{Emulator, UserInput};
use mosh::widths::{WidthRange, Widths};

/// ASCII, the combining diacritical marks, and the unified ideographs.
fn widths() -> Rc<Widths> {
    Rc::new(Widths::new(vec![
        WidthRange { first: 0x20, last: 0x7e, columns: 1 },
        WidthRange { first: 0x300, last: 0x36f, columns: 0 },
        WidthRange { first: 0x4e00, last: 0x9fff, columns: 2 },
    ]))
}

fn screen(emu: &Emulator) -> Vec<String> {
    let fb = emu.fb();
    (0..fb.ds.height())
        .map(|y| {
            let mut line = String::new();
            for x in 0..fb.ds.width() {
                fb.cell(y, x).unwrap().print_grapheme(&mut line);
            }
            line.trim_end().to_string()
        })
        .collect()
}

#[test]
fn plain_text_lands_on_the_screen() {
    let mut emu = Emulator::new(20, 3);
    emu.input(b"hello");
    assert_eq!(screen(&emu)[0], "hello");
    assert_eq!(emu.fb().ds.cursor_col(), 5);
}

#[test]
fn text_wraps_at_the_right_margin() {
    let mut emu = Emulator::new(5, 3);
    emu.input(b"abcdefg");
    assert_eq!(screen(&emu)[0], "abcde");
    assert_eq!(screen(&emu)[1], "fg");
    assert!(emu.fb().row(0).unwrap().wrap());
}

#[test]
fn autowrap_off_overwrites_the_last_column() {
    let mut emu = Emulator::new(5, 2);
    emu.input(b"\x1b[?7l"); // disable auto wrap
    emu.input(b"abcdefg");
    assert_eq!(screen(&emu)[0], "abcdg");
    assert_eq!(screen(&emu)[1], "");
}

#[test]
fn newline_scrolls_at_the_bottom() {
    let mut emu = Emulator::new(5, 2);
    emu.input(b"a\r\nb\r\nc");
    assert_eq!(screen(&emu)[0], "b");
    assert_eq!(screen(&emu)[1], "c");
}

#[test]
fn cursor_addressing_is_one_based() {
    let mut emu = Emulator::new(10, 5);
    emu.input(b"\x1b[3;4Hx");
    assert_eq!(screen(&emu)[2], "   x");
}

#[test]
fn erase_display_clears_the_screen() {
    let mut emu = Emulator::new(10, 3);
    emu.input(b"abc\r\ndef");
    emu.input(b"\x1b[2J");
    assert_eq!(screen(&emu), vec!["", "", ""]);
}

#[test]
fn insert_mode_pushes_text_right() {
    let mut emu = Emulator::new(10, 1);
    emu.input(b"world");
    emu.input(b"\x1b[H");   // home
    emu.input(b"\x1b[4h");  // insert mode
    emu.input(b"AB");
    assert_eq!(screen(&emu)[0], "ABworld");
}

#[test]
fn a_wide_character_occupies_two_cells() {
    let mut emu = Emulator::with_widths(10, 1, widths());
    emu.input("\u{4e00}".as_bytes());
    assert!(emu.fb().cell(0, 0).unwrap().wide());
    assert_eq!(emu.fb().ds.cursor_col(), 2);
    // The covered cell is blanked rather than left stale.
    assert!(emu.fb().cell(0, 1).unwrap().is_empty());
}

#[test]
fn a_wide_character_wraps_rather_than_splitting() {
    let mut emu = Emulator::with_widths(5, 2, widths());
    emu.input(b"abcd");
    emu.input("\u{4e00}".as_bytes());
    // Only four columns were used, so the wide character moves to the next row.
    assert_eq!(emu.fb().ds.cursor_row(), 1);
    assert!(emu.fb().cell(1, 0).unwrap().wide());
}

#[test]
fn combining_characters_join_the_preceding_cell() {
    let mut emu = Emulator::with_widths(10, 1, widths());
    emu.input("e\u{301}".as_bytes()); // e + combining acute
    assert_eq!(emu.fb().cell(0, 0).unwrap().contents(), "e\u{301}");
    assert_eq!(emu.fb().ds.cursor_col(), 1);
}

#[test]
fn a_leading_combining_character_gets_a_base() {
    let mut emu = Emulator::with_widths(10, 1, widths());
    emu.input("\u{301}".as_bytes()); // combining acute with nothing before it
    let cell = emu.fb().cell(0, 0).unwrap();
    assert!(cell.fallback(), "no fallback base was set");
    let mut out = String::new();
    cell.print_grapheme(&mut out);
    // Rendered against a no-break space so it has something to combine with.
    assert_eq!(out, "\u{a0}\u{301}");
}

#[test]
fn esc_encoded_c1_controls_act_as_controls() {
    let mut emu = Emulator::new(10, 3);
    emu.input(b"abc");
    // ESC E is the 7-bit encoding of NEL, which is a carriage return plus line feed.
    emu.input(b"\x1bEx");
    assert_eq!(screen(&emu)[0], "abc");
    assert_eq!(screen(&emu)[1], "x");
}

#[test]
fn device_status_reports_reach_the_host() {
    let mut emu = Emulator::new(10, 5);
    emu.input(b"\x1b[6n");
    assert_eq!(emu.read_octets_to_host(), "\x1b[1;1R");
    // Reading it clears it.
    assert_eq!(emu.read_octets_to_host(), "");
}

#[test]
fn renditions_apply_to_printed_cells() {
    let mut emu = Emulator::new(10, 1);
    emu.input(b"\x1b[1mx");
    let cell = emu.fb().cell(0, 0).unwrap();
    assert!(cell
        .renditions()
        .attribute(Attribute::Bold));
}

#[test]
fn hyperlinks_apply_to_printed_cells() {
    let mut emu = Emulator::new(10, 1);
    emu.input(b"\x1b]8;;http://x\x07y");
    assert!(!emu.fb().cell(0, 0).unwrap().hyperlink().is_empty());
}

#[test]
fn user_input_passes_ordinary_keys_through() {
    let mut u = UserInput::new();
    assert_eq!(u.input(b'a', false), vec![b'a']);
}

#[test]
fn user_input_rewrites_cursor_keys_outside_application_mode() {
    let mut u = UserInput::new();
    assert_eq!(u.input(0x1b, false), vec![0x1b]);
    // ESC O is held back until the following byte decides the translation.
    assert!(u.input(b'O', false).is_empty());
    assert_eq!(u.input(b'A', false), vec![b'[', b'A']);
}

#[test]
fn user_input_preserves_cursor_keys_in_application_mode() {
    let mut u = UserInput::new();
    u.input(0x1b, true);
    u.input(b'O', true);
    assert_eq!(u.input(b'A', true), vec![b'O', b'A']);
}

#[test]
fn user_input_passes_non_cursor_ss3_keys_through() {
    let mut u = UserInput::new();
    u.input(0x1b, false);
    u.input(b'O', false);
    // A function key, not a cursor key, so it keeps its SS3 form.
    assert_eq!(u.input(b'P', false), vec![b'O', b'P']);
}

#[test]
fn emulators_compare_by_screen_only() {
    let mut a = Emulator::new(10, 2);
    a.input(b"hi");
    let b = a.clone();
    assert_eq!(a, b);

    // A pending reply to the host is not part of the screen.
    a.input(b"\x1b[6n");
    assert_eq!(a, b);

    // Writing to the screen does separate them.
    a.input(b"!");
    assert_ne!(a, b);
}

#[test]
fn independent_emulators_are_unequal_even_with_the_same_screen() {
    // Rows are compared by identity, so two emulators that were
    // never derived from one another are unequal however similar they look. Erring
    // this way costs a redundant diff; the opposite would lose an update.
    let mut a = Emulator::new(10, 2);
    let mut b = Emulator::new(10, 2);
    a.input(b"hi");
    b.input(b"hi");
    assert_ne!(a, b);
}

#[test]
fn the_parts_of_an_emulator_can_be_changed_in_place() {
    let mut emu = Emulator::new(10, 2);
    emu.fb_mut().ring_bell();
    assert_eq!(emu.fb().bell_count(), 1);
    assert_eq!(emu.user_mut().input(0x1b, false), vec![0x1b]);
    assert!(emu.user_mut().input(b'O', false).is_empty());
    assert_eq!(emu.user_mut().input(b'A', false), b"[A".to_vec());
}

#[test]
fn keys_arrive_in_order_and_in_full() {
    let keys = b"a\x1bOAb\x1bOPc\x1b[D\x1bO";
    for (app, wanted) in [
        (true, &b"a\x1bOAb\x1bOPc\x1b[D\x1b"[..]),
        (false, &b"a\x1b[Ab\x1bOPc\x1b[D\x1b"[..]),
    ] {
        let mut user = UserInput::new();
        let sent: Vec<u8> = keys.iter().flat_map(|&k| user.input(k, app)).collect();
        assert_eq!(sent, wanted);
    }
}
