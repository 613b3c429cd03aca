use mosh::locale::is_utf8_locale;
use mosh::terminfo::TermError;
use mosh::utf8::{Decoded, MbDecoder};
use mosh::widths::{WidthRange, Widths};

#[test]
fn utf8_is_known_by_its_names() {
    for name in ["UTF-8", "utf-8", "UTF8", "utf8", "Utf-8"] {
        assert!(is_utf8_locale(name), "{name}");
    }
    for name in ["", "ANSI_X3.4-1968", "ISO-8859-1", "UTF-16", "UTF_8", "UTF-8 "] {
        assert!(!is_utf8_locale(name), "{name}");
    }
}

#[test]
fn terminal_errors_say_what_was_wrong() {
    let text = |code| TermError::from_setup(code).text();
    assert_eq!(text(1), "Terminal is hardcopy and cannot be used by curses applications.");
    assert_eq!(text(0), "Unknown terminal type.");
    assert_eq!(text(-1), "Terminfo database could not be found.");
    assert_eq!(text(7), "Unknown terminfo error.");
    assert_eq!(
        TermError::InvalidCapability("ech".to_string()).text(),
        "Invalid terminfo capability ech"
    );
}

#[test]
fn ascii_widths_match_expectations() {
    let widths = Widths::default();
    assert_eq!(widths.wcwidth('a'), Some(1));
    assert_eq!(widths.wcwidth(' '), Some(1));
    // A control character is not printable.
    assert_eq!(widths.wcwidth('\x07'), None);
}

#[test]
fn combining_marks_claim_no_cell() {
    let widths = Widths::new(vec![
        WidthRange { first: 0x300, last: 0x36f, columns: 0 },
        WidthRange { first: 0x4e00, last: 0x9fff, columns: 2 },
    ]);
    // COMBINING ACUTE ACCENT joins the preceding grapheme.
    assert_eq!(widths.wcwidth('\u{0301}'), Some(0));
    // A CJK ideograph claims two cells.
    assert_eq!(widths.wcwidth('\u{4e00}'), Some(2));
}

#[test]
fn decoder_handles_split_sequences() {
    let mut d = MbDecoder::new();
    // U+00E9 is two bytes; feed them one at a time.
    assert_eq!(d.decode(&[0xc3]), Decoded::Incomplete);
    assert_eq!(d.decode(&[0xa9]), Decoded::Char('\u{e9}', 1));
}

#[test]
fn decoder_rejects_invalid_sequences() {
    let mut d = MbDecoder::new();
    assert_eq!(d.decode(&[0xff]), Decoded::Invalid);
}

#[test]
fn round_trips_non_ascii() {
    let out = "\u{4e00}".as_bytes();
    let mut d = MbDecoder::new();
    assert_eq!(d.decode(out), Decoded::Char('\u{4e00}', out.len()));
}

#[test]
fn a_reset_decoder_forgets_what_was_pending() {
    let mut d = MbDecoder::new();
    assert_eq!(d.decode(&[0xe4, 0xb8]), Decoded::Incomplete);
    d.reset();
    assert_eq!(d.decode(b"a"), Decoded::Char('a', 1));
    assert_eq!(d.decode(&[0]), Decoded::Nul);
    assert_eq!(d.decode(&[]), Decoded::Incomplete);
}
