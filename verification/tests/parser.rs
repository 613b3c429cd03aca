use mosh::parser::{Action, Kind, State, Utf8Parser, BUF_SIZE};

fn kinds(actions: &[Action]) -> Vec<Kind> {
    actions.iter().map(|a| a.kind).collect()
}

fn feed(bytes: &[u8]) -> (Vec<Action>, Utf8Parser) {
    let mut p = Utf8Parser::new();
    let mut out = Vec::new();
    for &b in bytes {
        p.input(b, &mut out);
    }
    (out, p)
}

#[test]
fn printable_ascii_prints() {
    let (actions, p) = feed(b"hi");
    assert_eq!(kinds(&actions), vec![Kind::Print, Kind::Print]);
    assert_eq!(actions[0].ch, Some('h'));
    assert_eq!(actions[1].ch, Some('i'));
    assert_eq!(p.state(), State::Ground);
}

#[test]
fn control_characters_execute() {
    let (actions, _) = feed(b"\n");
    assert_eq!(kinds(&actions), vec![Kind::Execute]);
    assert_eq!(actions[0].ch, Some('\n'));
}

#[test]
fn csi_sequence_collects_params_then_dispatches() {
    // ESC [ 1 ; 2 H  -- cursor position
    let (actions, p) = feed(b"\x1b[1;2H");
    assert_eq!(
        kinds(&actions),
        vec![
            Kind::Clear,       // entering Escape
            Kind::Clear,       // entering CSI_Entry
            Kind::Param,       // '1'
            Kind::Param,       // ';'
            Kind::Param,       // '2'
            Kind::CsiDispatch, // 'H'
        ]
    );
    assert_eq!(actions.last().unwrap().ch, Some('H'));
    assert_eq!(p.state(), State::Ground);
}

#[test]
fn escape_dispatch_returns_to_ground() {
    let (actions, p) = feed(b"\x1bM");
    assert_eq!(kinds(&actions), vec![Kind::Clear, Kind::EscDispatch]);
    assert_eq!(p.state(), State::Ground);
}

#[test]
fn osc_brackets_its_payload() {
    // ESC ] 0 ; a BEL -- set window title
    let (actions, p) = feed(b"\x1b]0;a\x07");
    assert_eq!(
        kinds(&actions),
        vec![
            Kind::Clear,    // entering Escape
            Kind::OscStart, // entering OSC_String
            Kind::OscPut,   // '0'
            Kind::OscPut,   // ';'
            Kind::OscPut,   // 'a'
            Kind::OscEnd,   // BEL terminates
        ]
    );
    assert_eq!(p.state(), State::Ground);
}

#[test]
fn csi_ignore_swallows_until_final_byte() {
    // A colon in CSI parameters puts the parser into CSI_Ignore.
    let (actions, p) = feed(b"\x1b[1:2m");
    assert_eq!(p.state(), State::Ground);
    // The dispatch is suppressed; only the parameter before the colon was collected.
    assert!(!kinds(&actions).contains(&Kind::CsiDispatch));
}

#[test]
fn escape_cancels_a_sequence_in_progress() {
    // The anywhere rule sends ESC to the Escape state from anywhere.
    let (_, mut p) = feed(b"\x1b[12");
    assert_eq!(p.state(), State::CsiParam);
    let mut out = Vec::new();
    p.input(0x1b, &mut out);
    assert_eq!(p.state(), State::Escape);
}

#[test]
fn can_and_sub_abort_to_ground() {
    for abort in [0x18u8, 0x1a] {
        let (_, mut p) = feed(b"\x1b[12");
        let mut out = Vec::new();
        p.input(abort, &mut out);
        assert_eq!(p.state(), State::Ground);
        assert_eq!(kinds(&out), vec![Kind::Execute]);
    }
}

#[test]
fn multibyte_characters_decode_to_one_print() {
    // U+00E9, two bytes.
    let (actions, _) = feed(&[0xc3, 0xa9]);
    assert_eq!(kinds(&actions), vec![Kind::Print]);
    assert_eq!(actions[0].ch, Some('\u{e9}'));
}

#[test]
fn wide_characters_decode_to_one_print() {
    // U+4E00, three bytes.
    let (actions, _) = feed(&[0xe4, 0xb8, 0x80]);
    assert_eq!(kinds(&actions), vec![Kind::Print]);
    assert_eq!(actions[0].ch, Some('\u{4e00}'));
}

#[test]
fn invalid_sequences_become_replacement_characters() {
    let (actions, _) = feed(&[0xff]);
    assert_eq!(kinds(&actions), vec![Kind::Print]);
    assert_eq!(actions[0].ch, Some('\u{fffd}'));
}

#[test]
fn a_truncated_sequence_does_not_consume_the_next_character() {
    // Lead byte of a 3-byte character, then a plain ASCII 'a'. Per Unicode 6.0
    // section 3.9 the bad prefix yields U+FFFD and 'a' survives.
    let (actions, _) = feed(&[0xe4, b'a']);
    let chars: Vec<Option<char>> = actions.iter().map(|a| a.ch).collect();
    assert!(chars.contains(&Some('a')), "the trailing 'a' was swallowed: {chars:?}");
}

#[test]
fn high_codepoints_drive_the_machine_like_letters() {
    // In Ground a high codepoint prints; the 0xA0 folding must not change that.
    let (actions, p) = feed(&[0xe4, 0xb8, 0x80]);
    assert_eq!(kinds(&actions), vec![Kind::Print]);
    assert_eq!(p.state(), State::Ground);
}

#[test]
fn dcs_passthrough_hooks_and_unhooks() {
    // ESC P q ST. The terminator is U+009C, which reaches the state machine only
    // after UTF-8 decoding, so it must be fed as its two-byte encoding.
    let (actions, p) = feed(b"\x1bPq\xc2\x9c");
    let k = kinds(&actions);
    assert!(k.contains(&Kind::Hook), "{k:?}");
    assert!(k.contains(&Kind::Unhook), "{k:?}");
    assert_eq!(p.state(), State::Ground);
}

#[test]
fn buffer_cannot_grow_without_bound() {
    // Repeated continuation bytes are never a valid start; the buffer must not grow.
    let mut p = Utf8Parser::new();
    let mut out = Vec::new();
    for _ in 0..1000 {
        p.input(0xe4, &mut out);
    }
    assert!(p.pending() < BUF_SIZE);
}
