use mosh::protobufs::user::UserMessage;
use mosh::user::{ApplyError, UserEvent, UserStream};

#[test]
fn an_empty_diff_encodes_to_nothing() {
    let s = UserStream::new();
    assert!(s.diff_from(&UserStream::new()).is_empty());
}

#[test]
fn keystrokes_round_trip() {
    let mut s = UserStream::new();
    for c in b"hello" {
        s.push_byte(*c);
    }
    let diff = s.init_diff();

    let mut applied = UserStream::new();
    applied.apply_string(&diff).unwrap();
    assert_eq!(applied, s);
}

#[test]
fn consecutive_keystrokes_share_one_instruction() {
    let mut s = UserStream::new();
    for c in b"abc" {
        s.push_byte(*c);
    }
    let diff = s.init_diff();
    let decoded = UserMessage::decode(&diff[..]).unwrap();
    assert_eq!(decoded.instruction.len(), 1, "keystrokes were not coalesced");
    assert_eq!(
        decoded.instruction[0].keystroke.as_ref().unwrap().keys,
        Some(b"abc".to_vec())
    );
}

#[test]
fn a_resize_breaks_the_keystroke_run() {
    let mut s = UserStream::new();
    s.push_byte(b'a');
    s.push_resize(80, 24);
    s.push_byte(b'b');

    let decoded = UserMessage::decode(&s.init_diff()[..]).unwrap();
    assert_eq!(decoded.instruction.len(), 3);
    assert!(decoded.instruction[1].resize.is_some());
}

#[test]
fn resize_round_trips() {
    let mut s = UserStream::new();
    s.push_resize(132, 43);
    let mut applied = UserStream::new();
    applied.apply_string(&s.init_diff()).unwrap();
    assert_eq!(applied.get(0), Some(UserEvent::Resize { width: 132, height: 43 }));
}

#[test]
fn a_diff_carries_only_what_is_new() {
    let mut old = UserStream::new();
    old.push_byte(b'a');

    let mut new = old.clone();
    new.push_byte(b'b');

    let diff = new.diff_from(&old);
    let decoded = UserMessage::decode(&diff[..]).unwrap();
    assert_eq!(
        decoded.instruction[0].keystroke.as_ref().unwrap().keys,
        Some(b"b".to_vec()),
        "the diff repeated an event the peer already had"
    );
}

#[test]
fn applying_a_diff_reaches_the_same_state() {
    let mut old = UserStream::new();
    old.push_byte(b'a');
    let mut new = old.clone();
    new.push_byte(b'b');
    new.push_resize(10, 20);

    let diff = new.diff_from(&old);
    let mut target = old.clone();
    target.apply_string(&diff).unwrap();
    assert_eq!(target, new);
}

#[test]
fn subtract_drops_the_acknowledged_prefix() {
    let mut s = UserStream::new();
    for c in b"abcd" {
        s.push_byte(*c);
    }
    let mut prefix = UserStream::new();
    prefix.push_byte(b'a');
    prefix.push_byte(b'b');

    s.subtract(&prefix);
    assert_eq!(s.len(), 2);
    assert_eq!(s.get(0), Some(UserEvent::Byte(b'c')));
}

#[test]
fn user_a_malformed_diff_is_reported_not_fatal() {
    let mut s = UserStream::new();
    // Field 1 declared as a length-delimited submessage, with a length that runs off
    // the end of the buffer.
    assert_eq!(s.apply_string(&[0x0a, 0x7f]), Err(ApplyError::Malformed));
}

#[test]
fn applying_an_empty_diff_changes_nothing() {
    let mut s = UserStream::new();
    s.push_byte(b'x');
    let before = s.clone();
    s.apply_string(&[]).unwrap();
    assert_eq!(s, before);
}
