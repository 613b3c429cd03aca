use mosh::complete::{Complete, Difference, ECHO_TIMEOUT};
use mosh::protobufs::host as pb;
use mosh::sender::SyncState;
use mosh::user::ApplyError;

#[test]
fn an_unchanged_state_produces_an_empty_diff() {
    let c = Complete::new(20, 4);
    assert!(c.diff_from(&c.clone()).is_empty());
}

#[test]
fn host_output_reaches_the_screen() {
    let mut c = Complete::new(20, 4);
    c.act(b"hello");
    let mut line = String::new();
    for x in 0..5 {
        c.fb().cell(0, x).unwrap().print_grapheme(&mut line);
    }
    assert_eq!(line, "hello");
}

#[test]
fn a_diff_applied_to_the_old_state_reproduces_the_new_one() {
    let mut old = Complete::new(20, 4);
    old.act(b"hello");

    let mut new = old.clone();
    new.act(b" world");

    let diff = new.diff_from(&old);
    assert!(!diff.is_empty());

    let mut target = old.clone();
    target.apply_string(&diff).unwrap();

    // Compare what is displayed, since row identity cannot survive a round trip
    // through the wire.
    assert!(
        !target.compare(&new),
        "screens differ after applying the diff"
    );
}

#[test]
fn colour_queries_outlive_the_batch_that_raised_them() {
    let mut c = Complete::new(20, 4);
    c.act(b"\x1b]11;?\x1b\\");
    c.act(b"more output");
    assert_eq!(c.fb().color_queries(), "\x1b]11;?\x1b\\");

    c.clear_color_queries();
    assert!(c.fb().color_queries().is_empty());
}

#[test]
fn a_resize_is_carried_in_the_diff() {
    let mut old = Complete::new(20, 4);
    old.act(b"hi");
    let mut new = old.clone();
    new.act_resize(40, 8);

    let diff = new.diff_from(&old);
    let decoded = pb::HostMessage::decode(&diff[..]).unwrap();
    let resize = decoded
        .instruction
        .iter()
        .find_map(|i| i.resize.as_ref())
        .expect("no resize in the diff");
    assert_eq!(resize.width, Some(40));
    assert_eq!(resize.height, Some(8));

    let mut target = old.clone();
    target.apply_string(&diff).unwrap();
    assert_eq!(target.fb().ds.width(), 40);
    assert_eq!(target.fb().ds.height(), 8);
}

#[test]
fn an_echo_acknowledgement_is_carried_in_the_diff() {
    let old = Complete::new(20, 4);
    let mut new = old.clone();
    new.register_input_frame(7, 0);
    new.register_input_frame(8, 1000);
    assert!(new.set_echo_ack(1000));
    assert_eq!(new.echo_ack(), 7);

    let diff = new.diff_from(&old);
    let mut target = old.clone();
    target.apply_string(&diff).unwrap();
    assert_eq!(target.echo_ack(), 7);
}

#[test]
fn echo_acknowledgement_only_covers_frames_past_the_timeout() {
    let mut c = Complete::new(20, 4);
    c.register_input_frame(1, 100);
    // Too recent: the client may still be showing its own prediction.
    assert!(!c.set_echo_ack(100));
    assert_eq!(c.echo_ack(), 0);

    // Once the timeout has passed, it is acknowledged.
    assert!(c.set_echo_ack(100 + ECHO_TIMEOUT));
    assert_eq!(c.echo_ack(), 1);
}

#[test]
fn wait_time_is_unbounded_until_there_is_something_to_wait_for() {
    let mut c = Complete::new(20, 4);
    assert_eq!(c.wait_time(0), i32::MAX);
    c.register_input_frame(1, 0);
    assert_eq!(c.wait_time(0), i32::MAX);

    c.register_input_frame(2, 10);
    assert_eq!(c.wait_time(10), ECHO_TIMEOUT as i32);
    assert_eq!(c.wait_time(10 + ECHO_TIMEOUT), 0);
}

#[test]
fn init_diff_rebuilds_the_screen_from_nothing() {
    let mut c = Complete::new(20, 4);
    c.act(b"hello\r\nworld");

    let diff = c.init_diff();
    let mut target = Complete::new(20, 4);
    target.apply_string(&diff).unwrap();
    assert!(
        !target.compare(&c),
        "init diff did not reproduce the screen"
    );
}

#[test]
fn a_resize_the_peer_chose_cannot_kill_us() {
    // Both ends take the size straight off the wire: the client from a resize in the
    // host message, the server from a UserEvent::Resize. Every one of these used to
    // abort the process, and the large ones used to allocate until the kernel did.
    for (w, h) in [
        (0, 24),
        (80, 0),
        (-1, -1),
        (i32::MIN, i32::MIN),
        (i32::MAX, 1),
        (i32::MAX, i32::MAX),
    ] {
        let mut c = Complete::new(80, 24);
        c.act_resize(w, h);
        assert!(c.fb().ds.width() >= 1 && c.fb().ds.height() >= 1);
        // Still a working terminal afterwards, not a wedged one.
        c.act(b"hello");
    }
}

#[test]
fn a_hostile_server_asking_our_terminal_a_question_is_not_fatal() {
    // A device-attributes query in a state update makes the emulator produce a reply
    // the client has nowhere to send. Dropping it must not be an assertion.
    let mut c = Complete::new(80, 24);
    let hostile = pb::HostMessage {
        instruction: vec![pb::Instruction {
            hostbytes: Some(pb::HostBytes {
                hoststring: Some(b"\x1b[c".to_vec()),
            }),
            ..Default::default()
        }],
    }
    .encode_to_vec();
    assert!(c.apply_string(&hostile).is_ok());
}

#[test]
fn complete_a_malformed_diff_is_reported_not_fatal() {
    let mut c = Complete::new(20, 4);
    assert_eq!(c.apply_string(&[0x0a, 0x7f]), Err(ApplyError::Malformed));
}

#[test]
fn a_diff_is_a_transition_not_an_idempotent_operation() {
    let mut old = Complete::new(20, 4);
    old.act(b"abc");
    let mut new = old.clone();
    new.act(b"def");
    let diff = new.diff_from(&old);

    let mut target = old.clone();
    target.apply_string(&diff).unwrap();
    assert_eq!(screen(&target)[0].trim_end(), "abcdef");

    // Applying it again appends a second time. This is not a defect: a diff carries
    // the change between two specific states, so it is only meaningful applied to
    // the state it was computed from. Idempotence is the transport's job -- an
    // Instruction names the state it moves from, and a repeated one is dropped
    // before it ever reaches here.
    target.apply_string(&diff).unwrap();
    assert_eq!(screen(&target)[0].trim_end(), "abcdefdef");
}

fn screen(c: &Complete) -> Vec<String> {
    let fb = c.fb();
    (0..fb.ds.height())
        .map(|y| {
            let mut line = String::new();
            for x in 0..fb.ds.width() {
                fb.cell(y, x).unwrap().print_grapheme(&mut line);
            }
            line
        })
        .collect()
}

#[test]
fn the_differences_of_screens_are_listed() {
    let mut a = Complete::new(10, 3);
    let mut b = a.clone();
    assert!(a.differences(&b).is_empty());
    a.act(b"x\r\nyz");
    b.act(b"x\r\nqz\r");
    let list = a.differences(&b);
    assert_eq!(
        list,
        vec![
            Difference::Cell { row: 1, col: 0 },
            Difference::Cursor { row: 1, col: 2, other_row: 1, other_col: 0 },
        ]
    );
    assert_eq!(list[0].text(), "Cell (1, 0) differs.");
    assert_eq!(list[1].text(), "Cursor mismatch: (1, 2) vs. (1, 0).");
    assert_eq!(
        a.report(&b),
        vec!["Cell (1, 0) differs.", "Cursor mismatch: (1, 2) vs. (1, 0)."]
    );
    let list = a.differences(&Complete::new(20, 4));
    assert_eq!(list.len(), 1);
    assert_eq!(list[0].text(), "Framebuffer size (10x3, 20x4) differs.");
}

#[test]
fn states_are_the_same_only_with_the_same_acknowledgement() {
    let mut a = Complete::new(10, 3);
    let b = a.clone();
    assert!(a.same_given(&b, true));
    assert!(!a.same_given(&b, false));
    a.register_input_frame(1, 0);
    a.set_echo_ack(1000);
    assert_eq!(a.echo_ack(), 1);
    assert!(!a.same_given(&b, true));
    assert!(a != b);
}
