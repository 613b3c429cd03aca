//! The server and the client, from keystroke to screen.

use std::rc::Rc;

use mosh::client::{
    client_args, display_preference, initial_paint, Client, ClientArgs, USAGE,
};
use mosh::complete::Complete;
use mosh::connection::Connection;
use mosh::crypto::Base64Key;
use mosh::display::Display;
use mosh::framebuffer::Framebuffer;
use mosh::prediction::DisplayPreference;
use mosh::sender::{Pace, SyncState, SHUTDOWN_NUM};
use mosh::server::{
    feed_events, HostRead, HostWrite, Server, Verdict, TIMEOUT_IF_NO_CLIENT, TIMEOUT_IF_NO_CONTACT,
};
use mosh::transport::Transport;
use mosh::user::UserStream;
use mosh::widths::{WidthRange, Widths};

fn widths() -> Rc<Widths> {
    Rc::new(Widths::new(vec![WidthRange {
        first: 0x20,
        last: 0x7e,
        columns: 1,
    }]))
}

fn endpoints(limit: Option<u64>) -> (Server, Client) {
    let conn = Connection::new_server(Base64Key::random().unwrap(), 0);
    let key = conn.key();
    let server = Transport::new(conn, Complete::with_widths(80, 24, widths()), UserStream::new(), 0);
    let conn = Connection::new_client(&key, false, 0).unwrap();
    let remote = Complete::with_widths(80, 24, widths());
    let client = Transport::new(conn, UserStream::new(), remote, 0);
    let display = Display::new(None);
    (
        Server::new(server, limit, 0),
        Client::new(client, display, DisplayPreference::Never, false, widths(), 80, 24),
    )
}

fn pace(now: u64) -> Pace {
    Pace { now, interval: 20, timeout: 50 }
}

/// One turn of both loops.
fn turn(server: &mut Server, client: &mut Client, now: u64) {
    let mut up = Vec::new();
    for p in client.tick(pace(now)).expect("tick").payloads {
        up.extend(client.transport_mut().connection.send(p, now).expect("send"));
    }
    let mut down = Vec::new();
    server.advance_echo(now);
    for p in server.tick(pace(now)).expect("tick").payloads {
        down.extend(server.transport_mut().connection.send(p, now).expect("send"));
    }
    for wire in up {
        server.transport_mut().recv(&wire, true, now);
    }
    for wire in down {
        client.transport_mut().recv(&wire, true, now);
    }
    client.note_confirmed(20);
    client.notice_shutdown(now);
}

fn turns(server: &mut Server, client: &mut Client, now: &mut u64, n: usize) -> Vec<(i32, i32)> {
    let mut sizes = Vec::new();
    for _ in 0..n {
        *now += 25;
        turn(server, client, *now);
        sizes.extend(server.take_user_input(*now));
    }
    sizes
}

#[test]
fn keystrokes_reach_the_child_and_its_echo_comes_back() {
    let (mut server, mut client) = endpoints(None);
    let mut now = 0u64;
    let painted = initial_paint(&Display::new(None), &Framebuffer::new(80, 24));
    assert!(painted.starts_with("\x1b[?1h"));
    assert!(painted.contains("\x1b[H\x1b[2J"));
    client.type_bytes(b"ls\r", now);
    let sizes = turns(&mut server, &mut client, &mut now, 40);
    assert_eq!(sizes, vec![(80, 24)], "the size is told before anything else");
    assert_eq!(server.pending_to_host(), b"ls\r");
    server.note_host_write(HostWrite::Retry);
    assert_eq!(server.pending_to_host(), b"ls\r");
    server.note_host_write(HostWrite::Written(2));
    assert_eq!(server.pending_to_host(), b"\r");
    server.note_host_write(HostWrite::Written(9));
    assert_eq!(server.pending_to_host(), b"");

    assert!(server.reads_host());
    assert!(!server.take_host_output(HostRead::Retry));
    assert!(server.take_host_output(HostRead::Data(b"ls\r\nfile\r\n".to_vec())));
    turns(&mut server, &mut client, &mut now, 40);
    let text = client.draw(now);
    assert!(text.contains("file"), "{text:?}");
    assert_eq!(client.draw(now), "", "nothing changed, so nothing is written");
    assert_eq!(server.verdict(now), Verdict::Continue);
    assert!(!client.finished(now));
}

#[test]
fn a_terminal_that_is_asked_replies_to_the_child() {
    let (mut server, _client) = endpoints(None);
    assert!(server.take_host_output(HostRead::Data(b"\x1b[6n".to_vec())));
    assert_eq!(server.pending_to_host(), b"\x1b[1;1R");
}

#[test]
fn the_end_of_the_child_ends_both_sides() {
    let (mut server, mut client) = endpoints(None);
    let mut now = 0u64;
    turns(&mut server, &mut client, &mut now, 20);
    // Its exit alone is not the end: what it wrote may still be in the pty.
    server.look_for_child(true, true, now);
    assert!(server.reads_host());
    server.look_for_child(false, false, now);
    assert!(!server.reads_host());
    for _ in 0..200 {
        turns(&mut server, &mut client, &mut now, 1);
        server.look_for_child(false, false, now);
        if server.verdict(now) == Verdict::Finished {
            break;
        }
    }
    assert_eq!(client.transport_mut().remote_state_num(), SHUTDOWN_NUM);
    assert_eq!(server.verdict(now), Verdict::Finished);
    turns(&mut server, &mut client, &mut now, 400);
    assert!(client.finished(now));
}

#[test]
fn a_failed_pty_means_that_the_child_is_gone() {
    let (mut server, _client) = endpoints(None);
    assert!(!server.take_host_output(HostRead::Failed));
    assert!(!server.reads_host());
    let (mut server, _client) = endpoints(None);
    server.take_host_output(HostRead::End);
    assert!(!server.reads_host());
    let (mut server, _client) = endpoints(None);
    assert!(!server.child_is_gone());
    server.note_host_write(HostWrite::Failed);
    assert!(server.child_is_gone());
    assert!(!server.reads_host());
    assert_eq!(server.pending_to_host(), b"");
}

#[test]
fn a_silent_client_is_given_up_on() {
    let (server, _client) = endpoints(None);
    assert_eq!(server.verdict(TIMEOUT_IF_NO_CLIENT - 1), Verdict::Continue);
    assert_eq!(server.verdict(TIMEOUT_IF_NO_CLIENT), Verdict::NoClient);

    let (server, _client) = endpoints(Some(3000));
    assert_eq!(server.verdict(2999), Verdict::Continue);
    assert_eq!(server.verdict(3000), Verdict::NetworkIdle(3));

    let (mut server, mut client) = endpoints(None);
    let mut now = 0u64;
    turns(&mut server, &mut client, &mut now, 20);
    assert_eq!(
        server.verdict(now + TIMEOUT_IF_NO_CONTACT),
        Verdict::ClientVanished
    );
}

#[test]
fn the_quit_sequence_starts_the_shutdown() {
    let (_server, mut client) = endpoints(None);
    client.type_bytes(b"\x1e", 5);
    assert!(!client.transport_mut().shutdown_in_progress());
    client.type_bytes(b".", 5);
    assert!(client.transport_mut().shutdown_in_progress());
    // Nothing is sent any more.
    let before = client.transport_mut().current_state_mut().len();
    client.type_bytes(b"x", 6);
    assert_eq!(client.transport_mut().current_state_mut().len(), before);
}

#[test]
fn an_aborted_quit_sequence_sends_what_followed_it() {
    let (_server, mut client) = endpoints(None);
    client.type_bytes(b"\x1ea", 5);
    assert!(!client.transport_mut().shutdown_in_progress());
    // The size, and the letter.
    assert_eq!(client.transport_mut().current_state_mut().len(), 2);
}

#[test]
fn the_client_wakes_up_often_enough() {
    let (_server, mut client) = endpoints(None);
    assert!(client.wait_time(pace(0)) <= 100);
    assert!(client.farewell().starts_with("\x1b[?1l"));
}

#[test]
fn only_the_last_of_a_run_of_sizes_is_taken() {
    let mut us = UserStream::new();
    us.push_resize(100, 30);
    us.push_resize(0, 100_000);
    us.push_byte(b'q');
    us.push_resize(90, 20);
    let mut screen = Complete::new(80, 24);
    let mut to_host = Vec::new();
    let sizes = feed_events(&us, &mut screen, &mut to_host);
    assert_eq!(to_host, b"q");
    assert_eq!(sizes.len(), 2);
    assert_eq!(sizes[0].0, 1, "a window has at least one column");
    assert_eq!(sizes[1], (90, 20));
    assert!(us.compare(&us.snapshot()) == us.compare(&us));
}

#[test]
fn the_clients_arguments_are_an_address_and_a_port() {
    let argv = |s: &[&str]| s.iter().map(|x| x.to_string()).collect::<Vec<String>>();
    assert_eq!(client_args(&argv(&["mosh-client", "--help"])), ClientArgs::Help);
    assert_eq!(client_args(&argv(&["mosh-client", "x", "-h"])), ClientArgs::Help);
    assert_eq!(client_args(&argv(&["mosh-client", "--version"])), ClientArgs::Version);
    assert_eq!(
        client_args(&argv(&["mosh-client", "-v", "192.0.2.1", "60001"])),
        ClientArgs::Connect {
            ip: "192.0.2.1".to_string(),
            port: 60001
        }
    );
    assert_eq!(client_args(&argv(&["mosh-client", "192.0.2.1"])), ClientArgs::BadUsage);
    assert_eq!(client_args(&argv(&["mosh-client", "h", "70000"])), ClientArgs::BadUsage);
    assert_eq!(client_args(&[]), ClientArgs::BadUsage);
    assert!(USAGE.contains("IP PORT"));
}

#[test]
fn the_preference_is_taken_from_its_name() {
    assert_eq!(display_preference(Some("always")), DisplayPreference::Always);
    assert_eq!(display_preference(Some("never")), DisplayPreference::Never);
    assert_eq!(
        display_preference(Some("experimental")),
        DisplayPreference::Experimental
    );
    assert_eq!(display_preference(Some("adaptive")), DisplayPreference::Adaptive);
    assert_eq!(display_preference(None), DisplayPreference::Adaptive);
}
