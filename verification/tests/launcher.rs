use mosh::launcher::{
    client_env, colors, order_addresses, proxy_target, server_args, server_command, ssh_args,
    strip_user, with_address, Handshake, Line, NoDestination, ProxyError,
};
use mosh::opts::{Opts, Predict};

fn opts_with(f: impl FnOnce(&mut Opts)) -> Opts {
    let mut o = Opts {
        userhost: Some("host".into()),
        ..Default::default()
    };
    f(&mut o);
    o
}

#[test]
fn the_server_is_told_to_bind_where_ssh_arrived() {
    let a = server_args(&opts_with(|_| {}), None, &[]);
    assert!(a.contains(&"-s".to_string()), "{a:?}");
}

#[test]
fn a_local_run_binds_the_host_it_was_given() {
    let a = server_args(&opts_with(|o| o.localhost = true), None, &[]);
    let i = a.iter().position(|x| x == "-i").expect("no -i");
    assert_eq!(a[i + 1], "host");
}

#[test]
fn an_explicit_bind_address_wins() {
    let a = server_args(&opts_with(|o| o.bind_ip = Some("10.0.0.1".into())), None, &[]);
    let i = a.iter().position(|x| x == "-i").expect("no -i");
    assert_eq!(a[i + 1], "10.0.0.1");
}

#[test]
fn binding_to_any_passes_no_address_at_all() {
    let a = server_args(&opts_with(|o| o.bind_ip = Some("any".into())), None, &[]);
    assert!(!a.contains(&"-i".to_string()), "{a:?}");
    assert!(!a.contains(&"-s".to_string()), "{a:?}");
}

#[test]
fn a_command_is_passed_after_a_double_dash() {
    let a = server_args(&opts_with(|o| o.command = vec!["ls".into(), "-l".into()]), None, &[]);
    let i = a.iter().position(|x| x == "--").expect("no --");
    assert_eq!(&a[i + 1..], &["ls".to_string(), "-l".to_string()]);
}

#[test]
fn the_port_request_is_forwarded() {
    let a = server_args(&opts_with(|o| o.port_request = Some("60000:60010".into())), None, &[]);
    let i = a.iter().position(|x| x == "-p").expect("no -p");
    assert_eq!(a[i + 1], "60000:60010");
}

#[test]
fn a_user_prefix_is_dropped_before_connecting() {
    // ssh needs user@host; the client needs only the host.
    assert_eq!(strip_user("alice@example.com"), "example.com");
    assert_eq!(strip_user("example.com"), "example.com");
    assert_eq!(strip_user("alice@bob@example.com"), "example.com");
}

#[test]
fn prediction_mode_names_survive_the_round_trip() {
    for p in [
        Predict::Always,
        Predict::Never,
        Predict::Adaptive,
        Predict::Experimental,
    ] {
        assert_eq!(Predict::parse(p.as_str()), Some(p));
    }
}

#[test]
fn an_address_replaces_the_host_and_keeps_the_user() {
    assert_eq!(with_address("alice@example.com", "192.0.2.1"), "alice@192.0.2.1");
    assert_eq!(with_address("example.com", "192.0.2.1"), "192.0.2.1");
}

#[test]
fn the_number_of_colours_follows_the_type_of_terminal() {
    assert_eq!(colors(Some("screen-256color")), 256);
    assert_eq!(colors(Some("vt100")), 8);
    assert_eq!(colors(None), 8);
    let a = server_args(&opts_with(|_| {}), Some("xterm-256color"), &[]);
    assert_eq!(&a[..3], &["new", "-c", "256"]);
}

#[test]
fn the_locale_is_passed_on() {
    let locale = [
        ("LANG".to_string(), "en_US.UTF-8".to_string()),
        ("LC_TIME".to_string(), "C".to_string()),
    ];
    let a = server_args(&opts_with(|_| {}), None, &locale);
    assert_eq!(
        a,
        vec!["new", "-c", "8", "-s", "-l", "LANG=en_US.UTF-8", "-l", "LC_TIME=C"]
    );
}

#[test]
fn the_server_command_is_quoted_word_by_word() {
    let o = opts_with(|_| {});
    let args = vec!["new".to_string(), "two words".to_string()];
    assert_eq!(server_command(&o, &args), "mosh-server new 'two words'");
}

#[test]
fn ssh_connects_through_the_launcher_unless_told_otherwise() {
    let o = opts_with(|_| {});
    assert_eq!(
        ssh_args(&o, "host", "/usr/bin/mosh", "mosh-server new"),
        vec![
            "-t",
            "-S",
            "none",
            "-o",
            "ProxyCommand=/usr/bin/mosh --family=prefer-inet --fake-proxy -- %h %p",
            "host",
            "--",
            "mosh-server new",
        ]
    );
    let o = opts_with(|o| {
        o.remote_ip = "local".to_string();
        o.ssh_pty = false;
        o.family = "inet6".to_string();
        o.ssh = vec!["ssh".to_string(), "-p".to_string(), "2222".to_string()];
    });
    assert_eq!(
        ssh_args(&o, "192.0.2.1", "/usr/bin/mosh", "mosh-server new"),
        vec!["-p", "2222", "-6", "192.0.2.1", "--", "mosh-server new"]
    );
}

#[test]
fn the_far_end_is_asked_to_announce_its_address() {
    let o = opts_with(|o| o.remote_ip = "remote".to_string());
    let args = ssh_args(&o, "host", "mosh", "mosh-server new");
    let command = args.last().unwrap();
    assert!(command.starts_with("sh -c '[ -n "), "{command}");
    assert!(command.ends_with(" ; mosh-server new"), "{command}");
}

#[test]
fn addresses_are_tried_in_the_preferred_order() {
    let v6 = [true, false, true, false];
    assert_eq!(order_addresses("inet", &v6), vec![1, 3]);
    assert_eq!(order_addresses("inet6", &v6), vec![0, 2]);
    assert_eq!(order_addresses("prefer-inet", &v6), vec![1, 3, 0, 2]);
    assert_eq!(order_addresses("prefer-inet6", &v6), vec![0, 2, 1, 3]);
    assert_eq!(order_addresses("all", &v6), vec![0, 1, 2, 3]);
}

const KEY: &str = "AAAAAAAAAAAAAAAAAAAAAA";

#[test]
fn the_far_end_says_where_the_session_is() {
    let mut h = Handshake::new(None);
    assert_eq!(h.read("Welcome\r\n"), Line::Shown("Welcome".to_string()));
    assert_eq!(h.read("MOSH IP 192.0.2.1\r\n"), Line::Noted);
    assert_eq!(h.read(&format!("MOSH CONNECT 60001 {KEY}\n")), Line::Connected);
    let d = h.destination().unwrap();
    assert_eq!(d.target, "192.0.2.1");
    assert_eq!(d.port, "60001");
    assert_eq!(d.key, KEY);
    assert!(!d.from_ssh);
}

#[test]
fn the_address_of_the_ssh_connection_is_the_last_resort() {
    let mut h = Handshake::new(None);
    assert_eq!(
        h.read("MOSH SSH_CONNECTION 192.0.2.7 51000 192.0.2.1 22\n"),
        Line::Noted
    );
    assert_eq!(h.destination(), Err(NoDestination::StartupMessage));
    h.read(&format!("MOSH CONNECT 60001 {KEY}\n"));
    let d = h.destination().unwrap();
    assert_eq!(d.target, "192.0.2.1");
    assert!(d.from_ssh);
}

#[test]
fn lines_that_lie_are_refused() {
    let mut h = Handshake::new(Some("192.0.2.1".to_string()));
    assert_eq!(h.read("MOSH IP 192.0.2.2"), Line::RedefinedIp);
    let bad = "MOSH SSH_CONNECTION a b";
    assert_eq!(h.read(bad), Line::BadSshConnection(bad.to_string()));
    for bad in [
        "MOSH CONNECT 60001".to_string(),
        format!("MOSH CONNECT -6001 {KEY}"),
        format!("MOSH CONNECT 70000 {KEY}"),
        "MOSH CONNECT 60001 short".to_string(),
    ] {
        assert_eq!(h.read(&bad), Line::BadConnect(bad.clone()));
    }
    assert_eq!(h, Handshake::new(Some("192.0.2.1".to_string())));
}

#[test]
fn a_session_without_an_address_cannot_be_reached() {
    let mut h = Handshake::new(None);
    h.read(&format!("MOSH CONNECT 60001 {KEY}\n"));
    assert_eq!(h.destination(), Err(NoDestination::Address));
    assert_eq!(
        NoDestination::StartupMessage.text(),
        "Did not find mosh server startup message."
    );
    assert!(NoDestination::Address.text().starts_with("Did not find remote IP"));
}

#[test]
fn the_client_finds_the_key_in_its_environment() {
    let pair = |a: &str, b: &str| (a.to_string(), b.to_string());
    assert_eq!(
        client_env(&opts_with(|_| {}), KEY),
        vec![pair("MOSH_KEY", KEY), pair("MOSH_PREDICTION_DISPLAY", "adaptive")]
    );
    let o = opts_with(|o| {
        o.predict = Predict::Never;
        o.predict_overwrite = true;
        o.term_init = false;
    });
    assert_eq!(
        client_env(&o, KEY),
        vec![
            pair("MOSH_KEY", KEY),
            pair("MOSH_PREDICTION_DISPLAY", "never"),
            pair("MOSH_PREDICTION_OVERWRITE", "yes"),
            pair("MOSH_NO_TERM_INIT", "1"),
        ]
    );
}

#[test]
fn the_proxy_needs_a_host_and_a_port() {
    let with = |words: &[&str]| opts_with(|o| o.command = words.iter().map(|w| w.to_string()).collect());
    assert_eq!(proxy_target(&with(&["host", "22"])), Ok(("host".to_string(), 22)));
    assert_eq!(proxy_target(&with(&["host"])), Err(ProxyError::MissingArguments));
    assert_eq!(proxy_target(&with(&["host", "ssh"])), Err(ProxyError::BadPort));
    assert_eq!(ProxyError::BadPort.text(), "bad port");
    assert_eq!(
        ProxyError::MissingArguments.text(),
        "--fake-proxy takes a host and a port"
    );
}
