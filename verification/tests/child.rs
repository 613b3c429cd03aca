use mosh::args::Args;
use mosh::child::{
    child_command, child_env, connect_line, network_timeout, pick_term, NetworkTimeout,
};

#[test]
fn a_network_timeout_is_read_in_seconds() {
    assert_eq!(network_timeout(None), NetworkTimeout::Unset);
    assert_eq!(network_timeout(Some("3")), NetworkTimeout::Limit(3000));
    assert_eq!(network_timeout(Some(" 3 ")), NetworkTimeout::Limit(3000));
    assert_eq!(network_timeout(Some("0")), NetworkTimeout::Limit(0));
    assert_eq!(network_timeout(Some("-0")), NetworkTimeout::Limit(0));
    assert_eq!(network_timeout(Some("-3")), NetworkTimeout::Negative);
    assert_eq!(network_timeout(Some("soon")), NetworkTimeout::NotANumber);
    assert_eq!(network_timeout(Some("")), NetworkTimeout::NotANumber);
    assert_eq!(
        network_timeout(Some("9223372036854775807")),
        NetworkTimeout::Limit(u64::MAX)
    );
    assert_eq!(
        network_timeout(Some("9223372036854775808")),
        NetworkTimeout::NotANumber
    );
}

#[test]
fn the_child_is_the_command_or_a_login_shell() {
    let mut a = Args::default();
    assert_eq!(
        child_command(&a, Some("/usr/bin/fish")),
        ("/usr/bin/fish".to_string(), vec!["-fish".to_string()])
    );
    assert_eq!(
        child_command(&a, None),
        ("/bin/sh".to_string(), vec!["-sh".to_string()])
    );
    a.command = vec!["ls".to_string(), "-l".to_string()];
    assert_eq!(
        child_command(&a, None),
        ("ls".to_string(), vec!["ls".to_string(), "-l".to_string()])
    );
}

#[test]
fn the_child_sees_the_terminal_and_the_locale() {
    let mut a = Args::default();
    assert_eq!(pick_term(&a, Some("vt100")), "vt100");
    assert_eq!(pick_term(&a, None), "xterm");
    a.colors = 256;
    a.locale_vars = vec![("LANG".to_string(), "en_US.UTF-8".to_string())];
    let pair = |a: &str, b: &str| (a.to_string(), b.to_string());
    assert_eq!(
        child_env(&a, Some("vt100")),
        vec![
            pair("TERM", "xterm-256color"),
            pair("NCURSES_NO_UTF8_ACS", "1"),
            pair("LANG", "en_US.UTF-8"),
        ]
    );
}

#[test]
fn the_launcher_is_told_the_port_and_the_key() {
    assert_eq!(
        connect_line(60001, "AAAAAAAAAAAAAAAAAAAAAA"),
        "MOSH CONNECT 60001 AAAAAAAAAAAAAAAAAAAAAA"
    );
}
