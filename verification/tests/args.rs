use mosh::args::{parse, parse_portrange, parse_with_env, ssh_ip, ArgError};

fn argv(s: &[&str]) -> Vec<String> {
    s.iter().map(|x| x.to_string()).collect()
}

#[test]
fn args_the_test_harness_invocation_parses() {
    let a = parse(&argv(&["mosh-server", "new", "-vv", "-@", "--", "printf", "hi"])).unwrap();
    assert_eq!(a.verbose, 2);
    assert_eq!(a.command, argv(&["printf", "hi"]));
}

#[test]
fn the_wrapper_invocation_parses() {
    let a = parse(&argv(&[
        "mosh-server", "new", "-s", "-c", "256", "-l", "LANG=en_US.UTF-8",
    ]))
    .unwrap();
    assert_eq!(a.colors, 256);
    assert_eq!(a.locale_vars, vec![("LANG".into(), "en_US.UTF-8".into())]);
}

#[test]
fn the_eating_option_discards_its_argument() {
    // -@ exists so a prepended argv does not confuse the parse.
    let a = parse(&argv(&["mosh-server", "new", "-v", "-@", "new", "-c", "256"])).unwrap();
    assert_eq!(a.colors, 256);
    assert_eq!(a.verbose, 1);
}

#[test]
fn a_command_requires_the_double_dash() {
    let a = parse(&argv(&["mosh-server", "new", "--", "bash", "-l"])).unwrap();
    assert_eq!(a.command, argv(&["bash", "-l"]));

    // A trailing `--` with nothing after it means no command.
    let a = parse(&argv(&["mosh-server", "new", "--"])).unwrap();
    assert!(a.command.is_empty());
}

#[test]
fn addresses_and_ports_are_read() {
    let a = parse(&argv(&["mosh-server", "new", "-i", "10.0.0.1", "-p", "60000"])).unwrap();
    assert_eq!(a.desired_ip.as_deref(), Some("10.0.0.1"));
    assert_eq!(a.desired_port.as_deref(), Some("60000"));
}

#[test]
fn legacy_positional_syntax_still_works() {
    let a = parse(&argv(&["mosh-server", "10.0.0.1"])).unwrap();
    assert_eq!(a.desired_ip.as_deref(), Some("10.0.0.1"));

    let a = parse(&argv(&["mosh-server", "10.0.0.1", "60000"])).unwrap();
    assert_eq!(a.desired_port.as_deref(), Some("60000"));
}

#[test]
fn bad_colors_are_rejected() {
    assert_eq!(
        parse(&argv(&["mosh-server", "new", "-c", "many"])),
        Err(ArgError::BadColors("many".into()))
    );
}

#[test]
fn bundled_short_flags_are_counted_separately() {
    // getopt reads -vv as two v flags; the test harness relies on it.
    assert_eq!(parse(&argv(&["mosh-server", "new", "-vv"])).unwrap().verbose, 2);
    assert_eq!(parse(&argv(&["mosh-server", "new", "-vvv"])).unwrap().verbose, 3);
}

#[test]
fn a_value_may_be_attached_to_its_flag() {
    let a = parse(&argv(&["mosh-server", "new", "-c256"])).unwrap();
    assert_eq!(a.colors, 256);
    let a = parse(&argv(&["mosh-server", "new", "-p60000"])).unwrap();
    assert_eq!(a.desired_port.as_deref(), Some("60000"));
}

#[test]
fn unknown_options_do_not_abort() {
    // Carrying on means that a newer client's flag cannot break the server.
    assert!(parse(&argv(&["mosh-server", "new", "-Q", "-v"])).is_ok());
}

#[test]
fn port_ranges_parse_and_validate() {
    assert_eq!(parse_portrange("60000"), Some((60000, 60000)));
    assert_eq!(parse_portrange("60000:60010"), Some((60000, 60010)));
    // Backwards, zero, and non-numeric are all refused.
    assert_eq!(parse_portrange("60010:60000"), None);
    assert_eq!(parse_portrange("0"), None);
    assert_eq!(parse_portrange("abc"), None);
}

#[test]
fn help_and_version_short_circuit() {
    assert!(parse(&argv(&["mosh-server", "--help"])).unwrap().help);
    assert!(parse(&argv(&["mosh-server", "--version"])).unwrap().version);
}

#[test]
fn the_address_that_ssh_arrived_at_is_found() {
    assert_eq!(
        ssh_ip(Some("192.0.2.7 51000 10.0.0.9 22")),
        Some("10.0.0.9".to_string())
    );
    assert_eq!(ssh_ip(None), None);
    assert_eq!(ssh_ip(Some("192.0.2.7 51000")), None);
    let a = parse_with_env(
        &argv(&["mosh-server", "new", "-s"]),
        Some("192.0.2.7 51000 10.0.0.9 22"),
    )
    .unwrap();
    assert_eq!(a.desired_ip.as_deref(), Some("10.0.0.9"));
}
