use mosh::opts::{parse, parse_with_env, shell_quote, shellwords, OptError, Predict, USAGE};

fn argv(s: &[&str]) -> Vec<String> {
    s.iter().map(|x| x.to_string()).collect()
}

#[test]
fn opts_the_test_harness_invocation_parses() {
    let o = parse(&argv(&[
        "mosh",
        "--client=../frontend/mosh-client",
        "--server=/path/mosh-server",
        "--local",
        "--bind-server=127.0.0.1",
        "127.0.0.1",
    ]))
    .unwrap();
    assert_eq!(o.client, "../frontend/mosh-client");
    assert_eq!(o.server, "/path/mosh-server");
    assert!(o.localhost);
    assert_eq!(o.bind_ip.as_deref(), Some("127.0.0.1"));
    assert_eq!(o.userhost.as_deref(), Some("127.0.0.1"));
}

#[test]
fn a_command_may_follow_the_host_with_or_without_a_dash_dash() {
    let o = parse(&argv(&["mosh", "host", "--", "printf", "hi"])).unwrap();
    assert_eq!(o.userhost.as_deref(), Some("host"));
    assert_eq!(o.command, argv(&["printf", "hi"]));

    let o = parse(&argv(&["mosh", "host", "ls", "-l"])).unwrap();
    assert_eq!(o.command, argv(&["ls"]), "options after the host go to ssh");
}

#[test]
fn values_attach_with_equals_or_stand_alone() {
    let a = parse(&argv(&["mosh", "--port=60000", "h"])).unwrap();
    let b = parse(&argv(&["mosh", "--port", "60000", "h"])).unwrap();
    assert_eq!(a.port_request, b.port_request);
    assert_eq!(a.port_request.as_deref(), Some("60000"));
}

#[test]
fn prediction_modes_and_their_aliases() {
    assert_eq!(parse(&argv(&["mosh", "-a", "h"])).unwrap().predict, Predict::Always);
    assert_eq!(parse(&argv(&["mosh", "-n", "h"])).unwrap().predict, Predict::Never);
    assert_eq!(
        parse(&argv(&["mosh", "--predict=experimental", "h"]))
            .unwrap()
            .predict,
        Predict::Experimental
    );
    assert_eq!(
        parse(&argv(&["mosh", "--predict=sideways", "h"])),
        Err(OptError::BadPredict("sideways".into()))
    );
}

#[test]
fn negatable_options_work_both_ways() {
    assert!(!parse(&argv(&["mosh", "--no-init", "h"])).unwrap().term_init);
    assert!(parse(&argv(&["mosh", "--init", "h"])).unwrap().term_init);
    assert!(!parse(&argv(&["mosh", "--no-ssh-pty", "h"])).unwrap().ssh_pty);
}

#[test]
fn the_remote_ip_method_defaults_to_proxy_and_takes_the_three_spellings() {
    assert_eq!(parse(&argv(&["mosh", "h"])).unwrap().remote_ip, "proxy");
    for method in ["local", "remote", "proxy"] {
        let o = parse(&argv(&["mosh", &format!("--experimental-remote-ip={method}"), "h"]));
        assert_eq!(o.unwrap().remote_ip, method);
    }
    assert_eq!(
        parse(&argv(&["mosh", "--experimental-remote-ip=sideways", "h"])),
        Err(OptError::BadRemoteIp("sideways".into())),
        "an unknown method should be rejected rather than passed to ssh"
    );
}

#[test]
fn the_fake_proxy_takes_its_host_and_port_after_the_separator() {
    let o = parse(&argv(&[
        "mosh",
        "--family=inet",
        "--fake-proxy",
        "--",
        "10.0.0.1",
        "22",
    ]))
    .unwrap();
    assert!(o.fake_proxy);
    assert_eq!(o.command, argv(&["10.0.0.1", "22"]));
}

#[test]
fn the_address_family_flags_agree_with_the_long_form() {
    assert_eq!(parse(&argv(&["mosh", "-4", "h"])).unwrap().family, "inet");
    assert_eq!(parse(&argv(&["mosh", "-6", "h"])).unwrap().family, "inet6");
    assert_eq!(
        parse(&argv(&["mosh", "--family=INET6", "h"])).unwrap().family,
        "inet6",
        "family should be case-insensitive"
    );
}

#[test]
fn the_ssh_option_is_a_command_line_not_a_word() {
    let o = parse(&argv(&["mosh", "--ssh=ssh -p 2222", "h"])).unwrap();
    assert_eq!(o.ssh, argv(&["ssh", "-p", "2222"]));
}

#[test]
fn unrecognised_options_are_handed_to_ssh() {
    // So that ssh flags can be given without mosh having to know them all.
    let o = parse(&argv(&["mosh", "-J", "h"])).unwrap();
    assert!(o.ssh.contains(&"-J".to_string()));
}

#[test]
fn shellwords_honours_quotes_and_escapes() {
    assert_eq!(shellwords("a b  c"), argv(&["a", "b", "c"]));
    assert_eq!(shellwords("'a b' c"), argv(&["a b", "c"]));
    assert_eq!(shellwords(r#""a b" c"#), argv(&["a b", "c"]));
    assert_eq!(shellwords(r"a\ b"), argv(&["a b"]));
    // An empty quoted string is a word, not nothing.
    assert_eq!(shellwords("'' x"), argv(&["", "x"]));
}

#[test]
fn shell_quote_protects_what_needs_it() {
    assert_eq!(shell_quote("simple"), "simple");
    assert_eq!(shell_quote("/usr/bin/mosh-server"), "/usr/bin/mosh-server");
    assert_eq!(shell_quote("two words"), "'two words'");
    assert_eq!(shell_quote("it's"), r"'it'\''s'");
    // An empty argument must survive as an empty argument.
    assert_eq!(shell_quote(""), "''");
}

#[test]
fn help_and_version_are_recognised() {
    assert!(parse(&argv(&["mosh", "--help"])).unwrap().help);
    assert!(parse(&argv(&["mosh", "--version"])).unwrap().version);
}

#[test]
fn the_environment_sets_what_the_options_leave_open() {
    let o = parse_with_env(&argv(&["mosh", "h"]), Some("never"), Some("yes")).unwrap();
    assert_eq!(o.predict, Predict::Never);
    assert!(o.predict_overwrite);
    let o = parse_with_env(&argv(&["mosh", "-a", "h"]), Some("never"), None).unwrap();
    assert_eq!(o.predict, Predict::Always);
    assert_eq!(
        parse_with_env(&argv(&["mosh", "h"]), Some("sideways"), None),
        Err(OptError::BadPredict("sideways".to_string()))
    );
}

#[test]
fn an_option_without_its_value_is_refused() {
    let e = parse(&argv(&["mosh", "--port"]));
    assert_eq!(e, Err(OptError::MissingValue("--port".to_string())));
}

#[test]
fn option_errors_say_what_was_wrong() {
    assert_eq!(
        OptError::BadPredict("sideways".to_string()).text(),
        "Unknown prediction mode sideways. Choose one of: always, never, adaptive, experimental"
    );
    assert_eq!(
        OptError::MissingValue("--port".to_string()).text(),
        "Option --port requires a value"
    );
    assert_eq!(
        OptError::BadRemoteIp("x".to_string()).text(),
        "Unknown parameter x. Choose one of: local, remote, proxy"
    );
}

#[test]
fn the_usage_text_names_the_program() {
    assert!(USAGE.starts_with("Usage: "));
}

#[test]
fn quoted_words_arrive_unchanged_through_the_splitter() {
    let words = argv(&["plain", "two words", "it's", "", "a\\b", "\"q\""]);
    let quoted: Vec<String> = words.iter().map(|w| shell_quote(w)).collect();
    assert_eq!(shellwords(&quoted.join(" ")), words);
}
