use mosh::login::{detached_sessions, names_device, unattached_message, Entry};

fn entry(user: &str, line: &str, host: &str) -> Entry {
    Entry {
        user: user.to_string(),
        line: line.to_string(),
        host: host.to_string(),
    }
}

#[test]
fn our_own_session_is_not_reported_back_to_us() {
    let entries = [
        entry("alice", "pts/1", "mosh [4242]"),
        entry("alice", "pts/2", "mosh [17]"),
        entry("alice", "tty1", "console"),
        entry("bob", "pts/3", "mosh [18]"),
        entry("alice", "pts/9", "mosh [19]"),
    ];
    let exists = [true, true, true, true, false];
    // Only the records that a server wrote come back.
    for host in detached_sessions(&entries, "alice", "", &exists) {
        assert!(
            host.starts_with("mosh ["),
            "unrelated record {host} reported"
        );
    }
    // The person who just started a session does not need telling.
    let mine = "mosh [4242]".to_string();
    let others = detached_sessions(&entries, "alice", &mine, &exists);
    assert!(!others.contains(&mine));
    assert_eq!(others, vec!["mosh [17]".to_string()]);
}

#[test]
fn a_device_lies_directly_under_dev() {
    assert!(names_device("null"));
    assert!(!names_device(""));
    // The name comes out of a database other accounts may be able to write, so it
    // may only ever name something directly under /dev.
    assert!(!names_device("/etc/passwd"));
    assert!(!names_device("../etc/passwd"));
    // Neither the directory itself nor the one above it is a device.
    assert!(!names_device("."));
    assert!(!names_device(".."));
    assert!(names_device("..."));
}

#[test]
fn the_message_counts_the_sessions() {
    assert_eq!(unattached_message(&[]), "");
    let one = ["mosh [17]".to_string()];
    assert_eq!(
        unattached_message(&one),
        "\x1b[37;44mMosh: You have a detached Mosh session on this server (mosh [17]).\x1b[m\n\n"
    );
    let two = ["mosh [17]".to_string(), "mosh [19]".to_string()];
    assert_eq!(
        unattached_message(&two),
        "\x1b[37;44mMosh: You have 2 detached Mosh sessions on this server, with PIDs:\n        - mosh [17]\n        - mosh [19]\n\x1b[m\n"
    );
}
