use herdr::host_terminal_identity::{
    parse_host_terminal_version_response, HostTerminalIdentity, HOST_TERMINAL_VERSION_QUERY_SEQUENCE,
};

#[test]
fn parses_the_two_measured_replies() {
    assert_eq!(
        parse_host_terminal_version_response("\x1bP>|Rio 0.5.19\x1b\\"),
        Some(HostTerminalIdentity::new("Rio", Some("0.5.19")))
    );
    assert_eq!(
        parse_host_terminal_version_response("\x1bP>|kitty(0.45.0)\x1b\\"),
        Some(HostTerminalIdentity::new("kitty", Some("0.45.0")))
    );
}

#[test]
fn parses_other_terminals_in_the_wild() {
    assert_eq!(
        parse_host_terminal_version_response("\x1bP>|WezTerm 20240203-110809\x1b\\"),
        Some(HostTerminalIdentity::new(
            "WezTerm",
            Some("20240203-110809")
        ))
    );
    assert_eq!(
        parse_host_terminal_version_response("\x1bP>|XTerm(370)\x1b\\"),
        Some(HostTerminalIdentity::new("XTerm", Some("370")))
    );
    assert_eq!(
        parse_host_terminal_version_response("\x1bP>|ghostty 1.0.0\x1b\\"),
        Some(HostTerminalIdentity::new("ghostty", Some("1.0.0")))
    );
}

#[test]
fn accepts_bel_terminated_replies() {
    assert_eq!(
        parse_host_terminal_version_response("\x1bP>|Rio 0.5.19\x07"),
        Some(HostTerminalIdentity::new("Rio", Some("0.5.19")))
    );
}

#[test]
fn a_name_without_a_version_is_still_an_identity() {
    assert_eq!(
        parse_host_terminal_version_response("\x1bP>|tmux\x1b\\"),
        Some(HostTerminalIdentity::new("tmux", None))
    );
}

#[test]
fn rejects_sequences_that_are_not_xtversion_replies() {
    assert_eq!(
        parse_host_terminal_version_response("\x1bP1$r0m\x1b\\"),
        None
    );
    assert_eq!(
        parse_host_terminal_version_response("\x1b_Gi=1;OK\x1b\\"),
        None
    );
    assert_eq!(
        parse_host_terminal_version_response("\x1bP>|Rio 0.5.19"),
        None
    );
    assert_eq!(parse_host_terminal_version_response("\x1bP>|\x1b\\"), None);
}

#[test]
fn the_query_is_the_xtversion_sequence() {
    assert_eq!(HOST_TERMINAL_VERSION_QUERY_SEQUENCE.as_bytes(), b"\x1b[>q");
}

#[test]
fn a_version_alone_names_nobody() {
    for body in ["(0.45.0)", "0.45.0", "()", "42", "1.0( )"] {
        for end in ["\x07", "\x1b\\"] {
            let reply = format!("\x1bP>|{body}{end}");
            assert_eq!(parse_host_terminal_version_response(&reply), None, "{body}");
        }
    }
    let identity = parse_host_terminal_version_response("\x1bP>|3term 2\x07").unwrap();
    assert_eq!(identity.name(), "3term");
    assert_eq!(identity.version(), Some("2"));
}

#[test]
fn before_a_version_anything_is_a_name() {
    for (body, name, version) in [
        ("42 1.0", "42", "1.0"),
        ("(x) 1.0", "(x)", "1.0"),
        ("(1.0) beta", "(1.0)", "beta"),
        ("1.0(2)", "1.0", "2"),
    ] {
        let reply = format!("\x1bP>|{body}\x1b\\");
        let identity = parse_host_terminal_version_response(&reply).unwrap();
        assert_eq!(identity.name(), name);
        assert_eq!(identity.version(), Some(version));
    }
    for body in ["(x", ".", "..5", "x)"] {
        let reply = format!("\x1bP>|{body}\x1b\\");
        let identity = parse_host_terminal_version_response(&reply).unwrap();
        assert_eq!(identity.name(), body);
        assert_eq!(identity.version(), None);
    }
}

#[test]
fn empty_brackets_are_no_version() {
    let identity = parse_host_terminal_version_response("\x1bP>| foot ( ) \x1b\\").unwrap();
    assert_eq!(identity.name(), "foot");
    assert_eq!(identity.version(), None);
}

#[test]
fn a_version_may_hold_brackets_of_its_own() {
    let identity =
        parse_host_terminal_version_response("\x1bP>|term(1 (beta))\x07").unwrap();
    assert_eq!(identity.name(), "term");
    assert_eq!(identity.version(), Some("1 (beta)"));
}

#[test]
fn every_form_of_one_terminal_is_the_same_identity() {
    for body in ["st(0.9)", "st 0.9", " st   0.9 "] {
        for end in ["\x07", "\x1b\\"] {
            let reply = format!("\x1bP>|{body}{end}");
            assert_eq!(
                parse_host_terminal_version_response(&reply),
                Some(HostTerminalIdentity::new("st", Some("0.9")))
            );
        }
    }
}
