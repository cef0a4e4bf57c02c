use herdr::events::PaneExitStatus;

#[test]
fn a_process_ends_well_only_with_zero_and_no_signal() {
    assert!(PaneExitStatus::from_parts(0, None).success());
    assert!(!PaneExitStatus::from_parts(1, None).success());
    assert!(!PaneExitStatus::from_parts(0, Some("SIGTERM")).success());
}

#[test]
fn the_signal_names_the_end_before_the_code_does() {
    assert_eq!(PaneExitStatus::from_parts(1, None).summary(), "exit code 1");
    assert_eq!(
        PaneExitStatus::from_parts(u32::MAX, None).summary(),
        "exit code 4294967295"
    );
    assert_eq!(
        PaneExitStatus::from_parts(143, Some("SIGTERM")).summary(),
        "SIGTERM"
    );
}
