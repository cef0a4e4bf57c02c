use herdr::detect::command_marker::{
    bash_command_text, command_markers, diff_new_markers, is_command_marker,
};
use herdr::detect::Agent;

/// The lines above the box that a prompt is typed in.
fn transcript(screen: &str) -> Option<(usize, usize)> {
    let end = screen.lines().position(|line| line.starts_with('\u{2500}'))?;
    Some((0, end))
}

#[test]
fn no_agent_finds_nothing() {
    assert!(command_markers(None, "⏺ Bash(npm test)", transcript("⏺ Bash(npm test)")).is_empty());
}

#[test]
fn a_non_claude_agent_finds_nothing() {
    assert!(command_markers(Some(Agent::Codex), "⏺ Bash(npm test)", transcript("⏺ Bash(npm test)")).is_empty());
}

#[test]
fn a_bash_bullet_is_found() {
    let screen = "Some earlier text\n⏺ Bash(npm test)\n  ⎿  Running…\n";
    assert_eq!(
        command_markers(Some(Agent::Claude), screen, transcript(screen)),
        vec!["⏺ Bash(npm test)".to_string()]
    );
}

#[test]
fn a_non_bash_bullet_is_ignored() {
    let screen = "⏺ Read(src/main.rs)\n⏺ Edit(src/main.rs)\n";
    assert!(command_markers(Some(Agent::Claude), screen, transcript(screen)).is_empty());
}

#[test]
fn every_bash_bullet_in_a_burst_is_returned_independently() {
    let screen = "⏺ Bash(npm test)\n⏺ Bash(npm build)\n⏺ Bash(npm lint)\n";
    assert_eq!(
        command_markers(Some(Agent::Claude), screen, transcript(screen)),
        vec![
            "⏺ Bash(npm test)".to_string(),
            "⏺ Bash(npm build)".to_string(),
            "⏺ Bash(npm lint)".to_string(),
        ]
    );
}

#[test]
fn a_bullet_typed_unsent_in_the_composer_is_not_a_command_that_ran() {
    let screen = "⏺ Bash(npm test)\n\
────────────────────\n\
❯ Bash(rm -rf /)\n\
────────────────────\n";
    assert_eq!(
        command_markers(Some(Agent::Claude), screen, transcript(screen)),
        vec!["⏺ Bash(npm test)".to_string()]
    );
}

#[test]
fn the_current_black_circle_bullet_is_found() {
    let screen = "\u{25CF} Bash(pwd)\n  \u{23BF} \u{a0}/tmp\n";
    assert_eq!(
        command_markers(Some(Agent::Claude), screen, transcript(screen)),
        vec!["\u{25CF} Bash(pwd)".to_string()]
    );
}

#[test]
fn the_collapsed_views_dollar_echo_is_a_command() {
    let screen =
        "\u{25CF} Sleeping 20s in Python then printing ok\n  \u{23BF}  $ python3 -c \"pass\"\n";
    assert_eq!(
        command_markers(Some(Agent::Claude), screen, transcript(screen)),
        vec!["  \u{23BF}  $ python3 -c \"pass\"".to_string()]
    );
}

#[test]
fn a_non_command_result_line_is_not_a_command() {
    let screen =
        "\u{25CF} Read(src/main.rs)\n  \u{23BF} \u{a0}total 4\n  \u{23BF} \u{a0}/tmp/x\n";
    assert!(command_markers(Some(Agent::Claude), screen, transcript(screen)).is_empty());
}

#[test]
fn bash_command_text_extracts_the_collapsed_echo() {
    assert_eq!(
        bash_command_text("  \u{23BF}  $ cargo nextest run"),
        "cargo nextest run"
    );
}

#[test]
fn bash_command_text_extracts_the_current_bullet_form() {
    assert_eq!(bash_command_text("\u{25CF} Bash(npm test)"), "npm test");
}

#[test]
fn bash_command_text_extracts_the_command() {
    assert_eq!(bash_command_text("⏺ Bash(npm test)"), "npm test");
}

#[test]
fn bash_command_text_keeps_inner_parens() {
    assert_eq!(bash_command_text("⏺ Bash(echo $(date))"), "echo $(date)");
}

#[test]
fn bash_command_text_falls_back_to_the_whole_line_when_unshaped() {
    assert_eq!(bash_command_text("not a bash bullet"), "not a bash bullet");
}

#[test]
fn the_first_scan_seeds_without_reporting_anything_new() {
    let mut acknowledged = None;
    let fresh = diff_new_markers(vec!["⏺ Bash(npm test)".to_string()], &mut acknowledged);
    assert!(
        fresh.is_empty(),
        "the transcript a scan first sees is history, not an event"
    );
    assert!(acknowledged.is_some());
}

#[test]
fn a_later_scan_reports_only_the_genuinely_new_lines() {
    let mut acknowledged = None;
    diff_new_markers(vec!["⏺ Bash(npm test)".to_string()], &mut acknowledged);
    let fresh = diff_new_markers(
        vec![
            "⏺ Bash(npm test)".to_string(),
            "⏺ Bash(npm build)".to_string(),
        ],
        &mut acknowledged,
    );
    assert_eq!(fresh, vec!["⏺ Bash(npm build)".to_string()]);
}

#[test]
fn a_burst_reports_every_new_line_independently() {
    let mut acknowledged = None;
    diff_new_markers(Vec::new(), &mut acknowledged);
    let fresh = diff_new_markers(
        vec![
            "⏺ Bash(npm test)".to_string(),
            "⏺ Bash(npm build)".to_string(),
            "⏺ Bash(npm lint)".to_string(),
        ],
        &mut acknowledged,
    );
    assert_eq!(
        fresh,
        vec![
            "⏺ Bash(npm test)".to_string(),
            "⏺ Bash(npm build)".to_string(),
            "⏺ Bash(npm lint)".to_string(),
        ]
    );
}

#[test]
fn a_line_that_scrolled_away_reports_new_again_if_it_reappears() {
    let mut acknowledged = None;
    diff_new_markers(vec!["⏺ Bash(npm test)".to_string()], &mut acknowledged);
    diff_new_markers(Vec::new(), &mut acknowledged);
    let fresh = diff_new_markers(vec!["⏺ Bash(npm test)".to_string()], &mut acknowledged);
    assert_eq!(
        fresh,
        vec!["⏺ Bash(npm test)".to_string()],
        "a known, accepted limit of identifying a command by its own text"
    );
}

#[test]
fn only_the_named_lines_are_scanned() {
    let screen = "\u{25CF} Bash(a)\n\u{25CF} Bash(b)\n\u{25CF} Bash(c)\n";
    assert_eq!(
        command_markers(Some(Agent::Claude), screen, Some((1, 2))),
        vec!["\u{25CF} Bash(b)".to_string()]
    );
    assert!(command_markers(Some(Agent::Claude), screen, Some((3, 9))).is_empty());
    assert_eq!(command_markers(Some(Agent::Claude), screen, None).len(), 3);
}

#[test]
fn a_marker_loses_the_white_space_behind_it() {
    assert_eq!(
        command_markers(Some(Agent::Claude), "\u{25CF} Bash(a)  \r\n", None),
        vec!["\u{25CF} Bash(a)".to_string()]
    );
}

#[test]
fn both_marker_shapes_are_exact() {
    assert!(is_command_marker("\u{23FA} Bash(ls)"));
    assert!(is_command_marker("  \u{25CF}\u{3000}Bash()"));
    assert!(!is_command_marker("\u{25CF}Bash(ls)"));
    assert!(!is_command_marker("x \u{25CF} Bash(ls)"));
    assert!(is_command_marker("\u{23BF} $ x"));
    assert!(!is_command_marker("\u{23BF} $ "));
    assert!(!is_command_marker("\u{23BF}$ x"));
    assert!(!is_command_marker("\u{23BF} $x"));
}

#[test]
fn a_repeated_line_in_one_scan_is_reported_once() {
    let mut acknowledged = None;
    diff_new_markers(Vec::new(), &mut acknowledged);
    let fresh = diff_new_markers(
        vec!["a".to_string(), "a".to_string(), "b".to_string()],
        &mut acknowledged,
    );
    assert_eq!(fresh, vec!["a".to_string(), "b".to_string()]);
    let again = diff_new_markers(vec!["b".to_string(), "a".to_string()], &mut acknowledged);
    assert!(again.is_empty());
}

#[test]
fn a_result_that_starts_with_a_dollar_is_no_command() {
    assert!(is_command_marker("  \u{23BF}  $ npm test"));
    assert!(!is_command_marker("  \u{23BF} \u{a0}$ npm test"));
    assert!(!is_command_marker("  \u{23BF}  \u{a0}$ npm test"));
    let screen = "  \u{23BF} \u{a0}$ npm test\n";
    assert!(command_markers(Some(Agent::Claude), screen, None).is_empty());
}

#[test]
fn an_echo_is_read_as_an_echo_whatever_it_holds() {
    assert_eq!(bash_command_text("  \u{23BF}  $ echo Bash(x)"), "echo Bash(x)");
    assert_eq!(bash_command_text("\u{25CF} Bash(echo $ x)"), "echo $ x");
    assert_eq!(bash_command_text("  plain "), "plain");
}
