use herdr::detect::success_marker::{
    apply_sgr, diff_new_success_markers, indexed_rgb, leading_circle_is_green, rgb_is_green,
    success_markers, Foreground,
};
use herdr::detect::Agent;

/// The lines above the box that a prompt is typed in.
fn transcript(screen: &str) -> Option<(usize, usize)> {
    let end = screen.lines().position(|line| line.starts_with('\u{2500}'))?;
    Some((0, end))
}

#[test]
fn claude_green_success_circle_is_a_win() {
    let screen = "● Completed the requested edit\n";
    let ansi = "\x1b[38;2;86;180;112m●\x1b[0m Completed the requested edit\n";

    assert_eq!(
        success_markers(Some(Agent::Claude), screen, ansi, transcript(screen)),
        vec!["● Completed the requested edit".to_string()]
    );
}

#[test]
fn colour_and_agent_identity_are_required() {
    let screen = "● Finished\n";
    let blue = "\x1b[38;2;51;153;255m●\x1b[0m Finished\n";
    let white = "\x1b[97m●\x1b[0m Finished\n";
    let green_tool_ring = "\x1b[32m⏺\x1b[0m Bash(just test)\n";

    assert!(success_markers(Some(Agent::Claude), screen, blue, transcript(screen)).is_empty());
    assert!(success_markers(Some(Agent::Claude), screen, white, transcript(screen)).is_empty());
    assert!(
        success_markers(Some(Agent::Claude), "⏺ Bash(just test)\n", green_tool_ring, transcript("⏺ Bash(just test)\n")).is_empty()
    );
    assert!(
        success_markers(Some(Agent::Codex), screen, "\x1b[32m●\x1b[0m Finished\n", transcript(screen)).is_empty()
    );
}

#[test]
fn a_green_circle_typed_in_the_composer_is_not_a_win() {
    let screen = "● Finished the real ask\n\
────────────────────\n\
❯ ● Please discuss green circles\n\
────────────────────\n";
    let ansi = "\x1b[32m●\x1b[0m Finished the real ask\n\
────────────────────\n\
❯ \x1b[32m●\x1b[0m Please discuss green circles\n\
────────────────────\n";

    assert_eq!(
        success_markers(Some(Agent::Claude), screen, ansi, transcript(screen)),
        vec!["● Finished the real ask".to_string()]
    );
}

#[test]
fn named_and_indexed_ansi_greens_are_supported() {
    let screen = "● first\n● second\n● third\n";
    let ansi = "\x1b[92m●\x1b[0m first\n\x1b[38;5;34m●\x1b[0m second\n\x1b[38:2::86:180:112m●\x1b[0m third\n";
    assert_eq!(success_markers(Some(Agent::Claude), screen, ansi, transcript(screen)).len(), 3);
}

#[test]
fn colour_state_can_span_lines() {
    let screen = "● first\n● second\n● white\n";
    let ansi = "\x1b[32m● first\n● second\n\x1b[0m● white\n";
    assert_eq!(success_markers(Some(Agent::Claude), screen, ansi, transcript(screen)).len(), 2);
}

#[test]
fn identical_visible_successes_are_counted_as_separate_wins() {
    let mut acknowledged = None;
    assert_eq!(
        diff_new_success_markers(vec!["● Done".to_string()], &mut acknowledged),
        0
    );
    assert_eq!(
        diff_new_success_markers(
            vec!["● Done".to_string(), "● Done".to_string()],
            &mut acknowledged,
        ),
        1
    );
    assert_eq!(
        diff_new_success_markers(
            vec!["● Done".to_string(), "● Done".to_string()],
            &mut acknowledged,
        ),
        0
    );
}

fn sgr(params: &str, foreground: Foreground) -> Foreground {
    let chars: Vec<char> = params.chars().collect();
    apply_sgr(&chars, foreground)
}

#[test]
fn colours_of_the_palette_have_exact_values() {
    assert_eq!(indexed_rgb(0), (0, 0, 0));
    assert_eq!(indexed_rgb(7), (192, 192, 192));
    assert_eq!(indexed_rgb(8), (128, 128, 128));
    assert_eq!(indexed_rgb(10), (0, 255, 0));
    assert_eq!(indexed_rgb(16), (0, 0, 0));
    assert_eq!(indexed_rgb(34), (0, 175, 0));
    assert_eq!(indexed_rgb(231), (255, 255, 255));
    assert_eq!(indexed_rgb(232), (8, 8, 8));
    assert_eq!(indexed_rgb(255), (238, 238, 238));
}

#[test]
fn green_needs_to_stand_out() {
    assert!(rgb_is_green(72, 96, 88));
    assert!(!rgb_is_green(73, 96, 88));
    assert!(!rgb_is_green(72, 96, 89));
    assert!(!rgb_is_green(0, 95, 0));
    assert!(rgb_is_green(231, 255, 247));
    assert!(!rgb_is_green(232, 255, 0));
    assert!(!rgb_is_green(0, 255, 248));
    assert!(!rgb_is_green(240, 255, 0));
    assert!(!rgb_is_green(255, 254, 0));
}

#[test]
fn a_later_colour_replaces_an_earlier_one() {
    let green = sgr("32", Foreground::Plain);
    assert_ne!(green, Foreground::Plain);
    assert_eq!(sgr("", green), Foreground::Plain);
    assert_eq!(sgr("0", green), Foreground::Plain);
    assert_eq!(sgr("39", green), Foreground::Plain);
    assert_eq!(sgr("31;32", Foreground::Plain), green);
    assert_eq!(sgr("1", green), green);
}

#[test]
fn the_first_visible_character_decides() {
    let line: Vec<char> = "\x1b[32m  \u{25CF} done".chars().collect();
    let mut foreground = Foreground::Plain;
    assert!(leading_circle_is_green(&line, &mut foreground));
    let line: Vec<char> = "x \u{25CF} done\x1b[0m".chars().collect();
    assert!(!leading_circle_is_green(&line, &mut foreground));
    assert_eq!(foreground, Foreground::Plain);
}

#[test]
fn successes_that_scroll_away_do_not_count_against_new_ones() {
    let mut acknowledged = None;
    diff_new_success_markers(vec!["a".to_string(), "b".to_string()], &mut acknowledged);
    assert_eq!(
        diff_new_success_markers(vec!["c".to_string()], &mut acknowledged),
        1
    );
    assert_eq!(
        diff_new_success_markers(vec!["a".to_string(), "c".to_string()], &mut acknowledged),
        1
    );
}

#[test]
fn white_and_yellow_are_not_green() {
    for (r, g, b) in [(255, 255, 255), (255, 255, 0), (238, 238, 238), (0, 255, 255)] {
        assert!(!rgb_is_green(r, g, b));
    }
    let screen = "● Done\n";
    for ansi in [
        "\x1b[38;2;255;255;255m● Done\x1b[0m\n",
        "\x1b[38;5;231m● Done\x1b[0m\n",
        "\x1b[38;2;255;255;0m● Done\x1b[0m\n",
    ] {
        assert!(success_markers(Some(Agent::Claude), screen, ansi, None).is_empty(), "{ansi:?}");
    }
}

#[test]
fn the_background_does_not_colour_the_text() {
    let screen = "● Done\n";
    for ansi in [
        "\x1b[48;5;32m● Done\x1b[0m\n",
        "\x1b[48;2;0;32;0m● Done\x1b[0m\n",
        "\x1b[58;5;92m● Done\x1b[0m\n",
        "\x1b[58;2;1;2;32m● Done\x1b[0m\n",
        "\x1b[42m● Done\x1b[0m\n",
    ] {
        assert!(success_markers(Some(Agent::Claude), screen, ansi, None).is_empty(), "{ansi:?}");
    }
    for ansi in [
        "\x1b[48;5;31;32m● Done\x1b[0m\n",
        "\x1b[32;48;2;31;31;31m● Done\x1b[0m\n",
    ] {
        assert_eq!(success_markers(Some(Agent::Claude), screen, ansi, None).len(), 1, "{ansi:?}");
    }
}
