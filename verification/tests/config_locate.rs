use herdr::config::locate::{
    candidate_paths, locate_diagnostics, location_at, split_path, ConfigLocation, ConfigSource,
    LocatedDiagnostic, PathPart,
};

const SAMPLE: &str = r#"onboarding = true

[ui]
sidebar_min_width = 90
sidebar_max_width = 40

[theme]
custom = "nope"

[[keys.command]]
key = "ctrl+q"
command = ""
"#;

fn locate(message: &str) -> Option<ConfigLocation> {
    let source = ConfigSource::parse(SAMPLE).expect("sample parses");
    source.locate_message(message)
}

#[test]
fn locates_unknown_nested_key() {
    assert_eq!(
        locate("unknown config key theme.custom; ignoring key"),
        Some(ConfigLocation { line: 8, column: 1 })
    );
}

#[test]
fn locates_unknown_top_level_section_header() {
    assert_eq!(
        locate("unknown config section [theme]; ignoring section")
            .map(|location| location.line),
        Some(7)
    );
    assert_eq!(
        locate("unknown config key theme; ignoring key").map(|location| location.line),
        Some(7)
    );
}

#[test]
fn locates_dotted_index_segments() {
    assert_eq!(
        locate("unknown config key keys.command.0.descrption; ignoring key")
            .map(|location| location.line),
        Some(10)
    );
}

#[test]
fn locates_value_diagnostic_mentioning_a_field_path() {
    assert_eq!(
        locate("ui.sidebar_min_width (90) is greater than sidebar_max_width (40)")
            .map(|location| location.line),
        Some(4)
    );
}

#[test]
fn locates_indexed_keybinding_field() {
    assert_eq!(
        locate("empty custom command: keys.command[0].command; disabling custom command")
            .map(|location| location.line),
        Some(12)
    );
}

#[test]
fn falls_back_to_the_longest_resolvable_prefix() {
    assert_eq!(
        locate("invalid keybinding: keys.command[0].missing = \"x\"; disabling binding")
            .map(|location| location.line),
        Some(10)
    );
}

#[test]
fn leaves_unrelated_diagnostics_unlocated() {
    assert_eq!(locate("config read error: boom; using defaults"), None);
}

#[test]
fn renders_without_a_location_when_unresolved() {
    let diagnostic = LocatedDiagnostic {
        message: "config read error: boom".to_string(),
        location: None,
    };
    assert_eq!(diagnostic.render("config.toml"), "config read error: boom");
}

#[test]
fn tolerates_unparsable_sources() {
    let located = locate_diagnostics("[ui", vec!["unknown config key ui.x".to_string()]);
    assert_eq!(located.len(), 1);
    assert!(located[0].location.is_none());
}

#[test]
fn a_place_is_counted_in_lines_and_characters() {
    let text = "a\n\u{e9}b\r\nc".as_bytes();
    assert_eq!(location_at(text, 0), ConfigLocation { line: 1, column: 1 });
    assert_eq!(location_at(text, 2), ConfigLocation { line: 2, column: 1 });
    assert_eq!(location_at(text, 4).line, 2);
    assert_eq!(location_at(text, 7), ConfigLocation { line: 3, column: 1 });
}

#[test]
fn a_located_diagnostic_names_its_place() {
    let located = locate_diagnostics(
        SAMPLE,
        vec!["unknown config key theme.custom; ignoring key".to_string()],
    );
    assert_eq!(located.len(), 1);
    assert_eq!(located[0].location, Some(ConfigLocation { line: 8, column: 1 }));
    let rendered = located[0].render("config.toml");
    assert!(rendered.contains("config.toml:8:1"), "{rendered}");
    assert!(rendered.contains("theme.custom"), "{rendered}");
}

#[test]
fn a_path_is_looked_for_in_a_message() {
    assert!(candidate_paths("unknown config key ui.x; ignoring key").contains(&"ui.x".to_string()));
    assert!(candidate_paths("nothing here").is_empty());
}

#[test]
fn a_path_is_split_at_its_indices() {
    let parts = split_path("keys.command[0].command").expect("a path");
    assert_eq!(parts.len(), 3);
    assert!(matches!(&parts[0], PathPart::Keys(keys) if keys == "keys.command"));
    assert!(matches!(&parts[1], PathPart::Index(0)));
    assert!(matches!(&parts[2], PathPart::Keys(keys) if keys == "command"));
    assert!(split_path("keys[x]").is_none());
}
