use herdr::config::animation::{
    SidebarAnimationConfig, SidebarNotificationsConfig, Stage, MAX_ROW_ENTER_MS, MIN_ROW_ENTER_MS,
};
use herdr::config::layouts::Rows;
use herdr::config::rows::{
    AgentSidebarToken, SidebarToken, SpaceSidebarToken, MAX_SIDEBAR_ROWS,
    MAX_SIDEBAR_TOKENS_PER_ROW,
};
use herdr::config::sidebar::{AgentsSidebarConfig, SidebarConfig, SpacesSidebarConfig};
use herdr::config::tokens::{
    Behaviour, SidebarTokenColor, SidebarTokenEmphasis, SidebarTokenStyle,
};
use herdr::config::value::ConfigValue;
use herdr::config::view::{AgentsViewConfig, RawView, ViewPart};

type Config = SidebarConfig<String, String>;

fn value_of(value: toml::Value) -> ConfigValue {
    match value {
        toml::Value::String(text) => ConfigValue::Text(text),
        toml::Value::Integer(n) => ConfigValue::Integer(n),
        toml::Value::Boolean(flag) => ConfigValue::Boolean(flag),
        toml::Value::Array(items) => ConfigValue::List(items.into_iter().map(value_of).collect()),
        toml::Value::Table(table) => ConfigValue::Table(
            table
                .into_iter()
                .map(|(key, value)| (key, value_of(value)))
                .collect(),
        ),
        _ => ConfigValue::Other,
    }
}

fn toml_of(value: &ConfigValue) -> toml::Value {
    match value {
        ConfigValue::Text(text) => toml::Value::String(text.to_string()),
        ConfigValue::Integer(n) => toml::Value::Integer(*n),
        ConfigValue::Boolean(flag) => toml::Value::Boolean(*flag),
        ConfigValue::List(items) => toml::Value::Array(items.iter().map(toml_of).collect()),
        ConfigValue::Table(entries) => {
            let mut table = toml::map::Map::new();
            for (key, value) in entries {
                table.insert(key.to_string(), toml_of(value));
            }
            toml::Value::Table(table)
        }
        ConfigValue::Other => panic!("nothing writes such a value"),
    }
}

fn parsed(text: &str) -> ConfigValue {
    value_of(toml::from_str(text).expect("a TOML document"))
}

fn written(value: ConfigValue) -> String {
    toml::to_string(&toml_of(&value)).expect("serialize")
}

fn canonical() -> Vec<String> {
    [
        "pi",
        "codex",
        "gemini",
        "cursor",
        "devin",
        "antigravity",
        "cline",
        "omp",
        "mastracode",
        "opencode",
        "copilot",
        "kimi",
        "kiro",
        "droid",
        "amp",
        "grok",
        "hermes",
        "kilo",
        "qodercli",
        "maki",
    ]
    .iter()
    .map(|id| id.to_string())
    .collect()
}

fn entry(value: ConfigValue, key: &str) -> ConfigValue {
    match value {
        ConfigValue::Table(entries) => entries
            .into_iter()
            .find(|(name, _)| name == key)
            .map(|(_, value)| value)
            .unwrap_or(ConfigValue::Table(Vec::new())),
        _ => ConfigValue::Other,
    }
}

fn config_from(text: &str) -> Result<Config, String> {
    let document: toml::Value = toml::from_str(text).map_err(|error| error.to_string())?;
    let sidebar = entry(entry(value_of(document), "ui"), "sidebar");
    Config::read(&sidebar, &canonical(), AgentsViewConfig::default())
}

fn defaults() -> Config {
    Config::with_view(AgentsViewConfig::default())
}

fn override_of<'a>(
    agents: &'a AgentsSidebarConfig<String, String>,
    id: &str,
) -> &'a Rows<AgentSidebarToken> {
    &agents
        .rows_by_agent
        .iter()
        .find(|(name, _)| name == id)
        .expect("an override")
        .1
}

#[test]
fn a_row_exit_parses_and_is_clamped_like_an_arrival() {
    let config = config_from(
        r#"
[ui.sidebar.animation]
row_enter = "wipe"
row_exit = "wipe"
row_exit_ms = 5
"#,
    )
    .expect("row exit config");

    let animation = config.animation;
    assert_eq!(animation.row_exit, SidebarTokenEmphasis::Wipe);
    let exit = animation
        .row_exit_stage(animation.rows_move())
        .expect("a named exit is a stage");
    assert_eq!(
        exit.duration_ms,
        (MIN_ROW_ENTER_MS),
        "an exit too short to resolve a frame is clamped, same as an arrival"
    );
    assert_eq!(
        exit.behaviour,
        animation
            .row_enter_stage(animation.rows_move())
            .expect("a named arrival is a stage")
            .behaviour
    );
}

#[test]
fn rows_neither_arrive_nor_leave_unless_asked_to() {
    let animation = SidebarAnimationConfig::default();
    assert!(animation.row_enter_stage(animation.rows_move()).is_none());
    assert!(
        animation.row_exit_stage(animation.rows_move()).is_none(),
        "an unconfigured Herdr must drop a closed pane's row on the next frame"
    );
    assert!(!animation.rows_move(), "motion must not arrive switched on");
}

#[test]
fn motion_composes_with_a_cell_effect_rather_than_replacing_it() {
    let config = config_from(
        r#"
[ui.sidebar.animation]
row_enter = "dissolve"
row_enter_ms = 260
row_exit = "dissolve"
row_exit_ms = 220
row_motion = "slide"
"#,
    )
    .expect("row motion config");

    let animation = config.animation;
    assert!(animation.rows_move());
    let enter = animation
        .row_enter_stage(animation.rows_move())
        .expect("an arrival");
    assert_eq!(enter.behaviour, Behaviour::Dissolve);
    assert_eq!(enter.duration_ms, (260));
    assert_eq!(
        animation
            .row_exit_stage(animation.rows_move())
            .expect("a departure")
            .duration_ms,
        (220)
    );
}

#[test]
fn motion_alone_still_gives_a_row_an_arrival_and_a_departure() {
    let config = config_from(
        r#"
[ui.sidebar.animation]
row_motion = "slide"
"#,
    )
    .expect("row motion config");

    let animation = config.animation;
    assert_eq!(animation.row_enter, SidebarTokenEmphasis::Calm);
    let enter = animation
        .row_enter_stage(animation.rows_move())
        .expect("motion needs a phase");
    assert_eq!(
        enter.behaviour,
        Behaviour::Still,
        "a row asked only to move must not also be given a cell effect"
    );
    assert_eq!(
        animation
            .row_exit_stage(animation.rows_move())
            .expect("a departure")
            .behaviour,
        Behaviour::Still
    );
}

#[test]
fn the_signal_bar_is_off_until_it_is_asked_for() {
    let config = defaults();
    assert!(!config.notifications.enabled);
    assert!(!config.notifications.animates());
}

#[test]
fn a_signal_arrival_is_clamped_the_same_way_a_row_arrival_is() {
    let long = SidebarNotificationsConfig {
        enabled: true,
        enter_ms: 60_000,
        ..Default::default()
    };
    assert_eq!(
        long.enter_stage().map(|stage| stage.duration_ms),
        Some((MAX_ROW_ENTER_MS))
    );

    let short = SidebarNotificationsConfig {
        enabled: true,
        enter_ms: 1,
        ..Default::default()
    };
    assert_eq!(
        short.enter_stage().map(|stage| stage.duration_ms),
        Some((MIN_ROW_ENTER_MS))
    );
}

#[test]
fn defaults_match_the_compact_agent_and_existing_space_layouts() {
    let config = defaults();
    assert_eq!(
        config.agents.rows,
        vec![
            vec![
                AgentSidebarToken::StateIcon,
                AgentSidebarToken::Workspace,
                AgentSidebarToken::Tab,
            ],
            vec![AgentSidebarToken::Agent],
        ]
    );
    assert!(config.agents.rows_by_agent.is_empty());
    assert_eq!(config.agents.row_gap, 0);
    assert_eq!(
        config.spaces.rows,
        vec![
            vec![SpaceSidebarToken::StateIcon, SpaceSidebarToken::Workspace],
            vec![SpaceSidebarToken::Branch, SpaceSidebarToken::GitStatus],
        ]
    );
    assert_eq!(config.spaces.row_gap, 0);
}

#[test]
fn space_rows_parse_terminal_title_builtins_distinctly_from_custom_tokens() {
    let config = config_from(
        r#"
[ui.sidebar.spaces]
rows = [["workspace"], ["terminal_title", "terminal_title_stripped", "$terminal_title"]]
"#,
    )
    .expect("space terminal title config");

    assert_eq!(
        config.spaces.rows[1],
        vec![
            SpaceSidebarToken::TerminalTitle,
            SpaceSidebarToken::TerminalTitleStripped,
            SpaceSidebarToken::Custom("terminal_title".into()),
        ]
    );
    assert!(config.spaces.uses_terminal_title());
    assert!(!config.agents.uses_terminal_title());
}

#[test]
fn default_space_and_agent_layouts_do_not_use_terminal_titles() {
    let config = defaults();

    assert!(!config.spaces.uses_terminal_title());
    assert!(!config.agents.uses_terminal_title());
}

#[test]
fn parses_occurrence_styles_without_changing_plain_tokens() {
    let config = config_from(
        r##"
[ui.sidebar.agents]
rows = [[{ token = "workspace", fg = "#abc", bold = false }, "workspace"], [{ token = "$summary", dim = false }]]

[ui.sidebar.agents.rows_by_agent]
codex = [[{ token = "agent", fg = "#112233", bold = true, dim = false }]]

[ui.sidebar.spaces]
rows = [[{ token = "git_status", fg = "#ff00aa" }], [{ token = "$jj", bold = true }]]
"##,
    )
    .unwrap();

    let (token, style) = config.agents.rows[0][0].parts();
    assert_eq!(token, &AgentSidebarToken::Workspace);
    assert_eq!(style.bold, Some(false));
    assert_eq!(
        style.fg.unwrap().rgb(),
        (0xaa, 0xbb, 0xcc)
    );
    assert_eq!(
        config.agents.rows[0][1],
        AgentSidebarToken::Workspace
    );

    let (token, style) = override_of(&config.agents, "codex")[0][0].parts();
    assert_eq!(token, &AgentSidebarToken::Agent);
    assert_eq!(style.bold, Some(true));
    assert_eq!(style.dim, Some(false));

    let (token, style) = config.spaces.rows[0][0].parts();
    assert_eq!(token, &SpaceSidebarToken::GitStatus);
    assert_eq!(
        style.fg.unwrap().rgb(),
        (0xff, 0x00, 0xaa)
    );
    let (token, style) = config.spaces.rows[1][0].parts();
    assert_eq!(token, &SpaceSidebarToken::Custom("jj".into()));
    assert_eq!(style.bold, Some(true));
}

#[test]
fn rejects_invalid_occurrence_styles() {
    for entry in [
        r##"{ token = "workspace", fg = "red" }"##,
        r##"{ token = "workspace", fg = "#abcd" }"##,
        r##"{ token = "workspace", bg = "rebeccapurple" }"##,
        r##"{ token = "workspace", bg = "#12345" }"##,
        r##"{ token = "workspace", italic = "yes" }"##,
        r##"{ token = "workspace", underline = 1 }"##,
        r##"{ token = "workspace", reverse = "on" }"##,
        r##"{ token = "workspace", emphasis = "flash" }"##,
        r##"{ token = "workspace", emphasis = true }"##,
        r##"{ token = "workspace", blink = true }"##,
    ] {
        let input = format!("[ui.sidebar.agents]\nrows = [[{entry}]]\n");
        assert!(
            config_from(&input).is_err(),
            "accepted {entry}"
        );
    }
}

#[test]
fn parses_every_static_attribute_and_pulse_emphasis() {
    let config = config_from(
        r##"
[ui.sidebar.agents]
rows = [[{ token = "$dot", fg = "#a6e3a1", bg = "#181825", bold = true, dim = false, italic = true, underline = true, reverse = true, emphasis = "pulse" }]]

[ui.sidebar.spaces]
rows = [[{ token = "workspace", emphasis = "none" }]]
"##,
    )
    .expect("full style table");

    let (token, style) = config.agents.rows[0][0].parts();
    assert_eq!(token, &AgentSidebarToken::Custom("dot".into()));
    assert_eq!(
        style.fg.expect("fg").rgb(),
        (0xa6, 0xe3, 0xa1)
    );
    assert_eq!(
        style.bg.expect("bg").rgb(),
        (0x18, 0x18, 0x25)
    );
    assert_eq!(style.bold, Some(true));
    assert_eq!(style.dim, Some(false));
    assert_eq!(style.italic, Some(true));
    assert_eq!(style.underline, Some(true));
    assert_eq!(style.reverse, Some(true));
    assert_eq!(style.emphasis, Some(SidebarTokenEmphasis::Pulse));
    assert!(style.animates());

    let (_, calm) = config.spaces.rows[0][0].parts();
    assert_eq!(calm.emphasis, Some(SidebarTokenEmphasis::Calm));
    assert!(!calm.animates());
}

#[test]
fn invalid_style_fields_report_the_offending_value() {
    let color_error = config_from(
        "[ui.sidebar.agents]\nrows = [[{ token = \"workspace\", bg = \"red\" }]]\n",
    )
    .expect_err("invalid bg")
    .clone();
    assert!(
        color_error.contains("#RGB or #RRGGBB") && color_error.contains("red"),
        "unhelpful color error: {color_error}"
    );

    let emphasis_error = config_from(
        "[ui.sidebar.agents]\nrows = [[{ token = \"workspace\", emphasis = \"flash\" }]]\n",
    )
    .expect_err("invalid emphasis")
    .to_string();
    assert!(
        emphasis_error.contains("flash")
            && emphasis_error.contains("pulse")
            && emphasis_error.contains("none"),
        "unhelpful emphasis error: {emphasis_error}"
    );

    let unknown_error = config_from(
        "[ui.sidebar.agents]\nrows = [[{ token = \"workspace\", blink = true }]]\n",
    )
    .expect_err("unknown field")
    .to_string();
    assert!(
        unknown_error.contains("blink"),
        "unhelpful unknown-field error: {unknown_error}"
    );
}

#[test]
fn only_pulse_emphasis_arms_the_animation_clock() {
    let calm = config_from(
        r##"
[ui.sidebar.agents]
rows = [[{ token = "workspace", fg = "#abc", bold = true, italic = true, underline = true, reverse = true }], ["agent"]]

[ui.sidebar.spaces]
rows = [[{ token = "branch", emphasis = "none" }]]
"##,
    )
    .expect("calm config");
    assert!(!calm.agents.has_animated_tokens());
    assert!(!calm.spaces.has_animated_tokens());

    let default = defaults();
    assert!(!default.agents.has_animated_tokens());
    assert!(!default.spaces.has_animated_tokens());

    let spaces_pulse = config_from(
        "[ui.sidebar.spaces]\nrows = [[{ token = \"branch\", emphasis = \"pulse\" }]]\n",
    )
    .expect("space pulse");
    assert!(spaces_pulse.spaces.has_animated_tokens());
    assert!(!spaces_pulse.agents.has_animated_tokens());

    let override_pulse = config_from(
        "[ui.sidebar.agents.rows_by_agent]\ncodex = [[{ token = \"agent\", emphasis = \"pulse\" }]]\n",
    )
    .expect("override pulse");
    assert!(override_pulse.agents.has_animated_tokens());
}

#[test]
fn rejects_oversized_sidebar_layouts() {
    let too_many_rows = std::iter::repeat_n("[\"agent\"]", MAX_SIDEBAR_ROWS + 1)
        .collect::<Vec<_>>()
        .join(",");
    let input = format!("[ui.sidebar.agents]\nrows = [{too_many_rows}]\n");
    assert!(config_from(&input).is_err());

    let too_many_tokens = std::iter::repeat_n("\"workspace\"", MAX_SIDEBAR_TOKENS_PER_ROW + 1)
        .collect::<Vec<_>>()
        .join(",");
    let input = format!("[ui.sidebar.spaces]\nrows = [[{too_many_tokens}]]\n");
    assert!(config_from(&input).is_err());

    let input = format!("[ui.sidebar.agents.rows_by_agent]\ncodex = [{too_many_rows}]\n");
    assert!(config_from(&input).is_err());
}

#[test]
fn parses_builtin_and_arbitrary_custom_tokens() {
    let config = config_from(
        r#"
[ui.sidebar.agents]
rows = [["state_icon", "workspace"], ["state_text", "agent", "$summary"], ["terminal_title", "terminal_title_stripped", "$terminal_title"]]
row_gap = 1

[ui.sidebar.agents.rows_by_agent]
codex = [["terminal_title_stripped"], ["agent", "$model"]]

[ui.sidebar.spaces]
rows = [["workspace"], ["$jj_status"]]
row_gap = 3
"#,
    )
    .expect("sidebar token config");

    assert_eq!(
        config.agents.rows[1],
        vec![
            AgentSidebarToken::StateText,
            AgentSidebarToken::Agent,
            AgentSidebarToken::Custom("summary".into()),
        ]
    );
    assert_eq!(
        config.agents.rows[2],
        vec![
            AgentSidebarToken::TerminalTitle,
            AgentSidebarToken::TerminalTitleStripped,
            AgentSidebarToken::Custom("terminal_title".into()),
        ]
    );
    assert_eq!(
        override_of(&config.agents, "codex"),
        &vec![
            vec![AgentSidebarToken::TerminalTitleStripped],
            vec![
                AgentSidebarToken::Agent,
                AgentSidebarToken::Custom("model".into()),
            ],
        ]
    );
    assert_eq!(config.agents.row_gap, 1);
    assert_eq!(
        config.spaces.rows[1],
        vec![SpaceSidebarToken::Custom("jj_status".into())]
    );
    assert_eq!(config.spaces.row_gap, 3);
}

#[test]
fn rejects_alias_case_whitespace_and_unknown_override_keys() {
    for key in ["codex-cli", "Codex", "' codex '", "unknown"] {
        let input = format!("[ui.sidebar.agents.rows_by_agent]\n{key} = [[\"agent\"]]\n");
        assert!(
            config_from(&input).is_err(),
            "accepted key {key:?}"
        );
    }
}

#[test]
fn rejects_unknown_bare_and_malformed_custom_tokens() {
    for token in ["summary", "$", "$bad.name"] {
        let input = format!("[ui.sidebar.agents]\nrows = [[\"{token}\"]]\n");
        assert!(config_from(&input).is_err());
    }
}

#[test]
fn a_configured_signal_bar_declares_its_own_life() {
    let config = config_from(
        r#"
[ui.sidebar.notifications]
enabled = true
emphasis = "shimmer"
enter = "wipe"
enter_ms = 900
"#,
    )
    .expect("signal bar config");
    let notifications = config.notifications;

    assert!(notifications.enabled);
    assert!(notifications.animates());
    let lifecycle = notifications.lifecycle();
    assert_eq!(
        lifecycle.mount,
        Some(Stage {
            behaviour: Behaviour::Wipe,
            duration_ms: 900
        })
    );
    assert_eq!(lifecycle.idle, vec![Behaviour::Shimmer]);
}

#[test]
fn a_still_signal_bar_asks_the_animation_clock_for_nothing() {
    let config = config_from(
        r#"
[ui.sidebar.notifications]
enabled = true
emphasis = "none"
enter = "none"
"#,
    )
    .expect("still signal bar config");
    let notifications = config.notifications;

    assert!(notifications.enabled);
    assert!(!notifications.animates());
    let lifecycle = notifications.lifecycle();
    assert_eq!(lifecycle.mount, None);
    assert!(lifecycle.idle.is_empty());
}

#[test]
fn state_age_parses_round_trips_and_arms_only_its_own_rows() {
    let config = config_from(
        r#"
[ui.sidebar.agents]
rows = [["state_text", "state_age"]]

[ui.sidebar.spaces]
rows = [["workspace"]]
"#,
    )
    .expect("state_age config");

    assert_eq!(
        config.agents.rows,
        vec![vec![
            AgentSidebarToken::StateText,
            AgentSidebarToken::StateAge
        ]]
    );
    assert!(config.agents.uses_state_age());
    assert!(!config.spaces.uses_state_age());
    assert!(!defaults().agents.uses_state_age());
    assert!(!defaults().spaces.uses_state_age());

    let styled = config_from(
        r##"
[ui.sidebar.spaces]
rows = [[{ token = "state_age", fg = "#89b4fa" }]]
"##,
    )
    .expect("styled state_age config");
    assert!(styled.spaces.uses_state_age());

    let round_trip = written(config.agents.write(ConfigValue::Table(Vec::new())));
    assert!(round_trip.contains("state_age"), "{round_trip}");
}

#[test]
fn terminal_title_space_tokens_round_trip_through_serialization() {
    let rows = || {
        vec![vec![
            SpaceSidebarToken::TerminalTitle,
            SpaceSidebarToken::Styled {
                token: Box::new(SpaceSidebarToken::TerminalTitleStripped),
                style: SidebarTokenStyle {
                    bold: Some(true),
                    ..Default::default()
                },
            },
        ]]
    };
    let config = SpacesSidebarConfig {
        rows: rows(),
        ..Default::default()
    };

    let encoded = written(config.write());
    let decoded = SpacesSidebarConfig::read(&parsed(&encoded)).expect("round trip");

    assert_eq!(decoded.rows, rows());
}

#[test]
fn styles_without_new_attributes_serialize_exactly_as_before() {
    let config = config_from(
        r##"
[ui.sidebar.agents]
rows = [["state_icon", { token = "workspace", fg = "#89b4fa", bold = true, dim = false }]]
"##,
    )
    .expect("legacy style config");

    let serialized = written(config.agents.write(ConfigValue::Table(Vec::new())));
    assert!(
        serialized.contains("fg = \"#89b4fa\"")
            && serialized.contains("bold = true")
            && serialized.contains("dim = false"),
        "legacy style lost an attribute: {serialized}"
    );
    for absent in ["bg", "italic", "underline", "reverse", "emphasis"] {
        assert!(
            !serialized.contains(absent),
            "{absent} leaked into a legacy style: {serialized}"
        );
    }

    let reparsed = AgentsSidebarConfig::<String, String>::read(
        &parsed(&serialized),
        &canonical(),
        AgentsViewConfig::default(),
    )
    .expect("roundtrip agents");
    assert_eq!(reparsed, config.agents);
}

#[test]
fn accepts_every_canonical_agent_override_key() {
    let agents = canonical();
    let entries = agents
        .iter()
        .map(|agent| format!("{agent} = [[\"agent\"]]"))
        .collect::<Vec<_>>()
        .join("\n");
    let input = format!("[ui.sidebar.agents.rows_by_agent]\n{entries}\n");
    let config = config_from(&input).expect("canonical keys");

    assert_eq!(config.agents.rows_by_agent.len(), agents.len());
    assert!(config
        .agents
        .rows_by_agent
        .windows(2)
        .all(|pair| pair[0].0 < pair[1].0));
}

#[test]
fn no_declared_view_leaves_the_panel_alone() {
    let config = AgentsSidebarConfig::<String, String>::with_view(AgentsViewConfig::default());
    assert_eq!(config.view, AgentsViewConfig::default());
    assert!(config.view.declared_view().is_none());
    assert!(config.view.diagnostics().is_none());
}

type View = AgentsViewConfig<String, String>;

fn raw(filter: ViewPart<String>, sort: ViewPart<Vec<String>>) -> RawView<String, String> {
    RawView {
        label: Some("mine".to_string()),
        filter,
        sort,
    }
}

#[test]
fn a_view_with_a_mistake_is_dropped_whole() {
    let wrong = |explained: Option<&str>| ViewPart::Wrong {
        explained: explained.map(str::to_string),
        error: "error".to_string(),
    };
    for (proposal, reason) in [
        (View::proposed(Err("filterr".to_string())), "filterr"),
        (
            View::proposed(Ok(raw(wrong(Some("`field`")), ViewPart::Missing))),
            "filter is not a valid agent view filter: `field`",
        ),
        (
            View::proposed(Ok(raw(
                ViewPart::Read("f".to_string()),
                ViewPart::Wrong {
                    explained: None,
                    error: "error".to_string(),
                },
            ))),
            "sort is not a valid agent view sort: error",
        ),
    ] {
        let view = proposal.expect_err(reason);
        assert_eq!(
            view.diagnostics(),
            Some(format!(
                "invalid [ui.sidebar.agents.view]: {reason}; ignoring the declared view and showing every agent"
            ))
        );
        assert!(view.declared_view().is_none());
    }
}

#[test]
fn a_view_that_selects_nothing_is_rejected() {
    let params = View::proposed(Ok(raw(ViewPart::Missing, ViewPart::Missing))).expect("a proposal");
    assert!(params.declares_anything());
    let view = View::checked(params.declares_anything(), Ok(params));
    assert!(view
        .diagnostics()
        .expect("a diagnostic")
        .contains("declares no filter and no sort"));

    let params = View::proposed(Ok(raw(
        ViewPart::Missing,
        ViewPart::Read(vec!["attention".to_string()]),
    )))
    .expect("a proposal");
    let view = View::checked(params.declares_anything(), Ok(params));
    assert!(view.diagnostics().is_none());
    let (label, filter, sort) = view.declared_view().expect("a view");
    assert_eq!(label.as_deref(), Some("mine"));
    assert!(filter.is_none());
    assert_eq!(sort.len(), 1);

    let view = View::checked(true, Err("unknown agent status `workin`".to_string()));
    assert!(view.declared_view().is_none());
    assert!(view.diagnostics().expect("a diagnostic").contains("workin"));
}

#[test]
fn a_rejected_view_leaves_the_rest_of_the_panel() {
    let value = parsed("row_gap = 1\n");
    let config = AgentsSidebarConfig::<String, String>::read(
        &value,
        &canonical(),
        AgentsViewConfig::rejected("nope"),
    )
    .expect("config load");
    assert_eq!(config.row_gap, 1);
    assert!(config.view.diagnostics().is_some());
}

#[test]
fn colours_are_written_as_they_are_read() {
    let color = SidebarTokenColor::parse("#aBc").expect("a short colour");
    assert_eq!(color.rgb(), (0xaa, 0xbb, 0xcc));
    assert_eq!(color.to_text(), "#aabbcc");
    assert_eq!(SidebarTokenColor::parse(&color.to_text()), Ok(color));
    for wrong in ["", "#", "#12", "#1234", "#12345", "#1234567", "abc", "#ggg", "#\u{e9}bc"] {
        assert!(SidebarTokenColor::parse(wrong).is_err(), "accepted {wrong:?}");
    }
}

#[test]
fn every_emphasis_has_its_name() {
    for emphasis in [
        SidebarTokenEmphasis::Calm,
        SidebarTokenEmphasis::Pulse,
        SidebarTokenEmphasis::Shimmer,
        SidebarTokenEmphasis::Wave,
        SidebarTokenEmphasis::Activity,
        SidebarTokenEmphasis::ActivityShimmer,
        SidebarTokenEmphasis::Fade,
        SidebarTokenEmphasis::Typewriter,
        SidebarTokenEmphasis::Wipe,
        SidebarTokenEmphasis::DropIn,
        SidebarTokenEmphasis::Dissolve,
        SidebarTokenEmphasis::Collapse,
    ] {
        assert_eq!(SidebarTokenEmphasis::named(emphasis.name()), Some(emphasis));
    }
    assert_eq!(SidebarTokenEmphasis::Calm.name(), "none");
    assert_eq!(SidebarTokenEmphasis::named("flash"), None);
}

#[test]
fn behaviours_are_declared_once_in_order() {
    let config = config_from(
        r#"
[ui.sidebar.agents]
rows = [[{ token = "agent", emphasis = "wave" }, { token = "tab", emphasis = "pulse" }, { token = "pane", emphasis = "wave" }]]

[ui.sidebar.agents.rows_by_agent]
codex = [[{ token = "agent", emphasis = "fade" }, { token = "tab", emphasis = "pulse" }]]
"#,
    )
    .expect("behaviours");
    assert_eq!(
        config.agents.animated_behaviours(),
        vec![Behaviour::Wave, Behaviour::Pulse, Behaviour::Fade]
    );
    assert!(config.spaces.animated_behaviours().is_empty());
}

#[test]
fn an_agent_without_rows_of_its_own_has_the_panels() {
    let config = config_from(
        "[ui.sidebar.agents.rows_by_agent]\ncodex = [[\"pane\"]]\n",
    )
    .expect("override");
    assert_eq!(
        config.agents.rows_for_agent(Some("codex")),
        &vec![vec![AgentSidebarToken::Pane]]
    );
    assert_eq!(config.agents.rows_for_agent(Some("pi")), &config.agents.rows);
    assert_eq!(config.agents.rows_for_agent(None), &config.agents.rows);
}

#[test]
fn view_switches_stay_in_bounds() {
    let config = config_from(
        r#"
[ui.sidebar.animation]
view_switch = "fade"
view_switch_ms = 99999
view_switch_particles_per_cell = 1000
"#,
    )
    .expect("view switch");
    assert_eq!(
        config.animation.view_switch_stage(),
        Some(Stage {
            behaviour: Behaviour::Fade,
            duration_ms: 1500
        })
    );
    assert_eq!(config.animation.view_switch_particles(), 256);
    assert!(config_from("[ui.sidebar.animation]\nrow_motion = \"hop\"\n").is_err());
    assert!(config_from("[ui.sidebar.animation]\nblink = true\n").is_err());
}

#[test]
fn the_tray_is_off_until_it_is_asked_for() {
    assert!(!defaults().signal_tray.enabled);
    assert!(defaults().signal_tray.actions);
    let config = config_from("[ui.sidebar.signal_tray]\nenabled = true\nactions = false\n")
        .expect("tray");
    assert!(config.signal_tray.enabled);
    assert!(!config.signal_tray.actions);
}

#[test]
fn layouts_come_back_as_they_were_written() {
    let config = config_from(
        r##"
[ui.sidebar.agents]
rows = [["$a", { token = "$b", emphasis = "none", reverse = true }], []]
row_gap = 65535

[ui.sidebar.agents.rows_by_agent]
pi = []
codex = [["agent"]]
"##,
    )
    .expect("layouts");
    let encoded = written(config.agents.write(ConfigValue::Table(Vec::new())));
    let again = AgentsSidebarConfig::<String, String>::read(
        &parsed(&encoded),
        &canonical(),
        AgentsViewConfig::default(),
    )
    .expect("round trip");
    assert_eq!(again, config.agents);
}

#[test]
fn values_of_the_wrong_type_are_refused() {
    for input in [
        "[ui.sidebar.agents]\nrow_gap = -1\n",
        "[ui.sidebar.agents]\nrow_gap = 65536\n",
        "[ui.sidebar.agents]\nrow_gap = 1.5\n",
        "[ui.sidebar.agents]\nrows = \"agent\"\n",
        "[ui.sidebar.agents]\nrows_by_agent = []\n",
        "[ui.sidebar.spaces]\nrows = [[1]]\n",
        "[ui.sidebar]\nspaces = 1\n",
        "[ui.sidebar.notifications]\nenabled = 1\n",
        "[ui.sidebar.notifications]\nenter_ms = -1\n",
    ] {
        assert!(config_from(input).is_err(), "accepted {input}");
    }
}
