use herdr::detect::AgentState;
use herdr::handoff_metadata::{
    age_of, agent_state_from_wire, agent_state_to_wire, instant_from_age, HandoffMetadata,
    HandoffToken, PaneAgentState, PaneHandoffMetadata, WorkspaceHandoffMetadata,
};

const SECOND: u128 = 1_000_000_000;

#[test]
fn an_age_round_trips_back_to_the_same_relative_ordering() {
    let export_now = 1_000 * SECOND;
    let older = export_now - 30 * SECOND;
    let newer = export_now - 5 * SECOND;

    let import_now = export_now + 2 * SECOND;
    let older = instant_from_age(age_of(older, export_now), import_now);
    let newer = instant_from_age(age_of(newer, export_now), import_now);

    assert!(older < newer, "newest-report-wins ordering survives");
    assert_eq!(import_now.saturating_sub(newer) / SECOND, 5);
}

#[test]
fn a_future_stamp_ages_to_zero_rather_than_wrapping() {
    let now = 1_000 * SECOND;
    assert_eq!(age_of(now + 5 * SECOND, now), 0);
}

#[test]
fn an_age_from_before_the_clock_is_taken_for_now() {
    assert_eq!(instant_from_age(11, 10), 10);
    assert_eq!(instant_from_age(10, 10), 0);
}

#[test]
fn states_cross_in_both_directions() {
    for (state, wire) in [
        (AgentState::Idle, PaneAgentState::Idle),
        (AgentState::Working, PaneAgentState::Working),
        (AgentState::Blocked, PaneAgentState::Blocked),
        (AgentState::Unknown, PaneAgentState::Unknown),
    ] {
        assert_eq!(agent_state_to_wire(state), wire);
        assert_eq!(agent_state_from_wire(wire), state);
    }
}

fn bare_pane() -> PaneHandoffMetadata {
    PaneHandoffMetadata {
        pane_id: 1,
        tokens: Vec::new(),
        agent_metadata: Vec::new(),
        hook_authority: None,
        agent_state: None,
        last_agent_state_change_seq: None,
        last_agent_state_change_age: None,
        report_sequences: Vec::new(),
        hook_report_sequences: Vec::new(),
        report_agents: Vec::new(),
        token_sequence_sources: Vec::new(),
    }
}

#[test]
fn a_pane_without_reports_carries_nothing() {
    let mut pane = bare_pane();
    assert!(!pane.carries_anything());
    pane.agent_state = Some(PaneAgentState::Unknown);
    assert!(!pane.carries_anything());
}

#[test]
fn each_report_of_a_pane_is_worth_carrying() {
    let mut pane = bare_pane();
    pane.agent_state = Some(PaneAgentState::Idle);
    assert!(pane.carries_anything());
    let mut pane = bare_pane();
    pane.last_agent_state_change_seq = Some(0);
    assert!(pane.carries_anything());
    let mut pane = bare_pane();
    pane.last_agent_state_change_age = Some(0);
    assert!(pane.carries_anything());
    let mut pane = bare_pane();
    pane.report_sequences.push(("a".to_string(), 1));
    assert!(pane.carries_anything());
    let mut pane = bare_pane();
    pane.hook_report_sequences.push(("a".to_string(), 1));
    assert!(pane.carries_anything());
    let mut pane = bare_pane();
    pane.report_agents.push(("hook".to_string(), "codex".to_string()));
    assert!(pane.carries_anything());
    let mut pane = bare_pane();
    pane.token_sequence_sources.push("hook".to_string());
    assert!(pane.carries_anything());
    let mut pane = bare_pane();
    pane.tokens.push(HandoffToken {
        name: "t".to_string(),
        value: String::new(),
        expires_in: None,
    });
    assert!(pane.carries_anything());
}

#[test]
fn a_handoff_is_empty_until_something_is_in_it() {
    let mut metadata = HandoffMetadata::default();
    assert!(metadata.is_empty());
    metadata.ask_comet_last_emitted_age = Some(0);
    assert!(!metadata.is_empty());
    let mut metadata = HandoffMetadata::default();
    metadata.panes.push(bare_pane());
    assert!(!metadata.is_empty());
    let mut metadata = HandoffMetadata::default();
    metadata.workspaces.push(WorkspaceHandoffMetadata {
        workspace_id: "w".to_string(),
        tokens: Vec::new(),
        token_sequences: Vec::new(),
    });
    assert!(!metadata.is_empty());
}
