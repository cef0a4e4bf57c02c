//! What a server hands to the process that replaces it, beyond the session file.
//!
//! A moment of one process means nothing to another, so every moment crosses as the age that it
//! had, and is rebuilt against the clock of the process that reads it. Moments and ages are
//! nanoseconds.

use crate::detect::AgentState;
use vstd::prelude::*;

verus! {

/// A moment, counted from an origin that only its own process knows.
pub type Moment = u128;

/// A length of time.
pub type Age = u128;

/// An agent's state as it is written down.
#[derive(Debug, Clone, Copy, PartialEq, Eq, Structural)]
pub enum PaneAgentState {
    Idle,
    Working,
    Blocked,
    Unknown,
}

/// A token with what is left of its time, if that is limited.
#[derive(Debug, PartialEq, Eq)]
pub struct HandoffToken {
    pub name: String,
    pub value: String,
    pub expires_in: Option<Age>,
}

/// What one source said of an agent, and how long ago.
#[derive(Debug)]
pub struct HandoffAgentMetadata {
    pub source: String,
    pub agent_label: Option<String>,
    pub applies_to_source: Option<String>,
    pub title: Option<String>,
    pub display_agent: Option<String>,
    pub state_labels: Vec<(String, String)>,
    pub reported_age: Age,
    pub title_reported_age: Option<Age>,
    pub display_agent_reported_age: Option<Age>,
    pub state_label_reported_age: Vec<(String, Age)>,
    pub ttl: Option<Age>,
    pub expiry_event_pending: bool,
}

/// Who speaks for a pane's agent, and what they said last.
#[derive(Debug)]
pub struct HandoffHookAuthority {
    pub source: String,
    pub agent_label: String,
    pub state: PaneAgentState,
    pub message: Option<String>,
    pub reported_age: Age,
    pub session_ref_kind: Option<String>,
    pub session_ref_value: Option<String>,
}

/// What belongs to a workspace, by its id.
#[derive(Debug)]
pub struct WorkspaceHandoffMetadata {
    pub workspace_id: String,
    pub tokens: Vec<HandoffToken>,
    pub token_sequences: Vec<(String, u64)>,
}

/// What belongs to a pane, by its id.
#[derive(Debug)]
pub struct PaneHandoffMetadata {
    pub pane_id: u32,
    pub tokens: Vec<HandoffToken>,
    pub agent_metadata: Vec<HandoffAgentMetadata>,
    pub hook_authority: Option<HandoffHookAuthority>,
    pub agent_state: Option<PaneAgentState>,
    pub last_agent_state_change_seq: Option<u64>,
    pub last_agent_state_change_age: Option<Age>,
    pub report_sequences: Vec<(String, u64)>,
    pub hook_report_sequences: Vec<(String, u64)>,
    pub report_agents: Vec<(String, String)>,
    pub token_sequence_sources: Vec<String>,
}

/// Everything that is handed over.
#[derive(Debug)]
pub struct HandoffMetadata {
    pub workspaces: Vec<WorkspaceHandoffMetadata>,
    pub panes: Vec<PaneHandoffMetadata>,
    pub ask_comet_last_emitted_age: Option<Age>,
}

impl Default for HandoffMetadata {
    fn default() -> (metadata: Self)
        ensures
            metadata.says_nothing(),
    {
        HandoffMetadata {
            workspaces: Vec::new(),
            panes: Vec::new(),
            ask_comet_last_emitted_age: None,
        }
    }
}

impl HandoffMetadata {
    pub open spec fn says_nothing(self) -> bool {
        self.workspaces@.len() == 0 && self.panes@.len() == 0
            && self.ask_comet_last_emitted_age is None
    }

    pub fn is_empty(&self) -> (empty: bool)
        ensures
            empty == self.says_nothing(),
    {
        self.workspaces.len() == 0 && self.panes.len() == 0
            && self.ask_comet_last_emitted_age.is_none()
    }
}

impl PaneHandoffMetadata {
    /// Whether the entry says anything that a freshly restored pane would not have. A state that is
    /// not known says nothing.
    pub open spec fn says_anything(self) -> bool {
        ||| self.tokens@.len() > 0
        ||| self.agent_metadata@.len() > 0
        ||| self.hook_authority is Some
        ||| self.report_sequences@.len() > 0
        ||| self.hook_report_sequences@.len() > 0
        ||| self.report_agents@.len() > 0
        ||| self.token_sequence_sources@.len() > 0
        ||| self.last_agent_state_change_seq is Some
        ||| self.last_agent_state_change_age is Some
        ||| (self.agent_state is Some && self.agent_state->0 != PaneAgentState::Unknown)
    }

    pub fn carries_anything(&self) -> (carries: bool)
        ensures
            carries == self.says_anything(),
    {
        let known_state = match self.agent_state {
            Some(state) => state != PaneAgentState::Unknown,
            None => false,
        };
        self.tokens.len() > 0 || self.agent_metadata.len() > 0 || self.hook_authority.is_some()
            || self.report_sequences.len() > 0 || self.hook_report_sequences.len() > 0
            || self.report_agents.len() > 0 || self.token_sequence_sources.len() > 0
            || self.last_agent_state_change_seq.is_some()
            || self.last_agent_state_change_age.is_some() || known_state
    }
}

/// A state as it is written down.
pub open spec fn to_wire(state: AgentState) -> PaneAgentState {
    match state {
        AgentState::Idle => PaneAgentState::Idle,
        AgentState::Working => PaneAgentState::Working,
        AgentState::Blocked => PaneAgentState::Blocked,
        AgentState::Unknown => PaneAgentState::Unknown,
    }
}

/// A state as it is read again.
pub open spec fn from_wire(state: PaneAgentState) -> AgentState {
    match state {
        PaneAgentState::Idle => AgentState::Idle,
        PaneAgentState::Working => AgentState::Working,
        PaneAgentState::Blocked => AgentState::Blocked,
        PaneAgentState::Unknown => AgentState::Unknown,
    }
}

pub fn agent_state_to_wire(state: AgentState) -> (wire: PaneAgentState)
    ensures
        wire == to_wire(state),
{
    match state {
        AgentState::Idle => PaneAgentState::Idle,
        AgentState::Working => PaneAgentState::Working,
        AgentState::Blocked => PaneAgentState::Blocked,
        AgentState::Unknown => PaneAgentState::Unknown,
    }
}

pub fn agent_state_from_wire(state: PaneAgentState) -> (agent: AgentState)
    ensures
        agent == from_wire(state),
{
    match state {
        PaneAgentState::Idle => AgentState::Idle,
        PaneAgentState::Working => AgentState::Working,
        PaneAgentState::Blocked => AgentState::Blocked,
        PaneAgentState::Unknown => AgentState::Unknown,
    }
}

/// A state that is handed over is the same, in both directions.
pub proof fn law_state_round_trip(state: AgentState, wire: PaneAgentState)
    ensures
        from_wire(to_wire(state)) == state,
        to_wire(from_wire(wire)) == wire,
{
}

/// How long ago a moment was. A moment that is still to come is none.
pub open spec fn spec_age(then: Moment, now: Moment) -> Age {
    if then <= now {
        (now - then) as u128
    } else {
        0
    }
}

/// The moment that was so long ago. An age from before the clock began is taken for now.
pub open spec fn spec_moment(age: Age, now: Moment) -> Moment {
    if age <= now {
        (now - age) as u128
    } else {
        now
    }
}

/// How long ago `then` was, as of `now`.
pub fn age_of(then: Moment, now: Moment) -> (age: Age)
    ensures
        age == spec_age(then, now),
{
    if then <= now {
        now - then
    } else {
        0
    }
}

/// Rebuilds an age against this process's clock.
pub fn instant_from_age(age: Age, now: Moment) -> (then: Moment)
    ensures
        then == spec_moment(age, now),
{
    if age <= now {
        now - age
    } else {
        now
    }
}

/// Two moments keep their order when they are handed over, and each keeps its distance from now:
/// the newest report stays the newest, and what is to expire expires when it would have. It holds
/// for moments that are not still to come and are not older than the new process's clock.
pub proof fn law_moments_keep_their_order(
    older: Moment,
    newer: Moment,
    export_now: Moment,
    import_now: Moment,
)
    requires
        older <= newer <= export_now,
        export_now - older <= import_now,
    ensures
        ({
            let a = spec_moment(spec_age(older, export_now), import_now);
            let b = spec_moment(spec_age(newer, export_now), import_now);
            &&& a <= b
            &&& (older < newer ==> a < b)
            &&& import_now - a == export_now - older
            &&& import_now - b == export_now - newer
        }),
{
}

/// A moment that is still to come has no age, and now is the moment without one.
pub proof fn law_what_is_to_come_has_no_age(then: Moment, now: Moment)
    ensures
        then >= now ==> spec_age(then, now) == 0,
        then < now ==> spec_age(then, now) > 0 && then + spec_age(then, now) == now,
        spec_moment(0, now) == now,
{
}

/// An entry says nothing exactly where it is empty in every part, a state that is not known being
/// no part of it; and a handover says nothing where it has no entry and no moment.
pub proof fn law_empty_entries_say_nothing(pane: PaneHandoffMetadata, all: HandoffMetadata)
    ensures
        !pane.says_anything() <==> {
            &&& pane.tokens@.len() == 0
            &&& pane.agent_metadata@.len() == 0
            &&& pane.hook_authority is None
            &&& pane.report_sequences@.len() == 0
            &&& pane.hook_report_sequences@.len() == 0
            &&& pane.report_agents@.len() == 0
            &&& pane.token_sequence_sources@.len() == 0
            &&& pane.last_agent_state_change_seq is None
            &&& pane.last_agent_state_change_age is None
            &&& pane.agent_state is None || pane.agent_state->0 is Unknown
        },
        all.says_nothing() <==> all.workspaces@.len() == 0 && all.panes@.len() == 0
            && all.ask_comet_last_emitted_age is None,
{
}

/// Each state is written down under its own name.
pub proof fn law_states_keep_their_names(state: AgentState)
    ensures
        to_wire(state) is Idle <==> state is Idle,
        to_wire(state) is Working <==> state is Working,
        to_wire(state) is Blocked <==> state is Blocked,
        to_wire(state) is Unknown <==> state is Unknown,
{
}

} // verus!
