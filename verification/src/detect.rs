//! What an agent's screen gives away.

pub mod command_marker;
pub mod success_marker;

use vstd::prelude::*;

verus! {

/// The agents that are told apart.
#[derive(Debug, Clone, Copy, PartialEq, Eq, Structural)]
pub enum Agent {
    Pi,
    Claude,
    Codex,
    Gemini,
    Cursor,
    Devin,
    Antigravity,
    Cline,
    Omp,
    Mastracode,
    OpenCode,
    GithubCopilot,
    Kimi,
    Kiro,
    Droid,
    Amp,
    Grok,
    Hermes,
    Kilo,
    Qodercli,
    Maki,
}

/// What an agent is doing.
#[derive(Debug, Clone, Copy, PartialEq, Eq, Structural)]
pub enum AgentState {
    Idle,
    Working,
    Blocked,
    Unknown,
}

/// The lines of a screen that belong to the agent's transcript: those in the range that was
/// found, or all of them where none was.
pub open spec fn in_transcript(transcript: Option<(usize, usize)>, index: int) -> bool {
    match transcript {
        Some((start, end)) => start <= index < end,
        None => true,
    }
}

} // verus!
