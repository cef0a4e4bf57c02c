//! How a pane's process ended.

use crate::text;
use crate::text::append_decimal;
use vstd::prelude::*;
use vstd::string::*;

verus! {

/// How a pane's process ended. A process that a signal ended has a made-up code, so the signal
/// counts where there is one.
#[derive(Debug, PartialEq, Eq)]
pub struct PaneExitStatus {
    pub code: u32,
    pub signal: Option<String>,
}

impl PaneExitStatus {
    pub fn success(&self) -> (success: bool)
        ensures
            success == (self.signal is None && self.code == 0),
    {
        self.signal.is_none() && self.code == 0
    }

    /// The end in a few words: the signal's name, or the exit code.
    pub fn summary(&self) -> (summary: String)
        ensures
            summary@ == match self.signal {
                Some(signal) => signal@,
                None => "exit code "@ + text::decimal_text(self.code as nat),
            },
    {
        match &self.signal {
            Some(signal) => text::duplicate(signal.as_str()),
            None => {
                let mut summary = "exit code ".to_owned();
                append_decimal(&mut summary, self.code as u64);
                summary
            },
        }
    }

    /// The end as the operating system tells it.
    pub fn from_parts(code: u32, signal: Option<&str>) -> (status: Self)
        ensures
            status.code == code,
            text::option_text(status.signal) == match signal {
                Some(signal) => Some(signal@),
                None => None,
            },
    {
        PaneExitStatus {
            code,
            signal: match signal {
                Some(signal) => Some(text::duplicate(signal)),
                None => None,
            },
        }
    }
}

} // verus!
