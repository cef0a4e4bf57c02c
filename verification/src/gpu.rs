//! Whether the graphics card draws the glow of the cards, and what it is sent.

pub mod bloom;
pub mod scene;

use crate::text::same_text;
use vstd::prelude::*;

verus! {

/// A pinned answer to whether the graphics card draws: for those who draw one frame both ways to
/// compare the two. Everyone else asks the platform.
#[derive(Debug, Clone, Copy, PartialEq, Eq, Structural)]
pub struct Gate {
    pub pinned: Option<bool>,
    pub cost_model_pinned_off: bool,
}

/// What a variable of the environment says.
pub open spec fn says(setting: Option<&str>, word: Seq<char>) -> bool {
    setting is Some && setting->0@ == word
}

fn setting_is(setting: Option<&str>, word: &str) -> (same: bool)
    ensures
        same == says(setting, word@),
{
    match setting {
        Some(setting) => same_text(setting, word),
        None => false,
    }
}

impl Gate {
    /// Nothing pinned.
    pub fn new() -> (gate: Self)
        ensures
            gate == (Gate { pinned: None, cost_model_pinned_off: false }),
    {
        Gate { pinned: None, cost_model_pinned_off: false }
    }

    /// Pins the answer. Who pins the card on measures it, so what it would cost no longer counts.
    pub fn pin_backend(&mut self, gpu: bool)
        ensures
            *final(self) == (Gate { pinned: Some(gpu), cost_model_pinned_off: gpu }),
    {
        self.pinned = Some(gpu);
        self.cost_model_pinned_off = gpu;
    }

    /// Whether the card is to be tried: as pinned, or as `HERDR_GPU_CARD_BLOOM` says, or on a
    /// Windows client that draws its own cards.
    pub open spec fn is_enabled(
        self,
        setting: Option<&str>,
        windows: bool,
        draws_own_cards: bool,
    ) -> bool {
        match self.pinned {
            Some(pinned) => pinned,
            None => if says(setting, "1"@) || says(setting, "true"@) || says(setting, "force"@) {
                true
            } else if says(setting, "0"@) || says(setting, "false"@) {
                false
            } else {
                windows && draws_own_cards
            },
        }
    }

    pub fn enabled(&self, setting: Option<&str>, windows: bool, draws_own_cards: bool) -> (enabled:
        bool)
        ensures
            enabled == self.is_enabled(setting, windows, draws_own_cards),
    {
        if let Some(pinned) = self.pinned {
            return pinned;
        }
        if setting_is(setting, "1") || setting_is(setting, "true") || setting_is(setting, "force") {
            return true;
        }
        if setting_is(setting, "0") || setting_is(setting, "false") {
            return false;
        }
        windows && draws_own_cards
    }

    /// Whether every batch goes to the card, whatever it costs.
    pub fn ignore_cost_model(&self, setting: Option<&str>) -> (ignore: bool)
        ensures
            ignore == (self.cost_model_pinned_off || says(setting, "force"@)),
    {
        self.cost_model_pinned_off || setting_is(setting, "force")
    }
}

/// Without a pin and without the variable, the card is tried on no machine but a Windows client
/// that draws its own cards.
pub proof fn law_the_gate_is_shut_elsewhere(windows: bool, draws_own_cards: bool)
    ensures
        (Gate { pinned: None, cost_model_pinned_off: false }).is_enabled(
            None,
            windows,
            draws_own_cards,
        ) == (windows && draws_own_cards),
{
}

/// A pin decides alone; without one the variable does where it says yes or no; without either only a
/// Windows client that draws its own cards tries the card.
pub proof fn law_what_opens_the_gate(
    gate: Gate,
    setting: Option<&str>,
    windows: bool,
    draws_own_cards: bool,
)
    ensures
        ({
            let enabled = gate.is_enabled(setting, windows, draws_own_cards);
            let yes = setting is Some && (setting->0@ == "1"@ || setting->0@ == "true"@
                || setting->0@ == "force"@);
            let no = setting is Some && (setting->0@ == "0"@ || setting->0@ == "false"@);
            &&& gate.pinned is Some ==> enabled == gate.pinned->0
            &&& gate.pinned is None && yes ==> enabled
            &&& gate.pinned is None && no ==> !enabled
            &&& gate.pinned is None && !yes && !no ==> enabled == (windows && draws_own_cards)
        }),
{
    reveal_strlit("0");
    reveal_strlit("1");
    reveal_strlit("true");
    reveal_strlit("false");
    reveal_strlit("force");
    assert("0"@[0] != "1"@[0]);
    assert("force"@[1] != "false"@[1]);
}

} // verus!
