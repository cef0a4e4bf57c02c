//! How the sidebar moves: rows that come and go, views that switch, signals that light up.

use crate::config::tokens;
use crate::config::tokens::{read_emphasis, Behaviour, SidebarTokenEmphasis};
use crate::config::value;
use crate::config::value::{
    read_boolean, read_text, read_u16, read_u64, unknown_field_message, wrong_type_message,
    ConfigValue,
};
use crate::text::same_text;
use vstd::prelude::*;
use vstd::string::*;

verus! {

/// The shortest and the longest arrival or departure, in milliseconds.
pub const MIN_ROW_ENTER_MS: u64 = 60;

pub const MAX_ROW_ENTER_MS: u64 = 1_500;

/// The shortest and the longest half of a view switch.
pub const MIN_VIEW_SWITCH_MS: u64 = 60;

pub const MAX_VIEW_SWITCH_MS: u64 = 1_500;

/// The most particles that a cell is broken into.
pub const MAX_VIEW_SWITCH_PARTICLES_PER_CELL: u16 = 256;

/// A bounded phase of an animation.
#[derive(Debug, Clone, Copy, PartialEq, Eq, Structural)]
pub struct Stage {
    pub behaviour: Behaviour,
    pub duration_ms: u64,
}

/// The life of an element: how it arrives, and what it plays while it is there.
#[derive(Debug, PartialEq, Eq)]
pub struct Lifecycle {
    pub mount: Option<Stage>,
    pub idle: Vec<Behaviour>,
}

/// A number within bounds.
pub open spec fn clamped(ms: u64, low: u64, high: u64) -> u64 {
    if ms < low {
        low
    } else if ms > high {
        high
    } else {
        ms
    }
}

fn clamp(ms: u64, low: u64, high: u64) -> (within: u64)
    ensures
        within == clamped(ms, low, high),
{
    if ms < low {
        low
    } else if ms > high {
        high
    } else {
        ms
    }
}

/// The stage of a behaviour, its duration kept within bounds.
pub open spec fn bounded_stage(emphasis: SidebarTokenEmphasis, ms: u64, low: u64, high: u64) -> Option<
    Stage,
> {
    match emphasis.spec_behaviour() {
        Some(behaviour) => Some(Stage { behaviour, duration_ms: clamped(ms, low, high) }),
        None => None,
    }
}

// ---------------------------------------------------------------------------
// The signal bar
// ---------------------------------------------------------------------------

/// The bar of signals above the tree. It is off unless it is asked for.
#[derive(Debug, Clone, Copy, PartialEq, Eq, Structural)]
pub struct SidebarNotificationsConfig {
    pub enabled: bool,
    /// What a slot plays while its signal is live.
    pub emphasis: SidebarTokenEmphasis,
    /// What a slot plays as it goes live.
    pub enter: SidebarTokenEmphasis,
    pub enter_ms: u64,
}

pub open spec fn default_notifications() -> SidebarNotificationsConfig {
    SidebarNotificationsConfig {
        enabled: false,
        emphasis: SidebarTokenEmphasis::Pulse,
        enter: SidebarTokenEmphasis::Fade,
        enter_ms: 220,
    }
}

impl Default for SidebarNotificationsConfig {
    fn default() -> (config: Self)
        ensures
            config == default_notifications(),
    {
        SidebarNotificationsConfig {
            enabled: false,
            emphasis: SidebarTokenEmphasis::Pulse,
            enter: SidebarTokenEmphasis::Fade,
            enter_ms: 220,
        }
    }
}

/// One more entry of the bar's table.
pub open spec fn notifications_step(
    config: SidebarNotificationsConfig,
    key: Seq<char>,
    v: ConfigValue,
) -> Result<SidebarNotificationsConfig, Seq<char>> {
    if key == "enabled"@ {
        match value::spec_boolean(v) {
            Ok(enabled) => Ok(SidebarNotificationsConfig { enabled, ..config }),
            Err(e) => Err(e),
        }
    } else if key == "emphasis"@ {
        match tokens::spec_emphasis(v) {
            Ok(emphasis) => Ok(SidebarNotificationsConfig { emphasis, ..config }),
            Err(e) => Err(e),
        }
    } else if key == "enter"@ {
        match tokens::spec_emphasis(v) {
            Ok(enter) => Ok(SidebarNotificationsConfig { enter, ..config }),
            Err(e) => Err(e),
        }
    } else if key == "enter_ms"@ {
        match value::spec_u64(v) {
            Ok(enter_ms) => Ok(SidebarNotificationsConfig { enter_ms, ..config }),
            Err(e) => Err(e),
        }
    } else {
        Err(value::unknown_field(key, "`enabled`, `emphasis`, `enter`, `enter_ms`"@))
    }
}

/// What the bar's table says, up to its first mistake.
pub open spec fn notifications_entries(entries: Seq<(String, ConfigValue)>) -> Result<
    SidebarNotificationsConfig,
    Seq<char>,
>
    decreases entries.len(),
{
    if entries.len() == 0 {
        Ok(default_notifications())
    } else {
        match notifications_entries(entries.drop_last()) {
            Ok(config) => notifications_step(config, entries.last().0@, entries.last().1),
            Err(complaint) => Err(complaint),
        }
    }
}

pub open spec fn spec_notifications(v: ConfigValue) -> Result<
    SidebarNotificationsConfig,
    Seq<char>,
> {
    match v {
        ConfigValue::Table(entries) => notifications_entries(entries@),
        _ => Err(value::wrong_type("a table"@)),
    }
}

proof fn lemma_notifications_error_stays(entries: Seq<(String, ConfigValue)>, n: int)
    requires
        0 <= n <= entries.len(),
        notifications_entries(entries.take(n)) is Err,
    ensures
        notifications_entries(entries) == notifications_entries(entries.take(n)),
    decreases entries.len() - n,
{
    if n == entries.len() {
        assert(entries.take(n) =~= entries);
    } else {
        assert(entries.take(n + 1).drop_last() =~= entries.take(n));
        lemma_notifications_error_stays(entries, n + 1);
    }
}

impl SidebarNotificationsConfig {
    fn step(self, key: &str, v: &ConfigValue) -> (result: Result<Self, String>)
        ensures
            value::spoken(result) == notifications_step(self, key@, *v),
    {
        let mut next = self;
        if same_text(key, "enabled") {
            match read_boolean(v) {
                Ok(enabled) => next.enabled = enabled,
                Err(message) => return Err(message),
            }
        } else if same_text(key, "emphasis") {
            match read_emphasis(v) {
                Ok(emphasis) => next.emphasis = emphasis,
                Err(message) => return Err(message),
            }
        } else if same_text(key, "enter") {
            match read_emphasis(v) {
                Ok(enter) => next.enter = enter,
                Err(message) => return Err(message),
            }
        } else if same_text(key, "enter_ms") {
            match read_u64(v) {
                Ok(enter_ms) => next.enter_ms = enter_ms,
                Err(message) => return Err(message),
            }
        } else {
            return Err(
                unknown_field_message(key, "`enabled`, `emphasis`, `enter`, `enter_ms`"),
            );
        }
        Ok(next)
    }

    /// Reads the bar's table. What it leaves out stays at its default; a key that it does not
    /// have is a mistake.
    pub fn read(v: &ConfigValue) -> (result: Result<Self, String>)
        ensures
            value::spoken(result) == spec_notifications(*v),
    {
        match v {
            ConfigValue::Table(entries) => {
                let mut config = SidebarNotificationsConfig::default();
                let mut i: usize = 0;
                while i < entries.len()
                    invariant
                        i <= entries@.len(),
                        *v == ConfigValue::Table(*entries),
                        notifications_entries(entries@.take(i as int)) == Ok::<
                            SidebarNotificationsConfig,
                            Seq<char>,
                        >(config),
                    decreases entries@.len() - i,
                {
                    proof {
                        assert(entries@.take(i + 1).drop_last() =~= entries@.take(i as int));
                        assert(entries@.take(i + 1).last() == entries@[i as int]);
                    }
                    match config.step(entries[i].0.as_str(), &entries[i].1) {
                        Ok(next) => config = next,
                        Err(message) => {
                            proof {
                                lemma_notifications_error_stays(entries@, i + 1);
                            }
                            return Err(message);
                        },
                    }
                    i += 1;
                }
                assert(entries@.take(i as int) =~= entries@);
                Ok(config)
            },
            _ => Err(wrong_type_message("a table")),
        }
    }

    /// The stage that a slot plays as it goes live; none where it simply appears.
    pub fn enter_stage(&self) -> (stage: Option<Stage>)
        ensures
            stage == bounded_stage(self.enter, self.enter_ms, 60, 1_500),
    {
        match self.enter.behaviour() {
            Some(behaviour) => Some(
                Stage {
                    behaviour,
                    duration_ms: clamp(self.enter_ms, MIN_ROW_ENTER_MS, MAX_ROW_ENTER_MS),
                },
            ),
            None => None,
        }
    }

    /// The life of a slot whose signal goes live.
    pub fn lifecycle(&self) -> (life: Lifecycle)
        ensures
            life.mount == bounded_stage(self.enter, self.enter_ms, 60, 1_500),
            life.idle@ == match self.emphasis.spec_behaviour() {
                Some(behaviour) => seq![behaviour],
                None => seq![],
            },
    {
        let mut idle: Vec<Behaviour> = Vec::new();
        if let Some(behaviour) = self.emphasis.behaviour() {
            idle.push(behaviour);
        }
        Lifecycle { mount: self.enter_stage(), idle }
    }

    /// Whether a bar that is drawn has anything moving in it.
    pub fn animates(&self) -> (animates: bool)
        ensures
            animates == (self.enabled && (self.emphasis.spec_behaviour() is Some
                || self.enter.spec_behaviour() is Some)),
    {
        self.enabled && (self.emphasis.animates() || self.enter_stage().is_some())
    }
}

// ---------------------------------------------------------------------------
// The signal tray
// ---------------------------------------------------------------------------

/// The tray of badges at the foot of the panel. It is off unless it is asked for; whether a click
/// may act is a setting of its own.
#[derive(Debug, Clone, Copy, PartialEq, Eq, Structural)]
pub struct SidebarSignalTrayConfig {
    pub enabled: bool,
    pub actions: bool,
}

pub open spec fn default_tray() -> SidebarSignalTrayConfig {
    SidebarSignalTrayConfig { enabled: false, actions: true }
}

impl Default for SidebarSignalTrayConfig {
    fn default() -> (config: Self)
        ensures
            config == default_tray(),
    {
        SidebarSignalTrayConfig { enabled: false, actions: true }
    }
}

/// One more entry of the tray's table.
pub open spec fn tray_step(config: SidebarSignalTrayConfig, key: Seq<char>, v: ConfigValue) -> Result<
    SidebarSignalTrayConfig,
    Seq<char>,
> {
    if key == "enabled"@ {
        match value::spec_boolean(v) {
            Ok(enabled) => Ok(SidebarSignalTrayConfig { enabled, ..config }),
            Err(e) => Err(e),
        }
    } else if key == "actions"@ {
        match value::spec_boolean(v) {
            Ok(actions) => Ok(SidebarSignalTrayConfig { actions, ..config }),
            Err(e) => Err(e),
        }
    } else {
        Err(value::unknown_field(key, "`enabled`, `actions`"@))
    }
}

/// What the tray's table says, up to its first mistake.
pub open spec fn tray_entries(entries: Seq<(String, ConfigValue)>) -> Result<
    SidebarSignalTrayConfig,
    Seq<char>,
>
    decreases entries.len(),
{
    if entries.len() == 0 {
        Ok(default_tray())
    } else {
        match tray_entries(entries.drop_last()) {
            Ok(config) => tray_step(config, entries.last().0@, entries.last().1),
            Err(complaint) => Err(complaint),
        }
    }
}

pub open spec fn spec_tray(v: ConfigValue) -> Result<SidebarSignalTrayConfig, Seq<char>> {
    match v {
        ConfigValue::Table(entries) => tray_entries(entries@),
        _ => Err(value::wrong_type("a table"@)),
    }
}

proof fn lemma_tray_error_stays(entries: Seq<(String, ConfigValue)>, n: int)
    requires
        0 <= n <= entries.len(),
        tray_entries(entries.take(n)) is Err,
    ensures
        tray_entries(entries) == tray_entries(entries.take(n)),
    decreases entries.len() - n,
{
    if n == entries.len() {
        assert(entries.take(n) =~= entries);
    } else {
        assert(entries.take(n + 1).drop_last() =~= entries.take(n));
        lemma_tray_error_stays(entries, n + 1);
    }
}

impl SidebarSignalTrayConfig {
    fn step(self, key: &str, v: &ConfigValue) -> (result: Result<Self, String>)
        ensures
            value::spoken(result) == tray_step(self, key@, *v),
    {
        let mut next = self;
        if same_text(key, "enabled") {
            match read_boolean(v) {
                Ok(enabled) => next.enabled = enabled,
                Err(message) => return Err(message),
            }
        } else if same_text(key, "actions") {
            match read_boolean(v) {
                Ok(actions) => next.actions = actions,
                Err(message) => return Err(message),
            }
        } else {
            return Err(unknown_field_message(key, "`enabled`, `actions`"));
        }
        Ok(next)
    }

    /// Reads the tray's table, like the bar's.
    pub fn read(v: &ConfigValue) -> (result: Result<Self, String>)
        ensures
            value::spoken(result) == spec_tray(*v),
    {
        match v {
            ConfigValue::Table(entries) => {
                let mut config = SidebarSignalTrayConfig::default();
                let mut i: usize = 0;
                while i < entries.len()
                    invariant
                        i <= entries@.len(),
                        *v == ConfigValue::Table(*entries),
                        tray_entries(entries@.take(i as int)) == Ok::<
                            SidebarSignalTrayConfig,
                            Seq<char>,
                        >(config),
                    decreases entries@.len() - i,
                {
                    proof {
                        assert(entries@.take(i + 1).drop_last() =~= entries@.take(i as int));
                        assert(entries@.take(i + 1).last() == entries@[i as int]);
                    }
                    match config.step(entries[i].0.as_str(), &entries[i].1) {
                        Ok(next) => config = next,
                        Err(message) => {
                            proof {
                                lemma_tray_error_stays(entries@, i + 1);
                            }
                            return Err(message);
                        },
                    }
                    i += 1;
                }
                assert(entries@.take(i as int) =~= entries@);
                Ok(config)
            },
            _ => Err(wrong_type_message("a table")),
        }
    }
}

// ---------------------------------------------------------------------------
// Rows and views
// ---------------------------------------------------------------------------

/// Whether a row's arrival and departure move it, besides what its cells do.
#[derive(Debug, Clone, Copy, PartialEq, Eq, Structural)]
pub enum SidebarRowMotion {
    /// Rows are drawn where the layout puts them; written `none`.
    Fixed,
    /// A row slides in from the panel's edge and out again.
    Slide,
}

impl Default for SidebarRowMotion {
    fn default() -> (motion: Self)
        ensures
            motion == SidebarRowMotion::Fixed,
    {
        SidebarRowMotion::Fixed
    }
}

pub open spec fn motion_complaint(name: Seq<char>) -> Seq<char> {
    "unknown variant `"@ + name + "`, expected `none` or `slide`"@
}

pub open spec fn spec_motion(v: ConfigValue) -> Result<SidebarRowMotion, Seq<char>> {
    match value::spec_text(v) {
        Ok(name) => if name == "none"@ {
            Ok(SidebarRowMotion::Fixed)
        } else if name == "slide"@ {
            Ok(SidebarRowMotion::Slide)
        } else {
            Err(motion_complaint(name))
        },
        Err(e) => Err(e),
    }
}

fn read_motion(v: &ConfigValue) -> (result: Result<SidebarRowMotion, String>)
    ensures
        value::spoken(result) == spec_motion(*v),
{
    let name = match read_text(v) {
        Ok(name) => name,
        Err(message) => {
            return Err(message);
        },
    };
    if same_text(name.as_str(), "none") {
        Ok(SidebarRowMotion::Fixed)
    } else if same_text(name.as_str(), "slide") {
        Ok(SidebarRowMotion::Slide)
    } else {
        let mut message = "unknown variant `".to_owned();
        message.append(name.as_str());
        message.append("`, expected `none` or `slide`");
        assert(message@ =~= motion_complaint(name@));
        Err(message)
    }
}

/// How rows come and go, and how one view gives way to another. An exit is its entry played
/// backwards.
#[derive(Debug, Clone, Copy, PartialEq, Eq, Structural)]
pub struct SidebarAnimationConfig {
    pub row_enter: SidebarTokenEmphasis,
    pub row_enter_ms: u64,
    pub row_exit: SidebarTokenEmphasis,
    pub row_exit_ms: u64,
    pub row_motion: SidebarRowMotion,
    pub view_switch: SidebarTokenEmphasis,
    /// The time of each half of a switch.
    pub view_switch_ms: u64,
    /// Into how many particles a cell of the drawn cards breaks; none leaves a hard cut.
    pub view_switch_particles_per_cell: u16,
}

pub open spec fn default_animation() -> SidebarAnimationConfig {
    SidebarAnimationConfig {
        row_enter: SidebarTokenEmphasis::Calm,
        row_enter_ms: 320,
        row_exit: SidebarTokenEmphasis::Calm,
        row_exit_ms: 220,
        row_motion: SidebarRowMotion::Fixed,
        view_switch: SidebarTokenEmphasis::Dissolve,
        view_switch_ms: 640,
        view_switch_particles_per_cell: 0,
    }
}

impl Default for SidebarAnimationConfig {
    fn default() -> (config: Self)
        ensures
            config == default_animation(),
    {
        SidebarAnimationConfig {
            row_enter: SidebarTokenEmphasis::Calm,
            row_enter_ms: 320,
            row_exit: SidebarTokenEmphasis::Calm,
            row_exit_ms: 220,
            row_motion: SidebarRowMotion::Fixed,
            view_switch: SidebarTokenEmphasis::Dissolve,
            view_switch_ms: 640,
            view_switch_particles_per_cell: 0,
        }
    }
}

/// One more entry of the animation's table.
pub open spec fn animation_step(
    config: SidebarAnimationConfig,
    key: Seq<char>,
    v: ConfigValue,
) -> Result<SidebarAnimationConfig, Seq<char>> {
    if key == "row_enter"@ {
        match tokens::spec_emphasis(v) {
            Ok(row_enter) => Ok(SidebarAnimationConfig { row_enter, ..config }),
            Err(e) => Err(e),
        }
    } else if key == "row_enter_ms"@ {
        match value::spec_u64(v) {
            Ok(row_enter_ms) => Ok(SidebarAnimationConfig { row_enter_ms, ..config }),
            Err(e) => Err(e),
        }
    } else if key == "row_exit"@ {
        match tokens::spec_emphasis(v) {
            Ok(row_exit) => Ok(SidebarAnimationConfig { row_exit, ..config }),
            Err(e) => Err(e),
        }
    } else if key == "row_exit_ms"@ {
        match value::spec_u64(v) {
            Ok(row_exit_ms) => Ok(SidebarAnimationConfig { row_exit_ms, ..config }),
            Err(e) => Err(e),
        }
    } else if key == "row_motion"@ {
        match spec_motion(v) {
            Ok(row_motion) => Ok(SidebarAnimationConfig { row_motion, ..config }),
            Err(e) => Err(e),
        }
    } else if key == "view_switch"@ {
        match tokens::spec_emphasis(v) {
            Ok(view_switch) => Ok(SidebarAnimationConfig { view_switch, ..config }),
            Err(e) => Err(e),
        }
    } else if key == "view_switch_ms"@ {
        match value::spec_u64(v) {
            Ok(view_switch_ms) => Ok(SidebarAnimationConfig { view_switch_ms, ..config }),
            Err(e) => Err(e),
        }
    } else if key == "view_switch_particles_per_cell"@ {
        match value::spec_u16(v) {
            Ok(n) => Ok(SidebarAnimationConfig { view_switch_particles_per_cell: n, ..config }),
            Err(e) => Err(e),
        }
    } else {
        Err(
            value::unknown_field(
                key,
                "`row_enter`, `row_enter_ms`, `row_exit`, `row_exit_ms`, `row_motion`, `view_switch`, `view_switch_ms`, `view_switch_particles_per_cell`"@,
            ),
        )
    }
}

/// What the animation's table says, up to its first mistake.
pub open spec fn animation_entries(entries: Seq<(String, ConfigValue)>) -> Result<
    SidebarAnimationConfig,
    Seq<char>,
>
    decreases entries.len(),
{
    if entries.len() == 0 {
        Ok(default_animation())
    } else {
        match animation_entries(entries.drop_last()) {
            Ok(config) => animation_step(config, entries.last().0@, entries.last().1),
            Err(complaint) => Err(complaint),
        }
    }
}

pub open spec fn spec_animation(v: ConfigValue) -> Result<SidebarAnimationConfig, Seq<char>> {
    match v {
        ConfigValue::Table(entries) => animation_entries(entries@),
        _ => Err(value::wrong_type("a table"@)),
    }
}

proof fn lemma_animation_error_stays(entries: Seq<(String, ConfigValue)>, n: int)
    requires
        0 <= n <= entries.len(),
        animation_entries(entries.take(n)) is Err,
    ensures
        animation_entries(entries) == animation_entries(entries.take(n)),
    decreases entries.len() - n,
{
    if n == entries.len() {
        assert(entries.take(n) =~= entries);
    } else {
        assert(entries.take(n + 1).drop_last() =~= entries.take(n));
        lemma_animation_error_stays(entries, n + 1);
    }
}

/// A row's stage: its behaviour, or an empty one where it is only to move.
pub open spec fn row_stage(emphasis: SidebarTokenEmphasis, ms: u64, moves: bool) -> Option<Stage> {
    match emphasis.spec_behaviour() {
        Some(behaviour) => Some(Stage { behaviour, duration_ms: clamped(ms, 60, 1_500) }),
        None => if moves {
            Some(Stage { behaviour: Behaviour::Still, duration_ms: clamped(ms, 60, 1_500) })
        } else {
            None
        },
    }
}

impl SidebarAnimationConfig {
    fn step(self, key: &str, v: &ConfigValue) -> (result: Result<Self, String>)
        ensures
            value::spoken(result) == animation_step(self, key@, *v),
    {
        let mut next = self;
        if same_text(key, "row_enter") {
            match read_emphasis(v) {
                Ok(emphasis) => next.row_enter = emphasis,
                Err(message) => return Err(message),
            }
        } else if same_text(key, "row_enter_ms") {
            match read_u64(v) {
                Ok(ms) => next.row_enter_ms = ms,
                Err(message) => return Err(message),
            }
        } else if same_text(key, "row_exit") {
            match read_emphasis(v) {
                Ok(emphasis) => next.row_exit = emphasis,
                Err(message) => return Err(message),
            }
        } else if same_text(key, "row_exit_ms") {
            match read_u64(v) {
                Ok(ms) => next.row_exit_ms = ms,
                Err(message) => return Err(message),
            }
        } else if same_text(key, "row_motion") {
            match read_motion(v) {
                Ok(motion) => next.row_motion = motion,
                Err(message) => return Err(message),
            }
        } else if same_text(key, "view_switch") {
            match read_emphasis(v) {
                Ok(emphasis) => next.view_switch = emphasis,
                Err(message) => return Err(message),
            }
        } else if same_text(key, "view_switch_ms") {
            match read_u64(v) {
                Ok(ms) => next.view_switch_ms = ms,
                Err(message) => return Err(message),
            }
        } else if same_text(key, "view_switch_particles_per_cell") {
            match read_u16(v) {
                Ok(n) => next.view_switch_particles_per_cell = n,
                Err(message) => return Err(message),
            }
        } else {
            return Err(
                unknown_field_message(
                    key,
                    "`row_enter`, `row_enter_ms`, `row_exit`, `row_exit_ms`, `row_motion`, `view_switch`, `view_switch_ms`, `view_switch_particles_per_cell`",
                ),
            );
        }
        Ok(next)
    }

    /// Reads the animation's table, like the bar's.
    pub fn read(v: &ConfigValue) -> (result: Result<Self, String>)
        ensures
            value::spoken(result) == spec_animation(*v),
    {
        match v {
            ConfigValue::Table(entries) => {
                let mut config = SidebarAnimationConfig::default();
                let mut i: usize = 0;
                while i < entries.len()
                    invariant
                        i <= entries@.len(),
                        *v == ConfigValue::Table(*entries),
                        animation_entries(entries@.take(i as int)) == Ok::<
                            SidebarAnimationConfig,
                            Seq<char>,
                        >(config),
                    decreases entries@.len() - i,
                {
                    proof {
                        assert(entries@.take(i + 1).drop_last() =~= entries@.take(i as int));
                        assert(entries@.take(i + 1).last() == entries@[i as int]);
                    }
                    match config.step(entries[i].0.as_str(), &entries[i].1) {
                        Ok(next) => config = next,
                        Err(message) => {
                            proof {
                                lemma_animation_error_stays(entries@, i + 1);
                            }
                            return Err(message);
                        },
                    }
                    i += 1;
                }
                assert(entries@.take(i as int) =~= entries@);
                Ok(config)
            },
            _ => Err(wrong_type_message("a table")),
        }
    }

    /// Whether rows are configured to move.
    pub fn rows_move(&self) -> (moves: bool)
        ensures
            moves == (self.row_motion == SidebarRowMotion::Slide),
    {
        matches!(self.row_motion, SidebarRowMotion::Slide)
    }

    /// The arrival of a row, `moves` saying whether rows move on this host.
    pub fn row_enter_stage(&self, moves: bool) -> (stage: Option<Stage>)
        ensures
            stage == row_stage(self.row_enter, self.row_enter_ms, moves),
    {
        Self::stage(self.row_enter, self.row_enter_ms, moves)
    }

    /// The departure of a row; without one it is gone at once.
    pub fn row_exit_stage(&self, moves: bool) -> (stage: Option<Stage>)
        ensures
            stage == row_stage(self.row_exit, self.row_exit_ms, moves),
    {
        Self::stage(self.row_exit, self.row_exit_ms, moves)
    }

    fn stage(emphasis: SidebarTokenEmphasis, ms: u64, moves: bool) -> (stage: Option<Stage>)
        ensures
            stage == row_stage(emphasis, ms, moves),
    {
        let behaviour = match emphasis.behaviour() {
            Some(behaviour) => behaviour,
            None => {
                if !moves {
                    return None;
                }
                Behaviour::Still
            },
        };
        Some(Stage { behaviour, duration_ms: clamp(ms, MIN_ROW_ENTER_MS, MAX_ROW_ENTER_MS) })
    }

    /// Particles per cell, kept below a ceiling; none stays none.
    pub fn view_switch_particles(&self) -> (particles: u16)
        ensures
            particles == (if self.view_switch_particles_per_cell > 256 {
                256u16
            } else {
                self.view_switch_particles_per_cell
            }),
    {
        if self.view_switch_particles_per_cell > MAX_VIEW_SWITCH_PARTICLES_PER_CELL {
            MAX_VIEW_SWITCH_PARTICLES_PER_CELL
        } else {
            self.view_switch_particles_per_cell
        }
    }

    /// The stage that a whole view plays as it forms and, backwards, as it comes apart.
    pub fn view_switch_stage(&self) -> (stage: Option<Stage>)
        ensures
            stage == bounded_stage(self.view_switch, self.view_switch_ms, 60, 1_500),
    {
        match self.view_switch.behaviour() {
            Some(behaviour) => Some(
                Stage {
                    behaviour,
                    duration_ms: clamp(
                        self.view_switch_ms,
                        MIN_VIEW_SWITCH_MS,
                        MAX_VIEW_SWITCH_MS,
                    ),
                },
            ),
            None => None,
        }
    }
}

/// Motion takes nothing away from what a row's cells do: with a behaviour the stage is the same
/// whether rows move or not, and without one it draws nothing.
pub proof fn law_motion_composes(emphasis: SidebarTokenEmphasis, ms: u64)
    ensures
        emphasis.spec_behaviour() is Some ==> row_stage(emphasis, ms, true) == row_stage(
            emphasis,
            ms,
            false,
        ),
        emphasis.spec_behaviour() is None ==> row_stage(emphasis, ms, false) is None && row_stage(
            emphasis,
            ms,
            true,
        ) is Some && row_stage(emphasis, ms, true)->0.behaviour == Behaviour::Still,
{
}

/// No stage is too short to be seen or long enough to be in the way.
pub proof fn law_stages_are_bounded(emphasis: SidebarTokenEmphasis, ms: u64, moves: bool)
    ensures
        row_stage(emphasis, ms, moves) matches Some(stage) ==> 60 <= stage.duration_ms <= 1_500,
        bounded_stage(emphasis, ms, 60, 1_500) matches Some(stage) ==> 60 <= stage.duration_ms
            <= 1_500,
{
}

} // verus!
