//! The sidebar's tables: the agents panel, the spaces panel, and all of them together.

use crate::config::animation;
use crate::config::animation::{
    SidebarAnimationConfig, SidebarNotificationsConfig, SidebarSignalTrayConfig,
};
use crate::config::layouts;
use crate::config::layouts::{
    collect_behaviours, demands_of, push_layout_behaviours, read_layout, read_rows_by_agent, Rows,
    RowsByAgent,
};
use crate::config::rows::{AgentSidebarToken, SpaceSidebarToken};
use crate::config::tokens::Behaviour;
use crate::config::value;
use crate::config::value::{read_u16, wrong_type_message, ConfigValue};
use crate::config::view::AgentsViewConfig;
use crate::text::same_text;
use vstd::prelude::*;

verus! {

// ---------------------------------------------------------------------------
// The agents panel
// ---------------------------------------------------------------------------

/// The agents panel: its rows, other rows for single agents, and the view that is declared.
#[derive(Debug, PartialEq, Eq)]
pub struct AgentsSidebarConfig<F, S> {
    pub rows: Rows<AgentSidebarToken>,
    pub rows_by_agent: RowsByAgent,
    pub row_gap: u16,
    pub view: AgentsViewConfig<F, S>,
}

/// The rows of an agent where nothing else is said.
pub open spec fn default_agent_rows(rows: Seq<Vec<AgentSidebarToken>>) -> bool {
    &&& rows.len() == 2
    &&& rows[0]@ == seq![
        AgentSidebarToken::StateIcon,
        AgentSidebarToken::Workspace,
        AgentSidebarToken::Tab,
    ]
    &&& rows[1]@ == seq![AgentSidebarToken::Agent]
}

fn agent_rows() -> (rows: Rows<AgentSidebarToken>)
    ensures
        default_agent_rows(rows@),
{
    let mut first: Vec<AgentSidebarToken> = Vec::new();
    first.push(AgentSidebarToken::StateIcon);
    first.push(AgentSidebarToken::Workspace);
    first.push(AgentSidebarToken::Tab);
    let mut second: Vec<AgentSidebarToken> = Vec::new();
    second.push(AgentSidebarToken::Agent);
    assert(first@ =~= seq![
        AgentSidebarToken::StateIcon,
        AgentSidebarToken::Workspace,
        AgentSidebarToken::Tab,
    ]);
    assert(second@ =~= seq![AgentSidebarToken::Agent]);
    let mut rows: Rows<AgentSidebarToken> = Vec::new();
    rows.push(first);
    rows.push(second);
    rows
}

/// An entry of the panel's table has no mistake. Keys that the panel does not have are passed
/// over.
pub open spec fn agents_entry_accepted(
    canonical: Seq<String>,
    key: Seq<char>,
    v: ConfigValue,
) -> bool {
    if key == "rows"@ {
        layouts::layout_error::<AgentSidebarToken>(v) is None
    } else if key == "rows_by_agent"@ {
        layouts::by_agent_accepted(canonical, v)
    } else if key == "row_gap"@ {
        value::spec_u16(v) is Ok
    } else {
        true
    }
}

/// The complaint about an entry of the panel's table.
pub open spec fn agents_entry_refused(
    canonical: Seq<String>,
    key: Seq<char>,
    v: ConfigValue,
    complaint: Seq<char>,
) -> bool {
    if key == "rows"@ {
        layouts::layout_error::<AgentSidebarToken>(v) == Some(complaint)
    } else if key == "rows_by_agent"@ {
        layouts::by_agent_refused(canonical, v, complaint)
    } else if key == "row_gap"@ {
        value::spec_u16(v) == Err::<u16, Seq<char>>(complaint)
    } else {
        false
    }
}

/// The first wrong entry is the one at `n`.
pub open spec fn agents_refused_at(
    canonical: Seq<String>,
    entries: Seq<(String, ConfigValue)>,
    n: int,
    complaint: Seq<char>,
) -> bool {
    &&& 0 <= n < entries.len()
    &&& agents_entry_refused(canonical, entries[n].0@, entries[n].1, complaint)
    &&& forall|i: int|
        #![trigger entries[i]]
        0 <= i < n ==> agents_entry_accepted(canonical, entries[i].0@, entries[i].1)
}

/// The table is refused at its first wrong entry.
pub open spec fn agents_refused(canonical: Seq<String>, v: ConfigValue, complaint: Seq<char>) -> bool {
    match v {
        ConfigValue::Table(entries) => exists|n: int| #[trigger]
            agents_refused_at(canonical, entries@, n, complaint),
        _ => complaint == value::wrong_type("a table"@),
    }
}

/// All entries of the table are right.
pub open spec fn agents_accepted(canonical: Seq<String>, v: ConfigValue) -> bool {
    v matches ConfigValue::Table(entries) && forall|i: int|
        #![trigger entries@[i]]
        0 <= i < entries@.len() ==> agents_entry_accepted(
            canonical,
            entries@[i].0@,
            entries@[i].1,
        )
}

/// The panel is what its table says, and the default where the table says nothing.
pub open spec fn agents_as_written<F, S>(
    entries: Seq<(String, ConfigValue)>,
    config: AgentsSidebarConfig<F, S>,
) -> bool {
    &&& match value::last_value(entries, "rows"@) {
        Some(v) => layouts::is_layout(v, config.rows@),
        None => default_agent_rows(config.rows@),
    }
    &&& match value::last_value(entries, "rows_by_agent"@) {
        Some(v) => layouts::is_by_agent(v, config.rows_by_agent@),
        None => config.rows_by_agent@.len() == 0,
    }
    &&& match value::last_value(entries, "row_gap"@) {
        Some(v) => value::spec_u16(v) == Ok::<u16, Seq<char>>(config.row_gap),
        None => config.row_gap == 0,
    }
}

/// Where an agent's own layout stands.
pub open spec fn agent_place(list: Seq<(String, Rows<AgentSidebarToken>)>, id: Seq<char>) -> Option<int>
    decreases list.len(),
{
    if list.len() == 0 {
        None
    } else if list[0].0@ == id {
        Some(0)
    } else {
        match agent_place(list.skip(1), id) {
            Some(k) => Some(k + 1),
            None => None,
        }
    }
}

impl<F, S> AgentsSidebarConfig<F, S> {
    /// The layouts are within their limits, and the single agents stand in id order.
    pub open spec fn wf(self) -> bool {
        &&& layouts::size_complaint(self.rows@) is None
        &&& layouts::in_id_order(self.rows_by_agent@)
        &&& forall|k: int|
            #![trigger self.rows_by_agent@[k]]
            0 <= k < self.rows_by_agent@.len() ==> layouts::size_complaint(
                self.rows_by_agent@[k].1@,
            ) is None
    }

    /// The panel where nothing is written, with a view.
    pub fn with_view(view: AgentsViewConfig<F, S>) -> (config: Self)
        ensures
            config.wf(),
            agents_as_written(Seq::empty(), config),
            config.view == view,
    {
        AgentsSidebarConfig { rows: agent_rows(), rows_by_agent: Vec::new(), row_gap: 0, view }
    }

    /// Reads the panel's table. Ids of single agents must be among `canonical`; `view` is what
    /// became of the table's declared view.
    pub fn read(v: &ConfigValue, canonical: &[String], view: AgentsViewConfig<F, S>) -> (result:
        Result<Self, String>)
        ensures
            match result {
                Ok(config) => {
                    &&& config.wf()
                    &&& agents_accepted(canonical@, *v)
                    &&& agents_as_written(v->Table_0@, config)
                    &&& config.view == view
                },
                Err(message) => agents_refused(canonical@, *v, message@),
            },
    {
        match v {
            ConfigValue::Table(entries) => {
                let mut config = Self::with_view(view);
                let mut i: usize = 0;
                assert(entries@.take(0) =~= Seq::empty());
                while i < entries.len()
                    invariant
                        i <= entries@.len(),
                        *v == ConfigValue::Table(*entries),
                        config.wf(),
                        config.view == view,
                        agents_as_written(entries@.take(i as int), config),
                        forall|n: int|
                            #![trigger entries@[n]]
                            0 <= n < i ==> agents_entry_accepted(
                                canonical@,
                                entries@[n].0@,
                                entries@[n].1,
                            ),
                    decreases entries@.len() - i,
                {
                    let key = entries[i].0.as_str();
                    let item = &entries[i].1;
                    proof {
                        assert(entries@.take(i + 1).drop_last() =~= entries@.take(i as int));
                        assert(entries@.take(i + 1).last() == entries@[i as int]);
                        lemma_panel_keys();
                    }
                    if same_text(key, "rows") {
                        match read_layout::<AgentSidebarToken>(item) {
                            Ok(rows) => config.rows = rows,
                            Err(message) => {
                                assert(v->Table_0@ == entries@);
                                assert(agents_refused_at(canonical@, v->Table_0@, i as int, message@));
                                return Err(message);
                            },
                        }
                    } else if same_text(key, "rows_by_agent") {
                        match read_rows_by_agent(item, canonical) {
                            Ok(list) => config.rows_by_agent = list,
                            Err(message) => {
                                assert(v->Table_0@ == entries@);
                                assert(agents_refused_at(canonical@, v->Table_0@, i as int, message@));
                                return Err(message);
                            },
                        }
                    } else if same_text(key, "row_gap") {
                        match read_u16(item) {
                            Ok(gap) => config.row_gap = gap,
                            Err(message) => {
                                assert(v->Table_0@ == entries@);
                                assert(agents_refused_at(canonical@, v->Table_0@, i as int, message@));
                                return Err(message);
                            },
                        }
                    }
                    i += 1;
                }
                assert(entries@.take(i as int) =~= entries@);
                Ok(config)
            },
            _ => Err(wrong_type_message("a table")),
        }
    }

    /// Whether any row, of single agents too, plays an animation.
    pub open spec fn any_animation(self) -> bool {
        layouts::animates(self.rows@) || exists|k: int|
            0 <= k < self.rows_by_agent@.len() && layouts::animates(
                (#[trigger] self.rows_by_agent@[k]).1@,
            )
    }

    /// Whether any row, of single agents too, shows a terminal's title.
    pub open spec fn any_title(self) -> bool {
        layouts::shows_title(self.rows@) || exists|k: int|
            0 <= k < self.rows_by_agent@.len() && layouts::shows_title(
                (#[trigger] self.rows_by_agent@[k]).1@,
            )
    }

    /// Whether any row, of single agents too, shows an elapsed time.
    pub open spec fn any_age(self) -> bool {
        layouts::shows_age(self.rows@) || exists|k: int|
            0 <= k < self.rows_by_agent@.len() && layouts::shows_age(
                (#[trigger] self.rows_by_agent@[k]).1@,
            )
    }

    fn demands(&self) -> (demands: layouts::LayoutDemands)
        ensures
            demands.title == self.any_title(),
            demands.age == self.any_age(),
            demands.animation == self.any_animation(),
    {
        let mut demands = demands_of(&self.rows);
        let ghost own = demands;
        let mut k: usize = 0;
        while k < self.rows_by_agent.len()
            invariant
                k <= self.rows_by_agent@.len(),
                demands.title == (own.title || exists|m: int|
                    0 <= m < k && layouts::shows_title((#[trigger] self.rows_by_agent@[m]).1@)),
                demands.age == (own.age || exists|m: int|
                    0 <= m < k && layouts::shows_age((#[trigger] self.rows_by_agent@[m]).1@)),
                demands.animation == (own.animation || exists|m: int|
                    0 <= m < k && layouts::animates((#[trigger] self.rows_by_agent@[m]).1@)),
            decreases self.rows_by_agent@.len() - k,
        {
            let more = demands_of(&self.rows_by_agent[k].1);
            proof {
                let here = self.rows_by_agent@[k as int];
                assert(forall|m: int|
                    0 <= m < k + 1 ==> m < k || #[trigger] self.rows_by_agent@[m] == here);
            }
            if more.title {
                demands.title = true;
            }
            if more.age {
                demands.age = true;
            }
            if more.animation {
                demands.animation = true;
            }
            k += 1;
        }
        demands
    }

    pub fn has_animated_tokens(&self) -> (animated: bool)
        ensures
            animated == self.any_animation(),
    {
        self.demands().animation
    }

    pub fn uses_terminal_title(&self) -> (used: bool)
        ensures
            used == self.any_title(),
    {
        self.demands().title
    }

    pub fn uses_state_age(&self) -> (used: bool)
        ensures
            used == self.any_age(),
    {
        self.demands().age
    }

    /// The rows of an agent: its own where there are any, else everybody's.
    pub fn rows_for_agent(&self, label: Option<&str>) -> (rows: &Rows<AgentSidebarToken>)
        ensures
            match label {
                Some(label) => match agent_place(self.rows_by_agent@, label@) {
                    Some(k) => *rows == self.rows_by_agent@[k].1,
                    None => *rows == self.rows,
                },
                None => *rows == self.rows,
            },
    {
        if let Some(id) = label {
            let mut k: usize = 0;
            assert(self.rows_by_agent@.skip(0) =~= self.rows_by_agent@);
            while k < self.rows_by_agent.len()
                invariant
                    k <= self.rows_by_agent@.len(),
                    label == Some(id),
                    agent_place(self.rows_by_agent@, id@) == match agent_place(
                        self.rows_by_agent@.skip(k as int),
                        id@,
                    ) {
                        Some(m) => Some(m + k),
                        None => None,
                    },
                decreases self.rows_by_agent@.len() - k,
            {
                assert(self.rows_by_agent@.skip(k as int)[0] == self.rows_by_agent@[k as int]);
                assert(self.rows_by_agent@.skip(k as int).skip(1) =~= self.rows_by_agent@.skip(
                    k + 1,
                ));
                if same_text(self.rows_by_agent[k].0.as_str(), id) {
                    return &self.rows_by_agent[k].1;
                }
                k += 1;
            }
        }
        &self.rows
    }

    /// Every behaviour that a row can be asked to play, once each.
    pub fn animated_behaviours(&self) -> (behaviours: Vec<Behaviour>)
        ensures
            behaviours@ == layouts::distinct(
                layouts::layout_behaviours(self.rows@) + layouts::by_agent_behaviours(
                    self.rows_by_agent@,
                ),
            ),
    {
        let mut all: Vec<Behaviour> = Vec::new();
        push_layout_behaviours(&mut all, &self.rows);
        let ghost own = layouts::layout_behaviours(self.rows@);
        let mut k: usize = 0;
        assert(all@ =~= own + layouts::by_agent_behaviours(self.rows_by_agent@.take(0)));
        while k < self.rows_by_agent.len()
            invariant
                k <= self.rows_by_agent@.len(),
                all@ == own + layouts::by_agent_behaviours(self.rows_by_agent@.take(k as int)),
            decreases self.rows_by_agent@.len() - k,
        {
            proof {
                assert(self.rows_by_agent@.take(k + 1).drop_last() =~= self.rows_by_agent@.take(
                    k as int,
                ));
                assert(self.rows_by_agent@.take(k + 1).last() == self.rows_by_agent@[k as int]);
            }
            push_layout_behaviours(&mut all, &self.rows_by_agent[k].1);
            assert(all@ =~= own + layouts::by_agent_behaviours(self.rows_by_agent@.take(k + 1)));
            k += 1;
        }
        assert(self.rows_by_agent@.take(k as int) =~= self.rows_by_agent@);
        collect_behaviours(&all)
    }
}

impl<F, S> Default for AgentsSidebarConfig<F, S> {
    fn default() -> (config: Self)
        ensures
            config.wf(),
            agents_as_written(Seq::empty(), config),
            config.view.is_empty_view(),
            config.view.diagnostic is None,
    {
        Self::with_view(AgentsViewConfig::default())
    }
}

/// The keys of the panels' tables are different.
proof fn lemma_panel_keys()
    ensures
        "rows"@ != "rows_by_agent"@,
        "rows"@ != "row_gap"@,
        "rows_by_agent"@ != "row_gap"@,
{
    reveal_strlit("rows");
    reveal_strlit("rows_by_agent");
    reveal_strlit("row_gap");
    assert("rows"@.len() == 4 && "rows_by_agent"@.len() == 13 && "row_gap"@.len() == 7);
}

// ---------------------------------------------------------------------------
// The spaces panel
// ---------------------------------------------------------------------------

/// The spaces panel.
#[derive(Debug, PartialEq, Eq)]
pub struct SpacesSidebarConfig {
    pub rows: Rows<SpaceSidebarToken>,
    pub row_gap: u16,
}

/// The rows of a space where nothing else is said.
pub open spec fn default_space_rows(rows: Seq<Vec<SpaceSidebarToken>>) -> bool {
    &&& rows.len() == 2
    &&& rows[0]@ == seq![SpaceSidebarToken::StateIcon, SpaceSidebarToken::Workspace]
    &&& rows[1]@ == seq![SpaceSidebarToken::Branch, SpaceSidebarToken::GitStatus]
}

fn space_rows() -> (rows: Rows<SpaceSidebarToken>)
    ensures
        default_space_rows(rows@),
{
    let mut first: Vec<SpaceSidebarToken> = Vec::new();
    first.push(SpaceSidebarToken::StateIcon);
    first.push(SpaceSidebarToken::Workspace);
    let mut second: Vec<SpaceSidebarToken> = Vec::new();
    second.push(SpaceSidebarToken::Branch);
    second.push(SpaceSidebarToken::GitStatus);
    assert(first@ =~= seq![SpaceSidebarToken::StateIcon, SpaceSidebarToken::Workspace]);
    assert(second@ =~= seq![SpaceSidebarToken::Branch, SpaceSidebarToken::GitStatus]);
    let mut rows: Rows<SpaceSidebarToken> = Vec::new();
    rows.push(first);
    rows.push(second);
    rows
}

/// The complaint about an entry of the panel's table.
pub open spec fn spaces_entry_error(key: Seq<char>, v: ConfigValue) -> Option<Seq<char>> {
    if key == "rows"@ {
        layouts::layout_error::<SpaceSidebarToken>(v)
    } else if key == "row_gap"@ {
        match value::spec_u16(v) {
            Ok(_) => None,
            Err(complaint) => Some(complaint),
        }
    } else {
        None
    }
}

/// The first complaint about the panel's table.
pub open spec fn spaces_error(entries: Seq<(String, ConfigValue)>) -> Option<Seq<char>>
    decreases entries.len(),
{
    if entries.len() == 0 {
        None
    } else {
        match spaces_error(entries.drop_last()) {
            Some(complaint) => Some(complaint),
            None => spaces_entry_error(entries.last().0@, entries.last().1),
        }
    }
}

pub open spec fn spaces_value_error(v: ConfigValue) -> Option<Seq<char>> {
    match v {
        ConfigValue::Table(entries) => spaces_error(entries@),
        _ => Some(value::wrong_type("a table"@)),
    }
}

proof fn lemma_spaces_error_stays(entries: Seq<(String, ConfigValue)>, n: int)
    requires
        0 <= n <= entries.len(),
        spaces_error(entries.take(n)) is Some,
    ensures
        spaces_error(entries) == spaces_error(entries.take(n)),
    decreases entries.len() - n,
{
    if n == entries.len() {
        assert(entries.take(n) =~= entries);
    } else {
        assert(entries.take(n + 1).drop_last() =~= entries.take(n));
        lemma_spaces_error_stays(entries, n + 1);
    }
}

/// The panel is what its table says, and the default where the table says nothing.
pub open spec fn spaces_as_written(
    entries: Seq<(String, ConfigValue)>,
    config: SpacesSidebarConfig,
) -> bool {
    &&& match value::last_value(entries, "rows"@) {
        Some(v) => layouts::is_layout(v, config.rows@),
        None => default_space_rows(config.rows@),
    }
    &&& match value::last_value(entries, "row_gap"@) {
        Some(v) => value::spec_u16(v) == Ok::<u16, Seq<char>>(config.row_gap),
        None => config.row_gap == 0,
    }
}

impl Default for SpacesSidebarConfig {
    fn default() -> (config: Self)
        ensures
            config.wf(),
            spaces_as_written(Seq::empty(), config),
    {
        SpacesSidebarConfig { rows: space_rows(), row_gap: 0 }
    }
}

impl SpacesSidebarConfig {
    /// The layout is within its limits.
    pub open spec fn wf(self) -> bool {
        layouts::size_complaint(self.rows@) is None
    }

    /// Reads the panel's table.
    pub fn read(v: &ConfigValue) -> (result: Result<Self, String>)
        ensures
            match result {
                Ok(config) => {
                    &&& config.wf()
                    &&& spaces_value_error(*v) is None
                    &&& spaces_as_written(v->Table_0@, config)
                },
                Err(message) => spaces_value_error(*v) == Some(message@),
            },
    {
        match v {
            ConfigValue::Table(entries) => {
                let mut config = SpacesSidebarConfig::default();
                let mut i: usize = 0;
                assert(entries@.take(0) =~= Seq::empty());
                while i < entries.len()
                    invariant
                        i <= entries@.len(),
                        *v == ConfigValue::Table(*entries),
                        config.wf(),
                        spaces_error(entries@.take(i as int)) is None,
                        spaces_as_written(entries@.take(i as int), config),
                    decreases entries@.len() - i,
                {
                    let key = entries[i].0.as_str();
                    let item = &entries[i].1;
                    proof {
                        assert(entries@.take(i + 1).drop_last() =~= entries@.take(i as int));
                        assert(entries@.take(i + 1).last() == entries@[i as int]);
                        lemma_panel_keys();
                    }
                    if same_text(key, "rows") {
                        match read_layout::<SpaceSidebarToken>(item) {
                            Ok(rows) => config.rows = rows,
                            Err(message) => {
                                proof {
                                    lemma_spaces_error_stays(entries@, i + 1);
                                }
                                return Err(message);
                            },
                        }
                    } else if same_text(key, "row_gap") {
                        match read_u16(item) {
                            Ok(gap) => config.row_gap = gap,
                            Err(message) => {
                                proof {
                                    lemma_spaces_error_stays(entries@, i + 1);
                                }
                                return Err(message);
                            },
                        }
                    }
                    i += 1;
                }
                assert(entries@.take(i as int) =~= entries@);
                Ok(config)
            },
            _ => Err(wrong_type_message("a table")),
        }
    }

    pub fn uses_terminal_title(&self) -> (used: bool)
        ensures
            used == layouts::shows_title(self.rows@),
    {
        demands_of(&self.rows).title
    }

    pub fn has_animated_tokens(&self) -> (animated: bool)
        ensures
            animated == layouts::animates(self.rows@),
    {
        demands_of(&self.rows).animation
    }

    pub fn uses_state_age(&self) -> (used: bool)
        ensures
            used == layouts::shows_age(self.rows@),
    {
        demands_of(&self.rows).age
    }

    /// Every behaviour that a row can be asked to play, once each.
    pub fn animated_behaviours(&self) -> (behaviours: Vec<Behaviour>)
        ensures
            behaviours@ == layouts::distinct(layouts::layout_behaviours(self.rows@)),
    {
        let mut all: Vec<Behaviour> = Vec::new();
        push_layout_behaviours(&mut all, &self.rows);
        assert(all@ =~= layouts::layout_behaviours(self.rows@));
        collect_behaviours(&all)
    }
}

// ---------------------------------------------------------------------------
// The whole sidebar
// ---------------------------------------------------------------------------

/// The sidebar's configuration.
#[derive(Debug, PartialEq, Eq)]
pub struct SidebarConfig<F, S> {
    pub agents: AgentsSidebarConfig<F, S>,
    pub spaces: SpacesSidebarConfig,
    pub animation: SidebarAnimationConfig,
    pub notifications: SidebarNotificationsConfig,
    pub signal_tray: SidebarSignalTrayConfig,
}

/// An entry of the sidebar's table has no mistake. Other keys are passed over.
pub open spec fn sidebar_entry_accepted(
    canonical: Seq<String>,
    key: Seq<char>,
    v: ConfigValue,
) -> bool {
    if key == "agents"@ {
        agents_accepted(canonical, v)
    } else if key == "spaces"@ {
        spaces_value_error(v) is None
    } else if key == "animation"@ {
        animation::spec_animation(v) is Ok
    } else if key == "notifications"@ {
        animation::spec_notifications(v) is Ok
    } else if key == "signal_tray"@ {
        animation::spec_tray(v) is Ok
    } else {
        true
    }
}

/// The complaint about an entry of the sidebar's table.
pub open spec fn sidebar_entry_refused(
    canonical: Seq<String>,
    key: Seq<char>,
    v: ConfigValue,
    complaint: Seq<char>,
) -> bool {
    if key == "agents"@ {
        agents_refused(canonical, v, complaint)
    } else if key == "spaces"@ {
        spaces_value_error(v) == Some(complaint)
    } else if key == "animation"@ {
        animation::spec_animation(v) == Err::<SidebarAnimationConfig, Seq<char>>(complaint)
    } else if key == "notifications"@ {
        animation::spec_notifications(v) == Err::<SidebarNotificationsConfig, Seq<char>>(complaint)
    } else if key == "signal_tray"@ {
        animation::spec_tray(v) == Err::<SidebarSignalTrayConfig, Seq<char>>(complaint)
    } else {
        false
    }
}

/// The first wrong entry is the one at `n`.
pub open spec fn sidebar_refused_at(
    canonical: Seq<String>,
    entries: Seq<(String, ConfigValue)>,
    n: int,
    complaint: Seq<char>,
) -> bool {
    &&& 0 <= n < entries.len()
    &&& sidebar_entry_refused(canonical, entries[n].0@, entries[n].1, complaint)
    &&& forall|i: int|
        #![trigger entries[i]]
        0 <= i < n ==> sidebar_entry_accepted(canonical, entries[i].0@, entries[i].1)
}

/// The table is refused at its first wrong entry.
pub open spec fn sidebar_refused(
    canonical: Seq<String>,
    v: ConfigValue,
    complaint: Seq<char>,
) -> bool {
    match v {
        ConfigValue::Table(entries) => exists|n: int| #[trigger]
            sidebar_refused_at(canonical, entries@, n, complaint),
        _ => complaint == value::wrong_type("a table"@),
    }
}

/// All entries of the table are right.
pub open spec fn sidebar_accepted(canonical: Seq<String>, v: ConfigValue) -> bool {
    v matches ConfigValue::Table(entries) && forall|i: int|
        #![trigger entries@[i]]
        0 <= i < entries@.len() ==> sidebar_entry_accepted(
            canonical,
            entries@[i].0@,
            entries@[i].1,
        )
}

/// The entries of a table; none of anything else.
pub open spec fn entries_of(v: Option<ConfigValue>) -> Seq<(String, ConfigValue)> {
    match v {
        Some(ConfigValue::Table(entries)) => entries@,
        _ => Seq::empty(),
    }
}

/// The sidebar is what its table says, and the default where the table says nothing.
pub open spec fn sidebar_as_written<F, S>(
    entries: Seq<(String, ConfigValue)>,
    config: SidebarConfig<F, S>,
) -> bool {
    &&& agents_as_written(entries_of(value::last_value(entries, "agents"@)), config.agents)
    &&& spaces_as_written(entries_of(value::last_value(entries, "spaces"@)), config.spaces)
    &&& animation::animation_entries(entries_of(value::last_value(entries, "animation"@))) == Ok::<
        SidebarAnimationConfig,
        Seq<char>,
    >(config.animation)
    &&& animation::notifications_entries(
        entries_of(value::last_value(entries, "notifications"@)),
    ) == Ok::<SidebarNotificationsConfig, Seq<char>>(config.notifications)
    &&& animation::tray_entries(entries_of(value::last_value(entries, "signal_tray"@))) == Ok::<
        SidebarSignalTrayConfig,
        Seq<char>,
    >(config.signal_tray)
}

/// The keys of the sidebar's table are different.
proof fn lemma_sidebar_keys()
    ensures
        "agents"@ != "spaces"@,
        "agents"@ != "animation"@,
        "agents"@ != "notifications"@,
        "agents"@ != "signal_tray"@,
        "spaces"@ != "animation"@,
        "spaces"@ != "notifications"@,
        "spaces"@ != "signal_tray"@,
        "animation"@ != "notifications"@,
        "animation"@ != "signal_tray"@,
        "notifications"@ != "signal_tray"@,
{
    reveal_strlit("agents");
    reveal_strlit("spaces");
    reveal_strlit("animation");
    reveal_strlit("notifications");
    reveal_strlit("signal_tray");
    assert("agents"@[0] == 'a' && "agents"@.len() == 6 && "spaces"@[0] == 's' && "spaces"@.len()
        == 6);
    assert("animation"@.len() == 9 && "notifications"@.len() == 13 && "signal_tray"@.len() == 11);
}

impl<F, S> SidebarConfig<F, S> {
    pub open spec fn wf(self) -> bool {
        self.agents.wf() && self.spaces.wf()
    }

    /// The sidebar where nothing is written, with a view of the agents panel.
    pub fn with_view(view: AgentsViewConfig<F, S>) -> (config: Self)
        ensures
            config.wf(),
            sidebar_as_written(Seq::empty(), config),
            config.agents.view == view,
    {
        SidebarConfig {
            agents: AgentsSidebarConfig::with_view(view),
            spaces: SpacesSidebarConfig::default(),
            animation: SidebarAnimationConfig::default(),
            notifications: SidebarNotificationsConfig::default(),
            signal_tray: SidebarSignalTrayConfig::default(),
        }
    }

    /// Reads the sidebar's table. `view` is what became of the agents panel's declared view.
    pub fn read(v: &ConfigValue, canonical: &[String], view: AgentsViewConfig<F, S>) -> (result:
        Result<Self, String>)
        ensures
            match result {
                Ok(config) => {
                    &&& config.wf()
                    &&& sidebar_accepted(canonical@, *v)
                    &&& sidebar_as_written(v->Table_0@, config)
                    &&& config.agents.view == view
                },
                Err(message) => sidebar_refused(canonical@, *v, message@),
            },
    {
        match v {
            ConfigValue::Table(entries) => {
                let mut config = Self::with_view(view);
                let mut i: usize = 0;
                assert(entries@.take(0) =~= Seq::empty());
                while i < entries.len()
                    invariant
                        i <= entries@.len(),
                        *v == ConfigValue::Table(*entries),
                        config.wf(),
                        config.agents.view == view,
                        sidebar_as_written(entries@.take(i as int), config),
                        forall|n: int|
                            #![trigger entries@[n]]
                            0 <= n < i ==> sidebar_entry_accepted(
                                canonical@,
                                entries@[n].0@,
                                entries@[n].1,
                            ),
                    decreases entries@.len() - i,
                {
                    let key = entries[i].0.as_str();
                    let item = &entries[i].1;
                    proof {
                        assert(entries@.take(i + 1).drop_last() =~= entries@.take(i as int));
                        assert(entries@.take(i + 1).last() == entries@[i as int]);
                        lemma_sidebar_keys();
                    }
                    let refused: Option<String>;
                    if same_text(key, "agents") {
                        let SidebarConfig {
                            agents,
                            spaces,
                            animation,
                            notifications,
                            signal_tray,
                        } = config;
                        match AgentsSidebarConfig::read(item, canonical, agents.view) {
                            Ok(agents) => {
                                config = SidebarConfig {
                                    agents,
                                    spaces,
                                    animation,
                                    notifications,
                                    signal_tray,
                                };
                            },
                            Err(message) => {
                                assert(v->Table_0@ == entries@);
                                assert(sidebar_refused_at(canonical@, v->Table_0@, i as int, message@));
                                return Err(message);
                            },
                        }
                        refused = None;
                    } else if same_text(key, "spaces") {
                        match SpacesSidebarConfig::read(item) {
                            Ok(spaces) => {
                                config.spaces = spaces;
                                refused = None;
                            },
                            Err(message) => refused = Some(message),
                        }
                    } else if same_text(key, "animation") {
                        match SidebarAnimationConfig::read(item) {
                            Ok(animation) => {
                                config.animation = animation;
                                refused = None;
                            },
                            Err(message) => refused = Some(message),
                        }
                    } else if same_text(key, "notifications") {
                        match SidebarNotificationsConfig::read(item) {
                            Ok(notifications) => {
                                config.notifications = notifications;
                                refused = None;
                            },
                            Err(message) => refused = Some(message),
                        }
                    } else if same_text(key, "signal_tray") {
                        match SidebarSignalTrayConfig::read(item) {
                            Ok(signal_tray) => {
                                config.signal_tray = signal_tray;
                                refused = None;
                            },
                            Err(message) => refused = Some(message),
                        }
                    } else {
                        refused = None;
                    }
                    if let Some(message) = refused {
                        assert(v->Table_0@ == entries@);
                        assert(sidebar_refused_at(canonical@, v->Table_0@, i as int, message@));
                        return Err(message);
                    }
                    i += 1;
                }
                assert(entries@.take(i as int) =~= entries@);
                Ok(config)
            },
            _ => Err(wrong_type_message("a table")),
        }
    }
}

impl<F, S> Default for SidebarConfig<F, S> {
    fn default() -> (config: Self)
        ensures
            config.wf(),
            sidebar_as_written(Seq::empty(), config),
            config.agents.view.is_empty_view(),
            config.agents.view.diagnostic is None,
    {
        Self::with_view(AgentsViewConfig::default())
    }
}

} // verus!
