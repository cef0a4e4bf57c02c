//! Writing the panels down, so that reading gives them back.

use crate::config::layouts;
use crate::config::layouts::{Rows, RowsByAgent};
use crate::config::rows;
use crate::config::rows::{write_token, AgentSidebarToken, SidebarToken};
use crate::config::sidebar;
use crate::config::sidebar::{AgentsSidebarConfig, SpacesSidebarConfig};
use crate::config::value;
use crate::config::value::ConfigValue;
use crate::text;
use vstd::prelude::*;
use vstd::string::*;

verus! {

/// A value is what is written for a row.
pub open spec fn row_written<T: SidebarToken>(v: ConfigValue, row: Seq<T>) -> bool {
    &&& layouts::items(v) is Some
    &&& layouts::items(v)->0.len() == row.len()
    &&& forall|j: int|
        #![trigger row[j]]
        0 <= j < row.len() ==> rows::is_written(layouts::items(v)->0[j], row[j])
}

/// A value is what is written for a layout.
pub open spec fn layout_written<T: SidebarToken>(v: ConfigValue, layout: Seq<Vec<T>>) -> bool {
    &&& layouts::items(v) is Some
    &&& layouts::items(v)->0.len() == layout.len()
    &&& forall|i: int|
        #![trigger layout[i]]
        0 <= i < layout.len() ==> row_written(layouts::items(v)->0[i], layout[i]@)
}

fn write_row<T: SidebarToken>(row: &Vec<T>) -> (v: ConfigValue)
    ensures
        row_written(v, row@),
{
    let mut list: Vec<ConfigValue> = Vec::new();
    let mut j: usize = 0;
    while j < row.len()
        invariant
            j <= row@.len(),
            list@.len() == j,
            forall|k: int|
                #![trigger row@[k]]
                0 <= k < j ==> rows::is_written(list@[k], row@[k]),
        decreases row@.len() - j,
    {
        list.push(write_token(&row[j]));
        j += 1;
    }
    let ghost written = list@;
    let v = ConfigValue::List(list);
    assert(layouts::items(v)->0 == written);
    v
}

/// Writes a layout: a list of rows, each a list of tokens.
pub fn write_layout<T: SidebarToken>(layout: &Rows<T>) -> (v: ConfigValue)
    ensures
        layout_written(v, layout@),
{
    let mut list: Vec<ConfigValue> = Vec::new();
    let mut i: usize = 0;
    while i < layout.len()
        invariant
            i <= layout@.len(),
            list@.len() == i,
            forall|k: int|
                #![trigger layout@[k]]
                0 <= k < i ==> row_written(list@[k], layout@[k]@),
        decreases layout@.len() - i,
    {
        list.push(write_row(&layout[i]));
        i += 1;
    }
    let ghost written = list@;
    let v = ConfigValue::List(list);
    assert(layouts::items(v)->0 == written);
    v
}

/// A token that can be written by its name: a styled token styles a plain one, and a custom name
/// is one that a configuration may use.
pub open spec fn known_token<T: SidebarToken>(token: T) -> bool {
    &&& rows::is_token_name::<T>(token.spelled())
    &&& rows::written_as(token, token.spelled(), token.own_style())
}

pub open spec fn known_row<T: SidebarToken>(row: Seq<T>) -> bool {
    forall|j: int| #![trigger row[j]] 0 <= j < row.len() ==> known_token(row[j])
}

/// A layout whose tokens can all be written.
pub open spec fn known_layout<T: SidebarToken>(layout: Seq<Vec<T>>) -> bool {
    forall|i: int| #![trigger layout[i]] 0 <= i < layout.len() ==> known_row(layout[i]@)
}

/// Two layouts with the same names and styles in the same places.
pub open spec fn alike<T: SidebarToken>(a: Seq<Vec<T>>, b: Seq<Vec<T>>) -> bool {
    &&& a.len() == b.len()
    &&& forall|i: int, j: int|
        #![trigger a[i]@[j]]
        0 <= i < a.len() && 0 <= j < a[i]@.len() ==> j < b[i]@.len() && a[i]@[j].spelled()
            == b[i]@[j].spelled() && a[i]@[j].own_style() == b[i]@[j].own_style()
    &&& forall|i: int| #![trigger b[i]] 0 <= i < a.len() ==> b[i]@.len() == a[i]@.len()
}

proof fn lemma_row_round_trip<T: SidebarToken>(v: ConfigValue, row: Seq<T>)
    requires
        row_written(v, row),
        known_row(row),
    ensures
        layouts::row_value_error::<T>(v) is None,
        layouts::is_row(v, row),
{
    let list = layouts::items(v)->0;
    assert forall|j: int| #![trigger row[j]] 0 <= j < row.len() implies rows::is_token(
        list[j],
        row[j],
    ) by {
        rows::law_token_round_trip(row[j], list[j]);
    }
    lemma_no_row_error(list, row);
}

proof fn lemma_no_row_error<T: SidebarToken>(list: Seq<ConfigValue>, row: Seq<T>)
    requires
        list.len() == row.len(),
        forall|j: int|
            #![trigger row[j]]
            0 <= j < row.len() ==> rows::is_token(list[j], row[j]),
    ensures
        layouts::row_error::<T>(list) is None,
    decreases row.len(),
{
    if row.len() > 0 {
        assert(rows::is_token(list.last(), row[row.len() - 1]));
        assert forall|j: int|
            #![trigger row.drop_last()[j]]
            0 <= j < row.drop_last().len() implies rows::is_token(
            list.drop_last()[j],
            row.drop_last()[j],
        ) by {
            assert(row.drop_last()[j] == row[j]);
        }
        lemma_no_row_error(list.drop_last(), row.drop_last());
    }
}

proof fn lemma_no_rows_error<T: SidebarToken>(list: Seq<ConfigValue>)
    requires
        forall|i: int|
            0 <= i < list.len() ==> layouts::row_value_error::<T>(#[trigger] list[i]) is None,
    ensures
        layouts::rows_error::<T>(list) is None,
    decreases list.len(),
{
    if list.len() > 0 {
        assert forall|i: int| 0 <= i < list.drop_last().len() implies layouts::row_value_error::<T>(
            #[trigger] list.drop_last()[i],
        ) is None by {
            assert(list.drop_last()[i] == list[i]);
        }
        lemma_no_rows_error::<T>(list.drop_last());
    }
}

/// What is written for a layout within its limits is read as that layout again: the same tokens
/// in the same places, and nothing that is read from it differs from it in a name or a style.
pub proof fn law_layout_round_trip<T: SidebarToken>(
    v: ConfigValue,
    layout: Seq<Vec<T>>,
    read: Seq<Vec<T>>,
)
    requires
        layout_written(v, layout),
        known_layout(layout),
        layouts::size_complaint(layout) is None,
    ensures
        layouts::layout_error::<T>(v) is None,
        layouts::is_layout(v, layout),
        layouts::is_layout(v, read) ==> alike(layout, read),
{
    let list = layouts::items(v)->0;
    assert forall|i: int|
        #![trigger layout[i]]
        0 <= i < layout.len() implies layouts::row_value_error::<T>(list[i]) is None
        && layouts::is_row(list[i], layout[i]@) by {
        lemma_row_round_trip(list[i], layout[i]@);
    }
    assert forall|i: int| 0 <= i < list.len() implies layouts::row_value_error::<T>(
        #[trigger] list[i],
    ) is None by {
        assert(layouts::is_row(list[i], layout[i]@));
    }
    lemma_no_rows_error::<T>(list);
    layouts::lemma_size_complaint(v, layout);
    if layouts::is_layout(v, read) {
        assert forall|i: int, j: int|
            #![trigger layout[i]@[j]]
            0 <= i < layout.len() && 0 <= j < layout[i]@.len() implies j < read[i]@.len()
            && layout[i]@[j].spelled() == read[i]@[j].spelled() && layout[i]@[j].own_style()
            == read[i]@[j].own_style() by {
            assert(layouts::is_row(list[i], layout[i]@));
            assert(layouts::is_row(list[i], read[i]@));
            assert(rows::is_token(layouts::items(list[i])->0[j], layout[i]@[j]));
            assert(rows::is_token(layouts::items(list[i])->0[j], read[i]@[j]));
        }
        assert forall|i: int| #![trigger read[i]] 0 <= i < layout.len() implies read[i]@.len()
            == layout[i]@.len() by {
            assert(layouts::is_row(list[i], layout[i]@));
            assert(layouts::is_row(list[i], read[i]@));
        }
    }
}

// ---------------------------------------------------------------------------
// The spaces panel
// ---------------------------------------------------------------------------

/// The entries are what is written for the spaces panel.
pub open spec fn spaces_written(
    entries: Seq<(String, ConfigValue)>,
    config: SpacesSidebarConfig,
) -> bool {
    &&& entries.len() == 2
    &&& entries[0].0@ == "rows"@
    &&& layout_written(entries[0].1, config.rows@)
    &&& entries[1].0@ == "row_gap"@
    &&& entries[1].1 == ConfigValue::Integer(config.row_gap as i64)
}

impl SpacesSidebarConfig {
    /// Writes the panel's table.
    pub fn write(&self) -> (v: ConfigValue)
        ensures
            v matches ConfigValue::Table(entries) && spaces_written(entries@, *self),
    {
        let mut entries: Vec<(String, ConfigValue)> = Vec::new();
        entries.push(("rows".to_owned(), write_layout(&self.rows)));
        entries.push(("row_gap".to_owned(), ConfigValue::Integer(self.row_gap as i64)));
        assert(spaces_written(entries@, *self));
        ConfigValue::Table(entries)
    }
}

/// What is written for the spaces panel is read as that panel again.
pub proof fn law_spaces_round_trip(
    entries: Seq<(String, ConfigValue)>,
    config: SpacesSidebarConfig,
)
    requires
        spaces_written(entries, config),
        config.wf(),
        known_layout(config.rows@),
    ensures
        sidebar::spaces_error(entries) is None,
        sidebar::spaces_as_written(entries, config),
{
    reveal_strlit("rows");
    reveal_strlit("row_gap");
    assert("rows"@.len() != "row_gap"@.len());
    law_layout_round_trip(entries[0].1, config.rows@, config.rows@);
    let first = entries.drop_last();
    assert(first.drop_last() =~= Seq::empty());
    assert(first.last() == entries[0]);
    assert(entries.last() == entries[1]);
    reveal_with_fuel(sidebar::spaces_error, 3);
    reveal_with_fuel(value::last_value, 3);
}

// ---------------------------------------------------------------------------
// The agents panel
// ---------------------------------------------------------------------------

/// The entries are what is written for the layouts of single agents.
pub open spec fn by_agent_written(
    entries: Seq<(String, ConfigValue)>,
    list: Seq<(String, Rows<AgentSidebarToken>)>,
) -> bool {
    &&& entries.len() == list.len()
    &&& forall|k: int|
        #![trigger list[k]]
        0 <= k < list.len() ==> entries[k].0@ == list[k].0@ && layout_written(
            entries[k].1,
            list[k].1@,
        )
}

/// Writes the layouts of single agents, in the order of their ids.
pub fn write_rows_by_agent(list: &RowsByAgent) -> (v: ConfigValue)
    ensures
        v matches ConfigValue::Table(entries) && by_agent_written(entries@, list@),
{
    let mut entries: Vec<(String, ConfigValue)> = Vec::new();
    let mut k: usize = 0;
    while k < list.len()
        invariant
            k <= list@.len(),
            entries@.len() == k,
            forall|m: int|
                #![trigger list@[m]]
                0 <= m < k ==> entries@[m].0@ == list@[m].0@ && layout_written(
                    entries@[m].1,
                    list@[m].1@,
                ),
        decreases list@.len() - k,
    {
        let entry = (text::duplicate(list[k].0.as_str()), write_layout(&list[k].1));
        entries.push(entry);
        k += 1;
    }
    assert(by_agent_written(entries@, list@));
    ConfigValue::Table(entries)
}

/// The layout that counts for an id is its own.
proof fn lemma_own_value(
    entries: Seq<(String, ConfigValue)>,
    list: Seq<(String, Rows<AgentSidebarToken>)>,
    n: int,
    id: Seq<char>,
)
    requires
        by_agent_written(entries, list),
        layouts::in_id_order(list),
        0 <= n <= list.len(),
    ensures
        match value::last_value(entries.take(n), id) {
            Some(v) => exists|k: int|
                0 <= k < n && (#[trigger] list[k]).0@ == id && v == entries[k].1,
            None => forall|k: int| 0 <= k < n ==> (#[trigger] list[k]).0@ != id,
        },
    decreases n,
{
    if n > 0 {
        assert(entries.take(n).drop_last() =~= entries.take(n - 1));
        assert(entries.take(n).last() == entries[n - 1]);
        assert(entries[n - 1].0@ == list[n - 1].0@);
        lemma_own_value(entries, list, n - 1, id);
    }
}

proof fn lemma_no_token_error(
    entries: Seq<(String, ConfigValue)>,
    list: Seq<(String, Rows<AgentSidebarToken>)>,
    n: int,
)
    requires
        by_agent_written(entries, list),
        0 <= n <= list.len(),
        forall|k: int|
            #![trigger list[k]]
            0 <= k < list.len() ==> known_layout(list[k].1@) && layouts::size_complaint(
                list[k].1@,
            ) is None,
    ensures
        layouts::by_agent_token_error(entries.take(n)) is None,
    decreases n,
{
    if n > 0 {
        assert(entries.take(n).drop_last() =~= entries.take(n - 1));
        assert(entries.take(n).last() == entries[n - 1]);
        lemma_no_token_error(entries, list, n - 1);
        let own = list[n - 1];
        law_layout_round_trip(entries[n - 1].1, own.1@, own.1@);
    }
}

/// What is written for the layouts of single agents is read as those layouts again.
pub proof fn law_by_agent_round_trip(
    v: ConfigValue,
    canonical: Seq<String>,
    list: Seq<(String, Rows<AgentSidebarToken>)>,
)
    requires
        v matches ConfigValue::Table(entries) && by_agent_written(entries@, list),
        layouts::in_id_order(list),
        forall|k: int|
            #![trigger list[k]]
            0 <= k < list.len() ==> layouts::is_canonical(canonical, list[k].0@) && known_layout(
                list[k].1@,
            ) && layouts::size_complaint(list[k].1@) is None,
    ensures
        layouts::by_agent_accepted(canonical, v),
        layouts::is_by_agent(v, list),
{
    let entries = v->Table_0@;
    assert(entries.take(entries.len() as int) =~= entries);
    lemma_no_token_error(entries, list, list.len() as int);
    assert forall|k: int|
        #![trigger list[k]]
        0 <= k < list.len() implies value::last_value(entries, list[k].0@) is Some
        && layouts::is_layout(value::last_value(entries, list[k].0@)->0, list[k].1@) by {
        lemma_own_value(entries, list, list.len() as int, list[k].0@);
        let m = choose|m: int|
            0 <= m < list.len() && (#[trigger] list[m]).0@ == list[k].0@ && value::last_value(
                entries,
                list[k].0@,
            )->0 == entries[m].1;
        text::lemma_lex_irreflexive(list[k].0@);
        assert(m == k) by {
            if m < k {
                assert(text::lex_before(list[m].0@, list[k].0@));
            } else if k < m {
                assert(text::lex_before(list[k].0@, list[m].0@));
            }
        }
        law_layout_round_trip(entries[k].1, list[k].1@, list[k].1@);
    }
    assert forall|id: Seq<char>| #[trigger] value::last_value(entries, id) is Some implies exists|
        k: int,
    |
        0 <= k < list.len() && (#[trigger] list[k]).0@ == id by {
        lemma_own_value(entries, list, list.len() as int, id);
    }
    assert forall|id: Seq<char>| #[trigger]
        value::last_value(entries, id) is Some implies layouts::agent_complaint(
        canonical,
        id,
        value::last_value(entries, id)->0,
    ) is None by {
        let k = choose|k: int| 0 <= k < list.len() && (#[trigger] list[k]).0@ == id;
        assert(layouts::is_layout(value::last_value(entries, list[k].0@)->0, list[k].1@));
        layouts::lemma_size_complaint(value::last_value(entries, id)->0, list[k].1@);
    }
}

/// The entries are what is written for the agents panel, with `view` for its view.
pub open spec fn agents_written<F, S>(
    entries: Seq<(String, ConfigValue)>,
    config: AgentsSidebarConfig<F, S>,
    view: ConfigValue,
) -> bool {
    &&& entries.len() == 4
    &&& entries[0].0@ == "rows"@
    &&& layout_written(entries[0].1, config.rows@)
    &&& entries[1].0@ == "rows_by_agent"@
    &&& entries[1].1 matches ConfigValue::Table(list)
    &&& by_agent_written(list@, config.rows_by_agent@)
    &&& entries[2].0@ == "row_gap"@
    &&& entries[2].1 == ConfigValue::Integer(config.row_gap as i64)
    &&& entries[3].0@ == "view"@
    &&& entries[3].1 == view
}

impl<F, S> AgentsSidebarConfig<F, S> {
    /// Writes the panel's table, with what is written for its view.
    pub fn write(&self, view: ConfigValue) -> (v: ConfigValue)
        ensures
            v matches ConfigValue::Table(entries) && agents_written(entries@, *self, view),
    {
        let mut entries: Vec<(String, ConfigValue)> = Vec::new();
        entries.push(("rows".to_owned(), write_layout(&self.rows)));
        entries.push(("rows_by_agent".to_owned(), write_rows_by_agent(&self.rows_by_agent)));
        entries.push(("row_gap".to_owned(), ConfigValue::Integer(self.row_gap as i64)));
        entries.push(("view".to_owned(), view));
        assert(agents_written(entries@, *self, view));
        ConfigValue::Table(entries)
    }
}

/// What is written for the agents panel is read as that panel again. The ids of its single agents
/// must be agents' own.
pub proof fn law_agents_round_trip<F, S>(
    v: ConfigValue,
    canonical: Seq<String>,
    config: AgentsSidebarConfig<F, S>,
    view: ConfigValue,
)
    requires
        v matches ConfigValue::Table(entries) && agents_written(entries@, config, view),
        config.wf(),
        known_layout(config.rows@),
        forall|k: int|
            #![trigger config.rows_by_agent@[k]]
            0 <= k < config.rows_by_agent@.len() ==> layouts::is_canonical(
                canonical,
                config.rows_by_agent@[k].0@,
            ) && known_layout(config.rows_by_agent@[k].1@),
    ensures
        sidebar::agents_accepted(canonical, v),
        sidebar::agents_as_written(v->Table_0@, config),
{
    reveal_strlit("rows");
    reveal_strlit("rows_by_agent");
    reveal_strlit("row_gap");
    reveal_strlit("view");
    assert("rows"@.len() == 4 && "rows_by_agent"@.len() == 13 && "row_gap"@.len() == 7
        && "view"@[0] == 'v' && "rows"@[0] == 'r' && "view"@.len() == 4);
    let entries = v->Table_0@;
    law_layout_round_trip(entries[0].1, config.rows@, config.rows@);
    law_by_agent_round_trip(entries[1].1, canonical, config.rows_by_agent@);
    let three = entries.drop_last();
    let two = three.drop_last();
    let one = two.drop_last();
    assert(one.drop_last() =~= Seq::empty());
    assert(one.last() == entries[0] && two.last() == entries[1] && three.last() == entries[2]
        && entries.last() == entries[3]);
    reveal_with_fuel(value::last_value, 5);
    assert forall|i: int|
        #![trigger entries[i]]
        0 <= i < entries.len() implies sidebar::agents_entry_accepted(
        canonical,
        entries[i].0@,
        entries[i].1,
    ) by {
        assert(i == 0 || i == 1 || i == 2 || i == 3);
    }
}

} // verus!
