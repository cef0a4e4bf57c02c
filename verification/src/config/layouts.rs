//! Layouts of rows: reading them, and asking what they show.

use crate::config::rows;
use crate::config::rows::{
    read_token, AgentSidebarToken, SidebarToken,
};
use crate::config::tokens;
use crate::config::tokens::Behaviour;
use crate::config::value;
use crate::config::value::{wrong_type_message, ConfigValue};
use crate::text;
use crate::text::{chars_of, same_text, text_before};
use vstd::prelude::*;
use vstd::string::*;

verus! {

pub type Rows<T> = Vec<Vec<T>>;

/// The items of a list.
pub open spec fn items(v: ConfigValue) -> Option<Seq<ConfigValue>> {
    match v {
        ConfigValue::List(list) => Some(list@),
        _ => None,
    }
}

/// The first complaint about the tokens of a row.
pub open spec fn row_error<T: SidebarToken>(row: Seq<ConfigValue>) -> Option<Seq<char>>
    decreases row.len(),
{
    if row.len() == 0 {
        None
    } else {
        match row_error::<T>(row.drop_last()) {
            Some(complaint) => Some(complaint),
            None => rows::token_error::<T>(row.last()),
        }
    }
}

/// The complaint about one row.
pub open spec fn row_value_error<T: SidebarToken>(v: ConfigValue) -> Option<Seq<char>> {
    match items(v) {
        Some(row) => row_error::<T>(row),
        None => Some(value::wrong_type("a sequence"@)),
    }
}

/// The first complaint about the rows of a layout.
pub open spec fn rows_error<T: SidebarToken>(layout: Seq<ConfigValue>) -> Option<Seq<char>>
    decreases layout.len(),
{
    if layout.len() == 0 {
        None
    } else {
        match rows_error::<T>(layout.drop_last()) {
            Some(complaint) => Some(complaint),
            None => row_value_error::<T>(layout.last()),
        }
    }
}

/// The complaint about a layout's tokens.
pub open spec fn layout_token_error<T: SidebarToken>(v: ConfigValue) -> Option<Seq<char>> {
    match items(v) {
        Some(layout) => rows_error::<T>(layout),
        None => Some(value::wrong_type("a sequence"@)),
    }
}

/// A row is read as these tokens.
pub open spec fn is_row<T: SidebarToken>(v: ConfigValue, row: Seq<T>) -> bool {
    &&& items(v) is Some
    &&& items(v)->0.len() == row.len()
    &&& forall|j: int|
        #![trigger row[j]]
        0 <= j < row.len() ==> rows::is_token(items(v)->0[j], row[j])
}

/// A layout is read as these rows.
pub open spec fn is_layout<T: SidebarToken>(v: ConfigValue, layout: Seq<Vec<T>>) -> bool {
    &&& items(v) is Some
    &&& items(v)->0.len() == layout.len()
    &&& forall|i: int|
        #![trigger layout[i]]
        0 <= i < layout.len() ==> is_row(items(v)->0[i], layout[i]@)
}

/// The complaint about a layout that is too large.
pub open spec fn size_complaint<T>(layout: Seq<Vec<T>>) -> Option<Seq<char>> {
    if layout.len() > rows::MAX_SIDEBAR_ROWS {
        Some("sidebar layouts may contain at most 16 rows"@)
    } else if exists|i: int|
        0 <= i < layout.len() && (#[trigger] layout[i])@.len() > rows::MAX_SIDEBAR_TOKENS_PER_ROW {
        Some("sidebar rows may contain at most 16 tokens"@)
    } else {
        None
    }
}

/// The same complaint, from what was written.
pub open spec fn written_size_complaint(v: ConfigValue) -> Option<Seq<char>> {
    let layout = items(v)->0;
    if layout.len() > rows::MAX_SIDEBAR_ROWS {
        Some("sidebar layouts may contain at most 16 rows"@)
    } else if exists|i: int|
        0 <= i < layout.len() && items(#[trigger] layout[i])->0.len()
            > rows::MAX_SIDEBAR_TOKENS_PER_ROW {
        Some("sidebar rows may contain at most 16 tokens"@)
    } else {
        None
    }
}

/// A layout is too large where what was written is.
pub proof fn lemma_size_complaint<T: SidebarToken>(v: ConfigValue, layout: Seq<Vec<T>>)
    requires
        is_layout(v, layout),
    ensures
        size_complaint(layout) == written_size_complaint(v),
{
    let written = items(v)->0;
    assert forall|i: int| 0 <= i < layout.len() implies (#[trigger] layout[i])@.len() == items(
        written[i],
    )->0.len() by {
        assert(is_row(written[i], layout[i]@));
    }
    if exists|i: int|
        0 <= i < layout.len() && (#[trigger] layout[i])@.len() > rows::MAX_SIDEBAR_TOKENS_PER_ROW {
        let i = choose|i: int|
            0 <= i < layout.len() && (#[trigger] layout[i])@.len()
                > rows::MAX_SIDEBAR_TOKENS_PER_ROW;
        assert(items(written[i])->0.len() > rows::MAX_SIDEBAR_TOKENS_PER_ROW);
    }
    if exists|i: int|
        0 <= i < written.len() && items(#[trigger] written[i])->0.len()
            > rows::MAX_SIDEBAR_TOKENS_PER_ROW {
        let i = choose|i: int|
            0 <= i < written.len() && items(#[trigger] written[i])->0.len()
                > rows::MAX_SIDEBAR_TOKENS_PER_ROW;
        assert(layout[i]@.len() > rows::MAX_SIDEBAR_TOKENS_PER_ROW);
    }
}

/// The complaint about a layout: its first wrong token, else its size.
pub open spec fn layout_error<T: SidebarToken>(v: ConfigValue) -> Option<Seq<char>> {
    match layout_token_error::<T>(v) {
        Some(complaint) => Some(complaint),
        None => written_size_complaint(v),
    }
}

/// Whether a layout is small enough.
pub fn validate_sidebar_rows<T>(layout: &Vec<Vec<T>>) -> (result: Result<(), String>)
    ensures
        match result {
            Ok(()) => size_complaint(layout@) is None,
            Err(message) => size_complaint(layout@) == Some(message@),
        },
{
    if layout.len() > rows::MAX_SIDEBAR_ROWS {
        return Err("sidebar layouts may contain at most 16 rows".to_owned());
    }
    let mut i: usize = 0;
    while i < layout.len()
        invariant
            i <= layout@.len(),
            layout@.len() <= rows::MAX_SIDEBAR_ROWS,
            forall|k: int|
                0 <= k < i ==> (#[trigger] layout@[k])@.len() <= rows::MAX_SIDEBAR_TOKENS_PER_ROW,
        decreases layout@.len() - i,
    {
        if layout[i].len() > rows::MAX_SIDEBAR_TOKENS_PER_ROW {
            assert(layout@[i as int]@.len() > rows::MAX_SIDEBAR_TOKENS_PER_ROW);
            return Err("sidebar rows may contain at most 16 tokens".to_owned());
        }
        i += 1;
    }
    Ok(())
}

proof fn lemma_row_error_stays<T: SidebarToken>(row: Seq<ConfigValue>, n: int)
    requires
        0 <= n <= row.len(),
        row_error::<T>(row.take(n)) is Some,
    ensures
        row_error::<T>(row) == row_error::<T>(row.take(n)),
    decreases row.len() - n,
{
    if n == row.len() {
        assert(row.take(n) =~= row);
    } else {
        assert(row.take(n + 1).drop_last() =~= row.take(n));
        lemma_row_error_stays::<T>(row, n + 1);
    }
}

proof fn lemma_rows_error_stays<T: SidebarToken>(layout: Seq<ConfigValue>, n: int)
    requires
        0 <= n <= layout.len(),
        rows_error::<T>(layout.take(n)) is Some,
    ensures
        rows_error::<T>(layout) == rows_error::<T>(layout.take(n)),
    decreases layout.len() - n,
{
    if n == layout.len() {
        assert(layout.take(n) =~= layout);
    } else {
        assert(layout.take(n + 1).drop_last() =~= layout.take(n));
        lemma_rows_error_stays::<T>(layout, n + 1);
    }
}

fn read_row<T: SidebarToken>(v: &ConfigValue) -> (result: Result<Vec<T>, String>)
    ensures
        match result {
            Ok(row) => row_value_error::<T>(*v) is None && is_row(*v, row@),
            Err(message) => row_value_error::<T>(*v) == Some(message@),
        },
{
    match v {
        ConfigValue::List(list) => {
            let mut row: Vec<T> = Vec::new();
            let mut i: usize = 0;
            while i < list.len()
                invariant
                    i <= list@.len(),
                    *v == ConfigValue::List(*list),
                    row@.len() == i,
                    row_error::<T>(list@.take(i as int)) is None,
                    forall|j: int|
                        #![trigger row@[j]]
                        0 <= j < i ==> rows::is_token(list@[j], row@[j]),
                decreases list@.len() - i,
            {
                proof {
                    assert(list@.take(i + 1).drop_last() =~= list@.take(i as int));
                    assert(list@.take(i + 1).last() == list@[i as int]);
                }
                match read_token::<T>(&list[i]) {
                    Ok(token) => row.push(token),
                    Err(message) => {
                        proof {
                            lemma_row_error_stays::<T>(list@, i + 1);
                        }
                        return Err(message);
                    },
                }
                i += 1;
            }
            assert(list@.take(i as int) =~= list@);
            Ok(row)
        },
        _ => Err(wrong_type_message("a sequence")),
    }
}

/// Reads a layout's tokens, whatever its size.
pub fn read_layout_tokens<T: SidebarToken>(v: &ConfigValue) -> (result: Result<Rows<T>, String>)
    ensures
        match result {
            Ok(layout) => layout_token_error::<T>(*v) is None && is_layout(*v, layout@),
            Err(message) => layout_token_error::<T>(*v) == Some(message@),
        },
{
    match v {
        ConfigValue::List(list) => {
            let mut layout: Vec<Vec<T>> = Vec::new();
            let mut i: usize = 0;
            while i < list.len()
                invariant
                    i <= list@.len(),
                    *v == ConfigValue::List(*list),
                    layout@.len() == i,
                    rows_error::<T>(list@.take(i as int)) is None,
                    forall|j: int|
                        #![trigger layout@[j]]
                        0 <= j < i ==> is_row(list@[j], layout@[j]@),
                decreases list@.len() - i,
            {
                proof {
                    assert(list@.take(i + 1).drop_last() =~= list@.take(i as int));
                    assert(list@.take(i + 1).last() == list@[i as int]);
                }
                match read_row::<T>(&list[i]) {
                    Ok(row) => layout.push(row),
                    Err(message) => {
                        proof {
                            lemma_rows_error_stays::<T>(list@, i + 1);
                        }
                        return Err(message);
                    },
                }
                i += 1;
            }
            assert(list@.take(i as int) =~= list@);
            Ok(layout)
        },
        _ => Err(wrong_type_message("a sequence")),
    }
}

/// Reads a layout.
pub fn read_layout<T: SidebarToken>(v: &ConfigValue) -> (result: Result<Rows<T>, String>)
    ensures
        match result {
            Ok(layout) => layout_error::<T>(*v) is None && is_layout(*v, layout@)
                && size_complaint(layout@) is None,
            Err(message) => layout_error::<T>(*v) == Some(message@),
        },
{
    let layout = match read_layout_tokens::<T>(v) {
        Ok(layout) => layout,
        Err(message) => {
            return Err(message);
        },
    };
    proof {
        lemma_size_complaint(*v, layout@);
    }
    match validate_sidebar_rows(&layout) {
        Ok(()) => Ok(layout),
        Err(message) => Err(message),
    }
}

// ---------------------------------------------------------------------------
// Layouts by agent
// ---------------------------------------------------------------------------

/// Layouts of single agents by id, in the order of their ids.
pub type RowsByAgent = Vec<(String, Rows<AgentSidebarToken>)>;

/// The ids stand in order, each once.
pub open spec fn in_id_order(list: Seq<(String, Rows<AgentSidebarToken>)>) -> bool {
    forall|i: int, j: int|
        #![trigger list[i], list[j]]
        0 <= i < j < list.len() ==> text::lex_before(list[i].0@, list[j].0@)
}

/// The complaint about an id that no agent has.
pub open spec fn id_complaint(id: Seq<char>) -> Seq<char> {
    "unknown canonical agent id `"@ + id + "` in sidebar rows_by_agent"@
}

/// Whether an id is an agent's own.
pub open spec fn is_canonical(canonical: Seq<String>, id: Seq<char>) -> bool {
    exists|i: int| 0 <= i < canonical.len() && (#[trigger] canonical[i])@ == id
}

/// The complaint about one agent's layout.
pub open spec fn agent_complaint(canonical: Seq<String>, id: Seq<char>, v: ConfigValue) -> Option<
    Seq<char>,
> {
    if !is_canonical(canonical, id) {
        Some(id_complaint(id))
    } else {
        written_size_complaint(v)
    }
}

/// The first complaint about the tokens of any agent's layout.
pub open spec fn by_agent_token_error(entries: Seq<(String, ConfigValue)>) -> Option<Seq<char>>
    decreases entries.len(),
{
    if entries.len() == 0 {
        None
    } else {
        match by_agent_token_error(entries.drop_last()) {
            Some(complaint) => Some(complaint),
            None => layout_token_error::<AgentSidebarToken>(entries.last().1),
        }
    }
}

/// A table of layouts by agent is refused with `complaint`: for its first wrong token, else for
/// the first id, in the order of ids, that is unknown or has too large a layout.
pub open spec fn by_agent_refused(
    canonical: Seq<String>,
    v: ConfigValue,
    complaint: Seq<char>,
) -> bool {
    match v {
        ConfigValue::Table(entries) => match by_agent_token_error(entries@) {
            Some(first) => complaint == first,
            None => exists|id: Seq<char>|
                #![trigger value::last_value(entries@, id)]
                first_refused_id(canonical, entries@, id, complaint),
        },
        _ => complaint == value::wrong_type("a map"@),
    }
}

/// A table of layouts by agent has no mistake.
pub open spec fn by_agent_accepted(canonical: Seq<String>, v: ConfigValue) -> bool {
    v matches ConfigValue::Table(entries) && by_agent_token_error(entries@) is None && forall|
        id: Seq<char>,
    | #[trigger]
        value::last_value(entries@, id) is Some ==> agent_complaint(
            canonical,
            id,
            value::last_value(entries@, id)->0,
        ) is None
}

pub open spec fn first_refused_id(
    canonical: Seq<String>,
    entries: Seq<(String, ConfigValue)>,
    id: Seq<char>,
    complaint: Seq<char>,
) -> bool {
    &&& value::last_value(entries, id) is Some
    &&& agent_complaint(canonical, id, value::last_value(entries, id)->0) == Some(complaint)
    &&& forall|other: Seq<char>| #[trigger]
        value::last_value(entries, other) is Some && text::lex_before(other, id)
            ==> agent_complaint(canonical, other, value::last_value(entries, other)->0) is None
}

/// A table of layouts by agent is read as `list`: every id with the layout that counts for it.
pub open spec fn is_by_agent(
    v: ConfigValue,
    list: Seq<(String, Rows<AgentSidebarToken>)>,
) -> bool {
    v matches ConfigValue::Table(entries) && holds_layouts(entries@, list)
}

pub open spec fn holds_layouts(
    entries: Seq<(String, ConfigValue)>,
    list: Seq<(String, Rows<AgentSidebarToken>)>,
) -> bool {
    &&& in_id_order(list)
    &&& forall|k: int|
        #![trigger list[k]]
        0 <= k < list.len() ==> value::last_value(entries, list[k].0@) is Some && is_layout(
            value::last_value(entries, list[k].0@)->0,
            list[k].1@,
        )
    &&& forall|id: Seq<char>| #[trigger]
        value::last_value(entries, id) is Some ==> exists|k: int|
            0 <= k < list.len() && (#[trigger] list[k]).0@ == id
}

fn id_before(a: &str, b: &str) -> (before: bool)
    ensures
        before == text::lex_before(a@, b@),
{
    let a = chars_of(a);
    let b = chars_of(b);
    text_before(a.as_slice(), b.as_slice())
}

/// Where an id belongs among others.
fn place_of(list: &RowsByAgent, id: &str) -> (at: usize)
    ensures
        at <= list@.len(),
        forall|k: int| 0 <= k < at ==> text::lex_before((#[trigger] list@[k]).0@, id@),
        at < list@.len() ==> !text::lex_before(list@[at as int].0@, id@),
{
    let mut at: usize = 0;
    while at < list.len()
        invariant
            at <= list@.len(),
            forall|k: int| 0 <= k < at ==> text::lex_before((#[trigger] list@[k]).0@, id@),
        decreases list@.len() - at,
    {
        if !id_before(list[at].0.as_str(), id) {
            return at;
        }
        at += 1;
    }
    at
}

/// Putting an entry among others keeps them readable in id order.
proof fn lemma_put(
    entries: Seq<(String, ConfigValue)>,
    list: Seq<(String, Rows<AgentSidebarToken>)>,
    key: String,
    v: ConfigValue,
    entry: (String, Rows<AgentSidebarToken>),
    at: int,
    after: Seq<(String, Rows<AgentSidebarToken>)>,
)
    requires
        holds_layouts(entries, list),
        is_layout(v, entry.1@),
        key@ == entry.0@,
        0 <= at <= list.len(),
        forall|k: int| 0 <= k < at ==> text::lex_before((#[trigger] list[k]).0@, key@),
        at < list.len() ==> !text::lex_before(list[at].0@, key@),
        after == (if at < list.len() && list[at].0@ == key@ {
            list.update(at, entry)
        } else {
            list.insert(at, entry)
        }),
    ensures
        holds_layouts(entries.push((key, v)), after),
{
    let more = entries.push((key, v));
    assert(more.drop_last() =~= entries);
    assert(more.last() == (key, v));
    let replaced = at < list.len() && list[at].0@ == key@;
    if at < list.len() && !replaced {
        text::lemma_lex_total(list[at].0@, key@);
    }
    assert forall|k: int| at < k < list.len() implies text::lex_before(
        key@,
        (#[trigger] list[k]).0@,
    ) by {
        assert(text::lex_before(list[at].0@, list[k].0@));
        if !replaced {
            text::lemma_lex_transitive(key@, list[at].0@, list[k].0@);
        }
    }
    let at_of = |k: int|
        if k < at || (replaced && k > at) {
            k
        } else {
            k - 1
        };
    assert forall|i: int, j: int|
        #![trigger after[i], after[j]]
        0 <= i < j < after.len() implies text::lex_before(after[i].0@, after[j].0@) by {
        if i == at {
            if replaced {
                assert(after[j] == list[j]);
            } else {
                assert(after[j] == list[j - 1]);
            }
        } else if j == at {
            assert(after[i] == list[i]);
        } else {
            assert(after[i] == list[at_of(i)]);
            assert(after[j] == list[at_of(j)]);
        }
    }
    assert forall|k: int|
        #![trigger after[k]]
        0 <= k < after.len() implies value::last_value(more, after[k].0@) is Some && is_layout(
        value::last_value(more, after[k].0@)->0,
        after[k].1@,
    ) by {
        if k != at {
            assert(after[k] == list[at_of(k)]);
            if k < at {
                text::lemma_lex_irreflexive(key@);
            } else {
                text::lemma_lex_irreflexive(key@);
                if replaced || k - 1 > at {
                    assert(text::lex_before(key@, list[at_of(k)].0@));
                }
            }
            assert(after[k].0@ != key@);
        }
    }
    assert forall|id: Seq<char>| #[trigger] value::last_value(more, id) is Some implies exists|
        k: int,
    |
        0 <= k < after.len() && (#[trigger] after[k]).0@ == id by {
        if id == key@ {
            assert(after[at].0@ == id);
        } else {
            assert(value::last_value(entries, id) is Some);
            let k = choose|k: int| 0 <= k < list.len() && (#[trigger] list[k]).0@ == id;
            let to = if k < at || replaced {
                k
            } else {
                k + 1
            };
            assert(after[to] == list[k]);
        }
    }
}

/// Puts a layout where its id belongs, in place of one that is there.
fn put_layout(
    list: &mut RowsByAgent,
    id: &String,
    layout: Rows<AgentSidebarToken>,
    Ghost(entries): Ghost<Seq<(String, ConfigValue)>>,
    Ghost(v): Ghost<ConfigValue>,
)
    requires
        holds_layouts(entries, old(list)@),
        is_layout(v, layout@),
    ensures
        holds_layouts(entries.push((*id, v)), final(list)@),
{
    let ghost before = list@;
    let at: usize = place_of(list, id.as_str());
    let entry = (text::duplicate(id.as_str()), layout);
    let ghost put = entry;
    if at < list.len() && same_text(list[at].0.as_str(), id.as_str()) {
        list.set(at, entry);
    } else {
        list.insert(at, entry);
    }
    proof {
        lemma_put(entries, before, *id, v, put, at as int, list@);
    }
}

proof fn lemma_by_agent_error_stays(entries: Seq<(String, ConfigValue)>, n: int)
    requires
        0 <= n <= entries.len(),
        by_agent_token_error(entries.take(n)) is Some,
    ensures
        by_agent_token_error(entries) == by_agent_token_error(entries.take(n)),
    decreases entries.len() - n,
{
    if n == entries.len() {
        assert(entries.take(n) =~= entries);
    } else {
        assert(entries.take(n + 1).drop_last() =~= entries.take(n));
        lemma_by_agent_error_stays(entries, n + 1);
    }
}

fn canonical_id(canonical: &[String], id: &str) -> (known: bool)
    ensures
        known == is_canonical(canonical@, id@),
{
    let mut i: usize = 0;
    while i < canonical.len()
        invariant
            i <= canonical@.len(),
            forall|j: int| 0 <= j < i ==> (#[trigger] canonical@[j])@ != id@,
        decreases canonical@.len() - i,
    {
        if same_text(canonical[i].as_str(), id) {
            assert(canonical@[i as int]@ == id@);
            return true;
        }
        i += 1;
    }
    false
}

/// Reads the layouts of single agents, whose ids must be among `canonical`.
pub fn read_rows_by_agent(v: &ConfigValue, canonical: &[String]) -> (result: Result<
    RowsByAgent,
    String,
>)
    ensures
        match result {
            Ok(list) => {
                &&& by_agent_accepted(canonical@, *v)
                &&& is_by_agent(*v, list@)
                &&& forall|k: int|
                    #![trigger list@[k]]
                    0 <= k < list@.len() ==> is_canonical(canonical@, list@[k].0@)
                        && size_complaint(list@[k].1@) is None
            },
            Err(message) => by_agent_refused(canonical@, *v, message@),
        },
{
    match v {
        ConfigValue::Table(entries) => {
            let mut list: RowsByAgent = Vec::new();
            let mut i: usize = 0;
            assert(entries@.take(0) =~= Seq::empty());
            while i < entries.len()
                invariant
                    i <= entries@.len(),
                    *v == ConfigValue::Table(*entries),
                    by_agent_token_error(entries@.take(i as int)) is None,
                    holds_layouts(entries@.take(i as int), list@),
                decreases entries@.len() - i,
            {
                proof {
                    assert(entries@.take(i + 1).drop_last() =~= entries@.take(i as int));
                    assert(entries@.take(i + 1).last() == entries@[i as int]);
                    assert(entries@.take(i + 1) =~= entries@.take(i as int).push(
                        entries@[i as int],
                    ));
                }
                match read_layout_tokens::<AgentSidebarToken>(&entries[i].1) {
                    Ok(layout) => put_layout(
                        &mut list,
                        &entries[i].0,
                        layout,
                        Ghost(entries@.take(i as int)),
                        Ghost(entries@[i as int].1),
                    ),
                    Err(message) => {
                        proof {
                            lemma_by_agent_error_stays(entries@, i + 1);
                        }
                        return Err(message);
                    },
                }
                i += 1;
            }
            assert(entries@.take(i as int) =~= entries@);
            let mut k: usize = 0;
            while k < list.len()
                invariant
                    k <= list@.len(),
                    *v == ConfigValue::Table(*entries),
                    by_agent_token_error(entries@) is None,
                    holds_layouts(entries@, list@),
                    forall|j: int|
                        #![trigger list@[j]]
                        0 <= j < k ==> is_canonical(canonical@, list@[j].0@) && size_complaint(
                            list@[j].1@,
                        ) is None,
                decreases list@.len() - k,
            {
                proof {
                    lemma_size_complaint(
                        value::last_value(entries@, list@[k as int].0@)->0,
                        list@[k as int].1@,
                    );
                }
                if !canonical_id(canonical, list[k].0.as_str()) {
                    let mut message = "unknown canonical agent id `".to_owned();
                    message.append(list[k].0.as_str());
                    message.append("` in sidebar rows_by_agent");
                    proof {
                        assert(message@ =~= id_complaint(list@[k as int].0@));
                        lemma_first_refused(canonical@, entries@, list@, k as int, message@);
                    }
                    return Err(message);
                }
                if let Err(message) = validate_sidebar_rows(&list[k].1) {
                    proof {
                        lemma_first_refused(canonical@, entries@, list@, k as int, message@);
                    }
                    return Err(message);
                }
                k += 1;
            }
            proof {
                assert forall|id: Seq<char>| #[trigger]
                    value::last_value(entries@, id) is Some implies agent_complaint(
                    canonical@,
                    id,
                    value::last_value(entries@, id)->0,
                ) is None by {
                    let j = choose|j: int| 0 <= j < list@.len() && (#[trigger] list@[j]).0@ == id;
                    lemma_size_complaint(value::last_value(entries@, id)->0, list@[j].1@);
                }
            }
            Ok(list)
        },
        _ => Err(wrong_type_message("a map")),
    }
}

/// The first id that is refused, in a list in id order.
proof fn lemma_first_refused(
    canonical: Seq<String>,
    entries: Seq<(String, ConfigValue)>,
    list: Seq<(String, Rows<AgentSidebarToken>)>,
    k: int,
    complaint: Seq<char>,
)
    requires
        holds_layouts(entries, list),
        0 <= k < list.len(),
        agent_complaint(canonical, list[k].0@, value::last_value(entries, list[k].0@)->0) == Some(
            complaint,
        ),
        forall|j: int|
            #![trigger list[j]]
            0 <= j < k ==> is_canonical(canonical, list[j].0@) && size_complaint(list[j].1@) is None,
    ensures
        first_refused_id(canonical, entries, list[k].0@, complaint),
{
    let id = list[k].0@;
    assert forall|other: Seq<char>| #[trigger]
        value::last_value(entries, other) is Some && text::lex_before(
            other,
            id,
        ) implies agent_complaint(canonical, other, value::last_value(entries, other)->0) is None by {
        let j = choose|j: int| 0 <= j < list.len() && (#[trigger] list[j]).0@ == other;
        if j >= k {
            text::lemma_lex_irreflexive(id);
            if j > k {
                text::lemma_lex_transitive(id, other, id);
            }
        }
        lemma_size_complaint(value::last_value(entries, other)->0, list[j].1@);
    }
}

// ---------------------------------------------------------------------------
// What layouts show
// ---------------------------------------------------------------------------

pub open spec fn shows_title<T: SidebarToken>(layout: Seq<Vec<T>>) -> bool {
    exists|i: int, j: int|
        #![trigger layout[i]@[j]]
        0 <= i < layout.len() && 0 <= j < layout[i]@.len() && layout[i]@[j].base().shows_title()
}

pub open spec fn shows_age<T: SidebarToken>(layout: Seq<Vec<T>>) -> bool {
    exists|i: int, j: int|
        #![trigger layout[i]@[j]]
        0 <= i < layout.len() && 0 <= j < layout[i]@.len() && layout[i]@[j].base().shows_age()
}

/// The behaviour that an occurrence plays.
pub open spec fn behaviour_of<T: SidebarToken>(token: T) -> Option<Behaviour> {
    tokens::shown_style(token.own_style()).spec_behaviour()
}

pub open spec fn animates<T: SidebarToken>(layout: Seq<Vec<T>>) -> bool {
    exists|i: int, j: int|
        #![trigger layout[i]@[j]]
        0 <= i < layout.len() && 0 <= j < layout[i]@.len() && behaviour_of(layout[i]@[j]) is Some
}

/// What a layout calls for.
#[derive(Debug, Clone, Copy, PartialEq, Eq, Structural)]
pub struct LayoutDemands {
    pub title: bool,
    pub age: bool,
    pub animation: bool,
}

/// What a layout calls for: a terminal's title, a running clock, an animation.
pub fn demands_of<T: SidebarToken>(layout: &Rows<T>) -> (demands: LayoutDemands)
    ensures
        demands.title == shows_title(layout@),
        demands.age == shows_age(layout@),
        demands.animation == animates(layout@),
{
    let mut demands = LayoutDemands { title: false, age: false, animation: false };
    let mut i: usize = 0;
    while i < layout.len()
        invariant
            i <= layout@.len(),
            demands.title == shows_title(layout@.take(i as int)),
            demands.age == shows_age(layout@.take(i as int)),
            demands.animation == animates(layout@.take(i as int)),
        decreases layout@.len() - i,
    {
        let row = &layout[i];
        let ghost so_far = layout@.take(i as int);
        let ghost next = layout@.take(i + 1);
        let ghost before = demands;
        let mut j: usize = 0;
        while j < row.len()
            invariant
                j <= row@.len(),
                demands.title == (before.title || exists|k: int|
                    0 <= k < j && (#[trigger] row@[k]).base().shows_title()),
                demands.age == (before.age || exists|k: int|
                    0 <= k < j && (#[trigger] row@[k]).base().shows_age()),
                demands.animation == (before.animation || exists|k: int|
                    0 <= k < j && behaviour_of(#[trigger] row@[k]) is Some),
            decreases row@.len() - j,
        {
            let (token, style) = row[j].parts();
            let title = token.is_title();
            let age = token.is_age();
            let animation = style.animates();
            proof {
                let token = row@[j as int];
                assert(forall|k: int| 0 <= k < j + 1 ==> k < j || #[trigger] row@[k] == token);
            }
            if title {
                demands.title = true;
            }
            if age {
                demands.age = true;
            }
            if animation {
                demands.animation = true;
            }
            j += 1;
        }
        proof {
            assert(next =~= so_far.push(*row));
            lemma_one_more_row(so_far, *row, next);
        }
        i += 1;
    }
    assert(layout@.take(i as int) =~= layout@);
    demands
}

/// What a layout with one more row shows.
proof fn lemma_one_more_row<T: SidebarToken>(so_far: Seq<Vec<T>>, row: Vec<T>, next: Seq<Vec<T>>)
    requires
        next == so_far.push(row),
    ensures
        shows_title(next) == (shows_title(so_far) || exists|k: int|
            0 <= k < row@.len() && (#[trigger] row@[k]).base().shows_title()),
        shows_age(next) == (shows_age(so_far) || exists|k: int|
            0 <= k < row@.len() && (#[trigger] row@[k]).base().shows_age()),
        animates(next) == (animates(so_far) || exists|k: int|
            0 <= k < row@.len() && behaviour_of(#[trigger] row@[k]) is Some),
{
    assert(next.last() == row);
    assert forall|a: int| 0 <= a < so_far.len() implies next[a] == #[trigger] so_far[a] by {}
    let n = so_far.len() as int;
    if shows_title(so_far) {
        let (a, b) = choose|a: int, b: int|
            #![trigger so_far[a]@[b]]
            0 <= a < so_far.len() && 0 <= b < so_far[a]@.len() && so_far[a]@[b].base().shows_title();
        assert(next[a]@[b].base().shows_title());
    }
    if shows_age(so_far) {
        let (a, b) = choose|a: int, b: int|
            #![trigger so_far[a]@[b]]
            0 <= a < so_far.len() && 0 <= b < so_far[a]@.len() && so_far[a]@[b].base().shows_age();
        assert(next[a]@[b].base().shows_age());
    }
    if animates(so_far) {
        let (a, b) = choose|a: int, b: int|
            #![trigger so_far[a]@[b]]
            0 <= a < so_far.len() && 0 <= b < so_far[a]@.len() && behaviour_of(
                so_far[a]@[b],
            ) is Some;
        assert(behaviour_of(next[a]@[b]) is Some);
    }
    assert forall|k: int| 0 <= k < row@.len() implies next[n]@[k] == #[trigger] row@[k] by {}
    if shows_title(next) {
        let (a, b) = choose|a: int, b: int|
            #![trigger next[a]@[b]]
            0 <= a < next.len() && 0 <= b < next[a]@.len() && next[a]@[b].base().shows_title();
        if a < n {
            assert(so_far[a]@[b].base().shows_title());
        } else {
            assert(row@[b].base().shows_title());
        }
    }
    if shows_age(next) {
        let (a, b) = choose|a: int, b: int|
            #![trigger next[a]@[b]]
            0 <= a < next.len() && 0 <= b < next[a]@.len() && next[a]@[b].base().shows_age();
        if a < n {
            assert(so_far[a]@[b].base().shows_age());
        } else {
            assert(row@[b].base().shows_age());
        }
    }
    if animates(next) {
        let (a, b) = choose|a: int, b: int|
            #![trigger next[a]@[b]]
            0 <= a < next.len() && 0 <= b < next[a]@.len() && behaviour_of(next[a]@[b]) is Some;
        if a < n {
            assert(behaviour_of(so_far[a]@[b]) is Some);
        } else {
            assert(behaviour_of(row@[b]) is Some);
        }
    }
}

// ---------------------------------------------------------------------------
// The behaviours that layouts play
// ---------------------------------------------------------------------------

/// The behaviours of a row, in order.
pub open spec fn row_behaviours<T: SidebarToken>(row: Seq<T>) -> Seq<Behaviour>
    decreases row.len(),
{
    if row.len() == 0 {
        Seq::empty()
    } else {
        row_behaviours(row.drop_last()) + (match behaviour_of(row.last()) {
            Some(behaviour) => seq![behaviour],
            None => Seq::empty(),
        })
    }
}

/// The behaviours of a layout, in order.
pub open spec fn layout_behaviours<T: SidebarToken>(layout: Seq<Vec<T>>) -> Seq<Behaviour>
    decreases layout.len(),
{
    if layout.len() == 0 {
        Seq::empty()
    } else {
        layout_behaviours(layout.drop_last()) + row_behaviours(layout.last()@)
    }
}

/// The behaviours of the layouts of single agents, in id order.
pub open spec fn by_agent_behaviours(list: Seq<(String, Rows<AgentSidebarToken>)>) -> Seq<Behaviour>
    decreases list.len(),
{
    if list.len() == 0 {
        Seq::empty()
    } else {
        by_agent_behaviours(list.drop_last()) + layout_behaviours(list.last().1@)
    }
}

/// Each behaviour once, in the order of their first occurrence.
pub open spec fn distinct(behaviours: Seq<Behaviour>) -> Seq<Behaviour>
    decreases behaviours.len(),
{
    if behaviours.len() == 0 {
        Seq::empty()
    } else {
        let earlier = distinct(behaviours.drop_last());
        if earlier.contains(behaviours.last()) {
            earlier
        } else {
            earlier.push(behaviours.last())
        }
    }
}

/// Leaving out repetitions leaves every behaviour there, once.
pub proof fn law_distinct(behaviours: Seq<Behaviour>)
    ensures
        distinct(behaviours).no_duplicates(),
        forall|b: Behaviour| #[trigger]
            distinct(behaviours).contains(b) <==> behaviours.contains(b),
    decreases behaviours.len(),
{
    if behaviours.len() > 0 {
        let earlier = behaviours.drop_last();
        law_distinct(earlier);
        let last = behaviours.last();
        assert forall|b: Behaviour| #[trigger]
            distinct(behaviours).contains(b) <==> behaviours.contains(b) by {
            assert(behaviours =~= earlier.push(last));
            if earlier.contains(b) {
                let i = choose|i: int| 0 <= i < earlier.len() && earlier[i] == b;
                assert(behaviours[i] == b);
            }
            assert(behaviours[behaviours.len() - 1] == last);
            if behaviours.contains(b) && b != last {
                let i = choose|i: int| 0 <= i < behaviours.len() && behaviours[i] == b;
                assert(earlier[i] == b);
            }
            if !distinct(earlier).contains(last) {
                let d = distinct(earlier);
                if d.contains(b) {
                    let i = choose|i: int| 0 <= i < d.len() && d[i] == b;
                    assert(d.push(last)[i] == b);
                }
                assert(d.push(last)[d.len() as int] == last);
                if d.push(last).contains(b) && b != last {
                    let i = choose|i: int| 0 <= i < d.push(last).len() && d.push(last)[i] == b;
                    assert(d[i] == b);
                }
            }
        }
    }
}

/// Appends the behaviours of a layout.
pub fn push_layout_behaviours<T: SidebarToken>(out: &mut Vec<Behaviour>, layout: &Rows<T>)
    ensures
        final(out)@ == old(out)@ + layout_behaviours(layout@),
{
    let ghost before = out@;
    let mut i: usize = 0;
    assert(out@ =~= before + layout_behaviours(layout@.take(0)));
    while i < layout.len()
        invariant
            i <= layout@.len(),
            out@ == before + layout_behaviours(layout@.take(i as int)),
        decreases layout@.len() - i,
    {
        let row = &layout[i];
        let ghost so_far = out@;
        let mut j: usize = 0;
        assert(out@ =~= so_far + row_behaviours(row@.take(0)));
        while j < row.len()
            invariant
                j <= row@.len(),
                out@ == so_far + row_behaviours(row@.take(j as int)),
            decreases row@.len() - j,
        {
            proof {
                assert(row@.take(j + 1).drop_last() =~= row@.take(j as int));
                assert(row@.take(j + 1).last() == row@[j as int]);
            }
            let ghost here = out@;
            let (_, style) = row[j].parts();
            if let Some(behaviour) = style.behaviour() {
                out.push(behaviour);
            }
            assert(out@ =~= so_far + row_behaviours(row@.take(j + 1)));
            j += 1;
        }
        proof {
            assert(row@.take(j as int) =~= row@);
            assert(layout@.take(i + 1).drop_last() =~= layout@.take(i as int));
            assert(layout@.take(i + 1).last() == *row);
            assert(out@ =~= before + layout_behaviours(layout@.take(i + 1)));
        }
        i += 1;
    }
    assert(layout@.take(i as int) =~= layout@);
}

/// Each behaviour once, in the order of their first occurrence.
pub fn collect_behaviours(behaviours: &Vec<Behaviour>) -> (names: Vec<Behaviour>)
    ensures
        names@ == distinct(behaviours@),
{
    let mut names: Vec<Behaviour> = Vec::new();
    let mut i: usize = 0;
    assert(names@ =~= distinct(behaviours@.take(0)));
    while i < behaviours.len()
        invariant
            i <= behaviours@.len(),
            names@ == distinct(behaviours@.take(i as int)),
        decreases behaviours@.len() - i,
    {
        let behaviour = behaviours[i];
        proof {
            assert(behaviours@.take(i + 1).drop_last() =~= behaviours@.take(i as int));
            assert(behaviours@.take(i + 1).last() == behaviour);
        }
        let mut known = false;
        let mut k: usize = 0;
        while k < names.len()
            invariant
                k <= names@.len(),
                known == exists|m: int| 0 <= m < k && #[trigger] names@[m] == behaviour,
            decreases names@.len() - k,
        {
            if names[k] == behaviour {
                assert(names@[k as int] == behaviour);
                known = true;
            }
            k += 1;
        }
        assert(known == names@.contains(behaviour));
        if !known {
            names.push(behaviour);
        }
        i += 1;
    }
    assert(behaviours@.take(i as int) =~= behaviours@);
    names
}

} // verus!
