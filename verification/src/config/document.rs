//! A configuration file as `toml_edit` parses it, with the place of every key and value.

use crate::text;
use crate::text::{chars_of, parse_number};
use toml_edit::{ImDocument, Item, Table, Value};
use vstd::prelude::*;

verus! {

/// `toml_edit`'s parsed document.
#[verifier::external_type_specification]
#[verifier::external_body]
#[verifier::reject_recursive_types(S)]
pub struct ExImDocument<S>(ImDocument<S>);

/// `toml_edit`'s item: a value, a table, or an array of tables.
#[verifier::external_type_specification]
#[verifier::external_body]
pub struct ExItem(Item);

/// `toml_edit`'s table.
#[verifier::external_type_specification]
#[verifier::external_body]
pub struct ExTable(Table);

/// `toml_edit`'s value.
#[verifier::external_type_specification]
#[verifier::external_body]
pub struct ExValue(Value);

/// A step from an item to one inside it: by key, by place in an array, or by place in an array
/// of tables.
pub ghost enum Step {
    Key { key: Seq<char> },
    Element { index: nat },
    TableAt { index: nat },
}

/// Where an item starts in the file, and where its key does. The parser does not know the place
/// of every item.
pub ghost struct NodeStart {
    pub key: Option<usize>,
    pub own: Option<usize>,
}

/// All items inside an item, by the steps that lead to them.
pub type Tree = Map<Seq<Step>, NodeStart>;

/// The items inside a `toml_edit::Item`.
pub uninterp spec fn item_tree(item: Item) -> Map<Seq<Step>, NodeStart>;

/// The items inside a `toml_edit::Table`.
pub uninterp spec fn table_tree(table: Table) -> Map<Seq<Step>, NodeStart>;

/// The items inside a `toml_edit::Value`.
pub uninterp spec fn value_tree(value: Value) -> Map<Seq<Step>, NodeStart>;

/// The items inside a parsed document.
pub uninterp spec fn document_tree(document: ImDocument<String>) -> Map<Seq<Step>, NodeStart>;

/// What `toml_edit::ImDocument::parse` finds in a text; nothing where it is no TOML.
pub uninterp spec fn parsed_tree(content: Seq<char>) -> Option<Map<Seq<Step>, NodeStart>>;

/// The keys that `toml_edit::Key::parse` reads in a dotted key; nothing where it is none.
pub uninterp spec fn key_path(text: Seq<char>) -> Option<Seq<Seq<char>>>;

/// The items inside the one that a step leads to.
pub open spec fn below(tree: Tree, step: Step) -> Tree {
    Map::new(
        |path: Seq<Step>| path.len() > 0 && tree.contains_key(seq![step] + path),
        |path: Seq<Step>| tree[seq![step] + path],
    )
}

/// Calls `toml_edit::ImDocument::parse` and drops its error. The claim: whether there is a
/// document, and what is in it, depends on the text alone.
#[verifier::external_body]
fn parse_document(content: &str) -> (document: Option<ImDocument<String>>)
    ensures
        match document {
            Some(document) => parsed_tree(content@) == Some(document_tree(document)),
            None => parsed_tree(content@) is None,
        },
{
    ImDocument::parse(content.to_string()).ok()
}

/// Calls `toml_edit::ImDocument::as_item`. The claim: the root item holds what the document
/// holds.
#[verifier::external_body]
fn root_item(document: &ImDocument<String>) -> (item: &Item)
    ensures
        item_tree(*item) == document_tree(*document),
{
    document.as_item()
}

/// Calls `toml_edit::TableLike::get_key_value` on an item that is a table, and `span` on the key
/// and the item it finds. The claim: it finds the item that the key leads to, with its start.
#[verifier::external_body]
fn item_entry<'a>(item: &'a Item, key: &str) -> (entry: Option<
    (Option<usize>, Option<usize>, &'a Item),
>)
    ensures
        match entry {
            Some(entry) => item_tree(*item).contains_key(seq![Step::Key { key: key@ }])
                && item_tree(*item)[seq![Step::Key { key: key@ }]] == (NodeStart {
                key: entry.0,
                own: entry.1,
            }) && item_tree(*entry.2) == below(item_tree(*item), Step::Key { key: key@ }),
            None => !item_tree(*item).contains_key(seq![Step::Key { key: key@ }]),
        },
{
    let (found, value) = item.as_table_like()?.get_key_value(key)?;
    Some((found.span().map(|span| span.start), value.span().map(|span| span.start), value))
}

/// Calls `toml_edit::Table::get_key_value`, and `span` on the key and the item it finds. The
/// claim: it finds the item that the key leads to, with its start.
#[verifier::external_body]
fn table_entry<'a>(table: &'a Table, key: &str) -> (entry: Option<
    (Option<usize>, Option<usize>, &'a Item),
>)
    ensures
        match entry {
            Some(entry) => table_tree(*table).contains_key(seq![Step::Key { key: key@ }])
                && table_tree(*table)[seq![Step::Key { key: key@ }]] == (NodeStart {
                key: entry.0,
                own: entry.1,
            }) && item_tree(*entry.2) == below(table_tree(*table), Step::Key { key: key@ }),
            None => !table_tree(*table).contains_key(seq![Step::Key { key: key@ }]),
        },
{
    let (found, value) = table.get_key_value(key)?;
    Some((found.span().map(|span| span.start), value.span().map(|span| span.start), value))
}

/// Calls `toml_edit::InlineTable::get_key_value` on a value that is a table, and `span` on the
/// key and the item it finds. The claim: it finds the item that the key leads to, with its start.
#[verifier::external_body]
fn value_entry<'a>(value: &'a Value, key: &str) -> (entry: Option<
    (Option<usize>, Option<usize>, &'a Item),
>)
    ensures
        match entry {
            Some(entry) => value_tree(*value).contains_key(seq![Step::Key { key: key@ }])
                && value_tree(*value)[seq![Step::Key { key: key@ }]] == (NodeStart {
                key: entry.0,
                own: entry.1,
            }) && item_tree(*entry.2) == below(value_tree(*value), Step::Key { key: key@ }),
            None => !value_tree(*value).contains_key(seq![Step::Key { key: key@ }]),
        },
{
    let (found, item) = value.as_inline_table()?.get_key_value(key)?;
    Some((found.span().map(|span| span.start), item.span().map(|span| span.start), item))
}

/// Calls `toml_edit::Array::get` on an item that is an array, and `span` on the value it finds.
/// The claim: it finds the value at that place, with its start.
#[verifier::external_body]
fn item_element<'a>(item: &'a Item, index: usize) -> (element: Option<(Option<usize>, &'a Value)>)
    ensures
        match element {
            Some(element) => item_tree(*item).contains_key(
                seq![Step::Element { index: index as nat }],
            ) && item_tree(*item)[seq![Step::Element { index: index as nat }]].own == element.0
                && value_tree(*element.1) == below(
                item_tree(*item),
                Step::Element { index: index as nat },
            ),
            None => !item_tree(*item).contains_key(seq![Step::Element { index: index as nat }]),
        },
{
    let value = item.as_array()?.get(index)?;
    Some((value.span().map(|span| span.start), value))
}

/// Calls `toml_edit::Array::get` on a value that is an array, and `span` on the value it finds.
/// The claim: it finds the value at that place, with its start.
#[verifier::external_body]
fn value_element<'a>(value: &'a Value, index: usize) -> (element: Option<
    (Option<usize>, &'a Value),
>)
    ensures
        match element {
            Some(element) => value_tree(*value).contains_key(
                seq![Step::Element { index: index as nat }],
            ) && value_tree(*value)[seq![Step::Element { index: index as nat }]].own == element.0
                && value_tree(*element.1) == below(
                value_tree(*value),
                Step::Element { index: index as nat },
            ),
            None => !value_tree(*value).contains_key(seq![Step::Element { index: index as nat }]),
        },
{
    let found = value.as_array()?.get(index)?;
    Some((found.span().map(|span| span.start), found))
}

/// Calls `toml_edit::ArrayOfTables::get` on an item that is an array of tables, and `span` on the
/// table it finds. The claim: it finds the table at that place, with its start.
#[verifier::external_body]
fn item_table_at<'a>(item: &'a Item, index: usize) -> (table: Option<(Option<usize>, &'a Table)>)
    ensures
        match table {
            Some(table) => item_tree(*item).contains_key(
                seq![Step::TableAt { index: index as nat }],
            ) && item_tree(*item)[seq![Step::TableAt { index: index as nat }]].own == table.0
                && table_tree(*table.1) == below(
                item_tree(*item),
                Step::TableAt { index: index as nat },
            ),
            None => !item_tree(*item).contains_key(seq![Step::TableAt { index: index as nat }]),
        },
{
    let table = item.as_array_of_tables()?.get(index)?;
    Some((table.span().map(|span| span.start), table))
}

/// Calls `toml_edit::Key::parse` and takes the text of each key; its error is dropped. The claim:
/// the keys depend on the text alone.
#[verifier::external_body]
pub(crate) fn parse_key_path(dotted: &str) -> (keys: Option<Vec<String>>)
    ensures
        match keys {
            Some(keys) => key_path(dotted@) == Some(text::texts(keys@)),
            None => key_path(dotted@) is None,
        },
{
    let keys = toml_edit::Key::parse(dotted).ok()?;
    Some(keys.iter().map(|key| key.get().to_string()).collect())
}

// ---------------------------------------------------------------------------
// Walking a document
// ---------------------------------------------------------------------------

/// One segment of a key path: a key, or a place in an array.
#[derive(Debug, PartialEq, Eq)]
pub enum Segment {
    Key(String),
    Index(usize),
}

/// A segment by its text.
pub ghost enum SegmentView {
    Key { key: Seq<char> },
    Index { index: nat },
}

impl View for Segment {
    type V = SegmentView;

    open spec fn view(&self) -> SegmentView {
        match self {
            Segment::Key(key) => SegmentView::Key { key: key@ },
            Segment::Index(index) => SegmentView::Index { index: *index as nat },
        }
    }
}

/// The segments of a path by their texts.
pub open spec fn segments(path: Seq<Segment>) -> Seq<SegmentView> {
    path.map_values(|segment: Segment| segment@)
}

/// What a walk has reached: an array has no keys, and only an item can be an array of tables.
pub ghost enum Reached {
    Item,
    Value,
    Table,
}

/// The first place that is known.
pub open spec fn or_else(first: Option<usize>, second: Option<usize>) -> Option<usize> {
    match first {
        Some(place) => Some(place),
        None => second,
    }
}

/// The place in an array that a segment names: an index, or a key that spells one.
pub open spec fn index_named(segment: SegmentView) -> Option<nat> {
    match segment {
        SegmentView::Key { key } => text::parsed_number(key, usize::MAX as nat),
        SegmentView::Index { index } => Some(index),
    }
}

/// The place where a path leads, from a tree that was reached in a given way; `offset` is the
/// last place that was known on the way. A key is tried as a key first, then as a place in an
/// array. A path that leads nowhere has no place.
pub open spec fn place_from(
    tree: Tree,
    reached: Reached,
    path: Seq<SegmentView>,
    offset: Option<usize>,
) -> Option<usize>
    decreases path.len(),
{
    if path.len() == 0 {
        offset
    } else {
        let rest = path.skip(1);
        if path[0] is Key && tree.contains_key(seq![Step::Key { key: path[0]->key }]) {
            let step = Step::Key { key: path[0]->key };
            let start = tree[seq![step]];
            place_from(
                below(tree, step),
                Reached::Item,
                rest,
                or_else(start.key, or_else(start.own, offset)),
            )
        } else {
            match index_named(path[0]) {
                None => None,
                Some(index) => {
                    let element = Step::Element { index };
                    let table = Step::TableAt { index };
                    if !(reached is Table) && tree.contains_key(seq![element]) {
                        place_from(
                            below(tree, element),
                            Reached::Value,
                            rest,
                            or_else(tree[seq![element]].own, offset),
                        )
                    } else if reached is Item && tree.contains_key(seq![table]) {
                        place_from(
                            below(tree, table),
                            Reached::Table,
                            rest,
                            or_else(tree[seq![table]].own, offset),
                        )
                    } else {
                        None
                    }
                },
            }
        }
    }
}

/// A position in a document.
enum Cursor<'a> {
    Item(&'a Item),
    Table(&'a Table),
    Value(&'a Value),
}

impl<'a> Cursor<'a> {
    spec fn tree(self) -> Tree {
        match self {
            Cursor::Item(item) => item_tree(*item),
            Cursor::Table(table) => table_tree(*table),
            Cursor::Value(value) => value_tree(*value),
        }
    }

    spec fn reached(self) -> Reached {
        match self {
            Cursor::Item(_) => Reached::Item,
            Cursor::Table(_) => Reached::Table,
            Cursor::Value(_) => Reached::Value,
        }
    }

    /// The item that a key leads to.
    fn entry(&self, key: &str) -> (entry: Option<(Option<usize>, Option<usize>, &'a Item)>)
        ensures
            match entry {
                Some(entry) => {
                    let step = Step::Key { key: key@ };
                    &&& self.tree().contains_key(seq![step])
                    &&& self.tree()[seq![step]] == (NodeStart { key: entry.0, own: entry.1 })
                    &&& item_tree(*entry.2) == below(self.tree(), step)
                },
                None => !self.tree().contains_key(seq![Step::Key { key: key@ }]),
            },
    {
        match self {
            Cursor::Item(item) => item_entry(*item, key),
            Cursor::Table(table) => table_entry(*table, key),
            Cursor::Value(value) => value_entry(*value, key),
        }
    }

    /// The value or table at a place, and where it starts.
    fn at(&self, index: usize) -> (found: Option<(Option<usize>, Cursor<'a>)>)
        ensures
            ({
                let element = Step::Element { index: index as nat };
                let table = Step::TableAt { index: index as nat };
                if !(self.reached() is Table) && self.tree().contains_key(seq![element]) {
                    found matches Some((start, cursor)) && {
                        &&& start == self.tree()[seq![element]].own
                        &&& cursor.tree() == below(self.tree(), element)
                        &&& cursor.reached() is Value
                    }
                } else if self.reached() is Item && self.tree().contains_key(seq![table]) {
                    found matches Some((start, cursor)) && {
                        &&& start == self.tree()[seq![table]].own
                        &&& cursor.tree() == below(self.tree(), table)
                        &&& cursor.reached() is Table
                    }
                } else {
                    found is None
                }
            }),
    {
        match self {
            Cursor::Item(item) => match item_element(*item, index) {
                Some((start, value)) => Some((start, Cursor::Value(value))),
                None => match item_table_at(*item, index) {
                    Some((start, table)) => Some((start, Cursor::Table(table))),
                    None => None,
                },
            },
            Cursor::Value(value) => match value_element(*value, index) {
                Some((start, element)) => Some((start, Cursor::Value(element))),
                None => None,
            },
            Cursor::Table(_) => None,
        }
    }
}

fn first_of(first: Option<usize>, second: Option<usize>) -> (place: Option<usize>)
    ensures
        place == or_else(first, second),
{
    match first {
        Some(place) => Some(place),
        None => second,
    }
}

/// The place in an array that a segment names.
fn index_of(segment: &Segment) -> (index: Option<usize>)
    ensures
        match index {
            Some(index) => index_named(segment@) == Some(index as nat),
            None => index_named(segment@) is None,
        },
{
    match segment {
        Segment::Key(key) => {
            let chars = chars_of(key.as_str());
            match parse_number(chars.as_slice(), usize::MAX as u64) {
                Some(index) => Some(index as usize),
                None => None,
            }
        },
        Segment::Index(index) => Some(*index),
    }
}

/// A parsed configuration file.
pub struct Document {
    document: ImDocument<String>,
}

impl Document {
    pub closed spec fn tree(self) -> Tree {
        document_tree(self.document)
    }

    /// Parses a configuration file.
    pub fn parse(content: &str) -> (document: Option<Document>)
        ensures
            match document {
                Some(document) => parsed_tree(content@) == Some(document.tree()),
                None => parsed_tree(content@) is None,
            },
    {
        match parse_document(content) {
            Some(document) => Some(Document { document }),
            None => None,
        }
    }

    /// The place where the first `length` segments of a path lead.
    pub fn offset_of(&self, path: &[Segment], length: usize) -> (offset: Option<usize>)
        requires
            length <= path@.len(),
        ensures
            offset == place_from(
                self.tree(),
                Reached::Item,
                segments(path@).take(length as int),
                None,
            ),
    {
        let ghost whole = segments(path@).take(length as int);
        let mut cursor = Cursor::Item(root_item(&self.document));
        let mut offset: Option<usize> = None;
        let mut i: usize = 0;
        assert(whole.skip(0) =~= whole);
        while i < length
            invariant
                i <= length,
                length <= path@.len(),
                whole == segments(path@).take(length as int),
                place_from(self.tree(), Reached::Item, whole, None) == place_from(
                    cursor.tree(),
                    cursor.reached(),
                    whole.skip(i as int),
                    offset,
                ),
            decreases length - i,
        {
            let segment = &path[i];
            proof {
                assert(whole.skip(i as int)[0] == segment@);
                assert(whole.skip(i as int).skip(1) =~= whole.skip(i + 1));
            }
            if let Segment::Key(key) = segment {
                if let Some((key_start, own_start, item)) = cursor.entry(key.as_str()) {
                    offset = first_of(key_start, first_of(own_start, offset));
                    cursor = Cursor::Item(item);
                    i += 1;
                    continue;
                }
            }
            match index_of(segment) {
                None => {
                    return None;
                },
                Some(index) => match cursor.at(index) {
                    None => {
                        return None;
                    },
                    Some((start, next)) => {
                        offset = first_of(start, offset);
                        cursor = next;
                    },
                },
            }
            i += 1;
        }
        assert(whole.skip(i as int) =~= Seq::empty());
        offset
    }
}

/// A step is the one that a segment names.
pub open spec fn names(segment: SegmentView, step: Step) -> bool {
    match step {
        Step::Key { key } => segment == SegmentView::Key { key },
        Step::Element { index } => segment == SegmentView::Index { index },
        Step::TableAt { index } => segment == SegmentView::Index { index },
    }
}

/// What a step leads to.
pub open spec fn reached_by(step: Step) -> Reached {
    match step {
        Step::Key { .. } => Reached::Item,
        Step::Element { .. } => Reached::Value,
        Step::TableAt { .. } => Reached::Table,
    }
}

/// A way through a tree that starts at an item reached in a given way: every item on it is there,
/// arrays stand in items and in arrays, and arrays of tables in items alone, where no array is.
pub open spec fn is_way(tree: Tree, reached: Reached, steps: Seq<Step>) -> bool
    decreases steps.len(),
{
    steps.len() > 0 ==> {
        let step = steps[0];
        &&& tree.contains_key(seq![step])
        &&& step is Element ==> !(reached is Table)
        &&& step is TableAt ==> reached is Item && !tree.contains_key(
            seq![Step::Element { index: step->TableAt_index }],
        )
        &&& is_way(below(tree, step), reached_by(step), steps.skip(1))
    }
}

/// The place that is known behind a step.
spec fn known_behind(start: NodeStart, step: Step, offset: Option<usize>) -> Option<usize> {
    match step {
        Step::Key { .. } => or_else(start.key, or_else(start.own, offset)),
        _ => or_else(start.own, offset),
    }
}

/// One step on the way.
proof fn lemma_first_step(
    tree: Tree,
    reached: Reached,
    path: Seq<SegmentView>,
    step: Step,
    offset: Option<usize>,
)
    requires
        path.len() > 0,
        names(path[0], step),
        tree.contains_key(seq![step]),
        step is Element ==> !(reached is Table),
        step is TableAt ==> reached is Item && !tree.contains_key(
            seq![Step::Element { index: step->TableAt_index }],
        ),
    ensures
        place_from(tree, reached, path, offset) == place_from(
            below(tree, step),
            reached_by(step),
            path.skip(1),
            known_behind(tree[seq![step]], step, offset),
        ),
{
}

/// Where a way leads there is an item.
proof fn lemma_way_ends_at_an_item(tree: Tree, reached: Reached, steps: Seq<Step>)
    requires
        steps.len() > 0,
        is_way(tree, reached, steps),
    ensures
        tree.contains_key(steps),
        steps.len() > 1 ==> below(tree, steps[0])[steps.skip(1)] == tree[steps],
    decreases steps.len(),
{
    let step = steps[0];
    let rest = steps.skip(1);
    assert(steps =~= seq![step] + rest);
    if steps.len() == 1 {
        assert(steps =~= seq![step]);
    } else {
        lemma_way_ends_at_an_item(below(tree, step), reached_by(step), rest);
    }
}

/// A path leads to the very item that its segments name one after the other: keys by their names,
/// and entries of arrays by their places. It has the place of that item's key, or the item's own
/// where it has no key or the key no place.
pub proof fn law_a_path_leads_to_what_it_names(
    tree: Tree,
    reached: Reached,
    path: Seq<SegmentView>,
    steps: Seq<Step>,
    offset: Option<usize>,
)
    requires
        steps.len() > 0,
        steps.len() == path.len(),
        is_way(tree, reached, steps),
        forall|i: int| 0 <= i < path.len() ==> names(#[trigger] path[i], steps[i]),
    ensures
        ({
            let place = place_from(tree, reached, path, offset);
            let start = tree[steps];
            match steps.last() {
                Step::Key { .. } => {
                    &&& start.key is Some ==> place == start.key
                    &&& start.key is None && start.own is Some ==> place == start.own
                },
                _ => start.own is Some ==> place == start.own,
            }
        }),
    decreases path.len(),
{
    let step = steps[0];
    assert(names(path[0], steps[0]));
    lemma_first_step(tree, reached, path, step, offset);
    let next = known_behind(tree[seq![step]], step, offset);
    if steps.len() == 1 {
        assert(steps =~= seq![step]);
        assert(path.skip(1).len() == 0);
    } else {
        lemma_way_ends_at_an_item(tree, reached, steps);
        assert forall|i: int| 0 <= i < path.skip(1).len() implies names(
            #[trigger] path.skip(1)[i],
            steps.skip(1)[i],
        ) by {
            assert(names(path[i + 1], steps[i + 1]));
        }
        law_a_path_leads_to_what_it_names(
            below(tree, step),
            reached_by(step),
            path.skip(1),
            steps.skip(1),
            next,
        );
    }
}

/// A path that names something which is not there leads nowhere: no key of that name, and no entry
/// at the place that the segment names or spells.
pub proof fn law_a_path_to_nothing_has_no_place(
    tree: Tree,
    reached: Reached,
    segment: SegmentView,
    rest: Seq<SegmentView>,
    offset: Option<usize>,
)
    requires
        forall|index: nat|
            segment == (SegmentView::Index { index }) || segment is Key
                ==> !#[trigger] tree.contains_key(seq![Step::Element { index }]) && !tree.contains_key(seq![Step::TableAt { index }]),
        segment is Key ==> !tree.contains_key(seq![Step::Key { key: segment->key }]),
    ensures
        place_from(tree, reached, seq![segment] + rest, offset) is None,
{
    let path = seq![segment] + rest;
    assert(path[0] == segment);
    if let Some(index) = index_named(segment) {
        assert(!tree.contains_key(seq![Step::Element { index }]));
        assert(!tree.contains_key(seq![Step::TableAt { index }]));
    }
}

} // verus!
