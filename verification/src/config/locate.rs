//! Where in a configuration file a diagnostic points.
//!
//! Most diagnostics name a key path. The path is looked up in the parsed file, and the place of
//! its longest part that is there becomes a line and a column. A diagnostic without such a path,
//! or a file that does not parse, stays without a place.

use crate::config::document;
use crate::config::document::{parse_key_path, Document, Segment, SegmentView};
use crate::text;
use crate::text::{
    append_decimal, char_is_white_space, chars_of, find_char, parse_number, same_text, string_of,
    strip_end, strip_prefix, strip_start, trim,
};
use vstd::prelude::*;
use vstd::slice::*;
use vstd::string::*;

verus! {

/// A position in a file. Lines and columns count from one.
#[derive(Debug, Clone, Copy, PartialEq, Eq, Structural)]
pub struct ConfigLocation {
    pub line: usize,
    pub column: usize,
}

/// A diagnostic with the place that it points at.
#[derive(Debug, PartialEq, Eq)]
pub struct LocatedDiagnostic {
    pub message: String,
    pub location: Option<ConfigLocation>,
}

impl LocatedDiagnostic {
    /// A diagnostic as the user reads it.
    pub open spec fn rendered(self, file_label: Seq<char>) -> Seq<char> {
        match self.location {
            Some(location) => self.message@ + " ("@ + file_label + ":"@ + text::decimal_text(
                location.line as nat,
            ) + ":"@ + text::decimal_text(location.column as nat) + ")"@,
            None => self.message@,
        }
    }

    /// The message, with the file, line and column behind it where they are known.
    pub fn render(&self, file_label: &str) -> (text: String)
        ensures
            text@ == self.rendered(file_label@),
    {
        let mut text = text::duplicate(self.message.as_str());
        if let Some(location) = self.location {
            text.append(" (");
            text.append(file_label);
            text.append(":");
            append_decimal(&mut text, location.line as u64);
            text.append(":");
            append_decimal(&mut text, location.column as u64);
            text.append(")");
        }
        assert(text@ =~= self.rendered(file_label@));
        text
    }
}

// ---------------------------------------------------------------------------
// Lines and columns
// ---------------------------------------------------------------------------

/// A byte that continues a character.
pub open spec fn continues(byte: u8) -> bool {
    128 <= byte < 192
}

/// Line ends before `offset`.
pub open spec fn line_ends_before(bytes: Seq<u8>, offset: int) -> nat
    decreases offset,
{
    if offset <= 0 {
        0
    } else {
        line_ends_before(bytes, offset - 1) + (if offset <= bytes.len() && bytes[offset - 1] == 10 {
            1nat
        } else {
            0
        })
    }
}

/// Characters between the start of the line and `offset`, by their first bytes.
pub open spec fn characters_before(bytes: Seq<u8>, offset: int) -> nat
    decreases offset,
{
    if offset <= 0 || offset > bytes.len() || bytes[offset - 1] == 10 {
        0
    } else {
        characters_before(bytes, offset - 1) + (if continues(bytes[offset - 1]) {
            0nat
        } else {
            1
        })
    }
}

/// Whether a character starts or the text ends at `offset`.
pub open spec fn is_boundary(bytes: Seq<u8>, offset: int) -> bool {
    offset == bytes.len() || (0 <= offset < bytes.len() && !continues(bytes[offset]))
}

/// The line and column of a place. A place that is none is taken for the start of its line.
pub open spec fn spec_location(bytes: Seq<u8>, offset: usize) -> (nat, nat) {
    (
        line_ends_before(bytes, offset as int) + 1,
        if is_boundary(bytes, offset as int) {
            characters_before(bytes, offset as int) + 1
        } else {
            1
        },
    )
}

proof fn lemma_line_ends_stop(bytes: Seq<u8>, offset: int)
    requires
        offset >= bytes.len(),
    ensures
        line_ends_before(bytes, offset) == line_ends_before(bytes, bytes.len() as int),
    decreases offset - bytes.len(),
{
    if offset > bytes.len() {
        lemma_line_ends_stop(bytes, offset - 1);
    }
}

proof fn lemma_counts_fit(bytes: Seq<u8>, offset: int)
    requires
        0 <= offset <= bytes.len(),
    ensures
        line_ends_before(bytes, offset) <= offset,
        characters_before(bytes, offset) <= offset,
    decreases offset,
{
    if offset > 0 {
        lemma_counts_fit(bytes, offset - 1);
    }
}

/// The line and column of a place in a text.
pub fn location_at(bytes: &[u8], offset: usize) -> (location: ConfigLocation)
    requires
        bytes@.len() < usize::MAX,
    ensures
        (location.line as nat, location.column as nat) == spec_location(bytes@, offset),
{
    let end: usize = if offset < bytes.len() {
        offset
    } else {
        bytes.len()
    };
    let mut line: usize = 0;
    let mut column: usize = 0;
    let mut i: usize = 0;
    while i < end
        invariant
            i <= end,
            end <= bytes@.len(),
            bytes@.len() < usize::MAX,
            line == line_ends_before(bytes@, i as int),
            line <= i,
            column == characters_before(bytes@, i as int),
            column <= i,
        decreases end - i,
    {
        let byte: u8 = bytes[i];
        if byte == 10 {
            line += 1;
            column = 0;
        } else if byte < 128 || byte >= 192 {
            column += 1;
        }
        i += 1;
    }
    proof {
        if offset >= bytes@.len() {
            lemma_line_ends_stop(bytes@, offset as int);
        }
        lemma_counts_fit(bytes@, end as int);
    }
    let boundary: bool = offset == bytes.len() || (offset < bytes.len() && (bytes[offset] < 128
        || bytes[offset] >= 192));
    ConfigLocation {
        line: line + 1,
        column: if boundary {
            column + 1
        } else {
            1
        },
    }
}

// ---------------------------------------------------------------------------
// Key paths in a message
// ---------------------------------------------------------------------------

/// The path behind a fixed prefix: up to a semicolon, without the brackets of a section.
pub open spec fn named_path(rest: Seq<char>) -> Seq<char> {
    let token = text::trimmed(rest.take(text::index_of_char(rest, ';')));
    text::trimmed(
        text::stripped_end(text::stripped_end(text::stripped_start(token, '['), ']'), '?'),
    )
}

fn read_named_path(rest: &[char]) -> (path: String)
    ensures
        path@ == named_path(rest@),
{
    let end: usize = find_char(rest, ';');
    let token = trim(slice_subrange(rest, 0, end));
    assert(rest@.take(end as int) =~= rest@.subrange(0, end as int));
    let bare = trim(strip_end(strip_end(strip_start(token, '['), ']'), '?'));
    string_of(bare)
}

/// The path that a message about something unknown names, if there is one.
pub open spec fn unknown_path(message: Seq<char>, prefix: Seq<char>) -> Seq<Seq<char>> {
    if text::starts_with(message, prefix) && named_path(message.skip(prefix.len() as int)).len()
        > 0 {
        seq![named_path(message.skip(prefix.len() as int))]
    } else {
        seq![]
    }
}

/// What stands between the words of a sentence.
pub open spec fn is_separator(c: char) -> bool {
    text::is_white_space(c) || c == ',' || c == ';' || c == '(' || c == ')'
}

fn separates(c: char) -> (separator: bool)
    ensures
        separator == is_separator(c),
{
    char_is_white_space(c) || c == ',' || c == ';' || c == '(' || c == ')'
}

/// The words of a sentence; between two separators stands an empty one.
pub open spec fn words(s: Seq<char>) -> Seq<Seq<char>>
    decreases s.len(),
{
    if s.len() == 0 {
        seq![Seq::empty()]
    } else {
        let earlier = words(s.drop_last());
        if is_separator(s.last()) {
            earlier.push(Seq::empty())
        } else {
            earlier.drop_last().push(earlier.last().push(s.last()))
        }
    }
}

/// What may stand around a path in a sentence.
pub open spec fn is_ornament(c: char) -> bool {
    c == ':' || c == '.' || c == '=' || c == '"' || c == '\''
}

pub open spec fn unadorned_start(s: Seq<char>) -> Seq<char>
    decreases s.len(),
{
    if s.len() > 0 && is_ornament(s[0]) {
        unadorned_start(s.skip(1))
    } else {
        s
    }
}

pub open spec fn unadorned_end(s: Seq<char>) -> Seq<char>
    decreases s.len(),
{
    if s.len() > 0 && is_ornament(s.last()) {
        unadorned_end(s.drop_last())
    } else {
        s
    }
}

pub open spec fn starts_key(c: char) -> bool {
    'a' <= c <= 'z' || 'A' <= c <= 'Z' || c == '_'
}

/// The path that a word is: it has a dot in it and starts like a key.
pub open spec fn path_in(word: Seq<char>) -> Seq<Seq<char>> {
    let bare = unadorned_end(unadorned_start(word));
    if bare.len() >= 3 && bare.contains('.') && starts_key(bare[0]) {
        seq![bare]
    } else {
        seq![]
    }
}

/// The paths among words, in order.
pub open spec fn paths_in(words: Seq<Seq<char>>) -> Seq<Seq<char>>
    decreases words.len(),
{
    if words.len() == 0 {
        seq![]
    } else {
        paths_in(words.drop_last()) + path_in(words.last())
    }
}

/// A list without repetitions of what stands just before.
pub open spec fn deduped(list: Seq<Seq<char>>) -> Seq<Seq<char>>
    decreases list.len(),
{
    if list.len() == 0 {
        seq![]
    } else {
        let earlier = deduped(list.drop_last());
        if earlier.len() > 0 && earlier.last() == list.last() {
            earlier
        } else {
            earlier.push(list.last())
        }
    }
}

/// The key paths that a message names, the surest first.
pub open spec fn spec_candidates(message: Seq<char>) -> Seq<Seq<char>> {
    deduped(
        unknown_path(message, "unknown config key "@) + unknown_path(
            message,
            "unknown config section "@,
        ) + paths_in(words(message)),
    )
}

fn is_ornament_char(c: char) -> (ornament: bool)
    ensures
        ornament == is_ornament(c),
{
    c == ':' || c == '.' || c == '=' || c == '"' || c == '\''
}

fn without_ornaments(s: &[char]) -> (bare: &[char])
    ensures
        bare@ == unadorned_end(unadorned_start(s@)),
{
    let mut i: usize = 0;
    assert(s@.skip(0) =~= s@);
    while i < s.len() && is_ornament_char(s[i])
        invariant
            i <= s@.len(),
            unadorned_start(s@) == unadorned_start(s@.skip(i as int)),
        decreases s@.len() - i,
    {
        assert(s@.skip(i as int).skip(1) =~= s@.skip(i + 1));
        i += 1;
    }
    assert(i < s@.len() ==> s@.skip(i as int)[0] == s@[i as int]);
    let rest = slice_subrange(s, i, s.len());
    assert(rest@ =~= s@.skip(i as int));
    let mut len: usize = rest.len();
    assert(rest@.take(len as int) =~= rest@);
    while len > 0 && is_ornament_char(rest[len - 1])
        invariant
            len <= rest@.len(),
            unadorned_end(rest@) == unadorned_end(rest@.take(len as int)),
        decreases len,
    {
        assert(rest@.take(len as int).drop_last() =~= rest@.take(len - 1));
        len -= 1;
    }
    assert(len > 0 ==> rest@.take(len as int).last() == rest@[len - 1]);
    let bare = slice_subrange(rest, 0, len);
    assert(bare@ =~= rest@.take(len as int));
    bare
}

/// Appends the path that a word is.
fn push_path(paths: &mut Vec<String>, word: &[char])
    ensures
        text::texts(final(paths)@) == text::texts(old(paths)@) + path_in(word@),
{
    let bare = without_ornaments(word);
    if bare.len() < 3 {
        assert(text::texts(paths@) =~= text::texts(old(paths)@) + path_in(word@));
        return;
    }
    let dot: usize = find_char(bare, '.');
    assert((dot < bare@.len()) == bare@.contains('.')) by {
        if bare@.contains('.') {
            let k = choose|k: int| 0 <= k < bare@.len() && bare@[k] == '.';
            assert(bare@[k] == '.');
        }
    }
    let first = bare[0];
    if dot < bare.len() && (('a' <= first && first <= 'z') || ('A' <= first && first <= 'Z')
        || first == '_') {
        let path = string_of(bare);
        paths.push(path);
    }
    assert(text::texts(paths@) =~= text::texts(old(paths)@) + path_in(word@));
}

fn push_unknown_path(paths: &mut Vec<String>, message: &[char], prefix: &str)
    ensures
        text::texts(final(paths)@) == text::texts(old(paths)@) + unknown_path(
            message@,
            prefix@,
        ),
{
    if let Some(rest) = strip_prefix(message, prefix) {
        let path = read_named_path(rest);
        let empty: bool = same_text(path.as_str(), "");
        assert(empty == (path@.len() == 0)) by {
            reveal_strlit("");
            if path@.len() == 0 {
                assert(path@ =~= ""@);
            }
        }
        if !empty {
            paths.push(path);
        }
    }
    assert(text::texts(paths@) =~= text::texts(old(paths)@) + unknown_path(
        message@,
        prefix@,
    ));
}

proof fn lemma_words_nonempty(s: Seq<char>)
    ensures
        words(s).len() >= 1,
    decreases s.len(),
{
    if s.len() > 0 {
        lemma_words_nonempty(s.drop_last());
    }
}

/// The key paths that a message names, the surest first.
pub fn candidate_paths(message: &str) -> (candidates: Vec<String>)
    ensures
        text::texts(candidates@) == spec_candidates(message@),
{
    let chars = chars_of(message);
    let mut paths: Vec<String> = Vec::new();
    assert(text::texts(paths@) =~= seq![]);
    push_unknown_path(&mut paths, chars.as_slice(), "unknown config key ");
    push_unknown_path(&mut paths, chars.as_slice(), "unknown config section ");
    let ghost named = unknown_path(message@, "unknown config key "@) + unknown_path(
        message@,
        "unknown config section "@,
    );
    assert(text::texts(paths@) =~= named);
    let mut word: Vec<char> = Vec::new();
    let mut i: usize = 0;
    assert(words(chars@.take(0)).drop_last() =~= seq![]);
    assert(word@ =~= words(chars@.take(0)).last());
    assert(named + paths_in(seq![]) =~= named);
    while i < chars.len()
        invariant
            i <= chars@.len(),
            word@ == words(chars@.take(i as int)).last(),
            text::texts(paths@) == named + paths_in(words(chars@.take(i as int)).drop_last()),
        decreases chars@.len() - i,
    {
        let c = chars[i];
        let ghost earlier = words(chars@.take(i as int));
        proof {
            lemma_words_nonempty(chars@.take(i as int));
            assert(chars@.take(i + 1).drop_last() =~= chars@.take(i as int));
            assert(chars@.take(i + 1).last() == c);
        }
        if separates(c) {
            push_path(&mut paths, word.as_slice());
            proof {
                assert(words(chars@.take(i + 1)).drop_last() =~= earlier);
                assert(text::texts(paths@) =~= named + paths_in(earlier));
            }
            word.clear();
            assert(word@ =~= Seq::empty());
        } else {
            word.push(c);
            proof {
                assert(words(chars@.take(i + 1)).drop_last() =~= earlier.drop_last());
            }
        }
        i += 1;
    }
    assert(chars@.take(i as int) =~= chars@);
    push_path(&mut paths, word.as_slice());
    let ghost all = named + paths_in(words(message@));
    proof {
        lemma_words_nonempty(message@);
        assert(text::texts(paths@) =~= all);
    }
    dedup(paths, Ghost(all))
}

fn dedup(paths: Vec<String>, Ghost(all): Ghost<Seq<Seq<char>>>) -> (kept: Vec<String>)
    requires
        text::texts(paths@) == all,
    ensures
        text::texts(kept@) == deduped(all),
{
    let mut kept: Vec<String> = Vec::new();
    let mut i: usize = 0;
    assert(text::texts(kept@) =~= deduped(all.take(0)));
    while i < paths.len()
        invariant
            i <= paths@.len(),
            text::texts(paths@) == all,
            text::texts(kept@) == deduped(all.take(i as int)),
        decreases paths@.len() - i,
    {
        proof {
            assert(all.take(i + 1).drop_last() =~= all.take(i as int));
            assert(all.take(i + 1).last() == paths@[i as int]@);
            if kept@.len() > 0 {
                assert(text::texts(kept@).last() == kept@.last()@);
            }
            assert(text::texts(kept@).len() == kept@.len());
        }
        let repeats: bool = kept.len() > 0 && same_text(
            kept[kept.len() - 1].as_str(),
            paths[i].as_str(),
        );
        if !repeats {
            let ghost before = kept@;
            let path = text::duplicate(paths[i].as_str());
            kept.push(path);
            assert(text::texts(kept@) =~= text::texts(before).push(paths@[i as int]@));
        }
        i += 1;
    }
    assert(all.take(i as int) =~= all);
    kept
}

// ---------------------------------------------------------------------------
// Reading a key path
// ---------------------------------------------------------------------------

/// A part of a key path: dotted keys, or a place in an array.
#[derive(Debug, PartialEq, Eq)]
pub enum PathPart {
    Keys(String),
    Index(usize),
}

pub ghost enum PartView {
    Keys { text: Seq<char> },
    Index { index: nat },
}

impl View for PathPart {
    type V = PartView;

    open spec fn view(&self) -> PartView {
        match self {
            PathPart::Keys(text) => PartView::Keys { text: text@ },
            PathPart::Index(index) => PartView::Index { index: *index as nat },
        }
    }
}

/// The parts of a key path by what they say.
pub open spec fn parts_view(parts: Seq<PathPart>) -> Seq<PartView> {
    parts.map_values(|part: PathPart| part@)
}

/// A text without one dot at its start.
pub open spec fn after_dot(s: Seq<char>) -> Seq<char> {
    if s.len() > 0 && s[0] == '.' {
        s.skip(1)
    } else {
        s
    }
}

/// The parts of a key path such as `keys.command[0].key`. A bracket that is not closed or holds
/// no number makes it none.
pub open spec fn split_parts(rest: Seq<char>) -> Option<Seq<PartView>>
    decreases rest.len(),
{
    if rest.len() == 0 {
        Some(seq![])
    } else if rest[0] == '[' {
        let tail = rest.skip(1);
        let end = text::index_of_char(tail, ']');
        if 0 <= end < tail.len() {
            match text::parsed_number(text::trimmed(tail.take(end)), usize::MAX as nat) {
                None => None,
                Some(index) => match split_parts(after_dot(tail.skip(end + 1))) {
                    None => None,
                    Some(parts) => Some(seq![PartView::Index { index }] + parts),
                },
            }
        } else {
            None
        }
    } else {
        let end = text::index_of_char(rest, '[');
        if 0 < end <= rest.len() {
            match split_parts(rest.skip(end)) {
                None => None,
                Some(parts) => Some(seq![PartView::Keys { text: rest.take(end) }] + parts),
            }
        } else {
            None
        }
    }
}

/// Two lists one after the other, where both are there.
pub open spec fn joined(head: Seq<PartView>, tail: Option<Seq<PartView>>) -> Option<Seq<PartView>> {
    match tail {
        Some(tail) => Some(head + tail),
        None => None,
    }
}

/// The parts of a key path.
pub fn split_path(candidate: &str) -> (parts: Option<Vec<PathPart>>)
    ensures
        match parts {
            Some(parts) => split_parts(candidate@) == Some(parts_view(parts@)),
            None => split_parts(candidate@) is None,
        },
{
    let chars = chars_of(candidate);
    let mut parts: Vec<PathPart> = Vec::new();
    let mut at: usize = 0;
    assert(chars@.skip(0) =~= chars@);
    assert(parts_view(parts@) =~= seq![]);
    assert(joined(seq![], split_parts(chars@)) == split_parts(chars@)) by {
        if let Some(p) = split_parts(chars@) {
            assert(seq![] + p =~= p);
        }
    }
    while at < chars.len()
        invariant
            at <= chars@.len(),
            chars@ == candidate@,
            split_parts(chars@) == joined(parts_view(parts@), split_parts(chars@.skip(at as int))),
        decreases chars@.len() - at,
    {
        let rest = slice_subrange(chars.as_slice(), at, chars.len());
        assert(rest@ =~= chars@.skip(at as int));
        let ghost before = parts_view(parts@);
        if rest[0] == '[' {
            let tail = slice_subrange(rest, 1, rest.len());
            assert(tail@ =~= rest@.skip(1));
            let end: usize = find_char(tail, ']');
            if end >= tail.len() {
                return None;
            }
            let inside = slice_subrange(tail, 0, end);
            assert(inside@ =~= tail@.take(end as int));
            let index: usize = match parse_number(trim(inside), usize::MAX as u64) {
                Some(index) => index as usize,
                None => {
                    return None;
                },
            };
            parts.push(PathPart::Index(index));
            let ghost here = at as int;
            at = at + 1 + end + 1;
            assert(chars@.skip(at as int) =~= tail@.skip(end + 1));
            let ghost remainder = chars@.skip(at as int);
            if at < chars.len() && chars[at] == '.' {
                assert(remainder[0] == chars@[at as int]);
                at += 1;
            } else if at < chars.len() {
                assert(remainder[0] == chars@[at as int]);
            }
            proof {
                assert(chars@.skip(at as int) =~= after_dot(remainder));
                assert(parts_view(parts@) =~= before + seq![
                    PartView::Index { index: index as nat },
                ]);
                if let Some(p) = split_parts(chars@.skip(at as int)) {
                    assert(before + (seq![PartView::Index { index: index as nat }] + p)
                        =~= parts_view(parts@) + p);
                }
            }
        } else {
            let end: usize = find_char(rest, '[');
            assert(end > 0) by {
                if end == 0 {
                    assert(rest@[0] == '[');
                }
            }
            let head = slice_subrange(rest, 0, end);
            assert(head@ =~= rest@.take(end as int));
            let part = PathPart::Keys(string_of(head));
            parts.push(part);
            at = at + end;
            proof {
                assert(chars@.skip(at as int) =~= rest@.skip(end as int));
                assert(parts_view(parts@) =~= before + seq![PartView::Keys { text: head@ }]);
                if let Some(p) = split_parts(chars@.skip(at as int)) {
                    assert(before + (seq![PartView::Keys { text: head@ }] + p) =~= parts_view(
                        parts@,
                    ) + p);
                }
            }
        }
    }
    proof {
        assert(chars@.skip(at as int) =~= seq![]);
        assert(parts_view(parts@) + seq![] =~= parts_view(parts@));
    }
    Some(parts)
}

/// Keys as segments.
pub open spec fn key_segments(keys: Seq<Seq<char>>) -> Seq<SegmentView> {
    keys.map_values(|key: Seq<char>| SegmentView::Key { key })
}

/// The segments of a key path's parts, `keys_of` being what dotted keys consist of.
pub open spec fn joined_segments(
    parts: Seq<PartView>,
    keys_of: spec_fn(Seq<char>) -> Option<Seq<Seq<char>>>,
) -> Option<Seq<SegmentView>>
    decreases parts.len(),
{
    if parts.len() == 0 {
        Some(seq![])
    } else {
        match joined_segments(parts.drop_last(), keys_of) {
            None => None,
            Some(earlier) => match parts.last() {
                PartView::Index { index } => Some(earlier.push(SegmentView::Index { index })),
                PartView::Keys { text } => match keys_of(text) {
                    None => None,
                    Some(keys) => Some(earlier + key_segments(keys)),
                },
            },
        }
    }
}

/// What dotted keys consist of, in TOML.
pub open spec fn toml_keys() -> spec_fn(Seq<char>) -> Option<Seq<Seq<char>>> {
    |t: Seq<char>| document::key_path(t)
}

/// The segments of a key path; a path without any is none.
pub open spec fn spec_path(
    candidate: Seq<char>,
    keys_of: spec_fn(Seq<char>) -> Option<Seq<Seq<char>>>,
) -> Option<Seq<SegmentView>> {
    match split_parts(candidate) {
        None => None,
        Some(parts) => match joined_segments(parts, keys_of) {
            None => None,
            Some(path) => if path.len() > 0 {
                Some(path)
            } else {
                None
            },
        },
    }
}

proof fn lemma_segments_fail(
    parts: Seq<PartView>,
    n: int,
    keys_of: spec_fn(Seq<char>) -> Option<Seq<Seq<char>>>,
)
    requires
        0 <= n <= parts.len(),
        joined_segments(parts.take(n), keys_of) is None,
    ensures
        joined_segments(parts, keys_of) is None,
    decreases parts.len() - n,
{
    if n == parts.len() {
        assert(parts.take(n) =~= parts);
    } else {
        assert(parts.take(n + 1).drop_last() =~= parts.take(n));
        lemma_segments_fail(parts, n + 1, keys_of);
    }
}

/// Reads a key path such as `keys.command[0].key`, with TOML's quoting of keys.
pub fn parse_path(candidate: &str) -> (path: Option<Vec<Segment>>)
    ensures
        match path {
            Some(path) => spec_path(candidate@, toml_keys()) == Some(document::segments(path@)),
            None => spec_path(candidate@, toml_keys()) is None,
        },
{
    let parts = match split_path(candidate) {
        Some(parts) => parts,
        None => {
            return None;
        },
    };
    let ghost all = parts_view(parts@);
    let mut path: Vec<Segment> = Vec::new();
    let mut i: usize = 0;
    assert(document::segments(path@) =~= seq![]);
    while i < parts.len()
        invariant
            i <= parts@.len(),
            all == parts_view(parts@),
            split_parts(candidate@) == Some(all),
            joined_segments(all.take(i as int), toml_keys()) == Some(document::segments(path@)),
        decreases parts@.len() - i,
    {
        let ghost before = document::segments(path@);
        proof {
            assert(all.take(i + 1).drop_last() =~= all.take(i as int));
            assert(all.take(i + 1).last() == parts@[i as int]@);
        }
        match &parts[i] {
            PathPart::Index(index) => {
                path.push(Segment::Index(*index));
                assert(document::segments(path@) =~= before.push(
                    SegmentView::Index { index: *index as nat },
                ));
            },
            PathPart::Keys(head) => match parse_key_path(head.as_str()) {
                None => {
                    proof {
                        lemma_segments_fail(all, i + 1, toml_keys());
                    }
                    return None;
                },
                Some(keys) => {
                    push_keys(&mut path, &keys);
                },
            },
        }
        i += 1;
    }
    assert(all.take(i as int) =~= all);
    if path.len() == 0 {
        None
    } else {
        Some(path)
    }
}

fn push_keys(path: &mut Vec<Segment>, keys: &Vec<String>)
    ensures
        document::segments(final(path)@) == document::segments(old(path)@) + key_segments(
            text::texts(keys@),
        ),
{
    let ghost before = document::segments(path@);
    let ghost all = key_segments(text::texts(keys@));
    let mut i: usize = 0;
    assert(document::segments(path@) =~= before + all.take(0));
    while i < keys.len()
        invariant
            i <= keys@.len(),
            all == key_segments(text::texts(keys@)),
            document::segments(path@) == before + all.take(i as int),
        decreases keys@.len() - i,
    {
        let ghost here = document::segments(path@);
        let key = text::duplicate(keys[i].as_str());
        path.push(Segment::Key(key));
        assert(document::segments(path@) =~= here.push(SegmentView::Key { key: keys@[i as int]@ }));
        assert(all.take(i + 1) =~= all.take(i as int).push(
            SegmentView::Key { key: keys@[i as int]@ },
        ));
        assert(document::segments(path@) =~= before + all.take(i + 1));
        i += 1;
    }
    assert(all.take(i as int) =~= all);
}

// ---------------------------------------------------------------------------
// Looking a path up
// ---------------------------------------------------------------------------

/// The place of the longest part of a path, of at most `length` segments, that has one.
pub open spec fn longest_place(tree: document::Tree, path: Seq<SegmentView>, length: nat) -> Option<
    usize,
>
    decreases length,
{
    if length == 0 {
        None
    } else {
        match document::place_from(tree, document::Reached::Item, path.take(length as int), None) {
            Some(offset) => Some(offset),
            None => longest_place(tree, path, (length - 1) as nat),
        }
    }
}

/// The place that a list of candidates leads to: of the first one that is a path and has a place.
pub open spec fn first_place(
    tree: document::Tree,
    candidates: Seq<Seq<char>>,
    keys_of: spec_fn(Seq<char>) -> Option<Seq<Seq<char>>>,
) -> Option<usize>
    decreases candidates.len(),
{
    if candidates.len() == 0 {
        None
    } else {
        match first_place(tree, candidates.drop_last(), keys_of) {
            Some(offset) => Some(offset),
            None => match spec_path(candidates.last(), keys_of) {
                Some(path) => longest_place(tree, path, path.len()),
                None => None,
            },
        }
    }
}

/// The place in a file that a message points at.
pub open spec fn message_place(tree: document::Tree, message: Seq<char>) -> Option<usize> {
    first_place(tree, spec_candidates(message), toml_keys())
}

/// A configuration file with the place of everything in it.
pub struct ConfigSource {
    document: Document,
    content: Vec<u8>,
}

impl ConfigSource {
    pub closed spec fn tree(self) -> document::Tree {
        self.document.tree()
    }

    pub closed spec fn bytes(self) -> Seq<u8> {
        self.content@
    }

    /// Parses a file; nothing where it is no TOML.
    pub fn parse(content: &str) -> (source: Option<ConfigSource>)
        ensures
            match source {
                Some(source) => document::parsed_tree(content@) == Some(source.tree())
                    && source.bytes() == vstd::utf8::encode_utf8(content@),
                None => document::parsed_tree(content@) is None,
            },
    {
        match Document::parse(content) {
            Some(document) => {
                let mut bytes: Vec<u8> = Vec::new();
                text::push_text(&mut bytes, content);
                assert(bytes@ =~= vstd::utf8::encode_utf8(content@));
                Some(ConfigSource { document, content: bytes })
            },
            None => None,
        }
    }

    fn offset_of_longest(&self, path: &Vec<Segment>) -> (offset: Option<usize>)
        ensures
            offset == longest_place(self.tree(), document::segments(path@), path@.len()),
    {
        let mut length: usize = path.len();
        while length > 0
            invariant
                length <= path@.len(),
                longest_place(self.tree(), document::segments(path@), path@.len())
                    == longest_place(self.tree(), document::segments(path@), length as nat),
            decreases length,
        {
            if let Some(offset) = self.document.offset_of(path.as_slice(), length) {
                return Some(offset);
            }
            length -= 1;
        }
        None
    }

    fn offset_of_message(&self, message: &str) -> (offset: Option<usize>)
        ensures
            offset == message_place(self.tree(), message@),
    {
        let candidates = candidate_paths(message);
        let ghost all = spec_candidates(message@);
        let mut i: usize = 0;
        while i < candidates.len()
            invariant
                i <= candidates@.len(),
                all == text::texts(candidates@),
                all == spec_candidates(message@),
                first_place(self.tree(), all.take(i as int), toml_keys()) is None,
            decreases candidates@.len() - i,
        {
            proof {
                assert(all.take(i + 1).drop_last() =~= all.take(i as int));
                assert(all.take(i + 1).last() == candidates@[i as int]@);
            }
            if let Some(path) = parse_path(candidates[i].as_str()) {
                if let Some(offset) = self.offset_of_longest(&path) {
                    proof {
                        assert(document::segments(path@).len() == path@.len());
                        lemma_first_place(self.tree(), all, i + 1, toml_keys());
                    }
                    return Some(offset);
                }
                assert(document::segments(path@).len() == path@.len());
            }
            i += 1;
        }
        assert(all.take(i as int) =~= all);
        None
    }

    /// The line and column that a message points at.
    pub fn locate_message(&self, message: &str) -> (location: Option<ConfigLocation>)
        requires
            self.bytes().len() < usize::MAX,
        ensures
            match location {
                Some(location) => message_place(self.tree(), message@) is Some && (
                    location.line as nat,
                    location.column as nat,
                ) == spec_location(self.bytes(), message_place(self.tree(), message@)->0),
                None => message_place(self.tree(), message@) is None,
            },
    {
        match self.offset_of_message(message) {
            Some(offset) => Some(location_at(self.content.as_slice(), offset)),
            None => None,
        }
    }
}

proof fn lemma_first_place(
    tree: document::Tree,
    candidates: Seq<Seq<char>>,
    n: int,
    keys_of: spec_fn(Seq<char>) -> Option<Seq<Seq<char>>>,
)
    requires
        0 <= n <= candidates.len(),
        first_place(tree, candidates.take(n), keys_of) is Some,
    ensures
        first_place(tree, candidates, keys_of) == first_place(tree, candidates.take(n), keys_of),
    decreases candidates.len() - n,
{
    if n == candidates.len() {
        assert(candidates.take(n) =~= candidates);
    } else {
        assert(candidates.take(n + 1).drop_last() =~= candidates.take(n));
        lemma_first_place(tree, candidates, n + 1, keys_of);
    }
}

/// What becomes of one diagnostic of a file.
pub open spec fn is_located(
    content: Seq<char>,
    message: Seq<char>,
    located: LocatedDiagnostic,
) -> bool {
    &&& located.message@ == message
    &&& match document::parsed_tree(content) {
        None => located.location is None,
        Some(tree) => match message_place(tree, message) {
            None => located.location is None,
            Some(offset) => located.location is Some && (
                located.location->0.line as nat,
                located.location->0.column as nat,
            ) == spec_location(vstd::utf8::encode_utf8(content), offset),
        },
    }
}

/// Gives each diagnostic of a file the place that it points at.
pub fn locate_diagnostics(content: &str, diagnostics: Vec<String>) -> (located: Vec<
    LocatedDiagnostic,
>)
    requires
        vstd::utf8::encode_utf8(content@).len() < usize::MAX,
    ensures
        located@.len() == diagnostics@.len(),
        forall|i: int|
            #![trigger located@[i]]
            0 <= i < located@.len() ==> is_located(content@, diagnostics@[i]@, located@[i]),
{
    let source = ConfigSource::parse(content);
    let mut located: Vec<LocatedDiagnostic> = Vec::new();
    let mut i: usize = 0;
    while i < diagnostics.len()
        invariant
            i <= diagnostics@.len(),
            vstd::utf8::encode_utf8(content@).len() < usize::MAX,
            match source {
                Some(source) => document::parsed_tree(content@) == Some(source.tree())
                    && source.bytes() == vstd::utf8::encode_utf8(content@),
                None => document::parsed_tree(content@) is None,
            },
            located@.len() == i,
            forall|j: int|
                #![trigger located@[j]]
                0 <= j < i ==> is_located(content@, diagnostics@[j]@, located@[j]),
        decreases diagnostics@.len() - i,
    {
        let message = diagnostics[i].as_str();
        let location = match &source {
            Some(source) => source.locate_message(message),
            None => None,
        };
        located.push(LocatedDiagnostic { message: text::duplicate(message), location });
        i += 1;
    }
    located
}

// ---------------------------------------------------------------------------
// What paths and places are
// ---------------------------------------------------------------------------

proof fn lemma_segments_concat(
    a: Seq<PartView>,
    b: Seq<PartView>,
    keys_of: spec_fn(Seq<char>) -> Option<Seq<Seq<char>>>,
)
    ensures
        joined_segments(a + b, keys_of) == match (
            joined_segments(a, keys_of),
            joined_segments(b, keys_of),
        ) {
            (Some(first), Some(second)) => Some(first + second),
            _ => None,
        },
    decreases b.len(),
{
    if b.len() == 0 {
        assert(a + b =~= a);
        if let Some(first) = joined_segments(a, keys_of) {
            assert(first + Seq::<SegmentView>::empty() =~= first);
        }
    } else {
        lemma_segments_concat(a, b.drop_last(), keys_of);
        assert((a + b).drop_last() =~= a + b.drop_last());
        assert((a + b).last() == b.last());
        if let (Some(first), Some(second)) = (
            joined_segments(a, keys_of),
            joined_segments(b.drop_last(), keys_of),
        ) {
            match b.last() {
                PartView::Index { index } => {
                    assert((first + second).push(SegmentView::Index { index }) =~= first
                        + second.push(SegmentView::Index { index }));
                },
                PartView::Keys { text } => {
                    if let Some(keys) = keys_of(text) {
                        assert((first + second) + key_segments(keys) =~= first + (second
                            + key_segments(keys)));
                    }
                },
            }
        }
    }
}

/// A place in brackets, and a dot behind it where there is one, are split off as they are.
proof fn lemma_split_index(n: nat, dot: bool, rest: Seq<char>)
    requires
        n <= usize::MAX,
        !dot && rest.len() > 0 ==> rest[0] != '.',
    ensures
        split_parts("["@ + text::decimal_text(n) + "]"@ + (if dot {
            "."@
        } else {
            seq![]
        }) + rest) == joined(seq![PartView::Index { index: n }], split_parts(rest)),
{
    reveal_strlit("[");
    reveal_strlit("]");
    reveal_strlit(".");
    let digits = text::decimal_text(n);
    let between: Seq<char> = if dot {
        "."@
    } else {
        seq![]
    };
    let whole = "["@ + digits + "]"@ + between + rest;
    let tail = whole.skip(1);
    let behind = seq![']'] + between + rest;
    assert(tail =~= digits + behind);
    text::law_number_round_trip(n, usize::MAX as nat);
    assert forall|i: int| 0 <= i < digits.len() implies digits[i] != ']'
        && !text::is_white_space(digits[i]) by {
        assert('0' <= digits[i] <= '9');
    }
    text::lemma_index_past(digits, behind, ']');
    assert(tail.take(digits.len() as int) =~= digits);
    assert(tail.skip(digits.len() as int + 1) =~= between + rest);
    text::lemma_not_trimmed(digits);
    assert(after_dot(between + rest) =~= rest);
}

/// Keys before a bracket, or alone, are split off as they are.
proof fn lemma_split_keys(keys: Seq<char>, rest: Seq<char>)
    requires
        keys.len() > 0,
        !keys.contains('['),
        rest.len() > 0 ==> rest[0] == '[',
    ensures
        split_parts(keys + rest) == joined(seq![PartView::Keys { text: keys }], split_parts(rest)),
{
    let whole = keys + rest;
    assert forall|i: int| 0 <= i < keys.len() implies keys[i] != '[' by {
        assert(keys.contains(keys[i]));
    }
    text::lemma_index_past(keys, rest, '[');
    assert(whole[0] == keys[0]);
    assert(whole.take(keys.len() as int) =~= keys);
    assert(whole.skip(keys.len() as int) =~= rest);
}

proof fn lemma_one_part(part: PartView, keys_of: spec_fn(Seq<char>) -> Option<Seq<Seq<char>>>)
    ensures
        joined_segments(seq![part], keys_of) == match part {
            PartView::Index { index } => Some(seq![SegmentView::Index { index }]),
            PartView::Keys { text } => match keys_of(text) {
                Some(keys) => Some(key_segments(keys)),
                None => None,
            },
        },
{
    let none = Seq::<SegmentView>::empty();
    assert(seq![part].drop_last() =~= Seq::<PartView>::empty());
    assert(joined_segments(seq![part].drop_last(), keys_of) == Some(none));
    match part {
        PartView::Index { index } => {
            assert(none.push(SegmentView::Index { index }) =~= seq![SegmentView::Index { index }]);
        },
        PartView::Keys { text } => {
            if let Some(keys) = keys_of(text) {
                assert(none + key_segments(keys) =~= key_segments(keys));
            }
        },
    }
}

proof fn lemma_joined_path(
    head: Seq<PartView>,
    rest: Seq<char>,
    whole: Seq<char>,
    keys_of: spec_fn(Seq<char>) -> Option<Seq<Seq<char>>>,
)
    requires
        split_parts(whole) == joined(head, split_parts(rest)),
        spec_path(rest, keys_of) is Some,
        joined_segments(head, keys_of) is Some,
    ensures
        spec_path(whole, keys_of) == Some(
            joined_segments(head, keys_of)->0 + spec_path(rest, keys_of)->0,
        ),
{
    lemma_segments_concat(head, split_parts(rest)->0, keys_of);
}

/// A path keeps its keys and its places in arrays: before a place in brackets stand the segments of
/// the keys, then the place, just as it is written, and then the segments of what follows. `keys` is
/// what the dotted keys consist of.
pub proof fn law_paths_keep_their_places(
    dotted: Seq<char>,
    n: nat,
    rest: Seq<char>,
    keys_of: spec_fn(Seq<char>) -> Option<Seq<Seq<char>>>,
)
    requires
        dotted.len() > 0,
        !dotted.contains('['),
        keys_of(dotted) is Some,
        keys_of(dotted)->0.len() > 0,
        n <= usize::MAX,
    ensures
        ({
            let keys = keys_of(dotted)->0;
            let named = Seq::new(keys.len(), |i: int| SegmentView::Key { key: keys[i] });
            let place = "["@ + text::decimal_text(n) + "]"@;
            let head = named.push(SegmentView::Index { index: n });
            &&& spec_path(dotted, keys_of) == Some(named)
            &&& spec_path(place, keys_of) == Some(seq![SegmentView::Index { index: n }])
            &&& spec_path(dotted + place, keys_of) == Some(head)
            &&& spec_path(rest, keys_of) is Some ==> spec_path(
                dotted + (place + "."@ + rest),
                keys_of,
            ) == Some(head + spec_path(rest, keys_of)->0)
            &&& spec_path(rest, keys_of) is Some && rest[0] == '[' ==> spec_path(
                dotted + (place + rest),
                keys_of,
            ) == Some(head + spec_path(rest, keys_of)->0)
        }),
{
    reveal_strlit("[");
    reveal_strlit("]");
    reveal_strlit(".");
    let keys = keys_of(dotted)->0;
    let named = Seq::new(keys.len(), |i: int| SegmentView::Key { key: keys[i] });
    let place = "["@ + text::decimal_text(n) + "]"@;
    let head = named.push(SegmentView::Index { index: n });
    let key_part = PartView::Keys { text: dotted };
    let place_part = PartView::Index { index: n };
    assert(key_segments(keys) =~= named);
    lemma_one_part(key_part, keys_of);
    lemma_one_part(place_part, keys_of);
    assert(split_parts(seq![]) == Some(Seq::<PartView>::empty()));
    assert(seq![key_part] + Seq::<PartView>::empty() =~= seq![key_part]);
    assert(seq![place_part] + Seq::<PartView>::empty() =~= seq![place_part]);
    lemma_split_keys(dotted, seq![]);
    assert(dotted + Seq::<char>::empty() =~= dotted);
    lemma_split_index(n, false, seq![]);
    assert(place + Seq::<char>::empty() + Seq::<char>::empty() =~= place);
    lemma_split_keys(dotted, place);
    lemma_joined_path(seq![key_part], place, dotted + place, keys_of);
    assert(named + seq![SegmentView::Index { index: n }] =~= head);
    if spec_path(rest, keys_of) is Some {
        let more = spec_path(rest, keys_of)->0;
        lemma_split_index(n, true, rest);
        assert(place + "."@ + rest =~= "["@ + text::decimal_text(n) + "]"@ + "."@ + rest);
        lemma_joined_path(seq![place_part], rest, place + "."@ + rest, keys_of);
        lemma_split_keys(dotted, place + "."@ + rest);
        lemma_joined_path(
            seq![key_part],
            place + "."@ + rest,
            dotted + (place + "."@ + rest),
            keys_of,
        );
        assert(named + (seq![SegmentView::Index { index: n }] + more) =~= head + more);
        if rest[0] == '[' {
            lemma_split_index(n, false, rest);
            assert(place + Seq::<char>::empty() + rest =~= place + rest);
            lemma_joined_path(seq![place_part], rest, place + rest, keys_of);
            lemma_split_keys(dotted, place + rest);
            lemma_joined_path(seq![key_part], place + rest, dotted + (place + rest), keys_of);
        }
    }
}

/// Paths that differ in a place name different entries.
pub proof fn law_different_places_are_different_paths(
    dotted: Seq<char>,
    m: nat,
    n: nat,
    rest: Seq<char>,
    keys_of: spec_fn(Seq<char>) -> Option<Seq<Seq<char>>>,
)
    requires
        dotted.len() > 0,
        !dotted.contains('['),
        keys_of(dotted) is Some,
        keys_of(dotted)->0.len() > 0,
        m <= usize::MAX,
        n <= usize::MAX,
        m != n,
        spec_path(rest, keys_of) is Some,
    ensures
        spec_path(dotted + ("["@ + text::decimal_text(m) + "]"@ + "."@ + rest), keys_of)
            != spec_path(dotted + ("["@ + text::decimal_text(n) + "]"@ + "."@ + rest), keys_of),
{
    law_paths_keep_their_places(dotted, m, rest, keys_of);
    law_paths_keep_their_places(dotted, n, rest, keys_of);
    let keys = keys_of(dotted)->0;
    let named = Seq::new(keys.len(), |i: int| SegmentView::Key { key: keys[i] });
    let more = spec_path(rest, keys_of)->0;
    let a = named.push(SegmentView::Index { index: m }) + more;
    let b = named.push(SegmentView::Index { index: n }) + more;
    assert(a[keys.len() as int] == SegmentView::Index { index: m });
    assert(b[keys.len() as int] == SegmentView::Index { index: n });
}

/// A file starts at the first column of its first line. Behind a line end the next line starts, and
/// behind any other character the next column, however many bytes the character has.
pub proof fn law_places_are_counted(bytes: Seq<u8>, at: usize, next: usize)
    requires
        at < next <= bytes.len(),
        is_boundary(bytes, at as int),
        is_boundary(bytes, next as int),
        forall|i: int| at < i < next ==> 128 <= #[trigger] bytes[i] < 192,
    ensures
        is_boundary(bytes, 0) ==> spec_location(bytes, 0) == (1nat, 1nat),
        spec_location(bytes, next) == (if bytes[at as int] == 10 {
            (spec_location(bytes, at).0 + 1, 1nat)
        } else {
            (spec_location(bytes, at).0, spec_location(bytes, at).1 + 1)
        }),
{
    lemma_character(bytes, at as int, next as int);
}

proof fn lemma_character(bytes: Seq<u8>, at: int, next: int)
    requires
        0 <= at < next <= bytes.len(),
        !continues(bytes[at]),
        forall|i: int| at < i < next ==> 128 <= #[trigger] bytes[i] < 192,
    ensures
        line_ends_before(bytes, next) == line_ends_before(bytes, at) + (if bytes[at] == 10 {
            1nat
        } else {
            0
        }),
        characters_before(bytes, next) == if bytes[at] == 10 {
            0
        } else {
            characters_before(bytes, at) + 1
        },
    decreases next - at,
{
    if next > at + 1 {
        lemma_character(bytes, at, next - 1);
        assert(128 <= bytes[next - 1] < 192);
    }
}

/// The longest part of a path that has a place decides: the whole path where it has one, and
/// otherwise what decides for the path without its last segment.
pub proof fn law_the_longest_part_decides(tree: document::Tree, path: Seq<SegmentView>)
    requires
        path.len() > 0,
    ensures
        ({
            let place = document::place_from(tree, document::Reached::Item, path, None);
            let shorter = path.drop_last();
            &&& place is Some ==> longest_place(tree, path, path.len()) == place
            &&& place is None ==> longest_place(tree, path, path.len()) == longest_place(
                tree,
                shorter,
                shorter.len(),
            )
            &&& longest_place(tree, Seq::<SegmentView>::empty(), 0) is None
        }),
{
    assert(path.take(path.len() as int) =~= path);
    lemma_shorter(tree, path, (path.len() - 1) as nat);
}

proof fn lemma_shorter(tree: document::Tree, path: Seq<SegmentView>, length: nat)
    requires
        length < path.len(),
    ensures
        longest_place(tree, path, length) == longest_place(tree, path.drop_last(), length),
    decreases length,
{
    if length > 0 {
        lemma_shorter(tree, path, (length - 1) as nat);
        assert(path.take(length as int) =~= path.drop_last().take(length as int));
    }
}

/// The first candidate that has a place decides: what stands behind it does not matter, and what
/// stands before it and has none does not either.
pub proof fn law_the_first_candidate_decides(
    tree: document::Tree,
    first: Seq<char>,
    others: Seq<Seq<char>>,
    keys_of: spec_fn(Seq<char>) -> Option<Seq<Seq<char>>>,
)
    ensures
        ({
            let own = match spec_path(first, keys_of) {
                Some(path) => longest_place(tree, path, path.len()),
                None => None,
            };
            let all = seq![first] + others;
            &&& own is Some ==> first_place(tree, all, keys_of) == own
            &&& own is None ==> first_place(tree, all, keys_of) == first_place(
                tree,
                others,
                keys_of,
            )
        }),
    decreases others.len(),
{
    let all = seq![first] + others;
    if others.len() == 0 {
        assert(all.drop_last() =~= Seq::<Seq<char>>::empty());
        assert(all.last() == first);
        assert(first_place(tree, all.drop_last(), keys_of) is None);
    } else {
        law_the_first_candidate_decides(tree, first, others.drop_last(), keys_of);
        assert(all.drop_last() =~= seq![first] + others.drop_last());
        assert(all.last() == others.last());
    }
}

proof fn lemma_deduped_keeps(list: Seq<Seq<char>>, i: int)
    requires
        0 <= i < list.len(),
    ensures
        deduped(list).contains(list[i]),
        deduped(list).len() > 0,
        deduped(list).last() == list.last(),
        deduped(list)[0] == list[0],
    decreases list.len(),
{
    let earlier = deduped(list.drop_last());
    let now = deduped(list);
    if list.len() == 1 {
        assert(list.drop_last() =~= Seq::<Seq<char>>::empty());
        assert(earlier.len() == 0);
        assert(now[0] == list[0]);
    } else {
        lemma_deduped_keeps(list.drop_last(), 0);
        if i < list.len() - 1 {
            lemma_deduped_keeps(list.drop_last(), i);
            let k = choose|k: int| 0 <= k < earlier.len() && earlier[k] == list[i];
            assert(now[k] == list[i]);
        } else {
            assert(now.last() == list[i]);
            assert(now[now.len() - 1] == list[i]);
        }
    }
}

proof fn lemma_words_of_word(a: Seq<char>, word: Seq<char>)
    requires
        forall|i: int| 0 <= i < word.len() ==> !is_separator(#[trigger] word[i]),
    ensures
        words(a + word).len() == words(a).len(),
        words(a + word).last() == words(a).last() + word,
        words(a + word).drop_last() == words(a).drop_last(),
    decreases word.len(),
{
    lemma_words_nonempty(a);
    if word.len() == 0 {
        assert(a + word =~= a);
        assert(words(a).last() + word =~= words(a).last());
    } else {
        let short = word.drop_last();
        assert forall|i: int| 0 <= i < short.len() implies !is_separator(#[trigger] short[i]) by {
            assert(short[i] == word[i]);
        }
        lemma_words_of_word(a, short);
        assert((a + word).drop_last() =~= a + short);
        assert((a + word).last() == word[word.len() - 1]);
        assert(words(a).last() + word =~= (words(a).last() + short).push(word.last()));
        assert(words(a + word).drop_last() =~= words(a + short).drop_last());
    }
}

/// Behind a separator the words so far stay.
proof fn lemma_words_stay(a: Seq<char>, b: Seq<char>)
    requires
        b.len() > 0,
        is_separator(b[0]),
    ensures
        words(a + b).len() > words(a).len(),
        words(a + b).take(words(a).len() as int) == words(a),
    decreases b.len(),
{
    let short = b.drop_last();
    assert((a + b).drop_last() =~= a + short);
    assert((a + b).last() == b.last());
    lemma_words_nonempty(a);
    if short.len() == 0 {
        assert(a + short =~= a);
        assert(words(a + b) =~= words(a).push(Seq::empty()));
        assert(words(a + b).take(words(a).len() as int) =~= words(a));
    } else {
        assert(short[0] == b[0]);
        lemma_words_stay(a, short);
        assert(words(a + b).take(words(a).len() as int) =~= words(a + short).take(
            words(a).len() as int,
        ));
    }
}

proof fn lemma_paths_in(list: Seq<Seq<char>>, i: int)
    requires
        0 <= i < list.len(),
        path_in(list[i]).len() == 1,
    ensures
        paths_in(list).contains(path_in(list[i])[0]),
    decreases list.len(),
{
    let before = paths_in(list.drop_last());
    let whole = paths_in(list);
    let path = path_in(list[i])[0];
    if i < list.len() - 1 {
        lemma_paths_in(list.drop_last(), i);
        let k = choose|k: int| 0 <= k < before.len() && before[k] == path;
        assert(whole[k] == path);
    } else {
        assert(whole[before.len() as int] == path);
    }
}

/// A sign that ends a word of a sentence.
pub open spec fn ends_word(c: char) -> bool {
    c == ' ' || c == '\n' || c == ',' || c == ';' || c == '(' || c == ')'
}

/// Signs that a sentence may put around a word.
pub open spec fn are_marks(s: Seq<char>) -> bool {
    forall|i: int|
        0 <= i < s.len() ==> #[trigger] s[i] == ':' || s[i] == '.' || s[i] == '=' || s[i] == '"'
            || s[i] == '\''
}

proof fn lemma_marks_before(marks: Seq<char>, s: Seq<char>)
    requires
        are_marks(marks),
        s.len() > 0,
        !is_ornament(s[0]),
    ensures
        unadorned_start(marks + s) == s,
    decreases marks.len(),
{
    if marks.len() == 0 {
        assert(marks + s =~= s);
    } else {
        assert((marks + s)[0] == marks[0]);
        assert((marks + s).skip(1) =~= marks.skip(1) + s);
        assert forall|i: int| 0 <= i < marks.skip(1).len() implies #[trigger] marks.skip(1)[i] == ':'
            || marks.skip(1)[i] == '.' || marks.skip(1)[i] == '=' || marks.skip(1)[i] == '"'
            || marks.skip(1)[i] == '\'' by {
            assert(marks.skip(1)[i] == marks[i + 1]);
        }
        lemma_marks_before(marks.skip(1), s);
    }
}

proof fn lemma_marks_behind(s: Seq<char>, marks: Seq<char>)
    requires
        are_marks(marks),
        s.len() > 0,
        !is_ornament(s.last()),
    ensures
        unadorned_end(s + marks) == s,
    decreases marks.len(),
{
    if marks.len() == 0 {
        assert(s + marks =~= s);
    } else {
        let short = marks.drop_last();
        assert((s + marks).last() == marks[marks.len() - 1]);
        assert((s + marks).drop_last() =~= s + short);
        assert forall|i: int| 0 <= i < short.len() implies #[trigger] short[i] == ':' || short[i]
            == '.' || short[i] == '=' || short[i] == '"' || short[i] == '\'' by {
            assert(short[i] == marks[i]);
        }
        lemma_marks_behind(s, short);
    }
}

/// A key path that stands in a message as a word is one of the candidates, without the signs of the
/// sentence around it. It has a dot inside, and it starts with a letter or an underscore.
pub proof fn law_paths_in_a_message_are_found(
    before: Seq<char>,
    lead: Seq<char>,
    path: Seq<char>,
    trail: Seq<char>,
    behind: Seq<char>,
)
    requires
        before.len() > 0 ==> ends_word(before.last()),
        behind.len() > 0 ==> ends_word(behind[0]),
        are_marks(lead),
        are_marks(trail),
        path.len() >= 3,
        path.contains('.'),
        'a' <= path[0] <= 'z' || 'A' <= path[0] <= 'Z' || path[0] == '_',
        !are_marks(seq![path.last()]),
        forall|i: int|
            0 <= i < path.len() ==> !ends_word(#[trigger] path[i]) && !text::is_white_space(path[i]),
    ensures
        spec_candidates(before + (lead + path + trail) + behind).contains(path),
{
    let word = lead + path + trail;
    let message = before + word + behind;
    lemma_words_nonempty(before);
    assert forall|i: int| 0 <= i < word.len() implies !is_separator(#[trigger] word[i]) by {
        if i < lead.len() {
            assert(word[i] == lead[i]);
        } else if i < lead.len() + path.len() {
            assert(word[i] == path[i - lead.len()]);
        } else {
            assert(word[i] == trail[i - lead.len() - path.len()]);
        }
    }
    lemma_words_of_word(before, word);
    let n = words(before).len() - 1;
    if before.len() > 0 {
        assert(words(before).last() =~= Seq::<char>::empty());
    }
    assert(words(before).last() + word =~= word);
    if behind.len() > 0 {
        lemma_words_stay(before + word, behind);
        let all = words(message);
        assert(all.take(words(before + word).len() as int)[n] == all[n]);
    } else {
        assert(message =~= before + word);
    }
    let all = words(message);
    assert(all[n] == word);
    assert(word =~= lead + (path + trail));
    assert((path + trail)[0] == path[0]);
    lemma_marks_before(lead, path + trail);
    assert(!is_ornament(path.last())) by {
        if is_ornament(path.last()) {
            assert(are_marks(seq![path.last()]));
        }
    }
    lemma_marks_behind(path, trail);
    assert(path_in(word) =~= seq![path]);
    lemma_paths_in(all, n);
    let found = paths_in(all);
    let named = unknown_path(message, "unknown config key "@) + unknown_path(
        message,
        "unknown config section "@,
    );
    let k = choose|k: int| 0 <= k < found.len() && found[k] == path;
    let list = named + found;
    assert(list[named.len() + k] == path);
    lemma_deduped_keeps(list, named.len() + k);
}

/// A message about an unknown key or section names it behind its first words, up to a semicolon:
/// that is the first candidate, whatever else the message holds.
pub proof fn law_the_unknown_key_comes_first(name: Seq<char>, behind: Seq<char>)
    requires
        name.len() > 0,
        behind.len() > 0 ==> behind[0] == ';',
        forall|i: int|
            0 <= i < name.len() ==> #[trigger] name[i] != ';' && name[i] != '[' && name[i] != ']'
                && name[i] != '?' && !text::is_white_space(name[i]),
    ensures
        ({
            let key = "unknown config key "@ + name + behind;
            let table = "unknown config section ["@ + name + "]"@ + behind;
            &&& spec_candidates(key).len() > 0
            &&& spec_candidates(key)[0] == name
            &&& spec_candidates(table).len() > 0
            &&& spec_candidates(table)[0] == name
        }),
{
    reveal_strlit("unknown config key ");
    reveal_strlit("unknown config section ");
    reveal_strlit("unknown config section [");
    reveal_strlit("]");
    let key_words = "unknown config key "@;
    let section_words = "unknown config section "@;
    let key = key_words + name + behind;
    let table = "unknown config section ["@ + name + "]"@ + behind;
    assert("unknown config section ["@ =~= section_words.push('['));
    assert(key.take(key_words.len() as int) =~= key_words);
    assert(key.skip(key_words.len() as int) =~= name + behind);
    lemma_named(name, behind);
    let shown = seq!['['] + name + seq![']'];
    assert(table.take(section_words.len() as int) =~= section_words);
    assert(table.skip(section_words.len() as int) =~= shown + behind);
    lemma_named_section(name, behind);
    assert(table.take(key_words.len() as int)[15] == 's' && key_words[15] == 'k');
    let key_list = unknown_path(key, key_words) + unknown_path(key, section_words) + paths_in(
        words(key),
    );
    assert(key_list[0] == name);
    lemma_deduped_keeps(key_list, 0);
    let table_list = unknown_path(table, key_words) + unknown_path(table, section_words) + paths_in(
        words(table),
    );
    assert(table_list[0] == name);
    lemma_deduped_keeps(table_list, 0);
}

proof fn lemma_named(name: Seq<char>, behind: Seq<char>)
    requires
        name.len() > 0,
        behind.len() > 0 ==> behind[0] == ';',
        forall|i: int|
            0 <= i < name.len() ==> #[trigger] name[i] != ';' && name[i] != '[' && name[i] != ']'
                && name[i] != '?' && !text::is_white_space(name[i]),
    ensures
        named_path(name + behind) == name,
{
    let rest = name + behind;
    text::lemma_index_past(name, behind, ';');
    assert(rest.take(name.len() as int) =~= name);
    text::lemma_not_trimmed(name);
}

proof fn lemma_named_section(name: Seq<char>, behind: Seq<char>)
    requires
        name.len() > 0,
        behind.len() > 0 ==> behind[0] == ';',
        forall|i: int|
            0 <= i < name.len() ==> #[trigger] name[i] != ';' && name[i] != '[' && name[i] != ']'
                && name[i] != '?' && !text::is_white_space(name[i]),
    ensures
        named_path(seq!['['] + name + seq![']'] + behind) == name,
{
    let shown = seq!['['] + name + seq![']'];
    let rest = shown + behind;
    assert forall|i: int| 0 <= i < shown.len() implies shown[i] != ';' by {
        if 0 < i <= name.len() {
            assert(shown[i] == name[i - 1]);
        }
    }
    text::lemma_index_past(shown, behind, ';');
    assert(rest.take(shown.len() as int) =~= shown);
    text::lemma_not_trimmed(shown);
    assert(shown.skip(1) =~= name + seq![']']);
    let open = shown.skip(1);
    assert(open[0] == name[0]);
    assert(text::stripped_start(open, '[') == open);
    assert(text::stripped_start(shown, '[') == open);
    assert(open.drop_last() =~= name);
    assert(open.last() == ']');
    assert(name.last() == name[name.len() - 1]);
    assert(text::stripped_end(name, ']') == name);
    assert(text::stripped_end(open, ']') == name);
    assert(text::stripped_end(name, '?') == name);
    text::lemma_not_trimmed(name);
}

/// A diagnostic is shown as its message, and behind it, in brackets, the file with line and column
/// where they are known.
pub proof fn law_a_diagnostic_is_shown_with_its_place(
    located: LocatedDiagnostic,
    label: Seq<char>,
)
    ensures
        located.location is None ==> located.rendered(label) == located.message@,
        located.location matches Some(at) ==> located.rendered(label) == located.message@ + (" ("@
            + label + ":"@ + text::decimal_text(at.line as nat) + ":"@ + text::decimal_text(
            at.column as nat,
        ) + ")"@),
{
    if let Some(at) = located.location {
        assert(located.rendered(label) =~= located.message@ + (" ("@ + label + ":"@
            + text::decimal_text(at.line as nat) + ":"@ + text::decimal_text(at.column as nat)
            + ")"@));
    }
}

/// A diagnostic keeps its message, whatever is found. It has a place only in a file that can be read,
/// and then the line and column of what the message points at.
pub proof fn law_diagnostics_keep_their_messages(
    content: Seq<char>,
    message: Seq<char>,
    located: LocatedDiagnostic,
)
    requires
        is_located(content, message, located),
    ensures
        located.message@ == message,
        document::parsed_tree(content) is None ==> located.location is None,
        located.location is Some <==> document::parsed_tree(content) is Some && first_place(
            document::parsed_tree(content)->0,
            spec_candidates(message),
            toml_keys(),
        ) is Some,
{
}

} // verus!
