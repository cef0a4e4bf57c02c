//! What the terminal calls itself when it is asked.

use crate::text;
use crate::text::{
    char_is_white_space, chars_of, find_char, strip_prefix, string_of, trim,
};
use vstd::prelude::*;
use vstd::slice::*;

verus! {

/// The question: name and version, please. A terminal that does not know it stays silent.
pub const HOST_TERMINAL_VERSION_QUERY_SEQUENCE: &'static str = "\x1b[>q";

/// A terminal's name, as it writes it, and its version.
#[derive(Debug, PartialEq, Eq)]
pub struct HostTerminalIdentity {
    pub name: String,
    pub version: Option<String>,
}

impl HostTerminalIdentity {
    pub fn name(&self) -> (name: &str)
        ensures
            name@ == self.name@,
    {
        self.name.as_str()
    }

    pub fn version(&self) -> (version: Option<&str>)
        ensures
            match version {
                Some(version) => self.version is Some && version@ == self.version->0@,
                None => self.version is None,
            },
    {
        match &self.version {
            Some(version) => Some(version.as_str()),
            None => None,
        }
    }

    pub fn new(name: &str, version: Option<&str>) -> (identity: Self)
        ensures
            identity.name@ == name@,
            match version {
                Some(version) => identity.version is Some && identity.version->0@ == version@,
                None => identity.version is None,
            },
    {
        HostTerminalIdentity {
            name: text::duplicate(name),
            version: match version {
                Some(version) => Some(text::duplicate(version)),
                None => None,
            },
        }
    }
}

/// The place of the first white space, or the length where there is none.
pub open spec fn index_of_white_space(s: Seq<char>) -> int
    decreases s.len(),
{
    if s.len() == 0 || text::is_white_space(s[0]) {
        0
    } else {
        1 + index_of_white_space(s.skip(1))
    }
}

/// A text that says something.
pub open spec fn nonempty(s: Seq<char>) -> Option<Seq<char>> {
    if s.len() > 0 {
        Some(s)
    } else {
        None
    }
}

/// A name and a version in brackets behind it.
pub open spec fn bracketed(s: Seq<char>) -> Option<(Seq<char>, Option<Seq<char>>)> {
    let open = text::index_of_char(s, '(');
    let name = text::trimmed(s.take(open));
    if 0 <= open < s.len() && s.last() == ')' && name.len() > 0 {
        Some((name, nonempty(text::trimmed(s.subrange(open + 1, s.len() - 1)))))
    } else {
        None
    }
}

/// A name and, behind white space, a version.
pub open spec fn spaced(s: Seq<char>) -> Option<(Seq<char>, Option<Seq<char>>)> {
    let end = index_of_white_space(s);
    let name = text::trimmed(s.take(end));
    if name.len() == 0 {
        None
    } else if end < s.len() {
        Some((name, nonempty(text::trimmed(s.skip(end + 1)))))
    } else {
        Some((name, None))
    }
}

/// A text that is a version: a digit, then digits and dots alone, or what stands in brackets.
pub open spec fn is_version(s: Seq<char>) -> bool {
    &&& s.len() > 0
    &&& {
        ||| s[0] == '(' && s.last() == ')'
        ||| s[0] != '.' && forall|i: int|
            0 <= i < s.len() ==> s[i] == '.' || '0' <= #[trigger] s[i] <= '9'
    }
}

/// The identity in an answer: `name(version)` or `name version`, or a name alone. A version alone
/// names nobody; before a version, whatever stands there is the name.
pub open spec fn named(s: Seq<char>) -> Option<(Seq<char>, Option<Seq<char>>)> {
    let identity = match bracketed(s) {
        Some(identity) => Some(identity),
        None => spaced(s),
    };
    match identity {
        Some(identity) if identity.1 is Some || !is_version(identity.0) => Some(identity),
        _ => None,
    }
}

/// What stands between the start of an answer and its end, which is written in two ways.
pub open spec fn answer_body(s: Seq<char>) -> Option<Seq<char>> {
    if text::starts_with(s, "\u{1b}P"@) {
        let body = s.skip(2);
        if body.len() >= 2 && body[body.len() - 2] == '\u{1b}' && body.last() == '\\' {
            Some(body.take(body.len() - 2))
        } else if body.len() >= 1 && body.last() == '\u{7}' {
            Some(body.drop_last())
        } else {
            None
        }
    } else {
        None
    }
}

/// The identity that an answer gives; nothing where it is another terminal report.
pub open spec fn spec_identity(sequence: Seq<char>) -> Option<(Seq<char>, Option<Seq<char>>)> {
    match answer_body(sequence) {
        Some(body) => if text::starts_with(body, ">|"@) {
            named(text::trimmed(body.skip(2)))
        } else {
            None
        },
        None => None,
    }
}

/// An identity by its texts.
pub open spec fn identity_view(identity: HostTerminalIdentity) -> (Seq<char>, Option<Seq<char>>) {
    (identity.name@, text::option_text(identity.version))
}

fn find_white_space(s: &[char]) -> (at: usize)
    ensures
        at == index_of_white_space(s@),
        at <= s@.len(),
{
    let mut i: usize = 0;
    assert(s@.skip(0) =~= s@);
    while i < s.len()
        invariant
            i <= s@.len(),
            index_of_white_space(s@) == i + index_of_white_space(s@.skip(i as int)),
        decreases s@.len() - i,
    {
        assert(s@.skip(i as int)[0] == s@[i as int]);
        if char_is_white_space(s[i]) {
            return i;
        }
        assert(s@.skip(i as int).skip(1) =~= s@.skip(i + 1));
        i += 1;
    }
    i
}

fn text_if_any(s: &[char]) -> (text: Option<String>)
    ensures
        text::option_text(text) == nonempty(s@),
{
    if s.len() > 0 {
        Some(string_of(s))
    } else {
        None
    }
}

fn version_alone(s: &[char]) -> (alone: bool)
    ensures
        alone == is_version(s@),
{
    if s.len() == 0 {
        return false;
    }
    if s[0] == '(' && s[s.len() - 1] == ')' {
        return true;
    }
    if s[0] == '.' {
        return false;
    }
    let mut i: usize = 0;
    while i < s.len()
        invariant
            i <= s@.len(),
            s@.len() > 0,
            s@[0] != '.',
            !(s@[0] == '(' && s@.last() == ')'),
            forall|j: int| 0 <= j < i ==> s@[j] == '.' || '0' <= #[trigger] s@[j] <= '9',
        decreases s@.len() - i,
    {
        if s[i] != '.' && (s[i] < '0' || s[i] > '9') {
            assert(!(s@[i as int] == '.' || '0' <= s@[i as int] <= '9'));
            return false;
        }
        i += 1;
    }
    true
}

fn split_name_and_version(s: &[char]) -> (identity: Option<HostTerminalIdentity>)
    ensures
        match identity {
            Some(identity) => named(s@) == Some(identity_view(identity)),
            None => named(s@) is None,
        },
{
    let open: usize = find_char(s, '(');
    if open < s.len() && s[s.len() - 1] == ')' {
        let head = slice_subrange(s, 0, open);
        assert(head@ =~= s@.take(open as int));
        let name = trim(head);
        if name.len() > 0 {
            assert(s@[open as int] == '(' && s@[s@.len() - 1] == ')');
            let inside = slice_subrange(s, open + 1, s.len() - 1);
            let version = text_if_any(trim(inside));
            if version.is_none() && version_alone(name) {
                return None;
            }
            return Some(HostTerminalIdentity { name: string_of(name), version });
        }
    }
    let end: usize = find_white_space(s);
    let head = slice_subrange(s, 0, end);
    assert(head@ =~= s@.take(end as int));
    let name = trim(head);
    if name.len() == 0 {
        return None;
    }
    let version = if end < s.len() {
        let tail = slice_subrange(s, end + 1, s.len());
        assert(tail@ =~= s@.skip(end + 1));
        text_if_any(trim(tail))
    } else {
        None
    };
    if version.is_none() && version_alone(name) {
        return None;
    }
    Some(HostTerminalIdentity { name: string_of(name), version })
}

/// The identity in a terminal's answer. Anything that is no such answer, or names nobody, gives
/// nothing.
pub fn parse_host_terminal_version_response(sequence: &str) -> (identity: Option<
    HostTerminalIdentity,
>)
    ensures
        match identity {
            Some(identity) => spec_identity(sequence@) == Some(identity_view(identity)),
            None => spec_identity(sequence@) is None,
        },
{
    proof {
        reveal_strlit("\u{1b}P");
        reveal_strlit(">|");
    }
    let chars = chars_of(sequence);
    let body = match strip_prefix(chars.as_slice(), "\u{1b}P") {
        Some(body) => body,
        None => {
            return None;
        },
    };
    let len: usize = body.len();
    let end: usize = if len >= 2 && body[len - 2] == '\u{1b}' && body[len - 1] == '\\' {
        len - 2
    } else if len >= 1 && body[len - 1] == '\u{7}' {
        len - 1
    } else {
        return None;
    };
    let inner = slice_subrange(body, 0, end);
    assert(answer_body(sequence@) is Some && inner@ =~= answer_body(sequence@)->0);
    match strip_prefix(inner, ">|") {
        Some(text) => split_name_and_version(trim(text)),
        None => None,
    }
}

/// A text without white space and without an opening bracket.
pub open spec fn is_word(s: Seq<char>) -> bool {
    s.len() > 0 && forall|i: int|
        0 <= i < s.len() ==> s[i] != '(' && !text::is_white_space(#[trigger] s[i])
}

proof fn lemma_white_space_past(a: Seq<char>, b: Seq<char>)
    requires
        forall|i: int| 0 <= i < a.len() ==> !text::is_white_space(#[trigger] a[i]),
    ensures
        index_of_white_space(a + b) == a.len() + index_of_white_space(b),
    decreases a.len(),
{
    if a.len() == 0 {
        assert(a + b =~= b);
    } else {
        assert((a + b)[0] == a[0]);
        assert((a + b).skip(1) =~= a.skip(1) + b);
        assert forall|i: int| 0 <= i < a.skip(1).len() implies !text::is_white_space(
            #[trigger] a.skip(1)[i],
        ) by {
            assert(a.skip(1)[i] == a[i + 1]);
        }
        lemma_white_space_past(a.skip(1), b);
    }
}

/// An answer around a text.
pub open spec fn answer(body: Seq<char>, bell: bool) -> Seq<char> {
    "\u{1b}P>|"@ + body + if bell {
        "\u{7}"@
    } else {
        "\u{1b}\\"@
    }
}

proof fn lemma_answer(body: Seq<char>, bell: bool)
    requires
        body.len() > 0,
        !text::is_white_space(body[0]),
        !text::is_white_space(body.last()),
    ensures
        spec_identity(answer(body, bell)) == named(body),
{
    reveal_strlit("\u{1b}P>|");
    reveal_strlit("\u{1b}P");
    reveal_strlit(">|");
    reveal_strlit("\u{7}");
    reveal_strlit("\u{1b}\\");
    let whole = answer(body, bell);
    assert(whole.take(2) =~= "\u{1b}P"@);
    let inner = answer_body(whole)->0;
    let rest = whole.skip(2);
    assert(rest.last() == whole.last());
    assert(rest[rest.len() - 2] == whole[whole.len() - 2]);
    assert(answer_body(whole) is Some && inner =~= ">|"@ + body);
    assert(inner.take(2) =~= ">|"@);
    assert(inner.skip(2) =~= body);
    text::lemma_not_trimmed(body);
}

/// Both ways in which terminals write themselves down are read: `name(version)` and
/// `name version`, and a name alone; with either end of the answer. Name and version hold no white
/// space and no opening bracket. A name alone must be no version.
pub proof fn law_every_form_names_the_terminal(name: Seq<char>, version: Seq<char>, bell: bool)
    requires
        is_word(name),
        is_word(version),
    ensures
        spec_identity(answer(name + "("@ + version + ")"@, bell)) == Some((name, Some(version))),
        spec_identity(answer(name + " "@ + version, bell)) == Some((name, Some(version))),
        !is_version(name) ==> spec_identity(answer(name, bell)) == Some(
            (name, None::<Seq<char>>),
        ),
{
    reveal_strlit("(");
    reveal_strlit(")");
    reveal_strlit(" ");
    let first = name + "("@ + version + ")"@;
    assert(first[0] == name[0]);
    lemma_answer(first, bell);
    assert(first =~= name + ("("@ + version + ")"@));
    text::lemma_index_past(name, "("@ + version + ")"@, '(');
    assert(first.take(name.len() as int) =~= name);
    assert(first.subrange(name.len() as int + 1, first.len() - 1) =~= version);
    text::lemma_not_trimmed(name);
    text::lemma_not_trimmed(version);
    let second = name + " "@ + version;
    assert(second[0] == name[0]);
    assert(second.last() == version.last());
    lemma_answer(second, bell);
    assert(second + seq![] =~= second);
    assert forall|i: int| 0 <= i < second.len() implies second[i] != '(' by {
        if i < name.len() {
            assert(second[i] == name[i]);
        } else if i > name.len() {
            assert(second[i] == version[i - name.len() - 1]);
        }
    }
    text::lemma_index_past(second, seq![], '(');
    assert(second =~= name + (" "@ + version));
    lemma_white_space_past(name, " "@ + version);
    assert(second.take(name.len() as int) =~= name);
    assert(second.skip(name.len() as int + 1) =~= version);
    lemma_answer(name, bell);
    assert(name + seq![] =~= name);
    text::lemma_index_past(name, seq![], '(');
    lemma_white_space_past(name, seq![]);
    assert(name.take(name.len() as int) =~= name);
}

/// A version alone names nobody, in brackets or without them.
pub proof fn law_a_version_names_nobody(version: Seq<char>, bell: bool)
    requires
        is_word(version),
    ensures
        spec_identity(answer("("@ + version + ")"@, bell)) is None,
        is_version(version) ==> spec_identity(answer(version, bell)) is None,
{
    reveal_strlit("(");
    reveal_strlit(")");
    let first = "("@ + version + ")"@;
    assert(first[0] == '(' && first.last() == ')');
    lemma_answer(first, bell);
    assert(text::index_of_char(first, '(') == 0);
    assert(text::trimmed(first.take(0)).len() == 0);
    assert forall|i: int| 0 <= i < first.len() implies !text::is_white_space(
        #[trigger] first[i],
    ) by {
        if 0 < i < first.len() - 1 {
            assert(first[i] == version[i - 1]);
        }
    }
    assert(first + seq![] =~= first);
    lemma_white_space_past(first, seq![]);
    assert(first.take(first.len() as int) =~= first);
    text::lemma_not_trimmed(first);
    lemma_answer(version, bell);
    assert(version + seq![] =~= version);
    text::lemma_index_past(version, seq![], '(');
    lemma_white_space_past(version, seq![]);
    assert(version.take(version.len() as int) =~= version);
    text::lemma_not_trimmed(version);
}

/// Nobody is named by anything but an answer: not without its start, and not without either end.
pub proof fn law_other_reports_name_nobody(s: Seq<char>)
    ensures
        s.len() < 5 ==> spec_identity(s) is None,
        s.len() >= 4 && (s[0] != '\u{1b}' || s[1] != 'P' || s[2] != '>' || s[3] != '|')
            ==> spec_identity(s) is None,
        s.len() >= 4 && s.last() != '\u{7}' && !(s.last() == '\\' && s[s.len() - 2] == '\u{1b}')
            ==> spec_identity(s) is None,
{
    reveal_strlit("\u{1b}P");
    reveal_strlit(">|");
    if spec_identity(s) is Some {
        let body = answer_body(s)->0;
        assert("\u{1b}P"@.len() == 2 && ">|"@.len() == 2);
        assert(s.take(2)[0] == '\u{1b}' && s.take(2)[1] == 'P');
        assert(body.take(2)[0] == '>' && body.take(2)[1] == '|');
        assert(s.skip(2).last() == s.last());
    }
}

/// Digits and dots are a version where they begin with a digit, and so is anything in brackets. A
/// text with any other character in it that is not in brackets is none.
pub proof fn law_what_a_version_is(s: Seq<char>, inside: Seq<char>, i: int)
    ensures
        s.len() > 0 && '0' <= s[0] <= '9' && (forall|k: int|
            0 <= k < s.len() ==> '0' <= #[trigger] s[k] <= '9' || s[k] == '.') ==> is_version(s),
        is_version(seq!['('] + inside + seq![')']),
        0 <= i < s.len() && s[0] != '(' && s[i] != '.' && (s[i] < '0' || s[i] > '9') ==> !is_version(
            s,
        ),
        s.len() > 0 && s[0] == '.' ==> !is_version(s),
{
    let bracketed = seq!['('] + inside + seq![')'];
    assert(bracketed[0] == '(' && bracketed.last() == ')');
    if 0 <= i < s.len() {
        let _ = s[i];
    }
}

} // verus!
