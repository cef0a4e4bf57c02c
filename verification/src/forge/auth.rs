//! Who asks the forge: a token that is found without a prompt, and the login behind it.
//!
//! The most explicit source counts: the environment, then the hosts file of the `gh` program, then
//! what that program answers.

use crate::text;
use crate::text::{
    char_is_white_space, chars_of, copy_chars, decode_text, find_char, same_chars, split_lines,
    string_of, strip_end, strip_start, trim, trim_start,
};
use vstd::prelude::*;
use vstd::slice::*;

verus! {

/// A token for a forge, and the login that it belongs to where the source names it.
#[derive(Debug, PartialEq, Eq)]
pub struct ForgeAuth {
    pub token: String,
    pub login: Option<String>,
}

/// A token and a login by their texts.
pub ghost struct AuthView {
    pub token: Seq<char>,
    pub login: Option<Seq<char>>,
}

impl View for ForgeAuth {
    type V = AuthView;

    open spec fn view(&self) -> AuthView {
        AuthView { token: self.token@, login: text::option_text(self.login) }
    }
}

/// An answer by its texts.
pub open spec fn auth_view(auth: Option<ForgeAuth>) -> Option<AuthView> {
    match auth {
        Some(auth) => Some(auth@),
        None => None,
    }
}

/// The variables that may hold a token, most explicit first.
pub const FORGE_TOKEN_VARIABLE: &'static str = "HERDR_FORGE_TOKEN";

pub const GH_TOKEN_VARIABLE: &'static str = "GH_TOKEN";

pub const GITHUB_TOKEN_VARIABLE: &'static str = "GITHUB_TOKEN";

/// The first value that is set and not blank, without the white space around it.
pub open spec fn first_token(values: Seq<Option<String>>) -> Option<AuthView>
    decreases values.len(),
{
    if values.len() == 0 {
        None
    } else {
        match values[0] {
            Some(value) if text::trimmed(value@).len() > 0 => Some(
                AuthView { token: text::trimmed(value@), login: None },
            ),
            _ => first_token(values.skip(1)),
        }
    }
}

/// The token among the values of the environment, in the order of the variables.
pub fn auth_from_environment(values: &[Option<String>]) -> (auth: Option<ForgeAuth>)
    ensures
        auth_view(auth) == first_token(values@),
{
    let mut i: usize = 0;
    assert(values@.skip(0) =~= values@);
    while i < values.len()
        invariant
            i <= values@.len(),
            first_token(values@) == first_token(values@.skip(i as int)),
        decreases values@.len() - i,
    {
        assert(values@.skip(i as int)[0] == values@[i as int]);
        if let Some(value) = &values[i] {
            let chars = chars_of(value.as_str());
            let token = trim(chars.as_slice());
            if token.len() > 0 {
                return Some(ForgeAuth { token: string_of(token), login: None });
            }
        }
        assert(values@.skip(i as int).skip(1) =~= values@.skip(i + 1));
        i += 1;
    }
    None
}

/// A line that says nothing: blank, or a comment.
pub open spec fn says_nothing(line: Seq<char>) -> bool {
    text::trimmed(line).len() == 0 || text::trimmed(line)[0] == '#'
}

/// A line that starts a section: one that says something and is not indented.
pub open spec fn is_heading(line: Seq<char>) -> bool {
    !says_nothing(line) && !text::is_white_space(line[0])
}

/// The line that starts a host's section.
pub open spec fn heads(line: Seq<char>, host: Seq<char>) -> bool {
    is_heading(line) && text::trimmed(line) == host.push(':')
}

/// The lines behind the one that starts a host's section.
pub open spec fn from_heading(lines: Seq<Seq<char>>, host: Seq<char>) -> Seq<Seq<char>>
    decreases lines.len(),
{
    if lines.len() == 0 {
        seq![]
    } else if heads(lines[0], host) {
        lines.skip(1)
    } else {
        from_heading(lines.skip(1), host)
    }
}

/// A value without the quotes around it.
pub open spec fn unquoted(value: Seq<char>) -> Seq<char> {
    let once = text::stripped_end(text::stripped_start(text::trimmed(value), '"'), '"');
    text::stripped_end(text::stripped_start(once, '\''), '\'')
}

/// What a line sets `key` to, where it sets it to anything.
pub open spec fn set_to(line: Seq<char>, key: Seq<char>) -> Option<Seq<char>> {
    let inner = text::trimmed(line);
    let colon = text::index_of_char(inner, ':');
    let value = unquoted(inner.skip(colon + 1));
    if 0 <= colon < inner.len() && text::trimmed(inner.take(colon)) == key && value.len() > 0 {
        Some(value)
    } else {
        None
    }
}

/// How far a line is indented.
pub open spec fn indent_of(line: Seq<char>) -> int {
    line.len() - text::trimmed_start(line).len()
}

/// How far the entries of a section are indented: as far as the first of them. What is indented
/// further belongs to an entry.
pub open spec fn entry_indent(lines: Seq<Seq<char>>) -> int
    decreases lines.len(),
{
    if lines.len() == 0 {
        0
    } else if says_nothing(lines[0]) {
        entry_indent(lines.skip(1))
    } else {
        indent_of(lines[0])
    }
}

/// What the entries of a section, which are the lines with one indent, set `key` to first. The
/// section ends where the next one starts.
pub open spec fn setting(lines: Seq<Seq<char>>, indent: int, key: Seq<char>) -> Option<Seq<char>>
    decreases lines.len(),
{
    if lines.len() == 0 {
        None
    } else if says_nothing(lines[0]) {
        setting(lines.skip(1), indent, key)
    } else if is_heading(lines[0]) {
        None
    } else if indent_of(lines[0]) == indent && set_to(lines[0], key) is Some {
        set_to(lines[0], key)
    } else {
        setting(lines.skip(1), indent, key)
    }
}

/// Token and login of a host in the text of a hosts file.
pub open spec fn hosts_auth(contents: Seq<char>, host: Seq<char>) -> Option<AuthView> {
    let section = from_heading(text::lines_of(contents), host);
    let indent = entry_indent(section);
    match setting(section, indent, "oauth_token"@) {
        Some(token) => Some(AuthView { token, login: setting(section, indent, "user"@) }),
        None => None,
    }
}

/// What is nested below an entry says nothing of the host: a line that is indented further than
/// the entries can stand anywhere behind the first of them.
pub proof fn law_nested_lines_say_nothing(
    before: Seq<Seq<char>>,
    nested: Seq<char>,
    behind: Seq<Seq<char>>,
    key: Seq<char>,
)
    requires
        exists|i: int| 0 <= i < before.len() && !says_nothing(#[trigger] before[i]),
        !is_heading(nested),
        indent_of(nested) != entry_indent(before),
    ensures
        ({
            let with = before.push(nested) + behind;
            let without = before + behind;
            setting(with, entry_indent(with), key) == setting(without, entry_indent(without), key)
        }),
{
    lemma_entry_indent(before, seq![nested] + behind);
    lemma_entry_indent(before, behind);
    assert(before.push(nested) + behind =~= before + (seq![nested] + behind));
    lemma_nested_line(before, nested, behind, entry_indent(before), key);
}

proof fn lemma_entry_indent(before: Seq<Seq<char>>, behind: Seq<Seq<char>>)
    requires
        exists|i: int| 0 <= i < before.len() && !says_nothing(#[trigger] before[i]),
    ensures
        entry_indent(before + behind) == entry_indent(before),
    decreases before.len(),
{
    assert((before + behind)[0] == before[0]);
    assert((before + behind).skip(1) =~= before.skip(1) + behind);
    if says_nothing(before[0]) {
        let i = choose|i: int| 0 <= i < before.len() && !says_nothing(#[trigger] before[i]);
        assert(before.skip(1)[i - 1] == before[i]);
        lemma_entry_indent(before.skip(1), behind);
    }
}

proof fn lemma_nested_line(
    before: Seq<Seq<char>>,
    nested: Seq<char>,
    behind: Seq<Seq<char>>,
    indent: int,
    key: Seq<char>,
)
    requires
        !is_heading(nested),
        indent_of(nested) != indent,
    ensures
        setting(before + (seq![nested] + behind), indent, key) == setting(
            before + behind,
            indent,
            key,
        ),
    decreases before.len(),
{
    let with = before + (seq![nested] + behind);
    let without = before + behind;
    if before.len() == 0 {
        assert(with[0] == nested);
        assert(with.skip(1) =~= behind);
        assert(without =~= behind);
    } else {
        assert(with[0] == before[0] && without[0] == before[0]);
        assert(with.skip(1) =~= before.skip(1) + (seq![nested] + behind));
        assert(without.skip(1) =~= before.skip(1) + behind);
        lemma_nested_line(before.skip(1), nested, behind, indent, key);
    }
}

fn line_says_nothing(line: &[char]) -> (nothing: bool)
    ensures
        nothing == says_nothing(line@),
        !nothing ==> line@.len() > 0,
{
    let inner = trim(line);
    inner.len() == 0 || inner[0] == '#'
}

fn section_start(lines: &[Vec<char>], host: &[char]) -> (start: usize)
    ensures
        start <= lines@.len(),
        text::char_lists(lines@).skip(start as int) == from_heading(
            text::char_lists(lines@),
            host@,
        ),
{
    let ghost shown = text::char_lists(lines@);
    let mut wanted = copy_chars(host);
    wanted.push(':');
    let mut i: usize = 0;
    assert(shown.skip(0) =~= shown);
    while i < lines.len()
        invariant
            i <= lines@.len(),
            shown == text::char_lists(lines@),
            wanted@ == host@.push(':'),
            from_heading(shown, host@) == from_heading(shown.skip(i as int), host@),
        decreases lines@.len() - i,
    {
        let line = lines[i].as_slice();
        assert(shown.skip(i as int)[0] == line@);
        assert(shown.skip(i as int).skip(1) =~= shown.skip(i + 1));
        i += 1;
        if !line_says_nothing(line) && !char_is_white_space(line[0]) && same_chars(
            trim(line),
            wanted.as_slice(),
        ) {
            return i;
        }
    }
    assert(shown.skip(i as int) =~= seq![]);
    i
}

fn line_sets(line: &[char], key: &str) -> (value: Option<String>)
    ensures
        text::option_text(value) == set_to(line@, key@),
{
    let inner = trim(line);
    let colon: usize = find_char(inner, ':');
    if colon == inner.len() {
        return None;
    }
    let name = slice_subrange(inner, 0, colon);
    assert(name@ =~= inner@.take(colon as int));
    let tail = slice_subrange(inner, colon + 1, inner.len());
    assert(tail@ =~= inner@.skip(colon + 1));
    let wanted = chars_of(key);
    let value = strip_end(
        strip_start(strip_end(strip_start(trim(tail), '"'), '"'), '\''),
        '\'',
    );
    if same_chars(trim(name), wanted.as_slice()) && value.len() > 0 {
        Some(string_of(value))
    } else {
        None
    }
}

fn line_indent(line: &[char]) -> (indent: usize)
    ensures
        indent == indent_of(line@),
{
    line.len() - trim_start(line).len()
}

fn section_indent(lines: &[Vec<char>], start: usize) -> (indent: usize)
    requires
        start <= lines@.len(),
    ensures
        indent == entry_indent(text::char_lists(lines@).skip(start as int)),
{
    let ghost shown = text::char_lists(lines@);
    let ghost section = shown.skip(start as int);
    let mut i: usize = start;
    while i < lines.len()
        invariant
            i <= lines@.len(),
            shown == text::char_lists(lines@),
            section == shown.skip(start as int),
            entry_indent(section) == entry_indent(shown.skip(i as int)),
        decreases lines@.len() - i,
    {
        let line = lines[i].as_slice();
        assert(shown.skip(i as int)[0] == line@);
        assert(shown.skip(i as int).skip(1) =~= shown.skip(i + 1));
        if !line_says_nothing(line) {
            return line_indent(line);
        }
        i += 1;
    }
    0
}

fn first_setting(
    lines: &[Vec<char>],
    start: usize,
    indent: usize,
    key: &str,
) -> (value: Option<String>)
    requires
        start <= lines@.len(),
    ensures
        text::option_text(value) == setting(
            text::char_lists(lines@).skip(start as int),
            indent as int,
            key@,
        ),
{
    let ghost shown = text::char_lists(lines@);
    let ghost section = shown.skip(start as int);
    let mut i: usize = start;
    while i < lines.len()
        invariant
            i <= lines@.len(),
            shown == text::char_lists(lines@),
            section == shown.skip(start as int),
            setting(section, indent as int, key@) == setting(
                shown.skip(i as int),
                indent as int,
                key@,
            ),
        decreases lines@.len() - i,
    {
        let line = lines[i].as_slice();
        assert(shown.skip(i as int)[0] == line@);
        assert(shown.skip(i as int).skip(1) =~= shown.skip(i + 1));
        if !line_says_nothing(line) {
            if !char_is_white_space(line[0]) {
                return None;
            }
            if line_indent(line) == indent {
                let value = line_sets(line, key);
                if value.is_some() {
                    return value;
                }
            }
        }
        i += 1;
    }
    None
}

/// Token and login of a host in the text of `gh`'s hosts file: the first token and the first user
/// among the entries of the host's section. Without a token there is nothing.
pub fn auth_from_gh_hosts(contents: &str, host: &str) -> (auth: Option<ForgeAuth>)
    ensures
        auth_view(auth) == hosts_auth(contents@, host@),
{
    let chars = chars_of(contents);
    let lines = split_lines(chars.as_slice());
    let wanted = chars_of(host);
    let start: usize = section_start(lines.as_slice(), wanted.as_slice());
    let indent: usize = section_indent(lines.as_slice(), start);
    match first_setting(lines.as_slice(), start, indent, "oauth_token") {
        Some(token) => Some(
            ForgeAuth { token, login: first_setting(lines.as_slice(), start, indent, "user") },
        ),
        None => None,
    }
}

/// The token in what the `gh` program printed, where it ended well and printed one.
pub open spec fn cli_token(success: bool, printed: Seq<u8>) -> Option<AuthView> {
    if success && vstd::utf8::valid_utf8(printed) && text::trimmed(
        vstd::utf8::decode_utf8(printed),
    ).len() > 0 {
        Some(AuthView { token: text::trimmed(vstd::utf8::decode_utf8(printed)), login: None })
    } else {
        None
    }
}

pub fn auth_from_gh_output(success: bool, printed: &[u8]) -> (auth: Option<ForgeAuth>)
    ensures
        auth_view(auth) == cli_token(success, printed@),
{
    if !success {
        return None;
    }
    match decode_text(printed) {
        Some(text) => {
            let chars = chars_of(text.as_str());
            let token = trim(chars.as_slice());
            if token.len() > 0 {
                Some(ForgeAuth { token: string_of(token), login: None })
            } else {
                None
            }
        },
        None => None,
    }
}

/// What has been learned of a host's token: the values of the environment, the text of the hosts
/// file, or what the `gh` program printed.
#[derive(Debug)]
pub enum AuthLearned {
    Environment(Vec<Option<String>>),
    HostsFile(Option<String>),
    Program { success: bool, printed: Vec<u8> },
}

/// What to do next about a host's token.
#[derive(Debug, PartialEq, Eq)]
pub enum AuthStep {
    Found(ForgeAuth),
    ReadHostsFile,
    AskProgram,
    Missing,
}

/// The step after what has been learned. A source that is asked later costs more, so each is asked
/// only where the one before it gave nothing.
pub fn resolve_auth(learned: &AuthLearned, host: &str) -> (step: AuthStep)
    ensures
        match *learned {
            AuthLearned::Environment(values) => match first_token(values@) {
                Some(auth) => step is Found && step->Found_0@ == auth,
                None => step is ReadHostsFile,
            },
            AuthLearned::HostsFile(Some(contents)) => match hosts_auth(contents@, host@) {
                Some(auth) => step is Found && step->Found_0@ == auth,
                None => step is AskProgram,
            },
            AuthLearned::HostsFile(None) => step is AskProgram,
            AuthLearned::Program { success, printed } => match cli_token(success, printed@) {
                Some(auth) => step is Found && step->Found_0@ == auth,
                None => step is Missing,
            },
        },
{
    match learned {
        AuthLearned::Environment(values) => match auth_from_environment(values.as_slice()) {
            Some(auth) => AuthStep::Found(auth),
            None => AuthStep::ReadHostsFile,
        },
        AuthLearned::HostsFile(Some(contents)) => match auth_from_gh_hosts(
            contents.as_str(),
            host,
        ) {
            Some(auth) => AuthStep::Found(auth),
            None => AuthStep::AskProgram,
        },
        AuthLearned::HostsFile(None) => AuthStep::AskProgram,
        AuthLearned::Program { success, printed } => match auth_from_gh_output(
            *success,
            printed.as_slice(),
        ) {
            Some(auth) => AuthStep::Found(auth),
            None => AuthStep::Missing,
        },
    }
}

/// The directory that the hosts file is looked for in.
#[derive(Debug, Clone, Copy, PartialEq, Eq, Structural)]
pub enum HostsBase {
    /// `GH_CONFIG_DIR`, which is `gh`'s own directory.
    Given,
    /// `gh` below `XDG_CONFIG_HOME`.
    Configuration,
    /// `.config/gh` below the home directory.
    Home,
}

/// The directory to look in, by what is set, in the order of `gh` itself.
pub fn gh_hosts_base(given: bool, configuration: bool, home: bool) -> (base: Option<HostsBase>)
    ensures
        base == if given {
            Some(HostsBase::Given)
        } else if configuration {
            Some(HostsBase::Configuration)
        } else if home {
            Some(HostsBase::Home)
        } else {
            None
        },
{
    if given {
        Some(HostsBase::Given)
    } else if configuration {
        Some(HostsBase::Configuration)
    } else if home {
        Some(HostsBase::Home)
    } else {
        None
    }
}

/// The first variable that is set and not blank counts, without the white space around its value and
/// without a login; those behind it do not matter.
pub proof fn law_the_first_variable_counts(
    unset: Seq<Option<String>>,
    value: String,
    others: Seq<Option<String>>,
)
    requires
        forall|i: int|
            0 <= i < unset.len() ==> (#[trigger] unset[i] matches Some(blank) ==> text::trimmed(
                blank@,
            ).len() == 0),
        text::trimmed(value@).len() > 0,
    ensures
        first_token(unset + seq![Some(value)] + others) == Some(
            AuthView { token: text::trimmed(value@), login: None },
        ),
        first_token(unset) is None,
    decreases unset.len(),
{
    let all = unset + seq![Some(value)] + others;
    if unset.len() == 0 {
        assert(all[0] == Some(value));
    } else {
        assert(all[0] == unset[0]);
        assert(all.skip(1) =~= unset.skip(1) + seq![Some(value)] + others);
        assert forall|i: int| 0 <= i < unset.skip(1).len() implies (#[trigger] unset.skip(
            1,
        )[i] matches Some(blank) ==> text::trimmed(blank@).len() == 0) by {
            assert(unset.skip(1)[i] == unset[i + 1]);
        }
        law_the_first_variable_counts(unset.skip(1), value, others);
    }
}

/// A word of a hosts file: it holds no white space and no colon, and starts and ends with no quote
/// and no comment sign.
pub open spec fn is_word(s: Seq<char>) -> bool {
    &&& s.len() > 0
    &&& forall|i: int|
        0 <= i < s.len() ==> #[trigger] s[i] != ':' && s[i] != '#' && s[i] != '"' && s[i] != '\''
            && !text::is_white_space(s[i])
}

proof fn lemma_word(word: Seq<char>)
    requires
        is_word(word),
    ensures
        text::trimmed(word) == word,
        unquoted(word) == word,
        unquoted(seq![' '] + word) == word,
        unquoted(seq![' ', '"'] + word + seq!['"']) == word,
{
    assert(word[0] != '"' && word[word.len() - 1] != '"');
    text::lemma_not_trimmed(word);
    text::law_trimming_takes_white_space_alone(seq![' '], word, seq![]);
    assert(seq![' '] + word + seq![] =~= seq![' '] + word);
    let quoted = seq!['"'] + word + seq!['"'];
    text::law_trimming_takes_white_space_alone(seq![' '], quoted, seq![]);
    assert(seq![' '] + quoted + seq![] =~= seq![' ', '"'] + word + seq!['"']);
    assert(quoted.skip(1) =~= word + seq!['"']);
    let open = word + seq!['"'];
    assert(open[0] == word[0]);
    assert(text::stripped_start(open, '"') == open);
    assert(text::stripped_start(quoted, '"') == open);
    assert(open.drop_last() =~= word);
    assert(text::stripped_end(word, '"') == word);
    assert(text::stripped_end(open, '"') == word);
}

/// A line of a host's section sets its key to its value, with quotes around the value or without,
/// and no other key.
pub proof fn law_entries_set_their_key(
    indent: Seq<char>,
    key: Seq<char>,
    value: Seq<char>,
    other: Seq<char>,
    quoted: bool,
)
    requires
        forall|i: int| 0 <= i < indent.len() ==> text::is_white_space(#[trigger] indent[i]),
        is_word(key),
        is_word(value),
        other != key,
    ensures
        ({
            let line = indent + key + seq![':'] + (if quoted {
                seq![' ', '"'] + value + seq!['"']
            } else {
                seq![' '] + value
            });
            &&& set_to(line, key) == Some(value)
            &&& set_to(line, other) is None
            &&& indent_of(line) == indent.len()
            &&& !says_nothing(line)
            &&& indent.len() > 0 ==> !is_heading(line)
        }),
{
    let said = if quoted {
        seq![' ', '"'] + value + seq!['"']
    } else {
        seq![' '] + value
    };
    let inner = key + seq![':'] + said;
    let line = indent + key + seq![':'] + said;
    assert(line =~= indent + inner + seq![]);
    lemma_word(key);
    lemma_word(value);
    assert(inner[0] == key[0]);
    assert(inner.last() == said.last());
    assert(!text::is_white_space(inner.last())) by {
        if !quoted {
            assert(said.last() == value[value.len() - 1]);
        }
    }
    text::law_trimming_takes_white_space_alone(indent, inner, seq![]);
    assert(inner =~= key + (seq![':'] + said));
    text::lemma_index_past(key, seq![':'] + said, ':');
    assert(inner.take(key.len() as int) =~= key);
    assert(inner.skip(key.len() as int + 1) =~= said);
    lemma_indent(indent, inner);
    assert(line =~= indent + inner);
    if indent.len() > 0 {
        assert(line[0] == indent[0]);
    }
}

proof fn lemma_indent(indent: Seq<char>, inner: Seq<char>)
    requires
        forall|i: int| 0 <= i < indent.len() ==> text::is_white_space(#[trigger] indent[i]),
        inner.len() > 0,
        !text::is_white_space(inner[0]),
    ensures
        text::trimmed_start(indent + inner) == inner,
    decreases indent.len(),
{
    if indent.len() > 0 {
        assert((indent + inner)[0] == indent[0]);
        assert((indent + inner).skip(1) =~= indent.skip(1) + inner);
        assert forall|i: int| 0 <= i < indent.skip(1).len() implies text::is_white_space(
            #[trigger] indent.skip(1)[i],
        ) by {
            assert(indent.skip(1)[i] == indent[i + 1]);
        }
        lemma_indent(indent.skip(1), inner);
    } else {
        assert(indent + inner =~= inner);
    }
}

/// The section of a host is what follows the line with its name, and it ends before the next line
/// that is not indented: what stands in the sections of other hosts does not count.
pub proof fn law_a_host_has_its_own_section(
    before: Seq<Seq<char>>,
    host: Seq<char>,
    section: Seq<Seq<char>>,
    next: Seq<char>,
    behind: Seq<Seq<char>>,
    indent: int,
    key: Seq<char>,
)
    requires
        is_word(host),
        forall|i: int| 0 <= i < before.len() ==> !heads(#[trigger] before[i], host),
        is_heading(next),
    ensures
        from_heading(before + seq![host.push(':')] + section, host) == section,
        from_heading(before, host).len() == 0,
        setting(section + seq![next] + behind, indent, key) == setting(section, indent, key),
{
    lemma_heading(before, host, section);
    lemma_section_ends(section, next, behind, indent, key);
}

proof fn lemma_heading(before: Seq<Seq<char>>, host: Seq<char>, section: Seq<Seq<char>>)
    requires
        is_word(host),
        forall|i: int| 0 <= i < before.len() ==> !heads(#[trigger] before[i], host),
    ensures
        from_heading(before + seq![host.push(':')] + section, host) == section,
        from_heading(before, host).len() == 0,
    decreases before.len(),
{
    let all = before + seq![host.push(':')] + section;
    if before.len() == 0 {
        assert(all[0] == host.push(':'));
        assert(host.push(':')[0] == host[0]);
        text::lemma_not_trimmed(host.push(':'));
        assert(all.skip(1) =~= section);
    } else {
        assert(all[0] == before[0]);
        assert(all.skip(1) =~= before.skip(1) + seq![host.push(':')] + section);
        assert forall|i: int| 0 <= i < before.skip(1).len() implies !heads(
            #[trigger] before.skip(1)[i],
            host,
        ) by {
            assert(before.skip(1)[i] == before[i + 1]);
        }
        lemma_heading(before.skip(1), host, section);
    }
}

proof fn lemma_section_ends(
    section: Seq<Seq<char>>,
    next: Seq<char>,
    behind: Seq<Seq<char>>,
    indent: int,
    key: Seq<char>,
)
    requires
        is_heading(next),
    ensures
        setting(section + seq![next] + behind, indent, key) == setting(section, indent, key),
    decreases section.len(),
{
    let all = section + seq![next] + behind;
    if section.len() == 0 {
        assert(all[0] == next);
    } else {
        assert(all[0] == section[0]);
        assert(all.skip(1) =~= section.skip(1) + seq![next] + behind);
        lemma_section_ends(section.skip(1), next, behind, indent, key);
    }
}

/// Of the entries of a section the first one that sets a key counts, whatever stands before and
/// behind it.
pub proof fn law_the_first_entry_counts(
    others: Seq<Seq<char>>,
    line: Seq<char>,
    behind: Seq<Seq<char>>,
    indent: int,
    key: Seq<char>,
)
    requires
        forall|i: int|
            0 <= i < others.len() ==> !is_heading(#[trigger] others[i]) && set_to(others[i], key)
                is None,
        !says_nothing(line),
        !is_heading(line),
        indent_of(line) == indent,
        set_to(line, key) is Some,
    ensures
        setting(others + seq![line] + behind, indent, key) == set_to(line, key),
        setting(others, indent, key) is None,
    decreases others.len(),
{
    let all = others + seq![line] + behind;
    if others.len() == 0 {
        assert(all[0] == line);
    } else {
        assert(all[0] == others[0]);
        assert(all.skip(1) =~= others.skip(1) + seq![line] + behind);
        assert forall|i: int| 0 <= i < others.skip(1).len() implies !is_heading(
            #[trigger] others.skip(1)[i],
        ) && set_to(others.skip(1)[i], key) is None by {
            assert(others.skip(1)[i] == others[i + 1]);
        }
        law_the_first_entry_counts(others.skip(1), line, behind, indent, key);
    }
}

/// A hosts file with a token and a user in the section of a host gives that token and that user to
/// that host, and a host without a section gets nothing.
pub proof fn law_a_host_gets_its_token(
    before: Seq<Seq<char>>,
    host: Seq<char>,
    token: Seq<char>,
    user: Seq<char>,
    contents: Seq<char>,
    absent: Seq<char>,
)
    requires
        is_word(host),
        is_word(token),
        is_word(user),
        forall|i: int| 0 <= i < before.len() ==> !heads(#[trigger] before[i], host),
        text::lines_of(contents) == before + seq![host.push(':')] + seq![
            seq![' ', ' '] + "oauth_token"@ + seq![':'] + (seq![' '] + token),
            seq![' ', ' '] + "user"@ + seq![':'] + (seq![' '] + user),
        ],
        forall|i: int|
            0 <= i < text::lines_of(contents).len() ==> !heads(
                #[trigger] text::lines_of(contents)[i],
                absent,
            ),
        is_word(absent),
    ensures
        hosts_auth(contents, host) == Some(AuthView { token, login: Some(user) }),
        hosts_auth(contents, absent) is None,
{
    reveal_strlit("oauth_token");
    reveal_strlit("user");
    assert(is_word("oauth_token"@));
    assert(is_word("user"@));
    assert("user"@.len() != "oauth_token"@.len());
    let indent = seq![' ', ' '];
    let first = indent + "oauth_token"@ + seq![':'] + (seq![' '] + token);
    let second = indent + "user"@ + seq![':'] + (seq![' '] + user);
    let section = seq![first, second];
    law_entries_set_their_key(indent, "oauth_token"@, token, "user"@, false);
    law_entries_set_their_key(indent, "user"@, user, "oauth_token"@, false);
    lemma_heading(before, host, section);
    assert(section[0] == first);
    assert(entry_indent(section) == 2);
    assert(section =~= Seq::<Seq<char>>::empty() + seq![first] + seq![second]);
    law_the_first_entry_counts(Seq::empty(), first, seq![second], 2, "oauth_token"@);
    assert(section =~= seq![first] + seq![second] + Seq::<Seq<char>>::empty());
    law_the_first_entry_counts(seq![first], second, Seq::empty(), 2, "user"@);
    lemma_heading(text::lines_of(contents), absent, Seq::empty());
    assert(setting(Seq::empty(), 0, "oauth_token"@) is None);
    assert(from_heading(text::lines_of(contents), absent) =~= Seq::empty());
}

/// What the program prints counts where it ended well: its text, without the white space around it,
/// and nothing where that leaves nothing.
pub proof fn law_the_program_is_believed(printed: Seq<char>, success: bool)
    ensures
        cli_token(success, vstd::utf8::encode_utf8(printed)) == (if success && text::trimmed(
            printed,
        ).len() > 0 {
            Some(AuthView { token: text::trimmed(printed), login: None })
        } else {
            None
        }),
{
    vstd::utf8::encode_utf8_valid_utf8(printed);
    vstd::utf8::encode_utf8_decode_utf8(printed);
}

} // verus!
