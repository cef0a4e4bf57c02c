//! The rows of the sidebar's two panels: their tokens by name, and the layouts made of them.

use crate::config::tokens;
use crate::config::tokens::{read_raw_token, SidebarTokenStyle};
use crate::config::value;
use crate::config::value::ConfigValue;
use crate::text;
use crate::text::{chars_of, same_text, string_of};
use vstd::prelude::*;
use vstd::slice::*;
use vstd::string::*;

verus! {

pub const MAX_SIDEBAR_ROWS: usize = 16;

pub const MAX_SIDEBAR_TOKENS_PER_ROW: usize = 16;

/// A token of an agent's rows.
#[derive(Debug, PartialEq, Eq)]
pub enum AgentSidebarToken {
    StateIcon,
    StateText,
    StateAge,
    Workspace,
    Tab,
    Pane,
    Agent,
    TerminalTitle,
    TerminalTitleStripped,
    Custom(String),
    Styled { token: Box<AgentSidebarToken>, style: SidebarTokenStyle },
}

/// A token of a space's rows.
#[derive(Debug, PartialEq, Eq)]
pub enum SpaceSidebarToken {
    StateIcon,
    StateText,
    StateAge,
    Workspace,
    Branch,
    GitStatus,
    /// Uncommitted work in the space's checkout.
    GitDirty,
    /// Open pull requests on the repository that the space pushes to.
    PullRequests,
    TerminalTitle,
    TerminalTitleStripped,
    Custom(String),
    Styled { token: Box<SpaceSidebarToken>, style: SidebarTokenStyle },
}

/// What both panels' tokens have in common: a name that they are written with, and a style on
/// some occurrences.
pub trait SidebarToken: Sized {
    /// A token without a style of its own.
    spec fn is_plain(self) -> bool;

    /// The name that a token is written with.
    spec fn spelled(self) -> Seq<char>;

    /// The style of an occurrence, where it has one.
    spec fn own_style(self) -> Option<SidebarTokenStyle>;

    /// What a styled token styles; a plain one itself.
    spec fn base(self) -> Self;

    /// A token that shows the terminal's title.
    spec fn shows_title(self) -> bool;

    /// A token that shows an elapsed time.
    spec fn shows_age(self) -> bool;

    /// The names that every panel of this kind knows.
    spec fn is_builtin_name(name: Seq<char>) -> bool;

    /// The token with a known name.
    fn builtin(name: &str) -> (token: Option<Self>)
        ensures
            token is Some <==> Self::is_builtin_name(name@),
            token matches Some(t) ==> t.is_plain() && t.spelled() == name@ && t.base() == t
                && t.own_style() is None,
    ;

    /// The token of a name that the user made up.
    fn custom(name: String) -> (token: Self)
        ensures
            token.is_plain(),
            token.spelled() == "$"@ + name@,
            token.base() == token,
            token.own_style() is None,
    ;

    /// A plain token with a style.
    fn with_style(self, style: SidebarTokenStyle) -> (token: Self)
        requires
            self.is_plain(),
        ensures
            token.base() == self,
            token.own_style() == Some(style),
            token.spelled() == self.spelled(),
            !token.is_plain(),
    ;

    /// What is shown, and how.
    fn parts(&self) -> (parts: (&Self, SidebarTokenStyle))
        ensures
            *parts.0 == self.base(),
            parts.1 == tokens::shown_style(self.own_style()),
    ;

    fn is_title(&self) -> (title: bool)
        ensures
            title == self.shows_title(),
    ;

    fn is_age(&self) -> (age: bool)
        ensures
            age == self.shows_age(),
    ;

    fn token_name(&self) -> (name: String)
        ensures
            name@ == self.spelled(),
    ;

    fn style_of(&self) -> (style: Option<SidebarTokenStyle>)
        ensures
            style == self.own_style(),
    ;
}

impl AgentSidebarToken {
    /// The name that a token is written with, whatever style stands around it.
    pub open spec fn agent_name(self) -> Seq<char>
        decreases self,
    {
        match self {
            AgentSidebarToken::StateIcon => "state_icon"@,
            AgentSidebarToken::StateText => "state_text"@,
            AgentSidebarToken::StateAge => "state_age"@,
            AgentSidebarToken::Workspace => "workspace"@,
            AgentSidebarToken::Tab => "tab"@,
            AgentSidebarToken::Pane => "pane"@,
            AgentSidebarToken::Agent => "agent"@,
            AgentSidebarToken::TerminalTitle => "terminal_title"@,
            AgentSidebarToken::TerminalTitleStripped => "terminal_title_stripped"@,
            AgentSidebarToken::Custom(name) => "$"@ + name@,
            AgentSidebarToken::Styled { token, style } => token.agent_name(),
        }
    }
}

fn custom_text(name: &str) -> (text: String)
    ensures
        text@ == "$"@ + name@,
{
    let mut text = "$".to_owned();
    text.append(name);
    text
}

impl SidebarToken for AgentSidebarToken {
    open spec fn is_plain(self) -> bool {
        !(self is Styled)
    }

    open spec fn spelled(self) -> Seq<char> {
        self.agent_name()
    }

    open spec fn own_style(self) -> Option<SidebarTokenStyle> {
        match self {
            AgentSidebarToken::Styled { token, style } => Some(style),
            _ => None,
        }
    }

    open spec fn base(self) -> Self {
        match self {
            AgentSidebarToken::Styled { token, style } => *token,
            _ => self,
        }
    }

    open spec fn shows_title(self) -> bool {
        self is TerminalTitle || self is TerminalTitleStripped
    }

    open spec fn shows_age(self) -> bool {
        self is StateAge
    }

    open spec fn is_builtin_name(name: Seq<char>) -> bool {
        ||| name == "state_icon"@
        ||| name == "state_text"@
        ||| name == "state_age"@
        ||| name == "workspace"@
        ||| name == "tab"@
        ||| name == "pane"@
        ||| name == "agent"@
        ||| name == "terminal_title"@
        ||| name == "terminal_title_stripped"@
    }

    fn builtin(name: &str) -> (token: Option<Self>) {
        if same_text(name, "state_icon") {
            Some(AgentSidebarToken::StateIcon)
        } else if same_text(name, "state_text") {
            Some(AgentSidebarToken::StateText)
        } else if same_text(name, "state_age") {
            Some(AgentSidebarToken::StateAge)
        } else if same_text(name, "workspace") {
            Some(AgentSidebarToken::Workspace)
        } else if same_text(name, "tab") {
            Some(AgentSidebarToken::Tab)
        } else if same_text(name, "pane") {
            Some(AgentSidebarToken::Pane)
        } else if same_text(name, "agent") {
            Some(AgentSidebarToken::Agent)
        } else if same_text(name, "terminal_title") {
            Some(AgentSidebarToken::TerminalTitle)
        } else if same_text(name, "terminal_title_stripped") {
            Some(AgentSidebarToken::TerminalTitleStripped)
        } else {
            None
        }
    }

    fn custom(name: String) -> (token: Self) {
        AgentSidebarToken::Custom(name)
    }

    fn with_style(self, style: SidebarTokenStyle) -> (token: Self) {
        AgentSidebarToken::Styled { token: Box::new(self), style }
    }

    fn parts(&self) -> (parts: (&Self, SidebarTokenStyle)) {
        match self {
            AgentSidebarToken::Styled { token, style } => (&**token, *style),
            _ => (self, SidebarTokenStyle::default()),
        }
    }

    fn is_title(&self) -> (title: bool) {
        matches!(self, AgentSidebarToken::TerminalTitle | AgentSidebarToken::TerminalTitleStripped)
    }

    fn is_age(&self) -> (age: bool) {
        matches!(self, AgentSidebarToken::StateAge)
    }

    fn token_name(&self) -> (name: String)
        decreases self,
    {
        match self {
            AgentSidebarToken::StateIcon => "state_icon".to_owned(),
            AgentSidebarToken::StateText => "state_text".to_owned(),
            AgentSidebarToken::StateAge => "state_age".to_owned(),
            AgentSidebarToken::Workspace => "workspace".to_owned(),
            AgentSidebarToken::Tab => "tab".to_owned(),
            AgentSidebarToken::Pane => "pane".to_owned(),
            AgentSidebarToken::Agent => "agent".to_owned(),
            AgentSidebarToken::TerminalTitle => "terminal_title".to_owned(),
            AgentSidebarToken::TerminalTitleStripped => "terminal_title_stripped".to_owned(),
            AgentSidebarToken::Custom(name) => custom_text(name.as_str()),
            AgentSidebarToken::Styled { token, style: _ } => token.token_name(),
        }
    }

    fn style_of(&self) -> (style: Option<SidebarTokenStyle>) {
        match self {
            AgentSidebarToken::Styled { token: _, style } => Some(*style),
            _ => None,
        }
    }
}

impl SpaceSidebarToken {
    /// The name that a token is written with, whatever style stands around it.
    pub open spec fn space_name(self) -> Seq<char>
        decreases self,
    {
        match self {
            SpaceSidebarToken::StateIcon => "state_icon"@,
            SpaceSidebarToken::StateText => "state_text"@,
            SpaceSidebarToken::StateAge => "state_age"@,
            SpaceSidebarToken::Workspace => "workspace"@,
            SpaceSidebarToken::Branch => "branch"@,
            SpaceSidebarToken::GitStatus => "git_status"@,
            SpaceSidebarToken::GitDirty => "git_dirty"@,
            SpaceSidebarToken::PullRequests => "pull_requests"@,
            SpaceSidebarToken::TerminalTitle => "terminal_title"@,
            SpaceSidebarToken::TerminalTitleStripped => "terminal_title_stripped"@,
            SpaceSidebarToken::Custom(name) => "$"@ + name@,
            SpaceSidebarToken::Styled { token, style } => token.space_name(),
        }
    }
}

impl SidebarToken for SpaceSidebarToken {
    open spec fn is_plain(self) -> bool {
        !(self is Styled)
    }

    open spec fn spelled(self) -> Seq<char> {
        self.space_name()
    }

    open spec fn own_style(self) -> Option<SidebarTokenStyle> {
        match self {
            SpaceSidebarToken::Styled { token, style } => Some(style),
            _ => None,
        }
    }

    open spec fn base(self) -> Self {
        match self {
            SpaceSidebarToken::Styled { token, style } => *token,
            _ => self,
        }
    }

    open spec fn shows_title(self) -> bool {
        self is TerminalTitle || self is TerminalTitleStripped
    }

    open spec fn shows_age(self) -> bool {
        self is StateAge
    }

    open spec fn is_builtin_name(name: Seq<char>) -> bool {
        ||| name == "state_icon"@
        ||| name == "state_text"@
        ||| name == "state_age"@
        ||| name == "workspace"@
        ||| name == "branch"@
        ||| name == "git_status"@
        ||| name == "git_dirty"@
        ||| name == "pull_requests"@
        ||| name == "terminal_title"@
        ||| name == "terminal_title_stripped"@
    }

    fn builtin(name: &str) -> (token: Option<Self>) {
        if same_text(name, "state_icon") {
            Some(SpaceSidebarToken::StateIcon)
        } else if same_text(name, "state_text") {
            Some(SpaceSidebarToken::StateText)
        } else if same_text(name, "state_age") {
            Some(SpaceSidebarToken::StateAge)
        } else if same_text(name, "workspace") {
            Some(SpaceSidebarToken::Workspace)
        } else if same_text(name, "branch") {
            Some(SpaceSidebarToken::Branch)
        } else if same_text(name, "git_status") {
            Some(SpaceSidebarToken::GitStatus)
        } else if same_text(name, "git_dirty") {
            Some(SpaceSidebarToken::GitDirty)
        } else if same_text(name, "pull_requests") {
            Some(SpaceSidebarToken::PullRequests)
        } else if same_text(name, "terminal_title") {
            Some(SpaceSidebarToken::TerminalTitle)
        } else if same_text(name, "terminal_title_stripped") {
            Some(SpaceSidebarToken::TerminalTitleStripped)
        } else {
            None
        }
    }

    fn custom(name: String) -> (token: Self) {
        SpaceSidebarToken::Custom(name)
    }

    fn with_style(self, style: SidebarTokenStyle) -> (token: Self) {
        SpaceSidebarToken::Styled { token: Box::new(self), style }
    }

    fn parts(&self) -> (parts: (&Self, SidebarTokenStyle)) {
        match self {
            SpaceSidebarToken::Styled { token, style } => (&**token, *style),
            _ => (self, SidebarTokenStyle::default()),
        }
    }

    fn is_title(&self) -> (title: bool) {
        matches!(self, SpaceSidebarToken::TerminalTitle | SpaceSidebarToken::TerminalTitleStripped)
    }

    fn is_age(&self) -> (age: bool) {
        matches!(self, SpaceSidebarToken::StateAge)
    }

    fn token_name(&self) -> (name: String)
        decreases self,
    {
        match self {
            SpaceSidebarToken::StateIcon => "state_icon".to_owned(),
            SpaceSidebarToken::StateText => "state_text".to_owned(),
            SpaceSidebarToken::StateAge => "state_age".to_owned(),
            SpaceSidebarToken::Workspace => "workspace".to_owned(),
            SpaceSidebarToken::Branch => "branch".to_owned(),
            SpaceSidebarToken::GitStatus => "git_status".to_owned(),
            SpaceSidebarToken::GitDirty => "git_dirty".to_owned(),
            SpaceSidebarToken::PullRequests => "pull_requests".to_owned(),
            SpaceSidebarToken::TerminalTitle => "terminal_title".to_owned(),
            SpaceSidebarToken::TerminalTitleStripped => "terminal_title_stripped".to_owned(),
            SpaceSidebarToken::Custom(name) => custom_text(name.as_str()),
            SpaceSidebarToken::Styled { token, style: _ } => token.token_name(),
        }
    }

    fn style_of(&self) -> (style: Option<SidebarTokenStyle>) {
        match self {
            SpaceSidebarToken::Styled { token: _, style } => Some(*style),
            _ => None,
        }
    }
}

// ---------------------------------------------------------------------------
// Reading a token
// ---------------------------------------------------------------------------

/// A character of a custom token's name.
pub open spec fn is_name_char(c: char) -> bool {
    ||| 'a' <= c <= 'z'
    ||| 'A' <= c <= 'Z'
    ||| '0' <= c <= '9'
    ||| c == '_'
    ||| c == '-'
}

/// A custom token's name: one to 32 letters, digits, underscores or hyphens.
pub open spec fn is_custom_name(name: Seq<char>) -> bool {
    1 <= name.len() <= 32 && forall|i: int| 0 <= i < name.len() ==> is_name_char(#[trigger] name[i])
}

/// A name that a token can be written with.
pub open spec fn is_token_name<T: SidebarToken>(value: Seq<char>) -> bool {
    T::is_builtin_name(value) || (value.len() >= 1 && value[0] == '$' && is_custom_name(
        value.skip(1),
    ))
}

/// The complaint about a name that no token is written with.
pub open spec fn token_complaint(value: Seq<char>) -> Seq<char> {
    if value.len() >= 1 && value[0] == '$' {
        "invalid custom sidebar token `"@ + value + "`"@
    } else {
        "unknown sidebar token `"@ + value + "`; custom tokens must start with `$`"@
    }
}

fn custom_name_is_valid(name: &[char]) -> (valid: bool)
    ensures
        valid == is_custom_name(name@),
{
    if name.len() == 0 || name.len() > 32 {
        return false;
    }
    let mut i: usize = 0;
    while i < name.len()
        invariant
            i <= name@.len(),
            forall|j: int| 0 <= j < i ==> is_name_char(#[trigger] name@[j]),
        decreases name@.len() - i,
    {
        let c = name[i];
        if !(('a' <= c && c <= 'z') || ('A' <= c && c <= 'Z') || ('0' <= c && c <= '9') || c == '_'
            || c == '-') {
            assert(!is_name_char(name@[i as int]));
            return false;
        }
        i += 1;
    }
    true
}

/// The token that is written `value`, or why there is none.
pub fn parse_sidebar_token<T: SidebarToken>(value: &str) -> (result: Result<T, String>)
    ensures
        match result {
            Ok(token) => is_token_name::<T>(value@) && token.is_plain() && token.spelled() == value@
                && token.base() == token && token.own_style() is None,
            Err(message) => !is_token_name::<T>(value@) && message@ == token_complaint(value@),
        },
{
    if let Some(token) = T::builtin(value) {
        return Ok(token);
    }
    let chars = chars_of(value);
    if chars.len() == 0 || chars[0] != '$' {
        let mut message = "unknown sidebar token `".to_owned();
        message.append(value);
        message.append("`; custom tokens must start with `$`");
        assert(message@ =~= token_complaint(value@));
        return Err(message);
    }
    let name = slice_subrange(chars.as_slice(), 1, chars.len());
    assert(name@ =~= value@.skip(1));
    if !custom_name_is_valid(name) {
        let mut message = "invalid custom sidebar token `".to_owned();
        message.append(value);
        message.append("`");
        assert(message@ =~= token_complaint(value@));
        return Err(message);
    }
    let token = T::custom(string_of(name));
    proof {
        reveal_strlit("$");
        assert("$"@ + value@.skip(1) =~= value@);
    }
    Ok(token)
}

/// The token with a given spelling and style.
pub open spec fn written_as<T: SidebarToken>(
    token: T,
    name: Seq<char>,
    style: Option<SidebarTokenStyle>,
) -> bool {
    &&& token.spelled() == name
    &&& token.own_style() == style
    &&& token.base().is_plain()
    &&& token.base().spelled() == name
    &&& (style is None ==> token.base() == token)
}

/// Why a value is no token.
pub open spec fn token_error<T: SidebarToken>(v: ConfigValue) -> Option<Seq<char>> {
    match tokens::raw_token(v) {
        Err(complaint) => Some(complaint),
        Ok((name, style)) => if is_token_name::<T>(name) {
            None
        } else {
            Some(token_complaint(name))
        },
    }
}

/// A value is written for a token.
pub open spec fn is_token<T: SidebarToken>(v: ConfigValue, token: T) -> bool {
    &&& token_error::<T>(v) is None
    &&& written_as(token, tokens::raw_token(v)->Ok_0.0, tokens::raw_token(v)->Ok_0.1)
}

/// Reads a token: its name, styled or not.
pub fn read_token<T: SidebarToken>(v: &ConfigValue) -> (result: Result<T, String>)
    ensures
        match result {
            Ok(token) => is_token(*v, token),
            Err(message) => token_error::<T>(*v) == Some(message@),
        },
{
    match read_raw_token(v) {
        Ok((name, style)) => match parse_sidebar_token::<T>(name.as_str()) {
            Ok(token) => match style {
                Some(style) => Ok(token.with_style(style)),
                None => Ok(token),
            },
            Err(message) => Err(message),
        },
        Err(message) => Err(message),
    }
}

// ---------------------------------------------------------------------------
// Writing a token
// ---------------------------------------------------------------------------

/// What one entry of a style table holds.
pub ghost enum Leaf {
    Text { text: Seq<char> },
    Boolean { flag: bool },
}

pub open spec fn leaf(v: ConfigValue) -> Option<Leaf> {
    match v {
        ConfigValue::Text(t) => Some(Leaf::Text { text: t@ }),
        ConfigValue::Boolean(flag) => Some(Leaf::Boolean { flag }),
        _ => None,
    }
}

/// A table holds these keys and values, in this order.
pub open spec fn table_is(
    entries: Seq<(String, ConfigValue)>,
    expected: Seq<(Seq<char>, Leaf)>,
) -> bool {
    &&& entries.len() == expected.len()
    &&& forall|i: int|
        #![trigger entries[i]]
        0 <= i < entries.len() ==> entries[i].0@ == expected[i].0 && leaf(entries[i].1) == Some(
            expected[i].1,
        )
}

pub open spec fn color_entry(key: Seq<char>, color: Option<tokens::SidebarTokenColor>) -> Seq<
    (Seq<char>, Leaf),
> {
    match color {
        Some(color) => seq![(key, Leaf::Text { text: tokens::color_text(color) })],
        None => seq![],
    }
}

pub open spec fn flag_entry(key: Seq<char>, flag: Option<bool>) -> Seq<(Seq<char>, Leaf)> {
    match flag {
        Some(flag) => seq![(key, Leaf::Boolean { flag })],
        None => seq![],
    }
}

pub open spec fn emphasis_entry(emphasis: Option<tokens::SidebarTokenEmphasis>) -> Seq<
    (Seq<char>, Leaf),
> {
    match emphasis {
        Some(emphasis) => seq![("emphasis"@, Leaf::Text { text: emphasis.spec_name() })],
        None => seq![],
    }
}

/// The table of a styled token: its name, then what the style says and nothing else.
pub open spec fn style_table(name: Seq<char>, style: SidebarTokenStyle) -> Seq<(Seq<char>, Leaf)> {
    seq![("token"@, Leaf::Text { text: name })] + color_entry("fg"@, style.fg) + color_entry(
        "bg"@,
        style.bg,
    ) + flag_entry("bold"@, style.bold) + flag_entry("dim"@, style.dim) + flag_entry(
        "italic"@,
        style.italic,
    ) + flag_entry("underline"@, style.underline) + flag_entry("reverse"@, style.reverse)
        + emphasis_entry(style.emphasis)
}

fn push_color(
    entries: &mut Vec<(String, ConfigValue)>,
    key: &str,
    color: Option<tokens::SidebarTokenColor>,
    Ghost(so_far): Ghost<Seq<(Seq<char>, Leaf)>>,
)
    requires
        table_is(old(entries)@, so_far),
    ensures
        table_is(final(entries)@, so_far + color_entry(key@, color)),
{
    if let Some(color) = color {
        let entry = (text::duplicate(key), ConfigValue::Text(color.to_text()));
        entries.push(entry);
    }
    assert(table_is(entries@, so_far + color_entry(key@, color)));
}

fn push_flag(
    entries: &mut Vec<(String, ConfigValue)>,
    key: &str,
    flag: Option<bool>,
    Ghost(so_far): Ghost<Seq<(Seq<char>, Leaf)>>,
)
    requires
        table_is(old(entries)@, so_far),
    ensures
        table_is(final(entries)@, so_far + flag_entry(key@, flag)),
{
    if let Some(flag) = flag {
        let entry = (text::duplicate(key), ConfigValue::Boolean(flag));
        entries.push(entry);
    }
    assert(table_is(entries@, so_far + flag_entry(key@, flag)));
}

/// The table of a styled token.
pub fn write_styled_token(name: String, style: SidebarTokenStyle) -> (entries: Vec<
    (String, ConfigValue),
>)
    ensures
        table_is(entries@, style_table(name@, style)),
{
    let mut entries: Vec<(String, ConfigValue)> = Vec::new();
    let ghost mut so_far: Seq<(Seq<char>, Leaf)> = seq![("token"@, Leaf::Text { text: name@ })];
    let entry = ("token".to_owned(), ConfigValue::Text(name));
    entries.push(entry);
    push_color(&mut entries, "fg", style.fg, Ghost(so_far));
    proof {
        so_far = so_far + color_entry("fg"@, style.fg);
    }
    push_color(&mut entries, "bg", style.bg, Ghost(so_far));
    proof {
        so_far = so_far + color_entry("bg"@, style.bg);
    }
    push_flag(&mut entries, "bold", style.bold, Ghost(so_far));
    proof {
        so_far = so_far + flag_entry("bold"@, style.bold);
    }
    push_flag(&mut entries, "dim", style.dim, Ghost(so_far));
    proof {
        so_far = so_far + flag_entry("dim"@, style.dim);
    }
    push_flag(&mut entries, "italic", style.italic, Ghost(so_far));
    proof {
        so_far = so_far + flag_entry("italic"@, style.italic);
    }
    push_flag(&mut entries, "underline", style.underline, Ghost(so_far));
    proof {
        so_far = so_far + flag_entry("underline"@, style.underline);
    }
    push_flag(&mut entries, "reverse", style.reverse, Ghost(so_far));
    proof {
        so_far = so_far + flag_entry("reverse"@, style.reverse);
    }
    if let Some(emphasis) = style.emphasis {
        let entry = (
            "emphasis".to_owned(),
            ConfigValue::Text(text::duplicate(emphasis.name())),
        );
        entries.push(entry);
    }
    assert(table_is(entries@, so_far + emphasis_entry(style.emphasis)));
    entries
}

/// Writes a token: a bare name, or a table where it is styled.
pub fn write_token<T: SidebarToken>(token: &T) -> (v: ConfigValue)
    ensures
        match token.own_style() {
            Some(style) => v matches ConfigValue::Table(entries) && table_is(
                entries@,
                style_table(token.spelled(), style),
            ),
            None => v matches ConfigValue::Text(t) && t@ == token.spelled(),
        },
{
    let name = token.token_name();
    match token.style_of() {
        Some(style) => ConfigValue::Table(write_styled_token(name, style)),
        None => ConfigValue::Text(name),
    }
}

// ---------------------------------------------------------------------------
// Laws of names and styles
// ---------------------------------------------------------------------------

/// A value is what `write_token` writes for a token.
pub open spec fn is_written<T: SidebarToken>(v: ConfigValue, token: T) -> bool {
    match token.own_style() {
        Some(style) => v matches ConfigValue::Table(entries) && table_is(
            entries@,
            style_table(token.spelled(), style),
        ),
        None => v matches ConfigValue::Text(t) && t@ == token.spelled(),
    }
}

proof fn lemma_entry(
    entries: Seq<(String, ConfigValue)>,
    n: int,
    expected: (Seq<char>, Leaf),
    parts: tokens::StyleParts,
)
    requires
        0 <= n < entries.len(),
        tokens::style_entries(entries.take(n)) == Ok::<tokens::StyleParts, Seq<char>>(parts),
        entries[n].0@ == expected.0,
        leaf(entries[n].1) == Some(expected.1),
    ensures
        tokens::style_entries(entries.take(n + 1)) == tokens::style_step(
            parts,
            expected.0,
            entries[n].1,
        ),
        expected.1 matches Leaf::Text { text } ==> value::spec_text(entries[n].1) == Ok::<
            Seq<char>,
            Seq<char>,
        >(text),
        expected.1 matches Leaf::Boolean { flag } ==> value::spec_boolean(entries[n].1) == Ok::<
            bool,
            Seq<char>,
        >(flag),
{
    assert(entries.take(n + 1).drop_last() =~= entries.take(n));
    assert(entries.take(n + 1).last() == entries[n]);
}

/// A style table that is written down and read again gives the same name and style.
pub proof fn law_style_round_trip(
    entries: Seq<(String, ConfigValue)>,
    name: Seq<char>,
    style: SidebarTokenStyle,
)
    requires
        table_is(entries, style_table(name, style)),
    ensures
        tokens::style_entries(entries) == Ok::<tokens::StyleParts, Seq<char>>(
            tokens::StyleParts { token: Some(name), style },
        ),
{
    reveal_strlit("token");
    reveal_strlit("fg");
    reveal_strlit("bg");
    reveal_strlit("bold");
    reveal_strlit("dim");
    reveal_strlit("italic");
    reveal_strlit("underline");
    reveal_strlit("reverse");
    reveal_strlit("emphasis");
    assert("token"@[0] == 't' && "fg"@[0] == 'f' && "bg"@[0] == 'b' && "bold"@[0] == 'b');
    assert("bg"@.len() == 2 && "bold"@.len() == 4);
    assert("dim"@[0] == 'd' && "italic"@[0] == 'i' && "underline"@[0] == 'u');
    assert("reverse"@[0] == 'r' && "emphasis"@[0] == 'e');
    let expected = style_table(name, style);
    let p0 = seq![("token"@, Leaf::Text { text: name })];
    let p1 = p0 + color_entry("fg"@, style.fg);
    let p2 = p1 + color_entry("bg"@, style.bg);
    let p3 = p2 + flag_entry("bold"@, style.bold);
    let p4 = p3 + flag_entry("dim"@, style.dim);
    let p5 = p4 + flag_entry("italic"@, style.italic);
    let p6 = p5 + flag_entry("underline"@, style.underline);
    let p7 = p6 + flag_entry("reverse"@, style.reverse);
    assert(expected == p7 + emphasis_entry(style.emphasis));
    let none = tokens::no_style();
    let s0 = none;
    let s1 = SidebarTokenStyle { fg: style.fg, ..s0 };
    let s2 = SidebarTokenStyle { bg: style.bg, ..s1 };
    let s3 = SidebarTokenStyle { bold: style.bold, ..s2 };
    let s4 = SidebarTokenStyle { dim: style.dim, ..s3 };
    let s5 = SidebarTokenStyle { italic: style.italic, ..s4 };
    let s6 = SidebarTokenStyle { underline: style.underline, ..s5 };
    let s7 = SidebarTokenStyle { reverse: style.reverse, ..s6 };
    let token = Some(name);
    assert(entries.take(0) =~= Seq::empty());
    assert(expected[0] == p0[0]);
    lemma_entry(entries, 0, p0[0], tokens::StyleParts { token: None, style: none });
    lemma_color_part(entries, expected, p0, "fg"@, style.fg, token, s0);
    lemma_color_part(entries, expected, p1, "bg"@, style.bg, token, s1);
    lemma_flag_part(entries, expected, p2, "bold"@, style.bold, token, s2);
    lemma_flag_part(entries, expected, p3, "dim"@, style.dim, token, s3);
    lemma_flag_part(entries, expected, p4, "italic"@, style.italic, token, s4);
    lemma_flag_part(entries, expected, p5, "underline"@, style.underline, token, s5);
    lemma_flag_part(entries, expected, p6, "reverse"@, style.reverse, token, s6);
    if let Some(emphasis) = style.emphasis {
        tokens::law_emphasis_round_trip(emphasis);
        assert(expected[p7.len() as int] == emphasis_entry(style.emphasis)[0]);
        lemma_entry(
            entries,
            p7.len() as int,
            expected[p7.len() as int],
            tokens::StyleParts { token, style: s7 },
        );
    }
    assert(entries.take(expected.len() as int) =~= entries);
    assert(style == SidebarTokenStyle { emphasis: style.emphasis, ..s7 });
}

/// The style after a colour was read.
spec fn with_color(
    style: SidebarTokenStyle,
    key: Seq<char>,
    color: Option<tokens::SidebarTokenColor>,
) -> SidebarTokenStyle {
    if key == "fg"@ {
        SidebarTokenStyle { fg: color, ..style }
    } else {
        SidebarTokenStyle { bg: color, ..style }
    }
}

proof fn lemma_color_part(
    entries: Seq<(String, ConfigValue)>,
    expected: Seq<(Seq<char>, Leaf)>,
    before: Seq<(Seq<char>, Leaf)>,
    key: Seq<char>,
    color: Option<tokens::SidebarTokenColor>,
    token: Option<Seq<char>>,
    style: SidebarTokenStyle,
)
    requires
        table_is(entries, expected),
        before.len() + color_entry(key, color).len() <= expected.len(),
        color is Some ==> expected[before.len() as int] == color_entry(key, color)[0],
        key == "fg"@ || key == "bg"@,
        key == "fg"@ ==> style.fg is None,
        key == "bg"@ ==> style.bg is None,
        tokens::style_entries(entries.take(before.len() as int)) == Ok::<
            tokens::StyleParts,
            Seq<char>,
        >(tokens::StyleParts { token, style }),
    ensures
        tokens::style_entries(
            entries.take((before + color_entry(key, color)).len() as int),
        ) == Ok::<tokens::StyleParts, Seq<char>>(
            tokens::StyleParts { token, style: with_color(style, key, color) },
        ),
{
    reveal_strlit("token");
    reveal_strlit("fg");
    reveal_strlit("bg");
    assert("token"@[0] == 't' && "fg"@[0] == 'f' && "bg"@[0] == 'b');
    if let Some(c) = color {
        tokens::law_color_round_trip(c);
        lemma_entry(
            entries,
            before.len() as int,
            expected[before.len() as int],
            tokens::StyleParts { token, style },
        );
    }
}

/// The style after a flag was read.
spec fn with_flag(style: SidebarTokenStyle, key: Seq<char>, flag: Option<bool>) -> SidebarTokenStyle {
    if key == "bold"@ {
        SidebarTokenStyle { bold: flag, ..style }
    } else if key == "dim"@ {
        SidebarTokenStyle { dim: flag, ..style }
    } else if key == "italic"@ {
        SidebarTokenStyle { italic: flag, ..style }
    } else if key == "underline"@ {
        SidebarTokenStyle { underline: flag, ..style }
    } else {
        SidebarTokenStyle { reverse: flag, ..style }
    }
}

proof fn lemma_flag_part(
    entries: Seq<(String, ConfigValue)>,
    expected: Seq<(Seq<char>, Leaf)>,
    before: Seq<(Seq<char>, Leaf)>,
    key: Seq<char>,
    flag: Option<bool>,
    token: Option<Seq<char>>,
    style: SidebarTokenStyle,
)
    requires
        table_is(entries, expected),
        before.len() + flag_entry(key, flag).len() <= expected.len(),
        flag is Some ==> expected[before.len() as int] == flag_entry(key, flag)[0],
        key == "bold"@ || key == "dim"@ || key == "italic"@ || key == "underline"@ || key
            == "reverse"@,
        with_flag(style, key, None) == style,
        tokens::style_entries(entries.take(before.len() as int)) == Ok::<
            tokens::StyleParts,
            Seq<char>,
        >(tokens::StyleParts { token, style }),
    ensures
        tokens::style_entries(entries.take((before + flag_entry(key, flag)).len() as int)) == Ok::<
            tokens::StyleParts,
            Seq<char>,
        >(tokens::StyleParts { token, style: with_flag(style, key, flag) }),
{
    reveal_strlit("token");
    reveal_strlit("fg");
    reveal_strlit("bg");
    reveal_strlit("bold");
    reveal_strlit("dim");
    reveal_strlit("italic");
    reveal_strlit("underline");
    reveal_strlit("reverse");
    assert("token"@[0] == 't' && "fg"@[0] == 'f' && "bg"@[0] == 'b' && "bold"@[0] == 'b');
    assert("bg"@.len() == 2 && "bold"@.len() == 4);
    assert("dim"@[0] == 'd' && "italic"@[0] == 'i' && "underline"@[0] == 'u');
    assert("reverse"@[0] == 'r');
    if flag is Some {
        lemma_entry(
            entries,
            before.len() as int,
            expected[before.len() as int],
            tokens::StyleParts { token, style },
        );
    }
}

/// What is written for a token is read as that token again.
pub proof fn law_token_round_trip<T: SidebarToken>(token: T, v: ConfigValue)
    requires
        is_written(v, token),
        is_token_name::<T>(token.spelled()),
        written_as(token, token.spelled(), token.own_style()),
    ensures
        is_token(v, token),
{
    if let Some(style) = token.own_style() {
        if let ConfigValue::Table(entries) = v {
            law_style_round_trip(entries@, token.spelled(), style);
        }
    }
}

/// Two agent tokens with one name are one token.
pub proof fn law_agent_names_are_unique(a: AgentSidebarToken, b: AgentSidebarToken)
    requires
        a.is_plain(),
        b.is_plain(),
        a.spelled() == b.spelled(),
    ensures
        match a {
            AgentSidebarToken::Custom(name) => b matches AgentSidebarToken::Custom(other) && name@
                == other@,
            _ => a == b,
        },
{
    reveal_strlit("$");
    reveal_strlit("state_icon");
    reveal_strlit("state_text");
    reveal_strlit("state_age");
    reveal_strlit("workspace");
    reveal_strlit("tab");
    reveal_strlit("pane");
    reveal_strlit("agent");
    reveal_strlit("terminal_title");
    reveal_strlit("terminal_title_stripped");
    assert("state_icon"@[6] == 'i' && "state_text"@[6] == 't' && "state_icon"@[0] == 's');
    assert("state_text"@[0] == 's' && "state_age"@[0] == 's' && "workspace"@[0] == 'w');
    assert("tab"@[0] == 't' && "pane"@[0] == 'p' && "agent"@[0] == 'a');
    assert("terminal_title"@[0] == 't' && "terminal_title_stripped"@[0] == 't');
    if let AgentSidebarToken::Custom(name) = a {
        assert(a.spelled()[0] == '$');
        assert(a.spelled().skip(1) =~= name@);
    }
    if let AgentSidebarToken::Custom(name) = b {
        assert(b.spelled()[0] == '$');
        assert(b.spelled().skip(1) =~= name@);
    }
}

/// Two space tokens with one name are one token.
pub proof fn law_space_names_are_unique(a: SpaceSidebarToken, b: SpaceSidebarToken)
    requires
        a.is_plain(),
        b.is_plain(),
        a.spelled() == b.spelled(),
    ensures
        match a {
            SpaceSidebarToken::Custom(name) => b matches SpaceSidebarToken::Custom(other) && name@
                == other@,
            _ => a == b,
        },
{
    reveal_strlit("$");
    reveal_strlit("state_icon");
    reveal_strlit("state_text");
    reveal_strlit("state_age");
    reveal_strlit("workspace");
    reveal_strlit("branch");
    reveal_strlit("git_status");
    reveal_strlit("git_dirty");
    reveal_strlit("pull_requests");
    reveal_strlit("terminal_title");
    reveal_strlit("terminal_title_stripped");
    assert("state_icon"@[6] == 'i' && "state_text"@[6] == 't' && "state_icon"@[0] == 's');
    assert("state_text"@[0] == 's' && "state_age"@[0] == 's' && "workspace"@[0] == 'w');
    assert("branch"@[0] == 'b' && "git_status"@[0] == 'g' && "git_dirty"@[0] == 'g');
    assert("git_status"@.len() == 10 && "git_dirty"@.len() == 9 && "pull_requests"@[0] == 'p');
    assert("terminal_title"@[0] == 't' && "terminal_title_stripped"@[0] == 't');
    if let SpaceSidebarToken::Custom(name) = a {
        assert(a.spelled()[0] == '$');
        assert(a.spelled().skip(1) =~= name@);
    }
    if let SpaceSidebarToken::Custom(name) = b {
        assert(b.spelled()[0] == '$');
        assert(b.spelled().skip(1) =~= name@);
    }
}

} // verus!
