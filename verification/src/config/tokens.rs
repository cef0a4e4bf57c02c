//! The tokens of a sidebar row: how they are written down, and how each occurrence is styled.

use crate::config::value;
use crate::config::value::{
    read_boolean, read_text, unknown_field_message, wrong_type_message, ConfigValue,
};
use crate::text;
use crate::text::{chars_of, same_text};
use vstd::prelude::*;
use vstd::slice::*;
use vstd::string::*;

verus! {

// ---------------------------------------------------------------------------
// Colours
// ---------------------------------------------------------------------------

/// A colour of a token.
#[derive(Debug, Clone, Copy, PartialEq, Eq, Structural)]
pub struct SidebarTokenColor {
    pub r: u8,
    pub g: u8,
    pub b: u8,
}

/// The value of a hexadecimal digit.
pub open spec fn hex_value(c: char) -> Option<u8> {
    if '0' <= c <= '9' {
        Some((c as int - 48) as u8)
    } else if 'a' <= c <= 'f' {
        Some((c as int - 87) as u8)
    } else if 'A' <= c <= 'F' {
        Some((c as int - 55) as u8)
    } else {
        None
    }
}

fn digit_value(c: char) -> (digit: Option<u8>)
    ensures
        digit == hex_value(c),
        digit matches Some(d) ==> d < 16,
{
    if '0' <= c && c <= '9' {
        Some((c as u32 - 48) as u8)
    } else if 'a' <= c && c <= 'f' {
        Some((c as u32 - 87) as u8)
    } else if 'A' <= c && c <= 'F' {
        Some((c as u32 - 55) as u8)
    } else {
        None
    }
}

/// All of a text's characters are hexadecimal digits.
pub open spec fn all_hex(s: Seq<char>) -> bool {
    forall|i: int| 0 <= i < s.len() ==> hex_value(#[trigger] s[i]) is Some
}

/// The colour that a text names: `#` and three digits, each standing for two, or six.
pub open spec fn spec_color(s: Seq<char>) -> Option<SidebarTokenColor> {
    if s.len() >= 1 && s[0] == '#' && all_hex(s.skip(1)) && s.len() == 4 {
        Some(
            SidebarTokenColor {
                r: (hex_value(s[1])->0 * 17) as u8,
                g: (hex_value(s[2])->0 * 17) as u8,
                b: (hex_value(s[3])->0 * 17) as u8,
            },
        )
    } else if s.len() >= 1 && s[0] == '#' && all_hex(s.skip(1)) && s.len() == 7 {
        Some(
            SidebarTokenColor {
                r: (hex_value(s[1])->0 * 16 + hex_value(s[2])->0) as u8,
                g: (hex_value(s[3])->0 * 16 + hex_value(s[4])->0) as u8,
                b: (hex_value(s[5])->0 * 16 + hex_value(s[6])->0) as u8,
            },
        )
    } else {
        None
    }
}

pub open spec fn color_complaint(value: Seq<char>) -> Seq<char> {
    "sidebar token colors must be #RGB or #RRGGBB, got `"@ + value + "`"@
}

/// A digit in lower case.
pub open spec fn hex_char(n: u8) -> char {
    if n < 10 {
        (n + 48) as char
    } else {
        (n + 87) as char
    }
}

/// A colour written with six digits.
pub open spec fn color_text(color: SidebarTokenColor) -> Seq<char> {
    seq![
        '#',
        hex_char(color.r / 16),
        hex_char(color.r % 16),
        hex_char(color.g / 16),
        hex_char(color.g % 16),
        hex_char(color.b / 16),
        hex_char(color.b % 16),
    ]
}

/// A colour that is written down and read again is the same.
pub proof fn law_color_round_trip(color: SidebarTokenColor)
    ensures
        spec_color(color_text(color)) == Some(color),
{
    let s = color_text(color);
    lemma_hex_digit(color.r / 16);
    lemma_hex_digit(color.r % 16);
    lemma_hex_digit(color.g / 16);
    lemma_hex_digit(color.g % 16);
    lemma_hex_digit(color.b / 16);
    lemma_hex_digit(color.b % 16);
    assert(s.skip(1) =~= seq![s[1], s[2], s[3], s[4], s[5], s[6]]);
}

proof fn lemma_hex_digit(n: u8)
    requires
        n < 16,
    ensures
        hex_value(hex_char(n)) == Some(n),
{
}

fn digit_char(n: u8) -> (c: char)
    requires
        n < 16,
    ensures
        c == hex_char(n),
{
    if n < 10 {
        (n + 48) as char
    } else {
        (n + 87) as char
    }
}

impl SidebarTokenColor {
    /// The colour that a text names, or why it names none.
    pub fn parse(value: &str) -> (result: Result<Self, String>)
        ensures
            match result {
                Ok(color) => spec_color(value@) == Some(color),
                Err(message) => spec_color(value@) is None && message@ == color_complaint(value@),
            },
    {
        let chars = chars_of(value);
        if let Some(color) = read_color(chars.as_slice()) {
            return Ok(color);
        }
        let mut message = "sidebar token colors must be #RGB or #RRGGBB, got `".to_owned();
        message.append(value);
        message.append("`");
        assert(message@ =~= color_complaint(value@));
        Err(message)
    }

    /// The colour with six digits, as it is written into a file.
    pub fn to_text(self) -> (text: String)
        ensures
            text@ == color_text(self),
    {
        let mut text = String::new();
        text.push('#');
        text.push(digit_char(self.r / 16));
        text.push(digit_char(self.r % 16));
        text.push(digit_char(self.g / 16));
        text.push(digit_char(self.g % 16));
        text.push(digit_char(self.b / 16));
        text.push(digit_char(self.b % 16));
        assert(text@ =~= color_text(self));
        text
    }

    pub fn rgb(self) -> (rgb: (u8, u8, u8))
        ensures
            rgb == (self.r, self.g, self.b),
    {
        (self.r, self.g, self.b)
    }
}

fn read_color(s: &[char]) -> (color: Option<SidebarTokenColor>)
    ensures
        color == spec_color(s@),
{
    if (s.len() != 4 && s.len() != 7) || s[0] != '#' {
        return None;
    }
    let mut digits: Vec<u8> = Vec::new();
    let mut i: usize = 1;
    while i < s.len()
        invariant
            1 <= i <= s@.len(),
            digits@.len() == i - 1,
            forall|j: int|
                0 <= j < i - 1 ==> hex_value(s@[j + 1]) == Some(#[trigger] digits@[j]) && digits@[j]
                    < 16,
        decreases s@.len() - i,
    {
        match digit_value(s[i]) {
            Some(digit) => digits.push(digit),
            None => {
                proof {
                    assert(s@.skip(1)[i - 1] == s@[i as int]);
                    assert(!all_hex(s@.skip(1)));
                }
                return None;
            },
        }
        i += 1;
    }
    assert(all_hex(s@.skip(1))) by {
        assert forall|k: int| 0 <= k < s@.skip(1).len() implies hex_value(
            #[trigger] s@.skip(1)[k],
        ) is Some by {
            assert(s@.skip(1)[k] == s@[k + 1]);
            assert(hex_value(s@[k + 1]) == Some(digits@[k]));
        }
    }
    assert(hex_value(s@[1]) == Some(digits@[0]));
    assert(hex_value(s@[2]) == Some(digits@[1]));
    assert(hex_value(s@[3]) == Some(digits@[2]));
    if s.len() == 4 {
        Some(
            SidebarTokenColor { r: digits[0] * 17, g: digits[1] * 17, b: digits[2] * 17 },
        )
    } else {
        assert(hex_value(s@[4]) == Some(digits@[3]));
        assert(hex_value(s@[5]) == Some(digits@[4]));
        assert(hex_value(s@[6]) == Some(digits@[5]));
        Some(
            SidebarTokenColor {
                r: digits[0] * 16 + digits[1],
                g: digits[2] * 16 + digits[3],
                b: digits[4] * 16 + digits[5],
            },
        )
    }
}

// ---------------------------------------------------------------------------
// Emphasis
// ---------------------------------------------------------------------------

/// A behaviour of the animation engine.
#[derive(Debug, Clone, Copy, PartialEq, Eq, Structural)]
pub enum Behaviour {
    Pulse,
    Shimmer,
    Wave,
    Activity,
    ActivityShimmer,
    Fade,
    Typewriter,
    Wipe,
    DropIn,
    Dissolve,
    Collapse,
    /// A bounded phase in which nothing is drawn.
    Still,
}

/// Which behaviour an element of the sidebar plays. Without any it is drawn like an unstyled one.
#[derive(Debug, Clone, Copy, PartialEq, Eq, Structural)]
pub enum SidebarTokenEmphasis {
    /// No animation; written `none`.
    Calm,
    /// Ramp the foreground toward the background and back.
    Pulse,
    /// A bright band travels across the element.
    Shimmer,
    /// A ripple along the element.
    Wave,
    /// Brightness and tempo follow how hard the element's pane is working.
    Activity,
    /// A band whose speed follows how hard the element's pane is working.
    ActivityShimmer,
    /// Arrive everywhere at once.
    Fade,
    /// Arrive one cell at a time.
    Typewriter,
    /// A soft edge sweeps from left to right.
    Wipe,
    /// Arrive top row first.
    DropIn,
    /// Cells arrive in a stable scatter.
    Dissolve,
    /// Close inward from the edges.
    Collapse,
}

impl Default for SidebarTokenEmphasis {
    fn default() -> (emphasis: Self)
        ensures
            emphasis == SidebarTokenEmphasis::Calm,
    {
        SidebarTokenEmphasis::Calm
    }
}

impl SidebarTokenEmphasis {
    pub open spec fn spec_behaviour(self) -> Option<Behaviour> {
        match self {
            SidebarTokenEmphasis::Calm => None,
            SidebarTokenEmphasis::Pulse => Some(Behaviour::Pulse),
            SidebarTokenEmphasis::Shimmer => Some(Behaviour::Shimmer),
            SidebarTokenEmphasis::Wave => Some(Behaviour::Wave),
            SidebarTokenEmphasis::Activity => Some(Behaviour::Activity),
            SidebarTokenEmphasis::ActivityShimmer => Some(Behaviour::ActivityShimmer),
            SidebarTokenEmphasis::Fade => Some(Behaviour::Fade),
            SidebarTokenEmphasis::Typewriter => Some(Behaviour::Typewriter),
            SidebarTokenEmphasis::Wipe => Some(Behaviour::Wipe),
            SidebarTokenEmphasis::DropIn => Some(Behaviour::DropIn),
            SidebarTokenEmphasis::Dissolve => Some(Behaviour::Dissolve),
            SidebarTokenEmphasis::Collapse => Some(Behaviour::Collapse),
        }
    }

    /// The behaviour that is played, if any.
    pub fn behaviour(self) -> (behaviour: Option<Behaviour>)
        ensures
            behaviour == self.spec_behaviour(),
    {
        match self {
            SidebarTokenEmphasis::Calm => None,
            SidebarTokenEmphasis::Pulse => Some(Behaviour::Pulse),
            SidebarTokenEmphasis::Shimmer => Some(Behaviour::Shimmer),
            SidebarTokenEmphasis::Wave => Some(Behaviour::Wave),
            SidebarTokenEmphasis::Activity => Some(Behaviour::Activity),
            SidebarTokenEmphasis::ActivityShimmer => Some(Behaviour::ActivityShimmer),
            SidebarTokenEmphasis::Fade => Some(Behaviour::Fade),
            SidebarTokenEmphasis::Typewriter => Some(Behaviour::Typewriter),
            SidebarTokenEmphasis::Wipe => Some(Behaviour::Wipe),
            SidebarTokenEmphasis::DropIn => Some(Behaviour::DropIn),
            SidebarTokenEmphasis::Dissolve => Some(Behaviour::Dissolve),
            SidebarTokenEmphasis::Collapse => Some(Behaviour::Collapse),
        }
    }

    /// Whether anything moves.
    pub fn animates(self) -> (animates: bool)
        ensures
            animates == (self.spec_behaviour() is Some),
    {
        self.behaviour().is_some()
    }

    /// How an emphasis is written.
    pub open spec fn spec_name(self) -> Seq<char> {
        match self {
            SidebarTokenEmphasis::Calm => "none"@,
            SidebarTokenEmphasis::Pulse => "pulse"@,
            SidebarTokenEmphasis::Shimmer => "shimmer"@,
            SidebarTokenEmphasis::Wave => "wave"@,
            SidebarTokenEmphasis::Activity => "activity"@,
            SidebarTokenEmphasis::ActivityShimmer => "activity-shimmer"@,
            SidebarTokenEmphasis::Fade => "fade"@,
            SidebarTokenEmphasis::Typewriter => "typewriter"@,
            SidebarTokenEmphasis::Wipe => "wipe"@,
            SidebarTokenEmphasis::DropIn => "drop-in"@,
            SidebarTokenEmphasis::Dissolve => "dissolve"@,
            SidebarTokenEmphasis::Collapse => "collapse"@,
        }
    }

    pub fn name(self) -> (name: &'static str)
        ensures
            name@ == self.spec_name(),
    {
        match self {
            SidebarTokenEmphasis::Calm => "none",
            SidebarTokenEmphasis::Pulse => "pulse",
            SidebarTokenEmphasis::Shimmer => "shimmer",
            SidebarTokenEmphasis::Wave => "wave",
            SidebarTokenEmphasis::Activity => "activity",
            SidebarTokenEmphasis::ActivityShimmer => "activity-shimmer",
            SidebarTokenEmphasis::Fade => "fade",
            SidebarTokenEmphasis::Typewriter => "typewriter",
            SidebarTokenEmphasis::Wipe => "wipe",
            SidebarTokenEmphasis::DropIn => "drop-in",
            SidebarTokenEmphasis::Dissolve => "dissolve",
            SidebarTokenEmphasis::Collapse => "collapse",
        }
    }

    /// The emphasis that is written `name`.
    pub open spec fn spec_named(name: Seq<char>) -> Option<SidebarTokenEmphasis> {
        if name == "none"@ {
            Some(SidebarTokenEmphasis::Calm)
        } else if name == "pulse"@ {
            Some(SidebarTokenEmphasis::Pulse)
        } else if name == "shimmer"@ {
            Some(SidebarTokenEmphasis::Shimmer)
        } else if name == "wave"@ {
            Some(SidebarTokenEmphasis::Wave)
        } else if name == "activity"@ {
            Some(SidebarTokenEmphasis::Activity)
        } else if name == "activity-shimmer"@ {
            Some(SidebarTokenEmphasis::ActivityShimmer)
        } else if name == "fade"@ {
            Some(SidebarTokenEmphasis::Fade)
        } else if name == "typewriter"@ {
            Some(SidebarTokenEmphasis::Typewriter)
        } else if name == "wipe"@ {
            Some(SidebarTokenEmphasis::Wipe)
        } else if name == "drop-in"@ {
            Some(SidebarTokenEmphasis::DropIn)
        } else if name == "dissolve"@ {
            Some(SidebarTokenEmphasis::Dissolve)
        } else if name == "collapse"@ {
            Some(SidebarTokenEmphasis::Collapse)
        } else {
            None
        }
    }

    pub fn named(name: &str) -> (emphasis: Option<Self>)
        ensures
            emphasis == Self::spec_named(name@),
    {
        if same_text(name, "none") {
            Some(SidebarTokenEmphasis::Calm)
        } else if same_text(name, "pulse") {
            Some(SidebarTokenEmphasis::Pulse)
        } else if same_text(name, "shimmer") {
            Some(SidebarTokenEmphasis::Shimmer)
        } else if same_text(name, "wave") {
            Some(SidebarTokenEmphasis::Wave)
        } else if same_text(name, "activity") {
            Some(SidebarTokenEmphasis::Activity)
        } else if same_text(name, "activity-shimmer") {
            Some(SidebarTokenEmphasis::ActivityShimmer)
        } else if same_text(name, "fade") {
            Some(SidebarTokenEmphasis::Fade)
        } else if same_text(name, "typewriter") {
            Some(SidebarTokenEmphasis::Typewriter)
        } else if same_text(name, "wipe") {
            Some(SidebarTokenEmphasis::Wipe)
        } else if same_text(name, "drop-in") {
            Some(SidebarTokenEmphasis::DropIn)
        } else if same_text(name, "dissolve") {
            Some(SidebarTokenEmphasis::Dissolve)
        } else if same_text(name, "collapse") {
            Some(SidebarTokenEmphasis::Collapse)
        } else {
            None
        }
    }
}

/// An emphasis that is written down and read again is the same.
pub proof fn law_emphasis_round_trip(emphasis: SidebarTokenEmphasis)
    ensures
        SidebarTokenEmphasis::spec_named(emphasis.spec_name()) == Some(emphasis),
{
    reveal_strlit("none");
    reveal_strlit("pulse");
    reveal_strlit("shimmer");
    reveal_strlit("wave");
    reveal_strlit("activity");
    reveal_strlit("activity-shimmer");
    reveal_strlit("fade");
    reveal_strlit("typewriter");
    reveal_strlit("wipe");
    reveal_strlit("drop-in");
    reveal_strlit("dissolve");
    reveal_strlit("collapse");
    let name = emphasis.spec_name();
    assert("none"@[0] == 'n' && "pulse"@[0] == 'p' && "shimmer"@[0] == 's');
    assert("wave"@.len() == 4 && "wave"@[1] == 'a' && "wipe"@.len() == 4 && "wipe"@[1] == 'i');
    assert("activity"@.len() == 8 && "activity-shimmer"@.len() == 16);
    assert("fade"@[0] == 'f' && "typewriter"@[0] == 't' && "drop-in"@[1] == 'r');
    assert("dissolve"@[0] == 'd' && "dissolve"@[1] == 'i' && "collapse"@[0] == 'c');
    assert("drop-in"@[0] == 'd' && "wave"@[0] == 'w' && "wipe"@[0] == 'w' && "activity"@[0] == 'a');
    assert("activity-shimmer"@[0] == 'a');
}

pub open spec fn emphasis_complaint(name: Seq<char>) -> Seq<char> {
    "unknown variant `"@ + name
        + "`, expected one of `none`, `pulse`, `shimmer`, `wave`, `activity`, `activity-shimmer`, `fade`, `typewriter`, `wipe`, `drop-in`, `dissolve`, `collapse`"@
}

/// What a value says of an emphasis.
pub open spec fn spec_emphasis(v: ConfigValue) -> Result<SidebarTokenEmphasis, Seq<char>> {
    match value::spec_text(v) {
        Ok(name) => match SidebarTokenEmphasis::spec_named(name) {
            Some(emphasis) => Ok(emphasis),
            None => Err(emphasis_complaint(name)),
        },
        Err(complaint) => Err(complaint),
    }
}

pub fn read_emphasis(v: &ConfigValue) -> (result: Result<SidebarTokenEmphasis, String>)
    ensures
        value::spoken(result) == spec_emphasis(*v),
{
    let name = match read_text(v) {
        Ok(name) => name,
        Err(message) => {
            return Err(message);
        },
    };
    match SidebarTokenEmphasis::named(name.as_str()) {
        Some(emphasis) => Ok(emphasis),
        None => {
            let mut message = "unknown variant `".to_owned();
            message.append(name.as_str());
            message.append(
                "`, expected one of `none`, `pulse`, `shimmer`, `wave`, `activity`, `activity-shimmer`, `fade`, `typewriter`, `wipe`, `drop-in`, `dissolve`, `collapse`",
            );
            assert(message@ =~= emphasis_complaint(name@));
            Err(message)
        },
    }
}

/// What a value says of a colour.
pub open spec fn spec_color_value(v: ConfigValue) -> Result<SidebarTokenColor, Seq<char>> {
    match value::spec_text(v) {
        Ok(t) => match spec_color(t) {
            Some(color) => Ok(color),
            None => Err(color_complaint(t)),
        },
        Err(complaint) => Err(complaint),
    }
}

pub fn read_color_value(v: &ConfigValue) -> (result: Result<SidebarTokenColor, String>)
    ensures
        value::spoken(result) == spec_color_value(*v),
{
    match read_text(v) {
        Ok(t) => SidebarTokenColor::parse(t.as_str()),
        Err(message) => Err(message),
    }
}

// ---------------------------------------------------------------------------
// Styles
// ---------------------------------------------------------------------------

/// How one occurrence of a token differs from the others.
#[derive(Debug, Clone, Copy, PartialEq, Eq, Structural)]
pub struct SidebarTokenStyle {
    pub fg: Option<SidebarTokenColor>,
    pub bg: Option<SidebarTokenColor>,
    pub bold: Option<bool>,
    pub dim: Option<bool>,
    pub italic: Option<bool>,
    pub underline: Option<bool>,
    pub reverse: Option<bool>,
    pub emphasis: Option<SidebarTokenEmphasis>,
}

/// A style that says nothing.
pub open spec fn no_style() -> SidebarTokenStyle {
    SidebarTokenStyle {
        fg: None,
        bg: None,
        bold: None,
        dim: None,
        italic: None,
        underline: None,
        reverse: None,
        emphasis: None,
    }
}

/// The style of an occurrence, a missing one saying nothing.
pub open spec fn shown_style(style: Option<SidebarTokenStyle>) -> SidebarTokenStyle {
    match style {
        Some(style) => style,
        None => no_style(),
    }
}

impl Default for SidebarTokenStyle {
    fn default() -> (style: Self)
        ensures
            style == no_style(),
    {
        SidebarTokenStyle {
            fg: None,
            bg: None,
            bold: None,
            dim: None,
            italic: None,
            underline: None,
            reverse: None,
            emphasis: None,
        }
    }
}

impl SidebarTokenStyle {
    /// The behaviour that an occurrence plays, if any.
    pub open spec fn spec_behaviour(self) -> Option<Behaviour> {
        match self.emphasis {
            Some(emphasis) => emphasis.spec_behaviour(),
            None => None,
        }
    }

    pub fn behaviour(self) -> (behaviour: Option<Behaviour>)
        ensures
            behaviour == self.spec_behaviour(),
    {
        match self.emphasis {
            Some(emphasis) => emphasis.behaviour(),
            None => None,
        }
    }

    /// Whether this occurrence needs the animation clock.
    pub fn animates(self) -> (animates: bool)
        ensures
            animates == (self.spec_behaviour() is Some),
    {
        self.behaviour().is_some()
    }
}

/// What the entries of a style table have said so far.
pub ghost struct StyleParts {
    pub token: Option<Seq<char>>,
    pub style: SidebarTokenStyle,
}

/// One more entry of a style table.
pub open spec fn style_step(parts: StyleParts, key: Seq<char>, v: ConfigValue) -> Result<
    StyleParts,
    Seq<char>,
> {
    let style = parts.style;
    if key == "token"@ {
        match value::spec_text(v) {
            Ok(t) => Ok(StyleParts { token: Some(t), ..parts }),
            Err(e) => Err(e),
        }
    } else if key == "fg"@ {
        match spec_color_value(v) {
            Ok(c) => Ok(StyleParts { style: SidebarTokenStyle { fg: Some(c), ..style }, ..parts }),
            Err(e) => Err(e),
        }
    } else if key == "bg"@ {
        match spec_color_value(v) {
            Ok(c) => Ok(StyleParts { style: SidebarTokenStyle { bg: Some(c), ..style }, ..parts }),
            Err(e) => Err(e),
        }
    } else if key == "bold"@ {
        match value::spec_boolean(v) {
            Ok(b) => Ok(StyleParts { style: SidebarTokenStyle { bold: Some(b), ..style }, ..parts }),
            Err(e) => Err(e),
        }
    } else if key == "dim"@ {
        match value::spec_boolean(v) {
            Ok(b) => Ok(StyleParts { style: SidebarTokenStyle { dim: Some(b), ..style }, ..parts }),
            Err(e) => Err(e),
        }
    } else if key == "italic"@ {
        match value::spec_boolean(v) {
            Ok(b) => Ok(
                StyleParts { style: SidebarTokenStyle { italic: Some(b), ..style }, ..parts },
            ),
            Err(e) => Err(e),
        }
    } else if key == "underline"@ {
        match value::spec_boolean(v) {
            Ok(b) => Ok(
                StyleParts { style: SidebarTokenStyle { underline: Some(b), ..style }, ..parts },
            ),
            Err(e) => Err(e),
        }
    } else if key == "reverse"@ {
        match value::spec_boolean(v) {
            Ok(b) => Ok(
                StyleParts { style: SidebarTokenStyle { reverse: Some(b), ..style }, ..parts },
            ),
            Err(e) => Err(e),
        }
    } else if key == "emphasis"@ {
        match spec_emphasis(v) {
            Ok(m) => Ok(
                StyleParts { style: SidebarTokenStyle { emphasis: Some(m), ..style }, ..parts },
            ),
            Err(e) => Err(e),
        }
    } else {
        Err(
            value::unknown_field(
                key,
                "`token`, `fg`, `bg`, `bold`, `dim`, `italic`, `underline`, `reverse`, `emphasis`"@,
            ),
        )
    }
}

/// What a style table says, up to its first mistake.
pub open spec fn style_entries(entries: Seq<(String, ConfigValue)>) -> Result<StyleParts, Seq<char>>
    decreases entries.len(),
{
    if entries.len() == 0 {
        Ok(StyleParts { token: None, style: no_style() })
    } else {
        match style_entries(entries.drop_last()) {
            Ok(parts) => style_step(parts, entries.last().0@, entries.last().1),
            Err(complaint) => Err(complaint),
        }
    }
}

/// A token as it is written: a name, or a table that styles one.
pub open spec fn raw_token(v: ConfigValue) -> Result<(Seq<char>, Option<SidebarTokenStyle>), Seq<char>> {
    match v {
        ConfigValue::Text(t) => Ok((t@, None)),
        ConfigValue::Table(entries) => match style_entries(entries@) {
            Ok(parts) => match parts.token {
                Some(token) => Ok((token, Some(parts.style))),
                None => Err("missing field `token`"@),
            },
            Err(complaint) => Err(complaint),
        },
        _ => Err(value::wrong_type("a sidebar token name or an inline style table"@)),
    }
}

/// What the entries of a style table have said so far.
struct StyleSoFar {
    token: Option<String>,
    style: SidebarTokenStyle,
}

impl StyleSoFar {
    spec fn parts(self) -> StyleParts {
        StyleParts { token: text::option_text(self.token), style: self.style }
    }

    fn step(self, key: &str, v: &ConfigValue) -> (result: Result<StyleSoFar, String>)
        ensures
            match result {
                Ok(next) => style_step(self.parts(), key@, *v) == Ok::<StyleParts, Seq<char>>(
                    next.parts(),
                ),
                Err(message) => style_step(self.parts(), key@, *v) == Err::<StyleParts, Seq<char>>(
                    message@,
                ),
            },
    {
        let mut next = self;
        if same_text(key, "token") {
            match read_text(v) {
                Ok(t) => next.token = Some(t),
                Err(message) => return Err(message),
            }
        } else if same_text(key, "fg") {
            match read_color_value(v) {
                Ok(c) => next.style.fg = Some(c),
                Err(message) => return Err(message),
            }
        } else if same_text(key, "bg") {
            match read_color_value(v) {
                Ok(c) => next.style.bg = Some(c),
                Err(message) => return Err(message),
            }
        } else if same_text(key, "bold") {
            match read_boolean(v) {
                Ok(b) => next.style.bold = Some(b),
                Err(message) => return Err(message),
            }
        } else if same_text(key, "dim") {
            match read_boolean(v) {
                Ok(b) => next.style.dim = Some(b),
                Err(message) => return Err(message),
            }
        } else if same_text(key, "italic") {
            match read_boolean(v) {
                Ok(b) => next.style.italic = Some(b),
                Err(message) => return Err(message),
            }
        } else if same_text(key, "underline") {
            match read_boolean(v) {
                Ok(b) => next.style.underline = Some(b),
                Err(message) => return Err(message),
            }
        } else if same_text(key, "reverse") {
            match read_boolean(v) {
                Ok(b) => next.style.reverse = Some(b),
                Err(message) => return Err(message),
            }
        } else if same_text(key, "emphasis") {
            match read_emphasis(v) {
                Ok(m) => next.style.emphasis = Some(m),
                Err(message) => return Err(message),
            }
        } else {
            return Err(
                unknown_field_message(
                    key,
                    "`token`, `fg`, `bg`, `bold`, `dim`, `italic`, `underline`, `reverse`, `emphasis`",
                ),
            );
        }
        Ok(next)
    }
}

/// Reads a token as it is written.
pub fn read_raw_token(v: &ConfigValue) -> (result: Result<
    (String, Option<SidebarTokenStyle>),
    String,
>)
    ensures
        match result {
            Ok((name, style)) => raw_token(*v) == Ok::<
                (Seq<char>, Option<SidebarTokenStyle>),
                Seq<char>,
            >((name@, style)),
            Err(message) => raw_token(*v) == Err::<
                (Seq<char>, Option<SidebarTokenStyle>),
                Seq<char>,
            >(message@),
        },
{
    match v {
        ConfigValue::Text(t) => Ok((text::duplicate(t.as_str()), None)),
        ConfigValue::Table(entries) => {
            let mut so_far = StyleSoFar { token: None, style: SidebarTokenStyle::default() };
            let mut i: usize = 0;
            while i < entries.len()
                invariant
                    i <= entries@.len(),
                    *v == ConfigValue::Table(*entries),
                    style_entries(entries@.take(i as int)) == Ok::<StyleParts, Seq<char>>(
                        so_far.parts(),
                    ),
                decreases entries@.len() - i,
            {
                let ghost prefix = entries@.take(i + 1);
                assert(prefix.drop_last() =~= entries@.take(i as int));
                assert(prefix.last() == entries@[i as int]);
                match so_far.step(entries[i].0.as_str(), &entries[i].1) {
                    Ok(next) => so_far = next,
                    Err(message) => {
                        proof {
                            lemma_first_complaint(entries@, i as int);
                        }
                        return Err(message);
                    },
                }
                i += 1;
            }
            assert(entries@.take(i as int) =~= entries@);
            match so_far.token {
                Some(token) => Ok((token, Some(so_far.style))),
                None => Err("missing field `token`".to_owned()),
            }
        },
        _ => Err(wrong_type_message("a sidebar token name or an inline style table")),
    }
}

/// A table with a mistake says nothing beyond it.
proof fn lemma_first_complaint(entries: Seq<(String, ConfigValue)>, i: int)
    requires
        0 <= i < entries.len(),
        style_entries(entries.take(i + 1)) is Err,
    ensures
        style_entries(entries) == style_entries(entries.take(i + 1)),
    decreases entries.len() - i,
{
    if i + 1 == entries.len() {
        assert(entries.take(i + 1) =~= entries);
    } else {
        assert(entries.take(i + 2).drop_last() =~= entries.take(i + 1));
        lemma_first_complaint(entries, i + 1);
    }
}

} // verus!
