//! What holds of the sidebar's tables, whatever stands in them.

use crate::config::animation;
use crate::config::animation::{
    SidebarAnimationConfig, SidebarNotificationsConfig, SidebarRowMotion, SidebarSignalTrayConfig,
};
use crate::config::layouts;
use crate::config::layouts::Rows;
use crate::config::rows;
use crate::config::rows::{AgentSidebarToken, SidebarToken, SpaceSidebarToken};
use crate::config::sidebar;
use crate::config::tokens;
use crate::config::tokens::{
    Behaviour, SidebarTokenEmphasis, SidebarTokenStyle, StyleParts,
};
use crate::config::value;
use crate::config::value::ConfigValue;
use crate::text;
use vstd::prelude::*;

verus! {

// ---------------------------------------------------------------------------
// Colours and emphases
// ---------------------------------------------------------------------------

/// The digits are those of base sixteen, the letters in either case.
pub proof fn law_hexadecimal_digits(n: int)
    requires
        0 <= n < 16,
    ensures
        n < 10 ==> tokens::hex_value((48 + n) as char) == Some(n as u8),
        n >= 10 ==> tokens::hex_value((87 + n) as char) == Some(n as u8),
        n >= 10 ==> tokens::hex_value((55 + n) as char) == Some(n as u8),
{
}

/// A colour is written red first, then green, then blue, two digits each; a short one stands for the
/// long one with every digit twice. Nothing else names a colour.
pub proof fn law_colors_are_written_red_first(s: Seq<char>, a: char, b: char, c: char)
    ensures
        s.len() == 7 && s[0] == '#' && tokens::all_hex(s.skip(1)) ==> {
            let color = tokens::spec_color(s);
            &&& color is Some
            &&& color->0.r == 16 * tokens::hex_value(s[1])->0 + tokens::hex_value(s[2])->0
            &&& color->0.g == 16 * tokens::hex_value(s[3])->0 + tokens::hex_value(s[4])->0
            &&& color->0.b == 16 * tokens::hex_value(s[5])->0 + tokens::hex_value(s[6])->0
        },
        tokens::spec_color(seq!['#', a, b, c]) == tokens::spec_color(seq!['#', a, a, b, b, c, c]),
        tokens::spec_color(s) is Some ==> s[0] == '#' && (s.len() == 4 || s.len() == 7),
{
    if s.len() == 7 && s[0] == '#' && tokens::all_hex(s.skip(1)) {
        assert forall|i: int| 1 <= i < 7 implies tokens::hex_value(#[trigger] s[i]) is Some by {
            assert(s.skip(1)[i - 1] == s[i]);
        }
        lemma_digit_is_small(s[1]);
        lemma_digit_is_small(s[2]);
        lemma_digit_is_small(s[3]);
        lemma_digit_is_small(s[4]);
        lemma_digit_is_small(s[5]);
        lemma_digit_is_small(s[6]);
        assert(tokens::hex_value(s[1]) is Some && tokens::hex_value(s[2]) is Some
            && tokens::hex_value(s[3]) is Some && tokens::hex_value(s[4]) is Some
            && tokens::hex_value(s[5]) is Some && tokens::hex_value(s[6]) is Some);
    }
    let short = seq!['#', a, b, c];
    let long = seq!['#', a, a, b, b, c, c];
    lemma_digit_is_small(a);
    lemma_digit_is_small(b);
    lemma_digit_is_small(c);
    assert(short.skip(1) =~= seq![a, b, c]);
    assert(long.skip(1) =~= seq![a, a, b, b, c, c]);
    if tokens::all_hex(short.skip(1)) {
        assert(short.skip(1)[0] == a && short.skip(1)[1] == b && short.skip(1)[2] == c);
        assert(tokens::hex_value(short.skip(1)[0]) is Some);
        assert(tokens::hex_value(short.skip(1)[1]) is Some);
        assert(tokens::hex_value(short.skip(1)[2]) is Some);
        assert(tokens::all_hex(long.skip(1)));
    }
    if tokens::all_hex(long.skip(1)) {
        assert(long.skip(1)[0] == a && long.skip(1)[2] == b && long.skip(1)[4] == c);
        assert(tokens::hex_value(long.skip(1)[0]) is Some);
        assert(tokens::hex_value(long.skip(1)[2]) is Some);
        assert(tokens::hex_value(long.skip(1)[4]) is Some);
        assert(tokens::all_hex(short.skip(1)));
    }
}

proof fn lemma_digit_is_small(c: char)
    ensures
        tokens::hex_value(c) matches Some(d) ==> d < 16,
{
}

/// Every emphasis but the calm one plays the behaviour of its own name, and the calm one plays none.
pub proof fn law_emphases_play_their_own(emphasis: SidebarTokenEmphasis)
    ensures
        emphasis.spec_behaviour() is None <==> emphasis is Calm,
        emphasis.spec_behaviour() == Some(Behaviour::Pulse) <==> emphasis is Pulse,
        emphasis.spec_behaviour() == Some(Behaviour::Shimmer) <==> emphasis is Shimmer,
        emphasis.spec_behaviour() == Some(Behaviour::Wave) <==> emphasis is Wave,
        emphasis.spec_behaviour() == Some(Behaviour::Activity) <==> emphasis is Activity,
        emphasis.spec_behaviour() == Some(Behaviour::ActivityShimmer)
            <==> emphasis is ActivityShimmer,
        emphasis.spec_behaviour() == Some(Behaviour::Fade) <==> emphasis is Fade,
        emphasis.spec_behaviour() == Some(Behaviour::Typewriter) <==> emphasis is Typewriter,
        emphasis.spec_behaviour() == Some(Behaviour::Wipe) <==> emphasis is Wipe,
        emphasis.spec_behaviour() == Some(Behaviour::DropIn) <==> emphasis is DropIn,
        emphasis.spec_behaviour() == Some(Behaviour::Dissolve) <==> emphasis is Dissolve,
        emphasis.spec_behaviour() == Some(Behaviour::Collapse) <==> emphasis is Collapse,
{
}

/// Each emphasis is written with its own word.
pub proof fn law_emphases_have_their_names()
    ensures
        SidebarTokenEmphasis::Calm.spec_name() == "none"@,
        SidebarTokenEmphasis::Pulse.spec_name() == "pulse"@,
        SidebarTokenEmphasis::Shimmer.spec_name() == "shimmer"@,
        SidebarTokenEmphasis::Wave.spec_name() == "wave"@,
        SidebarTokenEmphasis::Activity.spec_name() == "activity"@,
        SidebarTokenEmphasis::ActivityShimmer.spec_name() == "activity-shimmer"@,
        SidebarTokenEmphasis::Fade.spec_name() == "fade"@,
        SidebarTokenEmphasis::Typewriter.spec_name() == "typewriter"@,
        SidebarTokenEmphasis::Wipe.spec_name() == "wipe"@,
        SidebarTokenEmphasis::DropIn.spec_name() == "drop-in"@,
        SidebarTokenEmphasis::Dissolve.spec_name() == "dissolve"@,
        SidebarTokenEmphasis::Collapse.spec_name() == "collapse"@,
        forall|name: Seq<char>| #[trigger]
            SidebarTokenEmphasis::spec_named(name) matches Some(emphasis) ==> emphasis.spec_name()
                == name,
{
}

// ---------------------------------------------------------------------------
// Styles
// ---------------------------------------------------------------------------

/// A flag in a style table sets the attribute of its own name, on or off as it says, and leaves
/// everything else as it was.
pub proof fn law_style_flags_set_their_own(parts: StyleParts, v: ConfigValue, on: bool)
    requires
        v == ConfigValue::Boolean(on),
    ensures
        tokens::style_step(parts, "bold"@, v) == Ok::<StyleParts, Seq<char>>(
            StyleParts { style: SidebarTokenStyle { bold: Some(on), ..parts.style }, ..parts },
        ),
        tokens::style_step(parts, "dim"@, v) == Ok::<StyleParts, Seq<char>>(
            StyleParts { style: SidebarTokenStyle { dim: Some(on), ..parts.style }, ..parts },
        ),
        tokens::style_step(parts, "italic"@, v) == Ok::<StyleParts, Seq<char>>(
            StyleParts { style: SidebarTokenStyle { italic: Some(on), ..parts.style }, ..parts },
        ),
        tokens::style_step(parts, "underline"@, v) == Ok::<StyleParts, Seq<char>>(
            StyleParts { style: SidebarTokenStyle { underline: Some(on), ..parts.style }, ..parts },
        ),
        tokens::style_step(parts, "reverse"@, v) == Ok::<StyleParts, Seq<char>>(
            StyleParts { style: SidebarTokenStyle { reverse: Some(on), ..parts.style }, ..parts },
        ),
        tokens::style_step(parts, "fg"@, v) is Err,
        tokens::style_step(parts, "bg"@, v) is Err,
        tokens::style_step(parts, "token"@, v) is Err,
        tokens::style_step(parts, "emphasis"@, v) is Err,
{
    lemma_style_keys();
}

/// A text in a style table names the token, the colour of the text, the colour behind it, or the
/// emphasis, by its own key; everything else stays as it was, and a text is no flag.
pub proof fn law_style_texts_set_their_own(parts: StyleParts, v: ConfigValue, t: String)
    requires
        v == ConfigValue::Text(t),
    ensures
        tokens::style_step(parts, "token"@, v) == Ok::<StyleParts, Seq<char>>(
            StyleParts { token: Some(t@), ..parts },
        ),
        tokens::spec_color(t@) matches Some(color) ==> tokens::style_step(parts, "fg"@, v) == Ok::<
            StyleParts,
            Seq<char>,
        >(StyleParts { style: SidebarTokenStyle { fg: Some(color), ..parts.style }, ..parts }),
        tokens::spec_color(t@) matches Some(color) ==> tokens::style_step(parts, "bg"@, v) == Ok::<
            StyleParts,
            Seq<char>,
        >(StyleParts { style: SidebarTokenStyle { bg: Some(color), ..parts.style }, ..parts }),
        tokens::spec_color(t@) is None ==> tokens::style_step(parts, "fg"@, v) is Err
            && tokens::style_step(parts, "bg"@, v) is Err,
        SidebarTokenEmphasis::spec_named(t@) matches Some(emphasis) ==> tokens::style_step(
            parts,
            "emphasis"@,
            v,
        ) == Ok::<StyleParts, Seq<char>>(
            StyleParts {
                style: SidebarTokenStyle { emphasis: Some(emphasis), ..parts.style },
                ..parts
            },
        ),
        SidebarTokenEmphasis::spec_named(t@) is None ==> tokens::style_step(parts, "emphasis"@, v)
            is Err,
        tokens::style_step(parts, "bold"@, v) is Err,
        tokens::style_step(parts, "dim"@, v) is Err,
        tokens::style_step(parts, "italic"@, v) is Err,
        tokens::style_step(parts, "underline"@, v) is Err,
        tokens::style_step(parts, "reverse"@, v) is Err,
{
    lemma_style_keys();
}

proof fn lemma_style_keys()
    ensures
        ({
            let keys = seq![
                "token"@,
                "fg"@,
                "bg"@,
                "bold"@,
                "dim"@,
                "italic"@,
                "underline"@,
                "reverse"@,
                "emphasis"@,
            ];
            forall|i: int, j: int| 0 <= i < j < 9 ==> #[trigger] keys[i] != #[trigger] keys[j]
        }),
        "token"@ != "fg"@,
        "token"@ != "bg"@,
        "fg"@ != "bg"@,
        "bold"@ != "token"@ && "bold"@ != "fg"@ && "bold"@ != "bg"@,
        "dim"@ != "token"@ && "dim"@ != "fg"@ && "dim"@ != "bg"@ && "dim"@ != "bold"@,
        "italic"@ != "token"@ && "italic"@ != "fg"@ && "italic"@ != "bg"@ && "italic"@ != "bold"@
            && "italic"@ != "dim"@,
        "underline"@ != "token"@ && "underline"@ != "fg"@ && "underline"@ != "bg"@ && "underline"@
            != "bold"@ && "underline"@ != "dim"@ && "underline"@ != "italic"@,
        "reverse"@ != "token"@ && "reverse"@ != "fg"@ && "reverse"@ != "bg"@ && "reverse"@
            != "bold"@ && "reverse"@ != "dim"@ && "reverse"@ != "italic"@ && "reverse"@
            != "underline"@,
        "emphasis"@ != "token"@ && "emphasis"@ != "fg"@ && "emphasis"@ != "bg"@ && "emphasis"@
            != "bold"@ && "emphasis"@ != "dim"@ && "emphasis"@ != "italic"@ && "emphasis"@
            != "underline"@ && "emphasis"@ != "reverse"@,
{
    reveal_strlit("token");
    reveal_strlit("fg");
    reveal_strlit("bg");
    reveal_strlit("bold");
    reveal_strlit("dim");
    reveal_strlit("italic");
    reveal_strlit("underline");
    reveal_strlit("reverse");
    reveal_strlit("emphasis");
    assert("token"@[0] == 't' && "fg"@[0] == 'f' && "bg"@[0] == 'b' && "bold"@[0] == 'b');
    assert("bg"@.len() == 2 && "bold"@.len() == 4);
    assert("dim"@[0] == 'd' && "italic"@[0] == 'i' && "underline"@[0] == 'u');
    assert("reverse"@[0] == 'r' && "emphasis"@[0] == 'e');
}

/// A style table is read entry by entry, and starts from a style that says nothing. Without the name
/// of a token it is none, and so is anything but a table and a name.
pub proof fn law_style_tables_are_read_in_order(
    entries: Seq<(String, ConfigValue)>,
    entry: (String, ConfigValue),
    list: Vec<(String, ConfigValue)>,
    name: String,
)
    ensures
        tokens::style_entries(entries.push(entry)) == match tokens::style_entries(entries) {
            Ok(parts) => tokens::style_step(parts, entry.0@, entry.1),
            Err(complaint) => Err(complaint),
        },
        ({
            let nothing = tokens::style_entries(Seq::empty());
            &&& nothing is Ok
            &&& nothing->Ok_0.token is None
            &&& nothing->Ok_0.style.fg is None && nothing->Ok_0.style.bg is None
            &&& nothing->Ok_0.style.bold is None && nothing->Ok_0.style.dim is None
            &&& nothing->Ok_0.style.italic is None && nothing->Ok_0.style.underline is None
            &&& nothing->Ok_0.style.reverse is None && nothing->Ok_0.style.emphasis is None
        }),
        ({
            let token = tokens::raw_token(ConfigValue::Table(list));
            let read = tokens::style_entries(list@);
            &&& token is Ok <==> read is Ok && read->Ok_0.token is Some
            &&& token is Ok ==> token->Ok_0.0 == read->Ok_0.token->0 && token->Ok_0.1 == Some(
                read->Ok_0.style,
            )
        }),
        tokens::raw_token(ConfigValue::Text(name)) == Ok::<
            (Seq<char>, Option<SidebarTokenStyle>),
            Seq<char>,
        >((name@, None)),
        forall|v: ConfigValue|
            !(v is Text || v is Table) ==> #[trigger] tokens::raw_token(v) is Err,
{
    assert(entries.push(entry).drop_last() =~= entries);
}

// ---------------------------------------------------------------------------
// Tables of numbers and switches
// ---------------------------------------------------------------------------

/// Each key of the animation's table sets its own part of the animation, and leaves the others.
pub proof fn law_animation_keys_set_their_own(
    config: SidebarAnimationConfig,
    name: String,
    emphasis: SidebarTokenEmphasis,
    n: i64,
)
    requires
        SidebarTokenEmphasis::spec_named(name@) == Some(emphasis),
        n >= 0,
    ensures
        ({
            let text = ConfigValue::Text(name);
            let number = ConfigValue::Integer(n);
            &&& animation::animation_step(config, "row_enter"@, text) == Ok::<
                SidebarAnimationConfig,
                Seq<char>,
            >(SidebarAnimationConfig { row_enter: emphasis, ..config })
            &&& animation::animation_step(config, "row_exit"@, text) == Ok::<
                SidebarAnimationConfig,
                Seq<char>,
            >(SidebarAnimationConfig { row_exit: emphasis, ..config })
            &&& animation::animation_step(config, "view_switch"@, text) == Ok::<
                SidebarAnimationConfig,
                Seq<char>,
            >(SidebarAnimationConfig { view_switch: emphasis, ..config })
            &&& animation::animation_step(config, "row_enter_ms"@, number) == Ok::<
                SidebarAnimationConfig,
                Seq<char>,
            >(SidebarAnimationConfig { row_enter_ms: n as u64, ..config })
            &&& animation::animation_step(config, "row_exit_ms"@, number) == Ok::<
                SidebarAnimationConfig,
                Seq<char>,
            >(SidebarAnimationConfig { row_exit_ms: n as u64, ..config })
            &&& animation::animation_step(config, "view_switch_ms"@, number) == Ok::<
                SidebarAnimationConfig,
                Seq<char>,
            >(SidebarAnimationConfig { view_switch_ms: n as u64, ..config })
            &&& n <= u16::MAX ==> animation::animation_step(
                config,
                "view_switch_particles_per_cell"@,
                number,
            ) == Ok::<SidebarAnimationConfig, Seq<char>>(
                SidebarAnimationConfig { view_switch_particles_per_cell: n as u16, ..config },
            )
            &&& n > u16::MAX ==> animation::animation_step(
                config,
                "view_switch_particles_per_cell"@,
                number,
            ) is Err
        }),
{
    lemma_animation_keys();
}

proof fn lemma_animation_keys()
    ensures
        "row_enter"@.len() == 9 && "row_enter"@[4] == 'e',
        "row_enter_ms"@.len() == 12 && "row_enter_ms"@[0] == 'r',
        "row_exit"@.len() == 8,
        "row_exit_ms"@.len() == 11 && "row_exit_ms"@[0] == 'r',
        "row_motion"@.len() == 10,
        "view_switch"@.len() == 11 && "view_switch"@[0] == 'v',
        "view_switch_ms"@.len() == 14,
        "view_switch_particles_per_cell"@.len() == 30,
{
    reveal_strlit("row_enter");
    reveal_strlit("row_enter_ms");
    reveal_strlit("row_exit");
    reveal_strlit("row_exit_ms");
    reveal_strlit("row_motion");
    reveal_strlit("view_switch");
    reveal_strlit("view_switch_ms");
    reveal_strlit("view_switch_particles_per_cell");
}

/// Rows slide where the table says so and stay where it says so; no other word is taken.
pub proof fn law_motions_have_their_names(config: SidebarAnimationConfig, name: String)
    ensures
        ({
            let step = animation::animation_step(config, "row_motion"@, ConfigValue::Text(name));
            &&& name@ == "slide"@ ==> step == Ok::<SidebarAnimationConfig, Seq<char>>(
                SidebarAnimationConfig { row_motion: SidebarRowMotion::Slide, ..config },
            )
            &&& name@ == "none"@ ==> step == Ok::<SidebarAnimationConfig, Seq<char>>(
                SidebarAnimationConfig { row_motion: SidebarRowMotion::Fixed, ..config },
            )
            &&& name@ != "slide"@ && name@ != "none"@ ==> step is Err
        }),
{
    lemma_animation_keys();
    reveal_strlit("slide");
    reveal_strlit("none");
    assert("slide"@.len() == 5 && "none"@.len() == 4);
}

/// Each key of the bar's table and of the tray's sets its own part, and leaves the others.
pub proof fn law_bar_and_tray_keys_set_their_own(
    bar: SidebarNotificationsConfig,
    tray: SidebarSignalTrayConfig,
    name: String,
    emphasis: SidebarTokenEmphasis,
    n: i64,
    on: bool,
)
    requires
        SidebarTokenEmphasis::spec_named(name@) == Some(emphasis),
        n >= 0,
    ensures
        ({
            let text = ConfigValue::Text(name);
            let number = ConfigValue::Integer(n);
            let flag = ConfigValue::Boolean(on);
            &&& animation::notifications_step(bar, "enabled"@, flag) == Ok::<
                SidebarNotificationsConfig,
                Seq<char>,
            >(SidebarNotificationsConfig { enabled: on, ..bar })
            &&& animation::notifications_step(bar, "emphasis"@, text) == Ok::<
                SidebarNotificationsConfig,
                Seq<char>,
            >(SidebarNotificationsConfig { emphasis, ..bar })
            &&& animation::notifications_step(bar, "enter"@, text) == Ok::<
                SidebarNotificationsConfig,
                Seq<char>,
            >(SidebarNotificationsConfig { enter: emphasis, ..bar })
            &&& animation::notifications_step(bar, "enter_ms"@, number) == Ok::<
                SidebarNotificationsConfig,
                Seq<char>,
            >(SidebarNotificationsConfig { enter_ms: n as u64, ..bar })
            &&& animation::tray_step(tray, "enabled"@, flag) == Ok::<
                SidebarSignalTrayConfig,
                Seq<char>,
            >(SidebarSignalTrayConfig { enabled: on, ..tray })
            &&& animation::tray_step(tray, "actions"@, flag) == Ok::<
                SidebarSignalTrayConfig,
                Seq<char>,
            >(SidebarSignalTrayConfig { actions: on, ..tray })
        }),
{
    reveal_strlit("enabled");
    reveal_strlit("emphasis");
    reveal_strlit("enter");
    reveal_strlit("enter_ms");
    reveal_strlit("actions");
    assert("enabled"@.len() == 7 && "emphasis"@.len() == 8 && "emphasis"@[1] == 'm');
    assert("enter"@.len() == 5 && "enter_ms"@.len() == 8 && "enter_ms"@[1] == 'n');
    assert("actions"@[0] == 'a' && "enabled"@[0] == 'e');
}

/// Tables are read entry by entry from what holds where nothing is said: the bar and the tray are
/// off, a click on the tray may act, rows come and go and stay without motion, and a view dissolves.
pub proof fn law_tables_start_from_their_defaults(
    entries: Seq<(String, ConfigValue)>,
    entry: (String, ConfigValue),
)
    ensures
        animation::animation_entries(entries.push(entry)) == match animation::animation_entries(
            entries,
        ) {
            Ok(config) => animation::animation_step(config, entry.0@, entry.1),
            Err(complaint) => Err(complaint),
        },
        animation::notifications_entries(entries.push(entry))
            == match animation::notifications_entries(entries) {
            Ok(config) => animation::notifications_step(config, entry.0@, entry.1),
            Err(complaint) => Err(complaint),
        },
        animation::tray_entries(entries.push(entry)) == match animation::tray_entries(entries) {
            Ok(config) => animation::tray_step(config, entry.0@, entry.1),
            Err(complaint) => Err(complaint),
        },
        animation::animation_entries(Seq::empty()) == Ok::<SidebarAnimationConfig, Seq<char>>(
            SidebarAnimationConfig {
                row_enter: SidebarTokenEmphasis::Calm,
                row_enter_ms: 320,
                row_exit: SidebarTokenEmphasis::Calm,
                row_exit_ms: 220,
                row_motion: SidebarRowMotion::Fixed,
                view_switch: SidebarTokenEmphasis::Dissolve,
                view_switch_ms: 640,
                view_switch_particles_per_cell: 0,
            },
        ),
        animation::notifications_entries(Seq::empty()) == Ok::<
            SidebarNotificationsConfig,
            Seq<char>,
        >(
            SidebarNotificationsConfig {
                enabled: false,
                emphasis: SidebarTokenEmphasis::Pulse,
                enter: SidebarTokenEmphasis::Fade,
                enter_ms: 220,
            },
        ),
        animation::tray_entries(Seq::empty()) == Ok::<SidebarSignalTrayConfig, Seq<char>>(
            SidebarSignalTrayConfig { enabled: false, actions: true },
        ),
{
    assert(entries.push(entry).drop_last() =~= entries);
}

/// A stage lasts as long as it is told to, as long as that is neither too short nor too long, and
/// then as close to it as it may; it plays the behaviour that it is told to, and there is none
/// without one.
pub proof fn law_stages_last_as_told(emphasis: SidebarTokenEmphasis, ms: u64, moves: bool)
    ensures
        ({
            let stage = animation::bounded_stage(emphasis, ms, 60, 1_500);
            &&& stage is None <==> emphasis is Calm
            &&& stage matches Some(stage) ==> {
                &&& emphasis.spec_behaviour() == Some(stage.behaviour)
                &&& 60 <= ms <= 1_500 ==> stage.duration_ms == ms
                &&& ms < 60 ==> stage.duration_ms == 60
                &&& ms > 1_500 ==> stage.duration_ms == 1_500
            }
        }),
        ({
            let stage = animation::row_stage(emphasis, ms, moves);
            &&& stage is None <==> emphasis is Calm && !moves
            &&& stage matches Some(stage) ==> {
                &&& emphasis is Calm ==> stage.behaviour is Still
                &&& !(emphasis is Calm) ==> emphasis.spec_behaviour() == Some(stage.behaviour)
                &&& 60 <= ms <= 1_500 ==> stage.duration_ms == ms
                &&& ms < 60 ==> stage.duration_ms == 60
                &&& ms > 1_500 ==> stage.duration_ms == 1_500
            }
        }),
{
}

// ---------------------------------------------------------------------------
// Tokens and layouts
// ---------------------------------------------------------------------------

/// A name that the user makes up has one to 32 letters, digits, underscores or hyphens behind a
/// dollar sign; any other character, and any other length, makes it none.
pub proof fn law_made_up_names(name: Seq<char>, c: char)
    ensures
        rows::is_name_char(c) <==> ('a' <= c <= 'z' || 'A' <= c <= 'Z' || '0' <= c <= '9' || c == '_'
            || c == '-'),
        rows::is_custom_name(name) ==> 1 <= name.len() <= 32,
        name.len() == 0 || name.len() > 32 ==> !rows::is_custom_name(name),
        name.contains(c) && !rows::is_name_char(c) ==> !rows::is_custom_name(name),
        1 <= name.len() <= 32 && (forall|i: int|
            0 <= i < name.len() ==> rows::is_name_char(#[trigger] name[i]))
            ==> rows::is_custom_name(name) && rows::is_token_name::<AgentSidebarToken>(
            seq!['$'] + name,
        ) && rows::is_token_name::<SpaceSidebarToken>(seq!['$'] + name),
{
    if name.contains(c) {
        let i = choose|i: int| 0 <= i < name.len() && name[i] == c;
        assert(name[i] == c);
    }
    assert((seq!['$'] + name).skip(1) =~= name);
}

/// The tokens of both panels by their names, and which of them show a title or a time. A styled one
/// is called as the one that it styles.
pub proof fn law_tokens_have_their_names(agent: AgentSidebarToken, space: SpaceSidebarToken)
    ensures
        AgentSidebarToken::StateIcon.spelled() == "state_icon"@,
        AgentSidebarToken::StateText.spelled() == "state_text"@,
        AgentSidebarToken::StateAge.spelled() == "state_age"@,
        AgentSidebarToken::Workspace.spelled() == "workspace"@,
        AgentSidebarToken::Tab.spelled() == "tab"@,
        AgentSidebarToken::Pane.spelled() == "pane"@,
        AgentSidebarToken::Agent.spelled() == "agent"@,
        AgentSidebarToken::TerminalTitle.spelled() == "terminal_title"@,
        AgentSidebarToken::TerminalTitleStripped.spelled() == "terminal_title_stripped"@,
        SpaceSidebarToken::StateIcon.spelled() == "state_icon"@,
        SpaceSidebarToken::StateText.spelled() == "state_text"@,
        SpaceSidebarToken::StateAge.spelled() == "state_age"@,
        SpaceSidebarToken::Workspace.spelled() == "workspace"@,
        SpaceSidebarToken::Branch.spelled() == "branch"@,
        SpaceSidebarToken::GitStatus.spelled() == "git_status"@,
        SpaceSidebarToken::GitDirty.spelled() == "git_dirty"@,
        SpaceSidebarToken::PullRequests.spelled() == "pull_requests"@,
        SpaceSidebarToken::TerminalTitle.spelled() == "terminal_title"@,
        SpaceSidebarToken::TerminalTitleStripped.spelled() == "terminal_title_stripped"@,
        agent.shows_title() <==> agent is TerminalTitle || agent is TerminalTitleStripped,
        agent.shows_age() <==> agent is StateAge,
        space.shows_title() <==> space is TerminalTitle || space is TerminalTitleStripped,
        space.shows_age() <==> space is StateAge,
        agent matches AgentSidebarToken::Styled { token, style } ==> agent.base() == *token
            && agent.own_style() == Some(style) && agent.spelled() == token.spelled(),
        space matches SpaceSidebarToken::Styled { token, style } ==> space.base() == *token
            && space.own_style() == Some(style) && space.spelled() == token.spelled(),
        !(agent is Styled) ==> agent.base() == agent && agent.own_style() is None,
        !(space is Styled) ==> space.base() == space && space.own_style() is None,
{
}

/// The first wrong token of a layout is complained of, row by row and token by token; a layout of
/// right tokens is complained of only for its size: more than 16 rows, or a row of more than 16
/// tokens.
pub proof fn law_the_first_wrong_token_is_complained_of<T: SidebarToken>(
    row: Seq<ConfigValue>,
    token: ConfigValue,
    layout: Seq<ConfigValue>,
    next: ConfigValue,
)
    ensures
        layouts::row_error::<T>(row.push(token)) == match layouts::row_error::<T>(row) {
            Some(complaint) => Some(complaint),
            None => rows::token_error::<T>(token),
        },
        layouts::rows_error::<T>(layout.push(next)) == match layouts::rows_error::<T>(layout) {
            Some(complaint) => Some(complaint),
            None => match next {
                ConfigValue::List(tokens) => layouts::row_error::<T>(tokens@),
                _ => Some(value::wrong_type("a sequence"@)),
            },
        },
        layouts::row_error::<T>(Seq::empty()) is None,
        layouts::rows_error::<T>(Seq::empty()) is None,
{
    assert(row.push(token).drop_last() =~= row);
    assert(layout.push(next).drop_last() =~= layout);
}

/// A layout has at most 16 rows, and a row at most 16 tokens.
pub proof fn law_layouts_are_small<T>(layout: Seq<Vec<T>>, i: int)
    requires
        0 <= i < layout.len(),
    ensures
        layout.len() > 16 ==> layouts::size_complaint(layout) is Some,
        layout[i]@.len() > 16 ==> layouts::size_complaint(layout) is Some,
        layout.len() <= 16 && (forall|k: int|
            0 <= k < layout.len() ==> (#[trigger] layout[k])@.len() <= 16)
            ==> layouts::size_complaint(layout) is None,
{
}

/// Of several entries with one key the last one counts, and entries with other keys do not matter.
pub proof fn law_the_last_entry_counts(
    before: Seq<(String, ConfigValue)>,
    entry: (String, ConfigValue),
    others: Seq<(String, ConfigValue)>,
    key: Seq<char>,
)
    requires
        entry.0@ == key,
        forall|i: int| 0 <= i < others.len() ==> (#[trigger] others[i]).0@ != key,
    ensures
        value::last_value(before.push(entry) + others, key) == Some(entry.1),
        value::last_value(others, key) is None,
    decreases others.len(),
{
    let all = before.push(entry) + others;
    if others.len() == 0 {
        assert(all.last() == entry);
    } else {
        let short = others.drop_last();
        assert(all.last() == others[others.len() - 1]);
        assert(all.drop_last() =~= before.push(entry) + short);
        assert forall|i: int| 0 <= i < short.len() implies (#[trigger] short[i]).0@ != key by {
            assert(short[i] == others[i]);
        }
        law_the_last_entry_counts(before, entry, short, key);
    }
}

/// An agent with rows of its own gets those, and any other agent has none.
pub proof fn law_an_agent_gets_its_own_rows(
    list: Seq<(String, Rows<AgentSidebarToken>)>,
    id: Seq<char>,
    k: int,
)
    requires
        layouts::in_id_order(list),
    ensures
        0 <= k < list.len() && list[k].0@ == id ==> sidebar::agent_place(list, id) == Some(k),
        sidebar::agent_place(list, id) matches Some(at) ==> 0 <= at < list.len() && list[at].0@
            == id,
        (forall|i: int| 0 <= i < list.len() ==> (#[trigger] list[i]).0@ != id)
            ==> sidebar::agent_place(list, id) is None,
{
    lemma_place(list, id);
    if 0 <= k < list.len() && list[k].0@ == id {
        let at = sidebar::agent_place(list, id)->0;
        if at < k {
            text::lemma_lex_irreflexive(id);
            assert(text::lex_before(list[at].0@, list[k].0@));
        } else if k < at {
            text::lemma_lex_irreflexive(id);
            assert(text::lex_before(list[k].0@, list[at].0@));
        }
    }
}

proof fn lemma_place(list: Seq<(String, Rows<AgentSidebarToken>)>, id: Seq<char>)
    ensures
        sidebar::agent_place(list, id) matches Some(at) ==> 0 <= at < list.len() && list[at].0@
            == id,
        sidebar::agent_place(list, id) is None ==> forall|i: int|
            0 <= i < list.len() ==> (#[trigger] list[i]).0@ != id,
    decreases list.len(),
{
    if list.len() > 0 && list[0].0@ != id {
        lemma_place(list.skip(1), id);
        if sidebar::agent_place(list, id) is None {
            assert forall|i: int| 0 <= i < list.len() implies (#[trigger] list[i]).0@ != id by {
                if i > 0 {
                    assert(list[i] == list.skip(1)[i - 1]);
                }
            }
        }
    }
}

/// A layout calls for a title, a clock or an animation where any of its tokens does, and each token
/// adds its own behaviour to those of the row, in order.
pub proof fn law_layouts_call_for_what_their_tokens_do<T: SidebarToken>(
    layout: Seq<Vec<T>>,
    row: Vec<T>,
    tokens_before: Seq<T>,
    token: T,
    i: int,
    j: int,
)
    requires
        0 <= i < layout.len(),
        0 <= j < layout[i]@.len(),
    ensures
        layout[i]@[j].base().shows_title() ==> layouts::shows_title(layout),
        layout[i]@[j].base().shows_age() ==> layouts::shows_age(layout),
        layouts::behaviour_of(layout[i]@[j]) is Some ==> layouts::animates(layout),
        layouts::row_behaviours(tokens_before.push(token)) == layouts::row_behaviours(tokens_before)
            + (match layouts::behaviour_of(token) {
            Some(behaviour) => seq![behaviour],
            None => Seq::empty(),
        }),
        layouts::layout_behaviours(layout.push(row)) == layouts::layout_behaviours(layout)
            + layouts::row_behaviours(row@),
        layouts::row_behaviours(Seq::<T>::empty()).len() == 0,
        layouts::layout_behaviours(Seq::<Vec<T>>::empty()).len() == 0,
        token.own_style() is None ==> layouts::behaviour_of(token) is None,
        token.own_style() matches Some(style) ==> layouts::behaviour_of(token)
            == match style.emphasis {
            Some(emphasis) => emphasis.spec_behaviour(),
            None => None,
        },
{
    assert(tokens_before.push(token).drop_last() =~= tokens_before);
    assert(layout.push(row).drop_last() =~= layout);
}

/// Behaviours are listed in the order in which they first come.
pub proof fn law_behaviours_come_in_order(behaviours: Seq<Behaviour>, b: Behaviour)
    ensures
        behaviours.contains(b) ==> layouts::distinct(behaviours.push(b)) == layouts::distinct(
            behaviours,
        ),
        !behaviours.contains(b) ==> layouts::distinct(behaviours.push(b)) == layouts::distinct(
            behaviours,
        ).push(b),
{
    assert(behaviours.push(b).drop_last() =~= behaviours);
    layouts::law_distinct(behaviours);
}

/// Where nothing is written an agent has its state, workspace and tab in one row and its name below,
/// and a space its state and workspace, with branch and status below.
pub proof fn law_rows_where_nothing_is_written(
    agents: Seq<Vec<AgentSidebarToken>>,
    spaces: Seq<Vec<SpaceSidebarToken>>,
)
    ensures
        sidebar::default_agent_rows(agents) ==> {
            &&& agents.len() == 2
            &&& agents[0]@.len() == 3 && agents[0]@[0] is StateIcon && agents[0]@[1] is Workspace
                && agents[0]@[2] is Tab
            &&& agents[1]@.len() == 1 && agents[1]@[0] is Agent
        },
        sidebar::default_space_rows(spaces) ==> {
            &&& spaces.len() == 2
            &&& spaces[0]@.len() == 2 && spaces[0]@[0] is StateIcon && spaces[0]@[1] is Workspace
            &&& spaces[1]@.len() == 2 && spaces[1]@[0] is Branch && spaces[1]@[1] is GitStatus
        },
{
}

// ---------------------------------------------------------------------------
// Panels
// ---------------------------------------------------------------------------

/// A value is read as what it is: a switch as a switch, a text as a text, and a whole number where
/// it is not negative and small enough. Nothing else is taken.
pub proof fn law_values_are_read_as_they_are(v: ConfigValue, on: bool, n: i64, t: String)
    ensures
        value::spec_boolean(ConfigValue::Boolean(on)) == Ok::<bool, Seq<char>>(on),
        value::spec_text(ConfigValue::Text(t)) == Ok::<Seq<char>, Seq<char>>(t@),
        0 <= n <= 65_535 ==> value::spec_u16(ConfigValue::Integer(n)) is Ok && value::spec_u16(
            ConfigValue::Integer(n),
        )->Ok_0 == n,
        0 <= n ==> value::spec_u64(ConfigValue::Integer(n)) is Ok && value::spec_u64(
            ConfigValue::Integer(n),
        )->Ok_0 == n,
        n < 0 || n > 65_535 ==> value::spec_u16(ConfigValue::Integer(n)) is Err,
        n < 0 ==> value::spec_u64(ConfigValue::Integer(n)) is Err,
        !(v is Boolean) ==> value::spec_boolean(v) is Err,
        !(v is Text) ==> value::spec_text(v) is Err,
        !(v is Integer) ==> value::spec_u16(v) is Err && value::spec_u64(v) is Err,
{
}

/// A layout has its tokens where they were written: as many rows, as many tokens in each, and every
/// token under the name, and with the style, that stands in its place.
pub proof fn law_tokens_stand_where_they_were_written<T: SidebarToken>(
    v: ConfigValue,
    layout: Seq<Vec<T>>,
    i: int,
    j: int,
)
    requires
        layouts::is_layout(v, layout),
        0 <= i < layout.len(),
        0 <= j < layout[i]@.len(),
    ensures
        v matches ConfigValue::List(written) && {
            &&& written@.len() == layout.len()
            &&& written@[i] matches ConfigValue::List(row) && {
                &&& row@.len() == layout[i]@.len()
                &&& row@[j] matches ConfigValue::Text(name) ==> layout[i]@[j].spelled() == name@
                    && layout[i]@[j].own_style() is None && rows::is_token_name::<T>(name@)
                &&& row@[j] matches ConfigValue::Table(entries) ==> {
                    let read = tokens::style_entries(entries@);
                    &&& read is Ok
                    &&& read->Ok_0.token == Some(layout[i]@[j].spelled())
                    &&& layout[i]@[j].own_style() == Some(read->Ok_0.style)
                }
            }
        },
{
    assert(layouts::is_row(layouts::items(v)->0[i], layout[i]@));
    assert(rows::is_token(layouts::items(layouts::items(v)->0[i])->0[j], layout[i]@[j]));
}

proof fn lemma_panel_words()
    ensures
        "rows"@.len() == 4,
        "row_gap"@.len() == 7,
        "rows_by_agent"@.len() == 13,
{
    reveal_strlit("rows");
    reveal_strlit("row_gap");
    reveal_strlit("rows_by_agent");
}

/// The agents' panel is what its table says last: the rows, the gap between them and the rows of
/// single agents each by their own key, without regard to what else the table holds.
pub proof fn law_the_agents_panel_is_what_its_table_says<F, S>(
    before: Seq<(String, ConfigValue)>,
    key: String,
    v: ConfigValue,
    others: Seq<(String, ConfigValue)>,
    config: sidebar::AgentsSidebarConfig<F, S>,
    n: u16,
)
    requires
        sidebar::agents_as_written(before.push((key, v)) + others, config),
        forall|i: int| 0 <= i < others.len() ==> (#[trigger] others[i]).0@ != key@,
    ensures
        key@ == "rows"@ ==> layouts::is_layout(v, config.rows@),
        key@ == "row_gap"@ && v == ConfigValue::Integer(n as i64) ==> config.row_gap == n,
        key@ == "rows_by_agent"@ ==> layouts::is_by_agent(v, config.rows_by_agent@),
{
    lemma_panel_words();
    law_the_last_entry_counts(before, (key, v), others, key@);
}

/// What the agents' table does not speak of is as ever: the ordinary rows, no rows of single agents,
/// and no gap.
pub proof fn law_the_agents_panel_is_otherwise_as_ever<F, S>(
    entries: Seq<(String, ConfigValue)>,
    config: sidebar::AgentsSidebarConfig<F, S>,
)
    requires
        sidebar::agents_as_written(entries, config),
    ensures
        (forall|i: int| 0 <= i < entries.len() ==> (#[trigger] entries[i]).0@ != "rows"@)
            ==> config.rows@.len() == 2 && config.rows@[0]@.len() == 3 && config.rows@[1]@.len()
            == 1 && config.rows@[0]@[0] is StateIcon && config.rows@[0]@[1] is Workspace
            && config.rows@[0]@[2] is Tab && config.rows@[1]@[0] is Agent,
        (forall|i: int| 0 <= i < entries.len() ==> (#[trigger] entries[i]).0@ != "rows_by_agent"@)
            ==> config.rows_by_agent@.len() == 0,
        (forall|i: int| 0 <= i < entries.len() ==> (#[trigger] entries[i]).0@ != "row_gap"@)
            ==> config.row_gap == 0,
{
    lemma_nothing_said(entries, "rows"@);
    lemma_nothing_said(entries, "rows_by_agent"@);
    lemma_nothing_said(entries, "row_gap"@);
}

proof fn lemma_nothing_said(entries: Seq<(String, ConfigValue)>, key: Seq<char>)
    ensures
        (forall|i: int| 0 <= i < entries.len() ==> (#[trigger] entries[i]).0@ != key)
            <==> value::last_value(entries, key) is None,
    decreases entries.len(),
{
    if entries.len() > 0 {
        let short = entries.drop_last();
        lemma_nothing_said(short, key);
        assert(entries.last() == entries[entries.len() - 1]);
        assert forall|i: int| 0 <= i < short.len() implies short[i] == #[trigger] entries[i] by {}
        if (forall|i: int| 0 <= i < short.len() ==> (#[trigger] short[i]).0@ != key)
            && entries.last().0@ != key {
            assert forall|i: int| 0 <= i < entries.len() implies (#[trigger] entries[i]).0@
                != key by {
                if i < short.len() {
                    assert(short[i] == entries[i]);
                }
            }
        }
        if forall|i: int| 0 <= i < entries.len() ==> (#[trigger] entries[i]).0@ != key {
            assert forall|i: int| 0 <= i < short.len() implies (#[trigger] short[i]).0@ != key by {
                assert(short[i] == entries[i]);
            }
        }
    }
}

/// The spaces' panel is what its table says last, and as ever where the table says nothing.
pub proof fn law_the_spaces_panel_is_what_its_table_says(
    before: Seq<(String, ConfigValue)>,
    key: String,
    v: ConfigValue,
    others: Seq<(String, ConfigValue)>,
    config: sidebar::SpacesSidebarConfig,
    plain: sidebar::SpacesSidebarConfig,
    n: u16,
)
    requires
        sidebar::spaces_as_written(before.push((key, v)) + others, config),
        forall|i: int| 0 <= i < others.len() ==> (#[trigger] others[i]).0@ != key@,
        sidebar::spaces_as_written(Seq::empty(), plain),
    ensures
        key@ == "rows"@ ==> layouts::is_layout(v, config.rows@),
        key@ == "row_gap"@ && v == ConfigValue::Integer(n as i64) ==> config.row_gap == n,
        plain.row_gap == 0,
        plain.rows@.len() == 2 && plain.rows@[0]@.len() == 2 && plain.rows@[1]@.len() == 2,
        plain.rows@[0]@[0] is StateIcon && plain.rows@[0]@[1] is Workspace,
        plain.rows@[1]@[0] is Branch && plain.rows@[1]@[1] is GitStatus,
{
    lemma_panel_words();
    law_the_last_entry_counts(before, (key, v), others, key@);
}

/// A single agent has the layout that its table gives it last, and only those agents have one that
/// the table speaks of.
pub proof fn law_single_agents_have_what_was_written(
    before: Seq<(String, ConfigValue)>,
    id: String,
    layout: ConfigValue,
    others: Seq<(String, ConfigValue)>,
    table: Vec<(String, ConfigValue)>,
    list: Seq<(String, Rows<AgentSidebarToken>)>,
    k: int,
)
    requires
        table@ == before.push((id, layout)) + others,
        forall|i: int| 0 <= i < others.len() ==> (#[trigger] others[i]).0@ != id@,
        layouts::is_by_agent(ConfigValue::Table(table), list),
    ensures
        sidebar::agent_place(list, id@) matches Some(at) && 0 <= at < list.len() && list[at].0@
            == id@ && layouts::is_layout(layout, list[at].1@),
        0 <= k < list.len() ==> exists|i: int|
            0 <= i < table@.len() && (#[trigger] table@[i]).0@ == list[k].0@,
{
    law_the_last_entry_counts(before, (id, layout), others, id@);
    assert(value::last_value(table@, id@) == Some(layout));
    let at = choose|at: int| 0 <= at < list.len() && (#[trigger] list[at]).0@ == id@;
    law_an_agent_gets_its_own_rows(list, id@, at);
    if 0 <= k < list.len() {
        lemma_nothing_said(table@, list[k].0@);
        assert(value::last_value(table@, list[k].0@) is Some);
    }
}

/// A table of the agents' panel is either right or refused, never both. It is refused for anything
/// but a table, for a gap that is no small number, and for rows with a wrong token; keys that the
/// panel does not have do not matter.
pub proof fn law_mistakes_in_the_agents_panel_are_refused(
    canonical: Seq<String>,
    v: ConfigValue,
    complaint: Seq<char>,
    key: Seq<char>,
    written: ConfigValue,
)
    ensures
        !(sidebar::agents_accepted(canonical, v) && sidebar::agents_refused(canonical, v, complaint)),
        !(v is Table) ==> !sidebar::agents_accepted(canonical, v),
        !(written is Integer) ==> !sidebar::agents_entry_accepted(canonical, "row_gap"@, written),
        written matches ConfigValue::Integer(n) ==> (sidebar::agents_entry_accepted(
            canonical,
            "row_gap"@,
            written,
        ) <==> 0 <= n <= 65_535),
        !(written is List) ==> !sidebar::agents_entry_accepted(canonical, "rows"@, written),
        written matches ConfigValue::List(list) && list@.len() > 16
            ==> !sidebar::agents_entry_accepted(canonical, "rows"@, written),
        !(written is Table) ==> !sidebar::agents_entry_accepted(
            canonical,
            "rows_by_agent"@,
            written,
        ),
        key != "rows"@ && key != "row_gap"@ && key != "rows_by_agent"@
            ==> sidebar::agents_entry_accepted(canonical, key, written),
{
    lemma_panel_words();
    if sidebar::agents_refused(canonical, v, complaint) && v is Table {
        let entries = v->Table_0@;
        let n = choose|n: int| #[trigger]
            sidebar::agents_refused_at(canonical, entries, n, complaint);
        if sidebar::agents_accepted(canonical, v) {
            assert(sidebar::agents_entry_accepted(canonical, entries[n].0@, entries[n].1));
            lemma_agents_entry(canonical, entries[n].0@, entries[n].1, complaint);
        }
    }
}

proof fn lemma_agents_entry(
    canonical: Seq<String>,
    key: Seq<char>,
    v: ConfigValue,
    complaint: Seq<char>,
)
    ensures
        !(sidebar::agents_entry_accepted(canonical, key, v) && sidebar::agents_entry_refused(
            canonical,
            key,
            v,
            complaint,
        )),
{
    if layouts::by_agent_accepted(canonical, v) && layouts::by_agent_refused(
        canonical,
        v,
        complaint,
    ) {
        let entries = v->Table_0@;
        let id = choose|id: Seq<char>|
            #![trigger value::last_value(entries, id)]
            layouts::first_refused_id(canonical, entries, id, complaint);
        assert(value::last_value(entries, id) is Some);
    }
}

/// An id that no agent has is complained of by its name, and so is a layout that is too large; the
/// complaint is about the first such id.
pub proof fn law_unknown_agents_are_refused(
    canonical: Seq<String>,
    id: Seq<char>,
    v: ConfigValue,
    at: int,
)
    ensures
        0 <= at < canonical.len() && canonical[at]@ == id ==> layouts::agent_complaint(
            canonical,
            id,
            v,
        ) == layouts::written_size_complaint(v),
        (forall|i: int| 0 <= i < canonical.len() ==> (#[trigger] canonical[i])@ != id)
            ==> layouts::agent_complaint(canonical, id, v) == Some(
            "unknown canonical agent id `"@ + id + "` in sidebar rows_by_agent"@,
        ),
        v matches ConfigValue::List(list) && list@.len() > 16 ==> layouts::written_size_complaint(
            v,
        ) is Some,
        v matches ConfigValue::List(list) && list@.len() <= 16 && (forall|i: int|
            0 <= i < list@.len() ==> ((#[trigger] list@[i]) matches ConfigValue::List(row)
                && row@.len() <= 16)) ==> layouts::written_size_complaint(v) is None,
{
}

/// Each key of the sidebar's table is read as the table of its own name, and tables are all that
/// they take.
pub proof fn law_sidebar_keys_have_their_own_tables(
    canonical: Seq<String>,
    v: ConfigValue,
    key: Seq<char>,
)
    ensures
        sidebar::sidebar_entry_accepted(canonical, "agents"@, v) == sidebar::agents_accepted(
            canonical,
            v,
        ),
        !(v is Table) ==> {
            &&& !sidebar::sidebar_entry_accepted(canonical, "agents"@, v)
            &&& !sidebar::sidebar_entry_accepted(canonical, "spaces"@, v)
            &&& !sidebar::sidebar_entry_accepted(canonical, "animation"@, v)
            &&& !sidebar::sidebar_entry_accepted(canonical, "notifications"@, v)
            &&& !sidebar::sidebar_entry_accepted(canonical, "signal_tray"@, v)
            &&& !sidebar::sidebar_accepted(canonical, v)
        },
        v matches ConfigValue::Table(entries) ==> {
            &&& sidebar::sidebar_entry_accepted(canonical, "spaces"@, v) <==> sidebar::spaces_error(
                entries@,
            ) is None
            &&& sidebar::sidebar_entry_accepted(canonical, "animation"@, v)
                <==> animation::animation_entries(entries@) is Ok
            &&& sidebar::sidebar_entry_accepted(canonical, "notifications"@, v)
                <==> animation::notifications_entries(entries@) is Ok
            &&& sidebar::sidebar_entry_accepted(canonical, "signal_tray"@, v)
                <==> animation::tray_entries(entries@) is Ok
        },
        key != "agents"@ && key != "spaces"@ && key != "animation"@ && key != "notifications"@ && key
            != "signal_tray"@ ==> sidebar::sidebar_entry_accepted(canonical, key, v),
{
    lemma_sidebar_words();
}

proof fn lemma_sidebar_words()
    ensures
        "agents"@.len() == 6 && "agents"@[0] == 'a',
        "spaces"@.len() == 6 && "spaces"@[0] == 's',
        "animation"@.len() == 9,
        "notifications"@.len() == 13,
        "signal_tray"@.len() == 11,
{
    reveal_strlit("agents");
    reveal_strlit("spaces");
    reveal_strlit("animation");
    reveal_strlit("notifications");
    reveal_strlit("signal_tray");
}

/// The sidebar is what its table says last, each part by its own key.
pub proof fn law_the_sidebar_is_what_its_table_says<F, S>(
    before: Seq<(String, ConfigValue)>,
    key: String,
    table: Vec<(String, ConfigValue)>,
    others: Seq<(String, ConfigValue)>,
    config: sidebar::SidebarConfig<F, S>,
)
    requires
        sidebar::sidebar_as_written(
            before.push((key, ConfigValue::Table(table))) + others,
            config,
        ),
        forall|i: int| 0 <= i < others.len() ==> (#[trigger] others[i]).0@ != key@,
    ensures
        key@ == "agents"@ ==> sidebar::agents_as_written(table@, config.agents),
        key@ == "spaces"@ ==> sidebar::spaces_as_written(table@, config.spaces),
        key@ == "animation"@ ==> animation::animation_entries(table@) == Ok::<
            SidebarAnimationConfig,
            Seq<char>,
        >(config.animation),
        key@ == "notifications"@ ==> animation::notifications_entries(table@) == Ok::<
            SidebarNotificationsConfig,
            Seq<char>,
        >(config.notifications),
        key@ == "signal_tray"@ ==> animation::tray_entries(table@) == Ok::<
            SidebarSignalTrayConfig,
            Seq<char>,
        >(config.signal_tray),
{
    lemma_sidebar_words();
    law_the_last_entry_counts(before, (key, ConfigValue::Table(table)), others, key@);
}

/// The agents' panel calls for a title, a clock or an animation exactly where a token does, in
/// everybody's rows or in those of a single agent.
pub proof fn law_panels_call_for_what_their_tokens_do<F, S>(
    config: sidebar::AgentsSidebarConfig<F, S>,
    k: int,
    i: int,
    j: int,
)
    ensures
        ({
            let layout = if k < 0 {
                config.rows@
            } else {
                config.rows_by_agent@[k].1@
            };
            k < config.rows_by_agent@.len() && 0 <= i < layout.len() && 0 <= j < layout[i]@.len()
                ==> {
                &&& layout[i]@[j].base().shows_title() ==> config.any_title()
                &&& layout[i]@[j].base().shows_age() ==> config.any_age()
                &&& layouts::behaviour_of(layout[i]@[j]) is Some ==> config.any_animation()
            }
        }),
        config.rows@.len() == 0 && config.rows_by_agent@.len() == 0 ==> !config.any_title()
            && !config.any_age() && !config.any_animation(),
        config.any_title() && !layouts::shows_title(config.rows@) ==> exists|m: int|
            0 <= m < config.rows_by_agent@.len() && layouts::shows_title(
                (#[trigger] config.rows_by_agent@[m]).1@,
            ),
{
    if k >= 0 && k < config.rows_by_agent@.len() {
        let layout = config.rows_by_agent@[k].1@;
        if 0 <= i < layout.len() && 0 <= j < layout[i]@.len() {
            assert(layout[i]@[j].base().shows_title() ==> layouts::shows_title(layout));
            assert(layout[i]@[j].base().shows_age() ==> layouts::shows_age(layout));
            assert(layouts::behaviour_of(layout[i]@[j]) is Some ==> layouts::animates(layout));
        }
    }
}

/// The names that need no dollar sign are those of the tokens that are built in, and no others. A
/// name that is none is complained of as one the user made up where it has the sign, and as unknown
/// where it has not.
pub proof fn law_which_names_are_built_in(name: Seq<char>, rest: Seq<char>)
    ensures
        AgentSidebarToken::is_builtin_name(name) ==> name == AgentSidebarToken::StateIcon.spelled()
            || name == AgentSidebarToken::StateText.spelled() || name
            == AgentSidebarToken::StateAge.spelled() || name
            == AgentSidebarToken::Workspace.spelled() || name == AgentSidebarToken::Tab.spelled()
            || name == AgentSidebarToken::Pane.spelled() || name
            == AgentSidebarToken::Agent.spelled() || name
            == AgentSidebarToken::TerminalTitle.spelled() || name
            == AgentSidebarToken::TerminalTitleStripped.spelled(),
        AgentSidebarToken::is_builtin_name("state_icon"@),
        AgentSidebarToken::is_builtin_name("state_text"@),
        AgentSidebarToken::is_builtin_name("state_age"@),
        AgentSidebarToken::is_builtin_name("workspace"@),
        AgentSidebarToken::is_builtin_name("tab"@),
        AgentSidebarToken::is_builtin_name("pane"@),
        AgentSidebarToken::is_builtin_name("agent"@),
        AgentSidebarToken::is_builtin_name("terminal_title"@),
        AgentSidebarToken::is_builtin_name("terminal_title_stripped"@),
        SpaceSidebarToken::is_builtin_name(name) ==> name == SpaceSidebarToken::StateIcon.spelled()
            || name == SpaceSidebarToken::StateText.spelled() || name
            == SpaceSidebarToken::StateAge.spelled() || name
            == SpaceSidebarToken::Workspace.spelled() || name == SpaceSidebarToken::Branch.spelled()
            || name == SpaceSidebarToken::GitStatus.spelled() || name
            == SpaceSidebarToken::GitDirty.spelled() || name
            == SpaceSidebarToken::PullRequests.spelled() || name
            == SpaceSidebarToken::TerminalTitle.spelled() || name
            == SpaceSidebarToken::TerminalTitleStripped.spelled(),
        SpaceSidebarToken::is_builtin_name("state_icon"@),
        SpaceSidebarToken::is_builtin_name("state_text"@),
        SpaceSidebarToken::is_builtin_name("state_age"@),
        SpaceSidebarToken::is_builtin_name("workspace"@),
        SpaceSidebarToken::is_builtin_name("branch"@),
        SpaceSidebarToken::is_builtin_name("git_status"@),
        SpaceSidebarToken::is_builtin_name("git_dirty"@),
        SpaceSidebarToken::is_builtin_name("pull_requests"@),
        SpaceSidebarToken::is_builtin_name("terminal_title"@),
        SpaceSidebarToken::is_builtin_name("terminal_title_stripped"@),
        rows::token_complaint(seq!['$'] + rest) == "invalid custom sidebar token `"@ + (seq!['$']
            + rest) + "`"@,
        name.len() == 0 || name[0] != '$' ==> rows::token_complaint(name)
            == "unknown sidebar token `"@ + name + "`; custom tokens must start with `$`"@,
{
    assert((seq!['$'] + rest)[0] == '$');
}

/// A value of another type is complained of by what was expected in its place.
pub proof fn law_complaints_say_what_was_expected<T: SidebarToken>(v: ConfigValue)
    ensures
        ({
            let expected = |what: Seq<char>| "invalid type, expected "@ + what;
            &&& !(v is List) ==> layouts::layout_token_error::<T>(v) == Some(
                expected("a sequence"@),
            )
            &&& !(v is Table) ==> {
                &&& animation::spec_notifications(v) is Err
                &&& animation::spec_notifications(v)->Err_0 == expected("a table"@)
                &&& animation::spec_tray(v) is Err
                &&& animation::spec_tray(v)->Err_0 == expected("a table"@)
                &&& animation::spec_animation(v) is Err
                &&& animation::spec_animation(v)->Err_0 == expected("a table"@)
                &&& sidebar::spaces_value_error(v) == Some(expected("a table"@))
            }
            &&& !(v is Boolean) ==> value::spec_boolean(v)->Err_0 == expected("a boolean"@)
            &&& !(v is Text) ==> value::spec_text(v)->Err_0 == expected("a string"@)
            &&& !(v is Integer) ==> value::spec_u16(v)->Err_0 == expected("u16"@)
            &&& !(v is Integer) ==> value::spec_u64(v)->Err_0 == expected("u64"@)
        }),
{
}

} // verus!
