//! Lines on screen that mean that an agent finished what it was asked.
//!
//! The marker is a solid circle in green. The circle alone means nothing: the agent draws it
//! before other prose too.

use crate::detect;
use crate::detect::Agent;
use crate::text;
use crate::text::{
    chars_of, find_char, parse_number, same_text, split_lines, string_of, trim_end, trim_start,
};
use vstd::prelude::*;
use vstd::slice::*;

verus! {

/// The colour that text is drawn in.
#[derive(Debug, Clone, Copy, PartialEq, Eq, Structural)]
pub enum Foreground {
    Plain,
    Basic(u8),
    Indexed(u8),
    Rgb(u8, u8, u8),
}

/// Enough green, and clearly more of it than of red and blue.
pub open spec fn green_enough(rgb: (int, int, int)) -> bool {
    let (r, g, b) = rgb;
    g >= 96 && g >= r + 24 && g >= b + 8
}

pub fn rgb_is_green(r: u8, g: u8, b: u8) -> (green: bool)
    ensures
        green == green_enough((r as int, g as int, b as int)),
{
    g >= 96 && g as u16 >= r as u16 + 24 && g as u16 >= b as u16 + 8
}

/// Grey is no green, however bright: not white, and not yellow either.
pub proof fn law_grey_and_yellow_are_not_green(level: int, b: int)
    ensures
        !green_enough((level, level, b)),
{
}

/// One channel of the colour cube.
pub open spec fn cube_channel(value: int) -> int {
    if value == 0 {
        0
    } else {
        55 + value * 40
    }
}

/// The sixteen basic colours: dark, light grey, grey, bright.
pub open spec fn basic_rgb(index: int) -> (int, int, int) {
    if index == 7 {
        (192, 192, 192)
    } else if index == 8 {
        (128, 128, 128)
    } else {
        let level: int = if index < 8 {
            128
        } else {
            255
        };
        (
            if index % 2 == 1 {
                level
            } else {
                0
            },
            if (index / 2) % 2 == 1 {
                level
            } else {
                0
            },
            if (index / 4) % 2 == 1 {
                level
            } else {
                0
            },
        )
    }
}

/// The colour of an index: the basic ones, a cube of six steps, and a ramp of greys.
pub open spec fn spec_indexed_rgb(index: u8) -> (int, int, int) {
    if index < 16 {
        basic_rgb(index as int)
    } else if index < 232 {
        let cube = index - 16;
        (cube_channel(cube / 36), cube_channel((cube % 36) / 6), cube_channel(cube % 6))
    } else {
        let grey = 8 + (index - 232) * 10;
        (grey, grey, grey)
    }
}

fn channel_of(value: u8) -> (channel: u8)
    requires
        value <= 5,
    ensures
        channel == cube_channel(value as int),
{
    if value == 0 {
        0
    } else {
        55 + value * 40
    }
}

pub fn indexed_rgb(index: u8) -> (rgb: (u8, u8, u8))
    ensures
        (rgb.0 as int, rgb.1 as int, rgb.2 as int) == spec_indexed_rgb(index),
{
    if index < 16 {
        if index == 7 {
            return (192, 192, 192);
        }
        if index == 8 {
            return (128, 128, 128);
        }
        let level: u8 = if index < 8 {
            128
        } else {
            255
        };
        return (
            if index % 2 == 1 {
                level
            } else {
                0
            },
            if (index / 2) % 2 == 1 {
                level
            } else {
                0
            },
            if (index / 4) % 2 == 1 {
                level
            } else {
                0
            },
        );
    }
    if index < 232 {
        let cube: u8 = index - 16;
        return (channel_of(cube / 36), channel_of((cube % 36) / 6), channel_of(cube % 6));
    }
    let grey: u8 = 8 + (index - 232) * 10;
    (grey, grey, grey)
}

impl Foreground {
    pub open spec fn green(self) -> bool {
        match self {
            Foreground::Basic(code) => code == 32 || code == 92,
            Foreground::Indexed(index) => green_enough(spec_indexed_rgb(index)),
            Foreground::Rgb(r, g, b) => green_enough((r as int, g as int, b as int)),
            Foreground::Plain => false,
        }
    }

    pub fn is_green(self) -> (green: bool)
        ensures
            green == self.green(),
    {
        match self {
            Foreground::Basic(code) => code == 32 || code == 92,
            Foreground::Indexed(index) => {
                let (r, g, b): (u8, u8, u8) = indexed_rgb(index);
                rgb_is_green(r, g, b)
            },
            Foreground::Rgb(r, g, b) => rgb_is_green(r, g, b),
            Foreground::Plain => false,
        }
    }
}

// ---------------------------------------------------------------------------
// Colour sequences
// ---------------------------------------------------------------------------

/// The number that a field of a sequence spells; zero where it spells none.
pub open spec fn field_value(field: Seq<char>) -> nat {
    match text::parsed_number(field, 65535) {
        Some(n) => n,
        None => 0,
    }
}

/// The numbers of a sequence's fields, `current` being what was read of the last one. Empty
/// fields are passed over.
pub open spec fn field_values(params: Seq<char>, current: Seq<char>) -> Seq<nat>
    decreases params.len(),
{
    let value = if current.len() > 0 {
        seq![field_value(current)]
    } else {
        seq![]
    };
    if params.len() == 0 {
        value
    } else if params[0] == ';' || params[0] == ':' {
        value + field_values(params.skip(1), Seq::empty())
    } else {
        field_values(params.skip(1), current.push(params[0]))
    }
}

/// The numbers of a sequence; one without any parameters means zero.
pub open spec fn sgr_values(params: Seq<char>) -> Seq<nat> {
    if params.len() == 0 {
        seq![0]
    } else {
        field_values(params, Seq::empty())
    }
}

/// A number as a channel.
pub open spec fn capped(n: nat) -> u8 {
    if n > 255 {
        255
    } else {
        n as u8
    }
}

/// A code that a colour of its own follows: of the text, of what is behind it, or of its
/// underline.
pub open spec fn takes_color(code: nat) -> bool {
    code == 38 || code == 48 || code == 58
}

/// The colour after the numbers from `index` on. Colours of the background and of the underline
/// are passed over with all their numbers.
pub open spec fn applied(values: Seq<nat>, index: int, foreground: Foreground) -> Foreground
    decreases values.len() - index,
{
    if index < 0 || index >= values.len() {
        foreground
    } else {
        let code = values[index];
        if code == 0 || code == 39 {
            applied(values, index + 1, Foreground::Plain)
        } else if 30 <= code <= 37 || 90 <= code <= 97 {
            applied(values, index + 1, Foreground::Basic(code as u8))
        } else if takes_color(code) && index + 4 < values.len() && values[index + 1] == 2 {
            applied(
                values,
                index + 5,
                if code == 38 {
                    Foreground::Rgb(
                        capped(values[index + 2]),
                        capped(values[index + 3]),
                        capped(values[index + 4]),
                    )
                } else {
                    foreground
                },
            )
        } else if takes_color(code) && index + 2 < values.len() && values[index + 1] == 5 {
            applied(
                values,
                index + 3,
                if code == 38 {
                    Foreground::Indexed(capped(values[index + 2]))
                } else {
                    foreground
                },
            )
        } else {
            applied(values, index + 1, foreground)
        }
    }
}

/// No background and no underline changes the colour of the text.
pub proof fn law_other_colors_leave_the_text(
    code: nat,
    index: nat,
    r: nat,
    g: nat,
    b: nat,
    foreground: Foreground,
)
    requires
        code == 48 || code == 58,
    ensures
        applied(seq![code, 5, index], 0, foreground) == foreground,
        applied(seq![code, 2, r, g, b], 0, foreground) == foreground,
{
    reveal_with_fuel(applied, 2);
}

fn read_values(params: &[char]) -> (values: Vec<u64>)
    ensures
        values@.map_values(|v: u64| v as nat) == sgr_values(params@),
        forall|i: int| 0 <= i < values@.len() ==> #[trigger] values@[i] <= 65535,
{
    let mut values: Vec<u64> = Vec::new();
    if params.len() == 0 {
        values.push(0);
        assert(values@.map_values(|v: u64| v as nat) =~= seq![0nat]);
        return values;
    }
    let mut start: usize = 0;
    let mut i: usize = 0;
    assert(params@.skip(0) =~= params@);
    assert(params@.subrange(0, 0) =~= Seq::empty());
    assert(values@.map_values(|v: u64| v as nat) =~= seq![]);
    assert(seq![] + field_values(params@, Seq::empty()) =~= field_values(params@, Seq::empty()));
    while i < params.len()
        invariant
            start <= i <= params@.len(),
            forall|k: int| 0 <= k < values@.len() ==> #[trigger] values@[k] <= 65535,
            field_values(params@, Seq::empty()) == values@.map_values(|v: u64| v as nat)
                + field_values(params@.skip(i as int), params@.subrange(start as int, i as int)),
        decreases params@.len() - i,
    {
        let c = params[i];
        proof {
            assert(params@.skip(i as int)[0] == c);
            assert(params@.skip(i as int).skip(1) =~= params@.skip(i + 1));
            assert(params@.subrange(start as int, i as int).push(c) =~= params@.subrange(
                start as int,
                i + 1,
            ));
        }
        if c == ';' || c == ':' {
            push_field(&mut values, slice_subrange(params, start, i));
            start = i + 1;
            assert(params@.subrange(start as int, i + 1) =~= Seq::empty());
        }
        i += 1;
        proof {
            assert(field_values(params@, Seq::empty()) =~= values@.map_values(|v: u64| v as nat)
                + field_values(params@.skip(i as int), params@.subrange(start as int, i as int)));
        }
    }
    push_field(&mut values, slice_subrange(params, start, i));
    proof {
        assert(params@.skip(i as int) =~= Seq::empty());
        assert(field_values(params@, Seq::empty()) =~= values@.map_values(|v: u64| v as nat));
    }
    values
}

fn push_field(values: &mut Vec<u64>, field: &[char])
    requires
        forall|k: int| 0 <= k < old(values)@.len() ==> #[trigger] old(values)@[k] <= 65535,
    ensures
        forall|k: int| 0 <= k < final(values)@.len() ==> #[trigger] final(values)@[k] <= 65535,
        final(values)@.map_values(|v: u64| v as nat) == old(values)@.map_values(|v: u64| v as nat)
            + (if field@.len() > 0 {
            seq![field_value(field@)]
        } else {
            seq![]
        }),
{
    let ghost before = values@.map_values(|v: u64| v as nat);
    if field.len() > 0 {
        let value: u64 = match parse_number(field, 65535) {
            Some(n) => n,
            None => 0,
        };
        values.push(value);
        assert(values@.map_values(|v: u64| v as nat) =~= before.push(value as nat));
    }
    assert(values@.map_values(|v: u64| v as nat) =~= before + (if field@.len() > 0 {
        seq![field_value(field@)]
    } else {
        seq![]
    }));
}

fn cap(n: u64) -> (channel: u8)
    ensures
        channel == capped(n as nat),
{
    if n > 255 {
        255
    } else {
        n as u8
    }
}

/// The colour after a sequence with these parameters.
pub fn apply_sgr(params: &[char], foreground: Foreground) -> (after: Foreground)
    ensures
        after == applied(sgr_values(params@), 0, foreground),
{
    let values = read_values(params);
    let ghost all = sgr_values(params@);
    let mut current = foreground;
    let mut index: usize = 0;
    while index < values.len()
        invariant
            index <= values@.len(),
            all == values@.map_values(|v: u64| v as nat),
            forall|i: int| 0 <= i < values@.len() ==> #[trigger] values@[i] <= 65535,
            applied(all, 0, foreground) == applied(all, index as int, current),
        decreases values@.len() - index,
    {
        let code: u64 = values[index];
        assert(all[index as int] == code);
        let left: usize = values.len() - index;
        if code == 0 || code == 39 {
            current = Foreground::Plain;
            index += 1;
        } else if (30 <= code && code <= 37) || (90 <= code && code <= 97) {
            current = Foreground::Basic(code as u8);
            index += 1;
        } else if (code == 38 || code == 48 || code == 58) && left > 4 && values[index + 1] == 2 {
            assert(all[index + 1] == values@[index + 1] as nat);
            if code == 38 {
                current = Foreground::Rgb(
                    cap(values[index + 2]),
                    cap(values[index + 3]),
                    cap(values[index + 4]),
                );
            }
            index += 5;
        } else if (code == 38 || code == 48 || code == 58) && left > 2 && values[index + 1] == 5 {
            assert(all[index + 1] == values@[index + 1] as nat);
            if code == 38 {
                current = Foreground::Indexed(cap(values[index + 2]));
            }
            index += 3;
        } else {
            assert(left > 1 ==> all[index + 1] == values@[index + 1] as nat);
            index += 1;
        }
    }
    current
}

// ---------------------------------------------------------------------------
// A line
// ---------------------------------------------------------------------------

/// The state of reading a line: the colour, and whether the first thing drawn was a green circle.
pub ghost struct LineScan {
    pub foreground: Foreground,
    pub leading: Option<bool>,
}

/// The state after the rest of a line. A sequence that does not end makes the rest unreadable.
pub open spec fn scanned(rest: Seq<char>, scan: LineScan) -> LineScan
    decreases rest.len(),
{
    if rest.len() == 0 {
        scan
    } else if rest.len() >= 2 && rest[0] == '\u{1b}' && rest[1] == '[' {
        let after = rest.skip(2);
        let end = text::index_of_char(after, 'm');
        if 0 <= end < after.len() {
            scanned(
                after.skip(end + 1),
                LineScan {
                    foreground: applied(sgr_values(after.take(end)), 0, scan.foreground),
                    ..scan
                },
            )
        } else {
            scan
        }
    } else {
        scanned(
            rest.skip(1),
            if scan.leading is None && !text::is_white_space(rest[0]) {
                LineScan {
                    leading: Some(rest[0] == '\u{25CF}' && scan.foreground.green()),
                    ..scan
                }
            } else {
                scan
            },
        )
    }
}

/// Whether a line starts with a green circle, and the colour after it.
pub fn leading_circle_is_green(line: &[char], foreground: &mut Foreground) -> (green: bool)
    ensures
        ({
            let scan = scanned(line@, LineScan { foreground: *old(foreground), leading: None });
            &&& *final(foreground) == scan.foreground
            &&& green == (scan.leading == Some(true))
        }),
{
    let ghost whole = scanned(line@, LineScan { foreground: *old(foreground), leading: None });
    let mut leading: Option<bool> = None;
    let mut at: usize = 0;
    assert(line@.skip(0) =~= line@);
    while at < line.len()
        invariant
            at <= line@.len(),
            whole == scanned(
                line@.skip(at as int),
                LineScan { foreground: *foreground, leading },
            ),
        ensures
            whole.foreground == *foreground,
            whole.leading == leading,
        decreases line@.len() - at,
    {
        let rest = slice_subrange(line, at, line.len());
        assert(rest@ =~= line@.skip(at as int));
        if rest.len() >= 2 && rest[0] == '\u{1b}' && rest[1] == '[' {
            let after = slice_subrange(rest, 2, rest.len());
            assert(after@ =~= rest@.skip(2));
            let end: usize = find_char(after, 'm');
            if end >= after.len() {
                break;
            }
            let params = slice_subrange(after, 0, end);
            assert(params@ =~= after@.take(end as int));
            *foreground = apply_sgr(params, *foreground);
            at = at + 2 + end + 1;
            assert(line@.skip(at as int) =~= after@.skip(end + 1));
        } else {
            let c = rest[0];
            if leading.is_none() && !text::char_is_white_space(c) {
                leading = Some(c == '\u{25CF}' && foreground.is_green());
            }
            at += 1;
            assert(line@.skip(at as int) =~= rest@.skip(1));
        }
    }
    match leading {
        Some(green) => green,
        None => false,
    }
}

/// The colour at the start of each line, after `count` lines.
pub open spec fn color_after(lines: Seq<Seq<char>>, count: nat) -> Foreground
    decreases count,
{
    if count == 0 {
        Foreground::Plain
    } else {
        let before = color_after(lines, (count - 1) as nat);
        scanned(lines[count - 1], LineScan { foreground: before, leading: None }).foreground
    }
}

/// Whether a line of the drawn screen starts with a green circle; colours carry over from line
/// to line.
pub open spec fn line_is_green(lines: Seq<Seq<char>>, index: int) -> bool {
    scanned(
        lines[index],
        LineScan { foreground: color_after(lines, index as nat), leading: None },
    ).leading == Some(true)
}

/// A line whose first character is a circle.
pub open spec fn starts_with_circle(line: Seq<char>) -> bool {
    text::trimmed_start(line).len() > 0 && text::trimmed_start(line)[0] == '\u{25CF}'
}

/// The markers among the first `count` lines, inside the transcript: lines that start with a
/// circle, on a screen whose drawing has that circle in green.
pub open spec fn successes_among(
    plain: Seq<Seq<char>>,
    drawn: Seq<Seq<char>>,
    transcript: Option<(usize, usize)>,
    count: nat,
) -> Seq<Seq<char>>
    decreases count,
{
    if count == 0 {
        seq![]
    } else {
        let index = count - 1;
        let earlier = successes_among(plain, drawn, transcript, index as nat);
        if index < plain.len() && index < drawn.len() && detect::in_transcript(transcript, index)
            && starts_with_circle(plain[index]) && line_is_green(drawn, index) {
            earlier.push(text::trimmed_end(plain[index]))
        } else {
            earlier
        }
    }
}

pub open spec fn spec_success_markers(
    agent: Option<Agent>,
    screen: Seq<char>,
    ansi_screen: Seq<char>,
    transcript: Option<(usize, usize)>,
) -> Seq<Seq<char>> {
    if agent == Some(Agent::Claude) {
        let plain = text::lines_of(screen);
        successes_among(plain, text::lines_of(ansi_screen), transcript, plain.len())
    } else {
        seq![]
    }
}

/// Every line of the transcript that starts with a green circle. `screen` is the plain text and
/// `ansi_screen` the same with its colour sequences.
pub fn success_markers(
    agent: Option<Agent>,
    screen: &str,
    ansi_screen: &str,
    transcript: Option<(usize, usize)>,
) -> (markers: Vec<String>)
    ensures
        text::texts(markers@) == spec_success_markers(agent, screen@, ansi_screen@, transcript),
{
    let mut markers: Vec<String> = Vec::new();
    assert(text::texts(markers@) =~= seq![]);
    let claude = match agent {
        Some(agent) => agent == Agent::Claude,
        None => false,
    };
    if !claude {
        return markers;
    }
    let screen_chars = chars_of(screen);
    let drawn_chars = chars_of(ansi_screen);
    let plain = split_lines(screen_chars.as_slice());
    let drawn = split_lines(drawn_chars.as_slice());
    let ghost plain_lines = text::lines_of(screen@);
    let ghost drawn_lines = text::lines_of(ansi_screen@);
    let mut foreground = Foreground::Plain;
    let mut i: usize = 0;
    while i < plain.len()
        invariant
            i <= plain@.len(),
            plain_lines == text::char_lists(plain@),
            drawn_lines == text::char_lists(drawn@),
            i <= drawn@.len() ==> foreground == color_after(drawn_lines, i as nat),
            text::texts(markers@) == successes_among(plain_lines, drawn_lines, transcript, i as nat),
        decreases plain@.len() - i,
    {
        let ghost before = text::texts(markers@);
        if i < drawn.len() {
            assert(drawn_lines[i as int] == drawn@[i as int]@);
            let green = leading_circle_is_green(drawn[i].as_slice(), &mut foreground);
            let inside = match transcript {
                Some((start, end)) => start <= i && i < end,
                None => true,
            };
            let line = plain[i].as_slice();
            assert(plain_lines[i as int] == line@);
            let bare = trim_start(line);
            if inside && green && bare.len() > 0 && bare[0] == '\u{25CF}' {
                let marker = string_of(trim_end(line));
                markers.push(marker);
                assert(text::texts(markers@) =~= before.push(text::trimmed_end(line@)));
            }
        }
        i += 1;
    }
    markers
}

// ---------------------------------------------------------------------------
// What is new since the last scan
// ---------------------------------------------------------------------------

/// The markers of a scan, repetitions included.
pub open spec fn marker_bag(markers: Seq<String>) -> vstd::multiset::Multiset<Seq<char>> {
    text::texts(markers).to_multiset()
}

fn find_marker(list: &Vec<String>, wanted: &str) -> (at: Option<usize>)
    ensures
        match at {
            Some(i) => i < list@.len() && list@[i as int]@ == wanted@,
            None => !text::texts(list@).contains(wanted@),
        },
{
    let mut i: usize = 0;
    while i < list.len()
        invariant
            i <= list@.len(),
            forall|j: int| 0 <= j < i ==> (#[trigger] list@[j])@ != wanted@,
        decreases list@.len() - i,
    {
        if same_text(list[i].as_str(), wanted) {
            return Some(i);
        }
        i += 1;
    }
    assert(!text::texts(list@).contains(wanted@)) by {
        if text::texts(list@).contains(wanted@) {
            let k = choose|k: int|
                0 <= k < text::texts(list@).len() && text::texts(list@)[k] == wanted@;
            assert(list@[k]@ == wanted@);
        }
    }
    None
}

/// Counts the markers that were not there before, each repetition for itself. The first scan only
/// learns what is there.
pub fn diff_new_success_markers(
    markers: Vec<String>,
    acknowledged: &mut Option<Vec<String>>,
) -> (fresh: usize)
    ensures
        fresh == match *old(acknowledged) {
            Some(previous) => marker_bag(markers@).sub(marker_bag(previous@)).len(),
            None => 0,
        },
        *final(acknowledged) == Some(markers),
{
    let mut fresh: usize = 0;
    if let Some(previous) = acknowledged.take() {
        let ghost known = marker_bag(previous@);
        let ghost all = text::texts(markers@);
        let mut remaining = previous;
        let mut i: usize = 0;
        proof {
            vstd::seq_lib::to_multiset_len(all.take(0));
            assert(all.take(0).to_multiset() =~= vstd::multiset::Multiset::empty());
            assert(known.sub(vstd::multiset::Multiset::empty()) =~= known);
            assert(vstd::multiset::Multiset::empty().sub(known)
                =~= vstd::multiset::Multiset::<Seq<char>>::empty());
        }
        while i < markers.len()
            invariant
                i <= markers@.len(),
                fresh <= i,
                all == text::texts(markers@),
                marker_bag(remaining@) == known.sub(all.take(i as int).to_multiset()),
                fresh == all.take(i as int).to_multiset().sub(known).len(),
            decreases markers@.len() - i,
        {
            let ghost seen = all.take(i as int).to_multiset();
            let ghost marker = all[i as int];
            let ghost left = text::texts(remaining@);
            proof {
                assert(all.take(i + 1) =~= all.take(i as int).push(marker));
                all.take(i as int).to_multiset_ensures();
                left.to_multiset_ensures();
                assert(all.take(i + 1).to_multiset() =~= seen.insert(marker));
            }
            match find_marker(&remaining, markers[i].as_str()) {
                Some(at) => {
                    let ghost before = remaining@;
                    remaining.remove(at);
                    proof {
                        assert(text::texts(remaining@) =~= left.remove(at as int));
                        assert(left[at as int] == marker);
                        assert(left.contains(marker));
                        assert(left.to_multiset().count(marker) > 0);
                        assert(marker_bag(remaining@) =~= known.sub(
                            seen.insert(marker),
                        ));
                        assert(seen.insert(marker).sub(known)
                            =~= seen.sub(known));
                    }
                },
                None => {
                    proof {
                        assert(left.to_multiset().count(marker) == 0);
                        assert(known.sub(seen.insert(marker))
                            =~= known.sub(seen));
                        assert(seen.insert(marker).sub(known)
                            =~= seen.sub(known).insert(marker));
                    }
                    fresh += 1;
                },
            }
            i += 1;
        }
        assert(all.take(i as int) =~= all);
    }
    *acknowledged = Some(markers);
    fresh
}

/// A screen that did not change brings no success; one more of the same text brings one.
pub proof fn law_repeated_success_counts(
    known: vstd::multiset::Multiset<Seq<char>>,
    line: Seq<char>,
)
    ensures
        known.sub(known).len() == 0,
        known.insert(line).sub(known).len() == 1,
{
    assert(known.sub(known) =~= vstd::multiset::Multiset::empty());
    assert(known.insert(line).sub(known) =~= vstd::multiset::Multiset::singleton(line));
}

/// The colours of the indices: sixteen basic ones, whose three lowest bits are red, green and blue,
/// dark below eight and bright above, but for two greys; then a cube with six steps each way; and
/// then a ramp of greys.
pub proof fn law_indices_are_colors(index: u8, r: int, g: int, b: int, step: int)
    requires
        0 <= r < 6,
        0 <= g < 6,
        0 <= b < 6,
        0 <= step < 24,
    ensures
        spec_indexed_rgb((16 + 36 * r + 6 * g + b) as u8) == (
            if r == 0 {
                0int
            } else {
                95 + 40 * (r - 1)
            },
            if g == 0 {
                0int
            } else {
                95 + 40 * (g - 1)
            },
            if b == 0 {
                0int
            } else {
                95 + 40 * (b - 1)
            },
        ),
        spec_indexed_rgb((232 + step) as u8) == (8 + 10 * step, 8 + 10 * step, 8 + 10 * step),
        index < 16 && index != 7 && index != 8 ==> {
            let (red, green, blue) = spec_indexed_rgb(index);
            let full: int = if index < 8 {
                128
            } else {
                255
            };
            &&& red == 0 || red == full
            &&& green == 0 || green == full
            &&& blue == 0 || blue == full
            &&& red > 0 <==> index % 2 == 1
            &&& green > 0 <==> index % 4 >= 2
            &&& blue > 0 <==> index % 8 >= 4
        },
        spec_indexed_rgb(7) == (192int, 192int, 192int),
        spec_indexed_rgb(8) == (128int, 128int, 128int),
{
    let n = 36 * r + 6 * g + b;
    assert(n / 36 == r && n % 36 == 6 * g + b && (n % 36) / 6 == g && n % 6 == b);
}

/// What is green: of the basic codes the two of that name, and of all colours those with enough
/// green in them and clearly more of it than of the others.
pub proof fn law_what_is_green(code: u8, index: u8, r: u8, g: u8, b: u8)
    ensures
        Foreground::Basic(code).green() <==> code == 32 || code == 92,
        !Foreground::Plain.green(),
        Foreground::Indexed(index).green() <==> {
            let (red, green, blue) = spec_indexed_rgb(index);
            green >= 96 && green - red >= 24 && green - blue >= 8
        },
        Foreground::Rgb(r, g, b).green() <==> g >= 96 && g - r >= 24 && g - b >= 8,
{
}

/// Numbers that are written with semicolons between them are read one by one; no number at all means
/// zero.
pub proof fn law_numbers_are_read_one_by_one(n: nat, colon: bool, rest: Seq<char>)
    requires
        n <= 65535,
    ensures
        sgr_values(Seq::empty()) == seq![0nat],
        sgr_values(text::decimal_text(n)) == seq![n],
        ({
            let separator = if colon {
                ':'
            } else {
                ';'
            };
            field_values(text::decimal_text(n) + seq![separator] + rest, Seq::empty()) == seq![n]
                + field_values(rest, Seq::empty())
        }),
{
    let digits = text::decimal_text(n);
    let separator = if colon {
        ':'
    } else {
        ';'
    };
    text::law_number_round_trip(n, 65535);
    lemma_field(digits, Seq::empty(), seq![]);
    lemma_field(digits, Seq::empty(), seq![separator] + rest);
    assert(digits + seq![] =~= digits);
    assert(Seq::<char>::empty() + digits =~= digits);
    assert(digits + seq![separator] + rest =~= digits + (seq![separator] + rest));
    assert((seq![separator] + rest).skip(1) =~= rest);
}

proof fn lemma_field(digits: Seq<char>, current: Seq<char>, rest: Seq<char>)
    requires
        text::are_digits(digits),
    ensures
        field_values(digits + rest, current) == field_values(rest, current + digits),
    decreases digits.len(),
{
    if digits.len() == 0 {
        assert(digits + rest =~= rest);
        assert(current + digits =~= current);
    } else {
        let whole = digits + rest;
        assert('0' <= digits[0] <= '9');
        assert(whole[0] == digits[0]);
        assert(whole.skip(1) =~= digits.skip(1) + rest);
        assert forall|i: int| 0 <= i < digits.skip(1).len() implies '0' <= #[trigger] digits.skip(
            1,
        )[i] <= '9' by {
            assert(digits.skip(1)[i] == digits[i + 1]);
        }
        lemma_field(digits.skip(1), current.push(digits[0]), rest);
        assert(current.push(digits[0]) + digits.skip(1) =~= current + digits);
    }
}

proof fn lemma_applied_shift(head: Seq<nat>, rest: Seq<nat>, index: int, foreground: Foreground)
    requires
        0 <= index,
    ensures
        applied(head + rest, head.len() + index, foreground) == applied(rest, index, foreground),
    decreases rest.len() - index,
{
    let whole = head + rest;
    if index < rest.len() {
        assert(whole[head.len() + index] == rest[index]);
        if index + 1 < rest.len() {
            assert(whole[head.len() + index + 1] == rest[index + 1]);
        }
        if index + 2 < rest.len() {
            assert(whole[head.len() + index + 2] == rest[index + 2]);
        }
        if index + 4 < rest.len() {
            assert(whole[head.len() + index + 3] == rest[index + 3]);
            assert(whole[head.len() + index + 4] == rest[index + 4]);
        }
        let f = foreground;
        let code = rest[index];
        if code == 0 || code == 39 {
            lemma_applied_shift(head, rest, index + 1, Foreground::Plain);
        } else if 30 <= code <= 37 || 90 <= code <= 97 {
            lemma_applied_shift(head, rest, index + 1, Foreground::Basic(code as u8));
        } else if takes_color(code) && index + 4 < rest.len() && rest[index + 1] == 2 {
            lemma_applied_shift(
                head,
                rest,
                index + 5,
                if code == 38 {
                    Foreground::Rgb(
                        capped(rest[index + 2]),
                        capped(rest[index + 3]),
                        capped(rest[index + 4]),
                    )
                } else {
                    f
                },
            );
        } else if takes_color(code) && index + 2 < rest.len() && rest[index + 1] == 5 {
            lemma_applied_shift(
                head,
                rest,
                index + 3,
                if code == 38 {
                    Foreground::Indexed(capped(rest[index + 2]))
                } else {
                    f
                },
            );
        } else {
            lemma_applied_shift(head, rest, index + 1, f);
        }
    }
}

/// What each code does to the colour of the text, whatever follows: a basic code, an index or three
/// channels set it, a reset takes it away, the colours of the background and of the underline leave
/// it, and so do all other codes.
pub proof fn law_codes_set_the_color(
    code: nat,
    index: u8,
    r: u8,
    g: u8,
    b: u8,
    rest: Seq<nat>,
    foreground: Foreground,
)
    ensures
        code == 0 || code == 39 ==> applied(seq![code] + rest, 0, foreground) == applied(
            rest,
            0,
            Foreground::Plain,
        ),
        30 <= code <= 37 || 90 <= code <= 97 ==> applied(seq![code] + rest, 0, foreground)
            == applied(rest, 0, Foreground::Basic(code as u8)),
        applied(seq![38nat, 5, index as nat] + rest, 0, foreground) == applied(
            rest,
            0,
            Foreground::Indexed(index),
        ),
        applied(seq![38nat, 2, r as nat, g as nat, b as nat] + rest, 0, foreground) == applied(
            rest,
            0,
            Foreground::Rgb(r, g, b),
        ),
        code == 48 || code == 58 ==> applied(seq![code, 5, index as nat] + rest, 0, foreground)
            == applied(rest, 0, foreground) && applied(
            seq![code, 2, r as nat, g as nat, b as nat] + rest,
            0,
            foreground,
        ) == applied(rest, 0, foreground),
        !(code == 0 || code == 38 || code == 39 || code == 48 || code == 58 || 30 <= code <= 37
            || 90 <= code <= 97) ==> applied(seq![code] + rest, 0, foreground) == applied(
            rest,
            0,
            foreground,
        ),
        applied(Seq::empty(), 0, foreground) == foreground,
{
    let one = seq![code];
    assert((one + rest)[0] == code);
    lemma_applied_shift(one, rest, 0, Foreground::Plain);
    lemma_applied_shift(one, rest, 0, Foreground::Basic(code as u8));
    lemma_applied_shift(one, rest, 0, foreground);
    let indexed = seq![38nat, 5, index as nat];
    let whole = indexed + rest;
    assert(whole[0] == 38 && whole[1] == 5 && whole[2] == index as nat);
    lemma_applied_shift(indexed, rest, 0, Foreground::Indexed(index));
    let channels = seq![38nat, 2, r as nat, g as nat, b as nat];
    let whole = channels + rest;
    assert(whole[0] == 38 && whole[1] == 2 && whole[2] == r as nat && whole[3] == g as nat
        && whole[4] == b as nat);
    lemma_applied_shift(channels, rest, 0, Foreground::Rgb(r, g, b));
    if code == 48 || code == 58 {
        let indexed = seq![code, 5, index as nat];
        let whole = indexed + rest;
        assert(whole[0] == code && whole[1] == 5 && whole[2] == index as nat);
        lemma_applied_shift(indexed, rest, 0, foreground);
        let channels = seq![code, 2, r as nat, g as nat, b as nat];
        let whole = channels + rest;
        assert(whole[0] == code && whole[1] == 2 && whole[2] == r as nat && whole[3] == g as nat
            && whole[4] == b as nat);
        lemma_applied_shift(channels, rest, 0, foreground);
    }
}

/// A sequence changes the colour of what follows it and draws nothing; the first thing that is drawn
/// decides whether a line starts with a green circle, by its own look and the colour at that moment,
/// and nothing behind it does; blanks draw nothing.
pub proof fn law_the_first_thing_drawn_decides(
    params: Seq<char>,
    c: char,
    rest: Seq<char>,
    scan: LineScan,
)
    requires
        !params.contains('m'),
        c != '\u{1b}',
    ensures
        scanned(seq!['\u{1b}', '['] + params + seq!['m'] + rest, scan) == scanned(
            rest,
            LineScan { foreground: applied(sgr_values(params), 0, scan.foreground), ..scan },
        ),
        scan.leading is Some ==> scanned(rest, scan).leading == scan.leading,
        text::is_white_space(c) ==> scanned(seq![c] + rest, scan) == scanned(rest, scan),
        !text::is_white_space(c) && scan.leading is None ==> scanned(seq![c] + rest, scan).leading
            == Some(c == '\u{25CF}' && scan.foreground.green()),
        scanned(Seq::empty(), scan) == scan,
{
    let sequence = seq!['\u{1b}', '['] + params + seq!['m'] + rest;
    let after = params + (seq!['m'] + rest);
    assert(sequence.skip(2) =~= after);
    assert forall|i: int| 0 <= i < params.len() implies params[i] != 'm' by {
        assert(params.contains(params[i]));
    }
    text::lemma_index_past(params, seq!['m'] + rest, 'm');
    assert(after.take(params.len() as int) =~= params);
    assert(after.skip(params.len() as int + 1) =~= rest);
    assert(sequence[0] == '\u{1b}' && sequence[1] == '[');
    lemma_leading_stays(rest, scan);
    let drawn = seq![c] + rest;
    assert(drawn.skip(1) =~= rest);
    assert(drawn[0] == c);
    if !text::is_white_space(c) && scan.leading is None {
        lemma_leading_stays(
            rest,
            LineScan { leading: Some(c == '\u{25CF}' && scan.foreground.green()), ..scan },
        );
    }
}

proof fn lemma_leading_stays(rest: Seq<char>, scan: LineScan)
    ensures
        scan.leading is Some ==> scanned(rest, scan).leading == scan.leading,
    decreases rest.len(),
{
    if rest.len() > 0 {
        if rest.len() >= 2 && rest[0] == '\u{1b}' && rest[1] == '[' {
            let after = rest.skip(2);
            let end = text::index_of_char(after, 'm');
            if 0 <= end < after.len() {
                lemma_leading_stays(
                    after.skip(end + 1),
                    LineScan {
                        foreground: applied(sgr_values(after.take(end)), 0, scan.foreground),
                        ..scan
                    },
                );
            }
        } else {
            lemma_leading_stays(rest.skip(1), scan);
        }
    }
}

/// The successes of a screen are the lines of the transcript that start with a circle which is drawn
/// in green, without the white space at their ends, in their order; colours carry over from one line
/// to the next, and the first line starts without one. Only one agent draws such lines.
pub proof fn law_successes_are_the_green_lines(
    plain: Seq<Seq<char>>,
    drawn: Seq<Seq<char>>,
    transcript: Option<(usize, usize)>,
    index: nat,
    agent: Option<Agent>,
    screen: Seq<char>,
    ansi_screen: Seq<char>,
)
    requires
        index < plain.len(),
    ensures
        ({
            let above = successes_among(plain, drawn, transcript, index);
            let upto = successes_among(plain, drawn, transcript, index + 1);
            let inside = transcript is None || (transcript->0).0 <= index < (transcript->0).1;
            let bare = text::trimmed_start(plain[index as int]);
            let success = inside && index < drawn.len() && bare.len() > 0 && bare[0] == '\u{25CF}'
                && scanned(
                drawn[index as int],
                LineScan { foreground: color_after(drawn, index), leading: None },
            ).leading == Some(true);
            &&& success ==> upto == above.push(text::trimmed_end(plain[index as int]))
            &&& !success ==> upto == above
            &&& successes_among(plain, drawn, transcript, 0).len() == 0
        }),
        color_after(drawn, 0) is Plain,
        color_after(drawn, index + 1) == scanned(
            drawn[index as int],
            LineScan { foreground: color_after(drawn, index), leading: None },
        ).foreground,
        agent != Some(Agent::Claude) ==> spec_success_markers(
            agent,
            screen,
            ansi_screen,
            transcript,
        ).len() == 0,
        spec_success_markers(Some(Agent::Claude), screen, ansi_screen, transcript)
            == successes_among(
            text::lines_of(screen),
            text::lines_of(ansi_screen),
            transcript,
            text::lines_of(screen).len(),
        ),
{
}

/// A channel is as bright as its number says, and no brighter than it can be.
pub proof fn law_channels_are_capped(n: nat)
    ensures
        n <= 255 ==> capped(n) == n,
        n >= 255 ==> capped(n) == 255,
{
}

} // verus!
