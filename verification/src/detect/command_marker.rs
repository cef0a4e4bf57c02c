//! Lines on screen that mean that a shell command ran.
//!
//! An agent draws a command in two shapes: a bullet with the tool's name and the command in
//! brackets, and a result line with the command behind a dollar sign. There is no identity
//! behind a line but its own text.

use crate::detect;
use crate::detect::Agent;
use crate::text;
use crate::text::{
    chars_of, find_last_char, same_text, split_lines, string_of, strip_prefix, trim, trim_end,
    trim_start,
};
use vstd::prelude::*;
use vstd::slice::*;

verus! {

/// What stands behind a bullet, in either glyph, and the white space after it.
pub open spec fn behind_bullet(line: Seq<char>) -> Option<Seq<char>> {
    let rest = text::trimmed_start(line);
    let after = rest.skip(1);
    if rest.len() > 0 && (rest[0] == '\u{23FA}' || rest[0] == '\u{25CF}') && after.len() > 0
        && text::is_white_space(after[0]) {
        Some(text::trimmed_start(after))
    } else {
        None
    }
}

/// Whether a line is a bullet before a shell command in brackets.
pub open spec fn is_bash_bullet(line: Seq<char>) -> bool {
    behind_bullet(line) matches Some(rest) && text::starts_with(rest, "Bash("@)
}

/// White space as it stands before a shell command. Other results have a no-break space there.
pub open spec fn is_gap(c: char) -> bool {
    text::is_white_space(c) && c != '\u{a0}'
}

/// A text without the gap at its start.
pub open spec fn after_gap(s: Seq<char>) -> Seq<char>
    decreases s.len(),
{
    if s.len() > 0 && is_gap(s[0]) {
        after_gap(s.skip(1))
    } else {
        s
    }
}

/// What stands behind the dollar sign of a result that echoes a shell command: the result glyph,
/// a gap, the sign, and a gap before the command.
pub open spec fn behind_dollar(line: Seq<char>) -> Option<Seq<char>> {
    let rest = text::trimmed_start(line);
    let after = rest.skip(1);
    let echo = after_gap(after);
    let command = echo.skip(1);
    if rest.len() > 0 && rest[0] == '\u{23BF}' && after.len() > 0 && is_gap(after[0]) && echo.len()
        > 0 && echo[0] == '$' && command.len() > 0 && is_gap(command[0]) && text::trimmed_start(
        command,
    ).len() > 0 {
        Some(command)
    } else {
        None
    }
}

/// Whether a line is a result that echoes a shell command behind a dollar sign.
pub open spec fn is_shell_echo(line: Seq<char>) -> bool {
    behind_dollar(line) is Some
}

fn bullet_command(line: &[char]) -> (command: Option<&[char]>)
    ensures
        match command {
            Some(command) => is_bash_bullet(line@) && command@ == behind_bullet(line@)->0.skip(
                "Bash("@.len() as int,
            ),
            None => !is_bash_bullet(line@),
        },
{
    let rest = trim_start(line);
    if rest.len() < 2 || (rest[0] != '\u{23FA}' && rest[0] != '\u{25CF}') {
        return None;
    }
    let after = slice_subrange(rest, 1, rest.len());
    assert(after@ =~= rest@.skip(1));
    if !text::char_is_white_space(after[0]) {
        return None;
    }
    strip_prefix(trim_start(after), "Bash(")
}

fn skip_gap(s: &[char]) -> (rest: &[char])
    ensures
        rest@ == after_gap(s@),
{
    let mut i: usize = 0;
    assert(s@.skip(0) =~= s@);
    while i < s.len() && text::char_is_white_space(s[i]) && s[i] != '\u{a0}'
        invariant
            i <= s@.len(),
            after_gap(s@) == after_gap(s@.skip(i as int)),
        decreases s@.len() - i,
    {
        assert(s@.skip(i as int).skip(1) =~= s@.skip(i + 1));
        i += 1;
    }
    let rest = slice_subrange(s, i, s.len());
    assert(rest@ =~= s@.skip(i as int));
    rest
}

fn echoed_command(line: &[char]) -> (command: Option<&[char]>)
    ensures
        match command {
            Some(command) => behind_dollar(line@) == Some(command@),
            None => behind_dollar(line@) is None,
        },
{
    let rest = trim_start(line);
    if rest.len() < 2 || rest[0] != '\u{23BF}' {
        return None;
    }
    let after = slice_subrange(rest, 1, rest.len());
    assert(after@ =~= rest@.skip(1));
    if !text::char_is_white_space(after[0]) || after[0] == '\u{a0}' {
        return None;
    }
    let echo = skip_gap(after);
    if echo.len() < 2 || echo[0] != '$' {
        return None;
    }
    let command = slice_subrange(echo, 1, echo.len());
    assert(command@ =~= echo@.skip(1));
    if !text::char_is_white_space(command[0]) || command[0] == '\u{a0}' || trim_start(command).len()
        == 0 {
        return None;
    }
    Some(command)
}

/// Whether a line is a command marker of either shape.
pub open spec fn is_marker(line: Seq<char>) -> bool {
    is_bash_bullet(line) || is_shell_echo(line)
}

pub fn is_command_marker(line: &str) -> (marker: bool)
    ensures
        marker == is_marker(line@),
{
    let chars = chars_of(line);
    bullet_command(chars.as_slice()).is_some() || echoed_command(chars.as_slice()).is_some()
}

/// No result that is drawn with a no-break space before its text is a command, whatever it says.
pub proof fn law_results_are_no_commands(indent: Seq<char>, gap: Seq<char>, said: Seq<char>)
    requires
        forall|i: int| 0 <= i < indent.len() ==> text::is_white_space(#[trigger] indent[i]),
        forall|i: int| 0 <= i < gap.len() ==> is_gap(#[trigger] gap[i]),
    ensures
        !is_marker(indent + seq!['\u{23BF}'] + gap + seq!['\u{a0}'] + said),
    decreases indent.len() + gap.len(),
{
    let line = indent + seq!['\u{23BF}'] + gap + seq!['\u{a0}'] + said;
    if indent.len() > 0 {
        law_results_are_no_commands(indent.skip(1), gap, said);
        assert(line.skip(1) =~= indent.skip(1) + seq!['\u{23BF}'] + gap + seq!['\u{a0}'] + said);
        assert(line[0] == indent[0]);
    } else {
        assert(line[0] == '\u{23BF}');
        assert(text::trimmed_start(line) == line);
        let after = gap + seq!['\u{a0}'] + said;
        assert(line.skip(1) =~= after);
        lemma_gap_ends(gap, seq!['\u{a0}'] + said);
        assert(after =~= gap + (seq!['\u{a0}'] + said));
    }
}

proof fn lemma_gap_ends(gap: Seq<char>, rest: Seq<char>)
    requires
        forall|i: int| 0 <= i < gap.len() ==> is_gap(#[trigger] gap[i]),
        rest.len() > 0,
        !is_gap(rest[0]),
    ensures
        after_gap(gap + rest) == rest,
    decreases gap.len(),
{
    if gap.len() > 0 {
        lemma_gap_ends(gap.skip(1), rest);
        assert((gap + rest).skip(1) =~= gap.skip(1) + rest);
    } else {
        assert(gap + rest =~= rest);
    }
}

/// The markers among the first `count` lines, inside the transcript.
pub open spec fn markers_among(
    lines: Seq<Seq<char>>,
    transcript: Option<(usize, usize)>,
    count: nat,
) -> Seq<Seq<char>>
    decreases count,
{
    if count == 0 {
        seq![]
    } else {
        let index = count - 1;
        let earlier = markers_among(lines, transcript, index as nat);
        if index < lines.len() && detect::in_transcript(transcript, index) && is_marker(
            lines[index],
        ) {
            earlier.push(text::trimmed_end(lines[index]))
        } else {
            earlier
        }
    }
}

/// All markers of a screen, in order.
pub open spec fn spec_command_markers(
    agent: Option<Agent>,
    screen: Seq<char>,
    transcript: Option<(usize, usize)>,
) -> Seq<Seq<char>> {
    if agent == Some(Agent::Claude) {
        let lines = text::lines_of(screen);
        markers_among(lines, transcript, lines.len())
    } else {
        seq![]
    }
}

/// Every line of the screen that reports a shell command. `transcript` is the range of lines that
/// belongs to the agent's transcript, which leaves out what is still being typed.
pub fn command_markers(
    agent: Option<Agent>,
    screen: &str,
    transcript: Option<(usize, usize)>,
) -> (markers: Vec<String>)
    ensures
        text::texts(markers@) == spec_command_markers(agent, screen@, transcript),
{
    let mut markers: Vec<String> = Vec::new();
    assert(text::texts(markers@) =~= seq![]);
    let claude = match agent {
        Some(agent) => agent == Agent::Claude,
        None => false,
    };
    if !claude {
        return markers;
    }
    let chars = chars_of(screen);
    let lines = split_lines(chars.as_slice());
    let ghost all = text::lines_of(screen@);
    let mut i: usize = 0;
    while i < lines.len()
        invariant
            i <= lines@.len(),
            all == text::char_lists(lines@),
            text::texts(markers@) == markers_among(all, transcript, i as nat),
        decreases lines@.len() - i,
    {
        let inside = match transcript {
            Some((start, end)) => start <= i && i < end,
            None => true,
        };
        let line = string_of(lines[i].as_slice());
        assert(all[i as int] == line@);
        let ghost before = text::texts(markers@);
        if inside && is_command_marker(line.as_str()) {
            let marker = string_of(trim_end(lines[i].as_slice()));
            markers.push(marker);
            assert(text::texts(markers@) =~= before.push(text::trimmed_end(all[i as int])));
        }
        i += 1;
    }
    markers
}

/// What precedes the last closing bracket; all of a text without one.
pub open spec fn before_last_bracket(s: Seq<char>) -> Seq<char> {
    match text::last_index_of_char(s, ')') {
        Some(end) => s.take(end),
        None => s,
    }
}

/// The command that a marker stands for: what is in the outermost brackets of a bullet, or all
/// that is behind the dollar sign of an echo. A line of neither shape stands for itself.
pub open spec fn spec_command_text(line: Seq<char>) -> Seq<char> {
    if is_bash_bullet(line) {
        text::trimmed(before_last_bracket(behind_bullet(line)->0.skip("Bash("@.len() as int)))
    } else {
        match behind_dollar(line) {
            Some(command) => text::trimmed(command),
            None => text::trimmed(line),
        }
    }
}

pub fn bash_command_text(marker_line: &str) -> (command: String)
    ensures
        command@ == spec_command_text(marker_line@),
{
    let chars = chars_of(marker_line);
    if let Some(after) = bullet_command(chars.as_slice()) {
        return match find_last_char(after, ')') {
            Some(end) => {
                let inside = slice_subrange(after, 0, end);
                assert(inside@ =~= after@.take(end as int));
                string_of(trim(inside))
            },
            None => string_of(trim(after)),
        };
    }
    match echoed_command(chars.as_slice()) {
        Some(command) => string_of(trim(command)),
        None => string_of(trim(chars.as_slice())),
    }
}

// ---------------------------------------------------------------------------
// What is new since the last scan
// ---------------------------------------------------------------------------

/// The markers among the first `count` that are neither known nor repeated.
pub open spec fn fresh_among(known: Set<Seq<char>>, markers: Seq<Seq<char>>, count: nat) -> Seq<
    Seq<char>,
>
    decreases count,
{
    if count == 0 {
        seq![]
    } else {
        let index = count - 1;
        let earlier = fresh_among(known, markers, index as nat);
        if known.contains(markers[index]) || markers.take(index).contains(markers[index]) {
            earlier
        } else {
            earlier.push(markers[index])
        }
    }
}

/// The texts in a list, each once.
pub open spec fn is_set_of(list: Seq<String>, set: Set<Seq<char>>) -> bool {
    &&& text::texts(list).no_duplicates()
    &&& text::texts(list).to_set() == set
}

/// What is known; nothing before the first scan.
pub open spec fn known_texts(known: Option<Vec<String>>) -> Set<Seq<char>> {
    match known {
        Some(seen) => text::texts(seen@).to_set(),
        None => Set::empty(),
    }
}

fn contains_text(list: &Vec<String>, wanted: &str) -> (found: bool)
    ensures
        found == text::texts(list@).contains(wanted@),
{
    let mut i: usize = 0;
    while i < list.len()
        invariant
            i <= list@.len(),
            forall|j: int| 0 <= j < i ==> (#[trigger] list@[j])@ != wanted@,
        decreases list@.len() - i,
    {
        if same_text(list[i].as_str(), wanted) {
            assert(text::texts(list@)[i as int] == wanted@);
            return true;
        }
        i += 1;
    }
    assert(!text::texts(list@).contains(wanted@)) by {
        if text::texts(list@).contains(wanted@) {
            let k = choose|k: int|
                0 <= k < text::texts(list@).len() && text::texts(list@)[k] == wanted@;
            assert(list@[k]@ == wanted@);
        }
    }
    false
}

proof fn lemma_push_set(list: Seq<Seq<char>>, x: Seq<char>)
    ensures
        list.push(x).to_set() == list.to_set().insert(x),
        !list.contains(x) && list.no_duplicates() ==> list.push(x).no_duplicates(),
{
    assert(list.push(x).to_set() =~= list.to_set().insert(x)) by {
        assert forall|y: Seq<char>| list.push(x).to_set().contains(y) == list.to_set().insert(
            x,
        ).contains(y) by {
            if list.contains(y) {
                let i = choose|i: int| 0 <= i < list.len() && list[i] == y;
                assert(list.push(x)[i] == y);
            }
            assert(list.push(x)[list.len() as int] == x);
            if list.push(x).contains(y) && y != x {
                let i = choose|i: int| 0 <= i < list.push(x).len() && list.push(x)[i] == y;
                assert(list[i] == y);
            }
        }
    }
}

/// Holds the markers of one scan against those of the scan before, and returns the new ones. The
/// first scan only learns what is there: that is history, not news. What has left the screen is
/// forgotten, and is new again if it comes back.
pub fn diff_new_markers(markers: Vec<String>, acknowledged: &mut Option<Vec<String>>) -> (fresh: Vec<
    String,
>)
    ensures
        text::texts(fresh@) == match *old(acknowledged) {
            Some(seen) => fresh_among(
                text::texts(seen@).to_set(),
                text::texts(markers@),
                markers@.len(),
            ),
            None => seq![],
        },
        *final(acknowledged) matches Some(seen) && is_set_of(
            seen@,
            text::texts(markers@).to_set(),
        ),
{
    let ghost all = text::texts(markers@);
    let mut fresh: Vec<String> = Vec::new();
    let mut current: Vec<String> = Vec::new();
    assert(text::texts(fresh@) =~= seq![]);
    assert(text::texts(current@).to_set() =~= all.take(0).to_set());
    let known = acknowledged.take();
    let ghost known_set = known_texts(known);
    let mut i: usize = 0;
    while i < markers.len()
        invariant
            i <= markers@.len(),
            all == text::texts(markers@),
            known_set == known_texts(known),
            text::texts(fresh@) == (if known is Some {
                fresh_among(known_set, all, i as nat)
            } else {
                seq![]
            }),
            is_set_of(current@, all.take(i as int).to_set()),
        decreases markers@.len() - i,
    {
        let marker = markers[i].as_str();
        let repeated = contains_text(&current, marker);
        proof {
            assert(all.take(i + 1) =~= all.take(i as int).push(all[i as int]));
            lemma_push_set(all.take(i as int), all[i as int]);
            assert(all.take(i as int).contains(marker@) == text::texts(current@).contains(
                marker@,
            )) by {
                assert(all.take(i as int).to_set().contains(marker@) == text::texts(
                    current@,
                ).to_set().contains(marker@));
            }
        }
        if let Some(seen) = &known {
            if !repeated && !contains_text(seen, marker) {
                let ghost before = text::texts(fresh@);
                fresh.push(text::duplicate(marker));
                assert(text::texts(fresh@) =~= before.push(marker@));
            }
        }
        if repeated {
            assert(all.take(i as int).to_set().insert(marker@) =~= all.take(i as int).to_set());
        } else {
            let ghost before = text::texts(current@);
            proof {
                lemma_push_set(before, marker@);
            }
            current.push(text::duplicate(marker));
            assert(text::texts(current@) =~= before.push(marker@));
        }
        i += 1;
    }
    assert(all.take(i as int) =~= all);
    *acknowledged = Some(current);
    fresh
}

/// A screen that did not change brings nothing new, and whatever is new was not known.
pub proof fn law_fresh_is_new(known: Set<Seq<char>>, markers: Seq<Seq<char>>, count: nat)
    requires
        count <= markers.len(),
    ensures
        forall|i: int|
            0 <= i < fresh_among(known, markers, count).len() ==> !known.contains(
                #[trigger] fresh_among(known, markers, count)[i],
            ) && markers.contains(fresh_among(known, markers, count)[i]),
        (forall|i: int| 0 <= i < count ==> known.contains(#[trigger] markers[i])) ==> fresh_among(
            known,
            markers,
            count,
        ).len() == 0,
    decreases count,
{
    if count > 0 {
        let earlier = fresh_among(known, markers, (count - 1) as nat);
        let all = fresh_among(known, markers, count);
        law_fresh_is_new(known, markers, (count - 1) as nat);
        assert(markers.contains(markers[count - 1]));
        assert forall|i: int| 0 <= i < all.len() implies !known.contains(#[trigger] all[i])
            && markers.contains(all[i]) by {
            if i < earlier.len() {
                assert(all[i] == earlier[i]);
            }
        }
    }
}

/// A line that was known and did not leave is not reported again; one that left is.
pub proof fn law_two_scans(first: Seq<Seq<char>>, second: Seq<Seq<char>>, line: Seq<char>)
    ensures
        fresh_among(first.to_set(), second, second.len()).contains(line) <==> second.contains(line)
            && !first.contains(line),
{
    lemma_fresh_contains(first.to_set(), second, second.len(), line);
    assert(second.take(second.len() as int) =~= second);
}

proof fn lemma_fresh_contains(
    known: Set<Seq<char>>,
    markers: Seq<Seq<char>>,
    count: nat,
    line: Seq<char>,
)
    requires
        count <= markers.len(),
    ensures
        fresh_among(known, markers, count).contains(line) <==> markers.take(count as int).contains(
            line,
        ) && !known.contains(line),
    decreases count,
{
    if count == 0 {
        assert(!markers.take(0).contains(line));
    } else {
        let index = count - 1;
        lemma_fresh_contains(known, markers, index as nat, line);
        let earlier = fresh_among(known, markers, index as nat);
        let x = markers[index];
        assert(markers.take(count as int) =~= markers.take(index).push(x));
        lemma_push_set(markers.take(index), x);
        lemma_push_set(earlier, x);
        assert(markers.take(count as int).contains(line) == (markers.take(index).contains(line)
            || line == x)) by {
            assert(markers.take(index).push(x).to_set().contains(line) == (markers.take(
                index,
            ).to_set().contains(line) || line == x));
        }
        assert(earlier.push(x).contains(line) == (earlier.contains(line) || line == x)) by {
            assert(earlier.push(x).to_set().contains(line) == (earlier.to_set().contains(line)
                || line == x));
        }
    }
}

proof fn lemma_trimmed_start(blank: Seq<char>, rest: Seq<char>)
    requires
        forall|i: int| 0 <= i < blank.len() ==> text::is_white_space(#[trigger] blank[i]),
        rest.len() > 0 ==> !text::is_white_space(rest[0]),
    ensures
        text::trimmed_start(blank + rest) == rest,
    decreases blank.len(),
{
    if blank.len() > 0 {
        assert((blank + rest)[0] == blank[0]);
        assert((blank + rest).skip(1) =~= blank.skip(1) + rest);
        assert forall|i: int| 0 <= i < blank.skip(1).len() implies text::is_white_space(
            #[trigger] blank.skip(1)[i],
        ) by {
            assert(blank.skip(1)[i] == blank[i + 1]);
        }
        lemma_trimmed_start(blank.skip(1), rest);
    } else {
        assert(blank + rest =~= rest);
    }
}

proof fn lemma_last_bracket(s: Seq<char>, tail: Seq<char>)
    requires
        !tail.contains(')'),
    ensures
        before_last_bracket(s + seq![')'] + tail) == s,
        before_last_bracket(tail) == tail,
    decreases tail.len(),
{
    let whole = s + seq![')'] + tail;
    if tail.len() == 0 {
        assert(whole.last() == ')');
        assert(whole.take(whole.len() - 1) =~= s);
    } else {
        let short = tail.drop_last();
        assert(tail.contains(tail[tail.len() - 1]));
        assert(whole.last() == tail.last());
        assert(whole.drop_last() =~= s + seq![')'] + short);
        assert(!short.contains(')')) by {
            if short.contains(')') {
                let i = choose|i: int| 0 <= i < short.len() && short[i] == ')';
                assert(tail[i] == ')');
            }
        }
        lemma_last_bracket(s, short);
        lemma_last_index(s, short);
        assert(whole.take(s.len() as int) =~= s);
        assert(text::last_index_of_char(tail, ')') == text::last_index_of_char(short, ')'));
        lemma_no_last_index(short);
    }
}

proof fn lemma_last_index(s: Seq<char>, tail: Seq<char>)
    requires
        !tail.contains(')'),
    ensures
        text::last_index_of_char(s + seq![')'] + tail, ')') == Some(s.len() as int),
    decreases tail.len(),
{
    let whole = s + seq![')'] + tail;
    if tail.len() == 0 {
        assert(whole.last() == ')');
    } else {
        let short = tail.drop_last();
        assert(tail.contains(tail[tail.len() - 1]));
        assert(whole.last() == tail.last());
        assert(whole.drop_last() =~= s + seq![')'] + short);
        assert(!short.contains(')')) by {
            if short.contains(')') {
                let i = choose|i: int| 0 <= i < short.len() && short[i] == ')';
                assert(tail[i] == ')');
            }
        }
        lemma_last_index(s, short);
    }
}

proof fn lemma_no_last_index(s: Seq<char>)
    requires
        !s.contains(')'),
    ensures
        text::last_index_of_char(s, ')') is None,
    decreases s.len(),
{
    if s.len() > 0 {
        let short = s.drop_last();
        assert(s.contains(s[s.len() - 1]));
        assert(!short.contains(')')) by {
            if short.contains(')') {
                let i = choose|i: int| 0 <= i < short.len() && short[i] == ')';
                assert(s[i] == ')');
            }
        }
        lemma_no_last_index(short);
    }
}

/// A bullet of either glyph before a shell command in brackets is a marker, however far it is
/// indented, and it stands for what is in the outermost brackets.
pub proof fn law_bullets_show_their_command(
    indent: Seq<char>,
    solid: bool,
    gap: Seq<char>,
    command: Seq<char>,
    tail: Seq<char>,
)
    requires
        forall|i: int| 0 <= i < indent.len() ==> text::is_white_space(#[trigger] indent[i]),
        gap.len() > 0,
        forall|i: int| 0 <= i < gap.len() ==> text::is_white_space(#[trigger] gap[i]),
        !tail.contains(')'),
    ensures
        ({
            let bullet = if solid {
                '\u{25CF}'
            } else {
                '\u{23FA}'
            };
            let line = indent + seq![bullet] + gap + seq!['B', 'a', 's', 'h', '('] + command + seq![
                ')',
            ] + tail;
            &&& is_marker(line)
            &&& spec_command_text(line) == text::trimmed(command)
        }),
{
    reveal_strlit("Bash(");
    let bullet = if solid {
        '\u{25CF}'
    } else {
        '\u{23FA}'
    };
    let bash = seq!['B', 'a', 's', 'h', '('];
    assert("Bash("@ =~= bash);
    let inner = command + seq![')'] + tail;
    let named = bash + inner;
    let after = gap + named;
    let rest = seq![bullet] + after;
    let line = indent + seq![bullet] + gap + bash + command + seq![')'] + tail;
    assert(line =~= indent + rest);
    assert(rest[0] == bullet);
    lemma_trimmed_start(indent, rest);
    assert(rest.skip(1) =~= after);
    assert(after[0] == gap[0]);
    assert(named[0] == 'B');
    lemma_trimmed_start(gap, named);
    assert(named.take(5) =~= bash);
    assert(named.skip(5) =~= inner);
    lemma_last_bracket(command, tail);
}

/// A result that echoes a shell command behind a dollar sign is a marker, and it stands for all that
/// is behind the sign.
pub proof fn law_echoes_show_their_command(
    indent: Seq<char>,
    gap: Seq<char>,
    space: Seq<char>,
    command: Seq<char>,
)
    requires
        forall|i: int| 0 <= i < indent.len() ==> text::is_white_space(#[trigger] indent[i]),
        gap.len() > 0,
        forall|i: int|
            0 <= i < gap.len() ==> text::is_white_space(#[trigger] gap[i]) && gap[i] != '\u{a0}',
        space.len() > 0,
        space[0] != '\u{a0}',
        forall|i: int| 0 <= i < space.len() ==> text::is_white_space(#[trigger] space[i]),
        command.len() > 0,
        !text::is_white_space(command[0]),
        !text::is_white_space(command.last()),
    ensures
        ({
            let line = indent + seq!['\u{23BF}'] + gap + seq!['$'] + space + command;
            &&& is_marker(line)
            &&& spec_command_text(line) == command
        }),
{
    reveal_strlit("Bash(");
    let said = space + command;
    let echo = seq!['$'] + said;
    let after = gap + echo;
    let rest = seq!['\u{23BF}'] + after;
    let line = indent + seq!['\u{23BF}'] + gap + seq!['$'] + space + command;
    assert(line =~= indent + rest);
    assert(rest[0] == '\u{23BF}');
    lemma_trimmed_start(indent, rest);
    assert(rest.skip(1) =~= after);
    assert(after[0] == gap[0]);
    assert(echo[0] == '$');
    assert forall|i: int| 0 <= i < gap.len() implies is_gap(#[trigger] gap[i]) by {}
    lemma_gap_ends(gap, echo);
    assert(echo.skip(1) =~= said);
    assert(said[0] == space[0]);
    lemma_trimmed_start(space, command);
    text::law_trimming_takes_white_space_alone(space, command, seq![]);
    assert(space + command + seq![] =~= said);
}

/// A line that starts with neither of the bullets nor with the sign of a result is no marker, and
/// stands for itself.
pub proof fn law_other_lines_are_no_commands(indent: Seq<char>, line: Seq<char>)
    requires
        forall|i: int| 0 <= i < indent.len() ==> text::is_white_space(#[trigger] indent[i]),
        line.len() > 0,
        !text::is_white_space(line[0]),
        line[0] != '\u{25CF}',
        line[0] != '\u{23FA}',
        line[0] != '\u{23BF}',
    ensures
        !is_marker(indent + line),
        spec_command_text(indent + line) == text::trimmed(line),
{
    lemma_trimmed_start(indent, line);
    assert(text::trimmed(indent + line) == text::trimmed_end(line));
    assert(text::trimmed_start(line) == line);
}

/// The markers of a screen are its marked lines, without the white space at their ends: each line of
/// the transcript that is one adds itself behind those above it, and no other line adds anything.
/// Only one agent draws such lines.
pub proof fn law_markers_are_the_marked_lines(
    lines: Seq<Seq<char>>,
    transcript: Option<(usize, usize)>,
    index: nat,
    agent: Option<Agent>,
    screen: Seq<char>,
)
    requires
        index < lines.len(),
    ensures
        ({
            let above = markers_among(lines, transcript, index);
            let upto = markers_among(lines, transcript, index + 1);
            let inside = transcript is None || (transcript->0).0 <= index < (transcript->0).1;
            &&& inside && is_marker(lines[index as int]) ==> upto == above.push(
                text::trimmed_end(lines[index as int]),
            )
            &&& !(inside && is_marker(lines[index as int])) ==> upto == above
            &&& markers_among(lines, transcript, 0).len() == 0
        }),
        agent != Some(Agent::Claude) ==> spec_command_markers(agent, screen, transcript).len() == 0,
        spec_command_markers(Some(Agent::Claude), screen, transcript) == markers_among(
            text::lines_of(screen),
            transcript,
            text::lines_of(screen).len(),
        ),
{
}

} // verus!
