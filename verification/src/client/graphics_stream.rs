//! Kitty graphics escapes inside the byte streams that a client passes on.

use crate::kitty_graphics::encode;
use crate::kitty_graphics::encode::encode_delete_image;
use crate::text;
use crate::text::{find_subslice, parse_u32, push_bytes, push_text};
use std::collections::HashSet;
use vstd::prelude::*;
use vstd::slice::*;
use vstd::utf8::*;

verus! {

/// The bytes that start a graphics escape, and those that end it.
pub open spec fn escape_start() -> Seq<u8> {
    text::utf8("\x1b_G")
}

pub open spec fn escape_end() -> Seq<u8> {
    text::utf8("\x1b\\")
}

/// The place of the first `b`, or the length where there is none.
pub open spec fn index_of_byte(s: Seq<u8>, b: u8) -> int
    decreases s.len(),
{
    if s.len() == 0 || s[0] == b {
        0
    } else {
        1 + index_of_byte(s.skip(1), b)
    }
}

/// The image id among the comma separated parts of a header: the first part `i=` with a number
/// behind it, unless such a part before it is no text at all.
pub open spec fn header_image_id(header: Seq<u8>) -> Option<u32>
    decreases header.len(),
{
    let end = index_of_byte(header, 44);
    if end < 0 || end > header.len() {
        None
    } else {
        let part = header.take(end);
        let value = part.skip(2);
        if part.len() >= 2 && part[0] == 105 && part[1] == 61 && !valid_utf8(value) {
            None
        } else if part.len() >= 2 && part[0] == 105 && part[1] == 61 && text::parsed_u32(value) is Some {
            text::parsed_u32(value)
        } else if end < header.len() {
            header_image_id(header.skip(end + 1))
        } else {
            None
        }
    }
}

/// The image id of an escape: its header is what stands before the first semicolon.
pub open spec fn command_image_id(command: Seq<u8>) -> Option<u32> {
    header_image_id(command.take(index_of_byte(command, 59)))
}

#[verifier::opaque]
/// The image ids of the complete escapes in a stream, in order.
pub open spec fn image_ids(bytes: Seq<u8>) -> Seq<u32>
    decreases bytes.len(),
{
    match text::first_occurrence(bytes, escape_start()) {
        None => Seq::empty(),
        Some(start) => {
            let rest = bytes.skip(start + escape_start().len());
            match text::first_occurrence(rest, escape_end()) {
                None => Seq::empty(),
                Some(end) => {
                    let later = rest.skip(end + escape_end().len());
                    if later.len() >= bytes.len() {
                        Seq::empty()
                    } else {
                        (match command_image_id(rest.take(end)) {
                            Some(id) => seq![id],
                            None => Seq::empty(),
                        }) + image_ids(later)
                    }
                },
            }
        },
    }
}

/// Whether a graphics escape starts anywhere in `bytes`.
pub open spec fn holds_graphics(bytes: Seq<u8>) -> bool {
    exists|i: int| text::occurs_at(bytes, escape_start(), i)
}

pub fn contains_kitty_graphics_bytes(bytes: &[u8]) -> (found: bool)
    ensures
        found == holds_graphics(bytes@),
{
    proof {
        lemma_escape_lengths();
        reveal(text::first_occurrence);
    }
    find_subslice(bytes, "\x1b_G".as_bytes()).is_some()
}

proof fn lemma_escape_lengths()
    ensures
        escape_start().len() == 3,
        escape_end().len() == 2,
        escape_start() == seq![27u8, 95u8, 71u8],
        escape_end() == seq![27u8, 92u8],
{
    reveal_strlit("\x1b_G");
    reveal_strlit("\x1b\\");
    is_ascii_chars_encode_utf8("\x1b_G"@);
    is_ascii_chars_encode_utf8("\x1b\\"@);
    assert(escape_start() =~= seq![27u8, 95u8, 71u8]);
    assert(escape_end() =~= seq![27u8, 92u8]);
}

proof fn lemma_index_of_byte(s: Seq<u8>, b: u8)
    ensures
        0 <= index_of_byte(s, b) <= s.len(),
        forall|i: int| 0 <= i < index_of_byte(s, b) ==> s[i] != b,
        index_of_byte(s, b) < s.len() ==> s[index_of_byte(s, b)] == b,
    decreases s.len(),
{
    if s.len() > 0 && s[0] != b {
        lemma_index_of_byte(s.skip(1), b);
        assert forall|i: int| 0 <= i < index_of_byte(s, b) implies s[i] != b by {
            if i > 0 {
                assert(s[i] == s.skip(1)[i - 1]);
            }
        }
    }
}

fn position_of_byte(s: &[u8], b: u8) -> (at: usize)
    ensures
        at == index_of_byte(s@, b),
        at <= s@.len(),
{
    let mut i: usize = 0;
    assert(s@.skip(0) =~= s@);
    while i < s.len() && s[i] != b
        invariant
            i <= s@.len(),
            index_of_byte(s@, b) == i + index_of_byte(s@.skip(i as int), b),
        decreases s@.len() - i,
    {
        assert(s@.skip(i as int).skip(1) =~= s@.skip(i + 1));
        i += 1;
    }
    i
}

/// The image id of one escape.
pub fn kitty_graphics_command_image_id(command: &[u8]) -> (id: Option<u32>)
    ensures
        id == command_image_id(command@),
{
    let header_end: usize = position_of_byte(command, 59);
    let header = slice_subrange(command, 0, header_end);
    assert(header@ =~= command@.take(header_end as int));
    let len: usize = header.len();
    let mut at: usize = 0;
    assert(header@.skip(0) =~= header@);
    loop
        invariant
            at <= len,
            len == header@.len(),
            header_image_id(header@) == header_image_id(header@.skip(at as int)),
            header_image_id(header@) == command_image_id(command@),
        decreases len - at,
    {
        let rest = slice_subrange(header, at, len);
        assert(rest@ =~= header@.skip(at as int));
        let end: usize = position_of_byte(rest, 44);
        let part = slice_subrange(rest, 0, end);
        assert(part@ =~= rest@.take(end as int));
        if part.len() >= 2 && part[0] == 105 && part[1] == 61 {
            let value = slice_subrange(part, 2, part.len());
            assert(value@ =~= part@.skip(2));
            if text::decode_text(value).is_none() {
                return None;
            }
            let number = parse_u32(value);
            if number.is_some() {
                return number;
            }
        }
        if end >= rest.len() {
            return None;
        }
        assert(rest@.skip(end + 1) =~= header@.skip(at + end + 1));
        at = at + end + 1;
    }
}

/// A stream whose first complete escape starts at `start` and ends `end` bytes later.
proof fn lemma_image_ids_step(bytes: Seq<u8>, start: int, end: int)
    requires
        text::first_occurrence(bytes, escape_start()) == Some(start),
        0 <= start,
        start + 3 <= bytes.len(),
        text::first_occurrence(bytes.skip(start + 3), escape_end()) == Some(end),
        0 <= end,
        start + 3 + end + 2 <= bytes.len(),
    ensures
        image_ids(bytes) == (match command_image_id(bytes.skip(start + 3).take(end)) {
            Some(id) => seq![id],
            None => Seq::empty(),
        }) + image_ids(bytes.skip(start + 3 + end + 2)),
{
    lemma_escape_lengths();
    reveal_with_fuel(image_ids, 1);
    assert(bytes.skip(start + 3).skip(end + 2) =~= bytes.skip(start + 3 + end + 2));
}

/// A stream without a complete escape.
proof fn lemma_image_ids_end(bytes: Seq<u8>)
    requires
        text::first_occurrence(bytes, escape_start()) matches Some(start) ==> 0 <= start && start
            + 3 <= bytes.len() && text::first_occurrence(bytes.skip(start + 3), escape_end())
            is None,
    ensures
        image_ids(bytes) == Seq::<u32>::empty(),
{
    lemma_escape_lengths();
    reveal_with_fuel(image_ids, 1);
}

/// The image ids of the complete escapes in a stream, in order.
pub fn kitty_graphics_image_ids(bytes: &[u8]) -> (ids: Vec<u32>)
    ensures
        ids@ == image_ids(bytes@),
{
    proof {
        lemma_escape_lengths();
    }
    let mut ids: Vec<u32> = Vec::new();
    let mut index: usize = 0;
    assert(bytes@.skip(0) =~= bytes@);
    assert(ids@ + image_ids(bytes@.skip(0)) =~= image_ids(bytes@));
    loop
        invariant_except_break
            index <= bytes@.len(),
            escape_start().len() == 3,
            escape_end().len() == 2,
            ids@ + image_ids(bytes@.skip(index as int)) == image_ids(bytes@),
        ensures
            ids@ == image_ids(bytes@),
        decreases bytes@.len() - index,
    {
        let ghost found = ids@;
        let here = slice_subrange(bytes, index, bytes.len());
        assert(here@ =~= bytes@.skip(index as int));
        let start: usize = match find_subslice(here, "\x1b_G".as_bytes()) {
            Some(start) => start,
            None => {
                proof {
                    lemma_image_ids_end(here@);
                }
                assert(ids@ =~= image_ids(bytes@));
                break;
            },
        };
        let rest = slice_subrange(here, start + 3, here.len());
        assert(rest@ =~= here@.skip(start + 3));
        let end: usize = match find_subslice(rest, "\x1b\\".as_bytes()) {
            Some(end) => end,
            None => {
                proof {
                    lemma_image_ids_end(here@);
                }
                assert(ids@ =~= image_ids(bytes@));
                break;
            },
        };
        let command = slice_subrange(rest, 0, end);
        assert(command@ =~= rest@.take(end as int));
        proof {
            lemma_image_ids_step(here@, start as int, end as int);
        }
        if let Some(id) = kitty_graphics_command_image_id(command) {
            ids.push(id);
        }
        let ghost next = index + start + 3 + end + 2;
        assert(here@.skip(start + 3 + end + 2) =~= bytes@.skip(next));
        assert(ids@ + image_ids(bytes@.skip(next)) =~= found + image_ids(here@));
        index = index + start + 3 + end + 2;
    }
    ids
}

/// The images that the terminal was sent and may still hold.
pub struct ReceivedGraphics {
    pub ids: HashSet<u32>,
}

/// The deletions of some images, each once, in any order.
pub open spec fn deletes(bytes: Seq<u8>, ids: Set<u32>) -> bool {
    exists|order: Seq<u32>|
        order.no_duplicates() && order.to_set() == ids && bytes == #[trigger] deletions(
            order,
            order.len(),
        )
}

impl ReceivedGraphics {
    pub fn new() -> (received: Self)
        ensures
            received.ids@ == Set::<u32>::empty(),
    {
        ReceivedGraphics { ids: HashSet::new() }
    }

    /// Remembers the images that a stream uploads or shows.
    pub fn record(&mut self, bytes: &[u8])
        ensures
            final(self).ids@ == old(self).ids@.union(image_ids(bytes@).to_set()),
    {
        broadcast use vstd::std_specs::hash::group_hash_axioms;

        let found = kitty_graphics_image_ids(bytes);
        let ghost before = self.ids@;
        let mut i: usize = 0;
        assert(self.ids@ =~= before.union(found@.take(0).to_set()));
        while i < found.len()
            invariant
                i <= found@.len(),
                self.ids@ == before.union(found@.take(i as int).to_set()),
            decreases found@.len() - i,
        {
            let id: u32 = found[i];
            self.ids.insert(id);
            assert(self.ids@ =~= before.union(found@.take(i + 1).to_set())) by {
                assert(found@.take(i + 1) =~= found@.take(i as int).push(id));
                assert forall|k: u32| found@.take(i + 1).contains(k) <==> found@.take(
                    i as int,
                ).contains(k) || k == id by {
                    lemma_push_contains(found@.take(i as int), id, k);
                }
            }
            i += 1;
        }
        assert(found@.take(i as int) =~= found@);
    }

    /// Forgets the images, and says how to delete each of them. Images that the terminal has
    /// from elsewhere are left alone.
    pub fn clear_received_kitty_graphics(&mut self) -> (bytes: Vec<u8>)
        ensures
            deletes(bytes@, old(self).ids@),
            final(self).ids@ == Set::<u32>::empty(),
    {
        broadcast use vstd::std_specs::hash::group_hash_axioms;

        let mut bytes: Vec<u8> = Vec::new();
        let ghost order = vstd::std_specs::iter::IteratorSpec::remaining(&self.ids.iter()).unref();
        for id in ids: self.ids.iter()
            invariant
                ids.seq().unref() == order,
                bytes@ == deletions(order, ids.index() as nat),
        {
            assert(ids.seq().unref()[ids.index()] == *ids.seq()[ids.index()]);
            encode_delete_image(&mut bytes, *id);
        }
        assert(bytes@ == deletions(order, order.len()));
        self.ids.clear();
        bytes
    }
}

proof fn lemma_push_contains<A>(s: Seq<A>, a: A, k: A)
    ensures
        s.push(a).contains(k) <==> s.contains(k) || k == a,
{
    if s.contains(k) {
        let i = choose|i: int| 0 <= i < s.len() && s[i] == k;
        assert(s.push(a)[i] == k);
    }
    assert(s.push(a)[s.len() as int] == a);
    if s.push(a).contains(k) {
        let i = choose|i: int| 0 <= i < s.push(a).len() && s.push(a)[i] == k;
        if i < s.len() {
            assert(s[i] == k);
        }
    }
}

/// The deletion of the first `count` images.
pub open spec fn deletions(ids: Seq<u32>, count: nat) -> Seq<u8>
    decreases count,
{
    if count == 0 {
        Seq::empty()
    } else {
        deletions(ids, (count - 1) as nat) + encode::delete_image_bytes(ids[count - 1])
    }
}

/// A frame with graphics spliced in at `insertion`, the cursor being saved around them. Without
/// graphics the frame stays as it is.
pub open spec fn spliced(encoded: Seq<u8>, graphics: Seq<u8>, insertion: int) -> Seq<u8> {
    if graphics.len() == 0 {
        encoded
    } else {
        encoded.take(insertion) + text::utf8("\x1b7") + graphics + text::utf8("\x1b8")
            + encoded.skip(insertion)
    }
}

/// Where graphics go into a frame: at the end of its synchronized part, or at its own end.
pub open spec fn insertion_point(encoded: Seq<u8>, sync_end: Option<usize>) -> int {
    match sync_end {
        Some(at) => at as int,
        None => encoded.len() as int,
    }
}

/// A frame with graphics spliced in, `sync_end` being where its synchronized output ends.
pub fn write_encoded_frame_with_graphics(
    encoded: &[u8],
    graphics: &[u8],
    sync_end: Option<usize>,
) -> (out: Vec<u8>)
    requires
        sync_end matches Some(at) ==> at <= encoded@.len(),
    ensures
        out@ == spliced(encoded@, graphics@, insertion_point(encoded@, sync_end)),
{
    let mut out: Vec<u8> = Vec::new();
    if graphics.len() == 0 {
        push_bytes(&mut out, encoded);
        assert(out@ =~= encoded@);
        return out;
    }
    let insertion: usize = match sync_end {
        Some(at) => at,
        None => encoded.len(),
    };
    let head = slice_subrange(encoded, 0, insertion);
    let tail = slice_subrange(encoded, insertion, encoded.len());
    push_bytes(&mut out, head);
    push_text(&mut out, "\x1b7");
    push_bytes(&mut out, graphics);
    push_text(&mut out, "\x1b8");
    push_bytes(&mut out, tail);
    assert(head@ =~= encoded@.take(insertion as int));
    assert(tail@ =~= encoded@.skip(insertion as int));
    assert(out@ =~= spliced(encoded@, graphics@, insertion as int));
    out
}

/// A frame keeps all its bytes in their order, and the graphics go in at one place: where its
/// synchronized part ends, or at its end. The cursor is saved before them and restored behind them.
pub proof fn law_graphics_go_in_at_one_place(
    head: Seq<u8>,
    tail: Seq<u8>,
    graphics: Seq<u8>,
    sync_end: Option<usize>,
)
    requires
        sync_end is None ==> tail.len() == 0,
        sync_end is Some ==> sync_end->0 == head.len(),
    ensures
        ({
            let written = spliced(
                head + tail,
                graphics,
                insertion_point(head + tail, sync_end),
            );
            &&& graphics.len() == 0 ==> written == head + tail
            &&& graphics.len() > 0 ==> written == head + seq![27u8, 55u8] + graphics + seq![
                27u8,
                56u8,
            ] + tail
        }),
{
    reveal_strlit("\x1b7");
    reveal_strlit("\x1b8");
    is_ascii_chars_encode_utf8("\x1b7"@);
    is_ascii_chars_encode_utf8("\x1b8"@);
    assert(text::utf8("\x1b7") =~= seq![27u8, 55u8]);
    assert(text::utf8("\x1b8") =~= seq![27u8, 56u8]);
    let frame = head + tail;
    assert(frame.take(head.len() as int) =~= head);
    assert(frame.skip(head.len() as int) =~= tail);
}

proof fn lemma_byte_past(a: Seq<u8>, b: Seq<u8>, byte: u8)
    requires
        forall|i: int| 0 <= i < a.len() ==> a[i] != byte,
    ensures
        index_of_byte(a + b, byte) == a.len() + index_of_byte(b, byte),
    decreases a.len(),
{
    if a.len() == 0 {
        assert(a + b =~= b);
    } else {
        assert((a + b)[0] == a[0]);
        assert((a + b).skip(1) =~= a.skip(1) + b);
        lemma_byte_past(a.skip(1), b, byte);
    }
}

/// Digits are text.
proof fn lemma_digits_are_text(digits: Seq<u8>)
    requires
        text::all_digits(digits),
    ensures
        valid_utf8(digits),
    decreases digits.len(),
{
    if digits.len() > 0 {
        let b = digits[0];
        assert(48 <= b <= 57);
        assert(b & 0x7f == b) by (bit_vector)
            requires
                b <= 57,
        ;
        assert forall|i: int| 0 <= i < digits.skip(1).len() implies 48 <= #[trigger] digits.skip(
            1,
        )[i] <= 57 by {
            assert(digits.skip(1)[i] == digits[i + 1]);
        }
        lemma_digits_are_text(digits.skip(1));
        assert(pop_first_scalar(digits) =~= digits.skip(1));
    }
}

/// The image of an escape is the one that its header names with `i=`, wherever that stands among
/// the other parts of the header, and whatever follows the header.
pub proof fn law_escapes_name_their_image(
    other: Seq<u8>,
    header: Seq<u8>,
    n: u32,
    payload: Seq<u8>,
)
    requires
        !other.contains(44),
        !other.contains(59),
        !(other.len() >= 2 && other[0] == 105 && other[1] == 61),
        !header.contains(59),
    ensures
        ({
            let named = seq![105u8, 61u8] + text::decimal(n as nat);
            &&& header_image_id(named) == Some(n)
            &&& header_image_id(named + seq![44u8] + header) == Some(n)
            &&& header_image_id(other + seq![44u8] + header) == header_image_id(header)
            &&& header_image_id(other) is None
            &&& command_image_id(header + seq![59u8] + payload) == header_image_id(header)
            &&& command_image_id(header) == header_image_id(header)
        }),
{
    let digits = text::decimal(n as nat);
    let named = seq![105u8, 61u8] + digits;
    text::law_decimal_round_trip(n as nat);
    lemma_digits_are_text(digits);
    assert forall|i: int| 0 <= i < named.len() implies named[i] != 44 by {
        if i >= 2 {
            assert(named[i] == digits[i - 2]);
        }
    }
    assert(named.skip(2) =~= digits);
    assert(named + seq![] =~= named);
    lemma_byte_past(named, seq![], 44);
    assert(named.take(named.len() as int) =~= named);
    let longer = named + seq![44u8] + header;
    assert(longer =~= named + (seq![44u8] + header));
    lemma_byte_past(named, seq![44u8] + header, 44);
    assert(longer.take(named.len() as int) =~= named);
    assert forall|i: int| 0 <= i < other.len() implies other[i] != 44 by {
        assert(other.contains(other[i]));
    }
    let whole = other + seq![44u8] + header;
    assert(whole =~= other + (seq![44u8] + header));
    lemma_byte_past(other, seq![44u8] + header, 44);
    assert(whole.take(other.len() as int) =~= other);
    assert(whole.skip(other.len() as int + 1) =~= header);
    assert(other + seq![] =~= other);
    lemma_byte_past(other, seq![], 44);
    assert(other.take(other.len() as int) =~= other);
    assert forall|i: int| 0 <= i < header.len() implies header[i] != 59 by {
        assert(header.contains(header[i]));
    }
    let command = header + seq![59u8] + payload;
    assert(command =~= header + (seq![59u8] + payload));
    lemma_byte_past(header, seq![59u8] + payload, 59);
    assert(command.take(header.len() as int) =~= header);
    assert(header + seq![] =~= header);
    lemma_byte_past(header, seq![], 59);
    assert(header.take(header.len() as int) =~= header);
}

/// Every complete escape of a stream is found, one after the other: behind what holds no start of
/// one, between its own start and the first end behind it. An escape that does not end is none, and
/// a stream without a start has none.
pub proof fn law_escapes_are_found(plain: Seq<u8>, command: Seq<u8>, rest: Seq<u8>)
    requires
        !plain.contains(27),
        !command.contains(27),
    ensures
        image_ids(
            plain + seq![27u8, 95u8, 71u8] + command + seq![27u8, 92u8] + rest,
        ) == (match command_image_id(command) {
            Some(id) => seq![id],
            None => Seq::empty(),
        }) + image_ids(rest),
        image_ids(plain + seq![27u8, 95u8, 71u8] + command).len() == 0,
        image_ids(plain).len() == 0,
        holds_graphics(plain + seq![27u8, 95u8, 71u8] + rest),
        !holds_graphics(plain),
{
    lemma_escape_lengths();
    let start = escape_start();
    let end = escape_end();
    let n = plain.len() as int;
    let m = command.len() as int;
    let tail = command + end + rest;
    let whole = plain + start + tail;
    assert(whole =~= plain + seq![27u8, 95u8, 71u8] + command + seq![27u8, 92u8] + rest);
    lemma_first_start(plain, tail);
    assert(whole.skip(n + 3) =~= tail);
    lemma_first_end(command, rest);
    lemma_image_ids_step(whole, n, m);
    assert(whole.skip(n + 3).take(m) =~= command);
    assert(whole.skip(n + 3 + m + 2) =~= rest);
    let open = plain + start + command;
    lemma_first_start(plain, command);
    assert(open.skip(n + 3) =~= command);
    lemma_no_escape_byte(command, end);
    lemma_image_ids_end(open);
    lemma_no_escape_byte(plain, start);
    lemma_image_ids_end(plain);
    let holding = plain + start + rest;
    assert(holding.subrange(n, n + 3) =~= start);
    assert(text::occurs_at(holding, start, n));
    assert forall|i: int| !text::occurs_at(plain, start, i) by {
        lemma_not_there(plain, start, i);
    }
}

proof fn lemma_not_there(s: Seq<u8>, needle: Seq<u8>, i: int)
    requires
        needle.len() > 0,
        needle[0] == 27,
        !s.contains(27),
    ensures
        !text::occurs_at(s, needle, i),
{
    if text::occurs_at(s, needle, i) {
        assert(s.subrange(i, i + needle.len())[0] == s[i]);
        assert(s.contains(s[i]));
    }
}

proof fn lemma_no_escape_byte(s: Seq<u8>, needle: Seq<u8>)
    requires
        needle.len() > 0,
        needle[0] == 27,
        !s.contains(27),
    ensures
        text::first_occurrence(s, needle) is None,
{
    reveal(text::first_occurrence);
    assert forall|i: int| !text::occurs_at(s, needle, i) by {
        lemma_not_there(s, needle, i);
    }
}

proof fn lemma_first_start(plain: Seq<u8>, tail: Seq<u8>)
    requires
        !plain.contains(27),
    ensures
        text::first_occurrence(plain + escape_start() + tail, escape_start()) == Some(
            plain.len() as int,
        ),
{
    lemma_escape_lengths();
    lemma_first_place(plain, escape_start(), tail);
}

proof fn lemma_first_end(command: Seq<u8>, rest: Seq<u8>)
    requires
        !command.contains(27),
    ensures
        text::first_occurrence(command + escape_end() + rest, escape_end()) == Some(
            command.len() as int,
        ),
{
    lemma_escape_lengths();
    lemma_first_place(command, escape_end(), rest);
}

proof fn lemma_first_place(head: Seq<u8>, needle: Seq<u8>, tail: Seq<u8>)
    requires
        !head.contains(27),
        needle.len() > 0,
        needle[0] == 27,
    ensures
        text::first_occurrence(head + needle + tail, needle) == Some(head.len() as int),
{
    let whole = head + needle + tail;
    let n = head.len() as int;
    assert(whole.subrange(n, n + needle.len()) =~= needle);
    assert forall|j: int| 0 <= j < n implies !text::occurs_at(whole, needle, j) by {
        if text::occurs_at(whole, needle, j) {
            assert(whole.subrange(j, j + needle.len())[0] == whole[j]);
            assert(whole[j] == head[j]);
            assert(head.contains(head[j]));
        }
    }
    text::lemma_first_occurrence(whole, needle, n);
}

} // verus!
