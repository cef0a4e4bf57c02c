//! Building blocks for text and for the byte streams sent to a terminal.
//!
//! Text is modelled by its characters, a byte stream by its bytes; the UTF-8
//! encoding that relates the two is the one `vstd` defines.

use vstd::prelude::*;
use vstd::slice::*;
use vstd::string::*;
use vstd::utf8::*;

verus! {

/// `String::push` appends one character and leaves the rest as it was.
pub assume_specification[ String::push ](s: &mut String, c: char)
    ensures
        final(s)@ == old(s)@.push(c),
;

/// Calls `std::str::from_utf8` and copies the text it finds. The claims: there is a text exactly
/// where the bytes are valid UTF-8, and it is what they encode.
#[verifier::external_body]
pub(crate) fn decode_text(bytes: &[u8]) -> (decoded: Option<String>)
    ensures
        decoded is Some <==> valid_utf8(bytes@),
        decoded is Some ==> decoded->0@ == decode_utf8(bytes@),
{
    std::str::from_utf8(bytes).ok().map(|text| text.to_string())
}

/// The bytes of `s` in UTF-8.
pub open spec fn utf8(s: &str) -> Seq<u8> {
    encode_utf8(s@)
}

/// The ASCII digits of `n` in base ten, without leading zeros.
pub open spec fn decimal(n: nat) -> Seq<u8>
    decreases n,
{
    if n < 10 {
        seq![(48 + n) as u8]
    } else {
        decimal(n / 10).push((48 + n % 10) as u8)
    }
}

/// The decimal form of a signed number: a minus sign before the magnitude of a negative one.
pub open spec fn signed_decimal(n: int) -> Seq<u8> {
    if n < 0 {
        seq![45u8] + decimal((-n) as nat)
    } else {
        decimal(n as nat)
    }
}

/// Appends `tail` to `out`.
pub fn push_bytes(out: &mut Vec<u8>, tail: &[u8])
    ensures
        final(out)@ == old(out)@ + tail@,
{
    out.extend_from_slice(tail);
    assert(out@ =~= old(out)@ + tail@);
}

/// Appends the UTF-8 bytes of `s` to `out`.
pub fn push_text(out: &mut Vec<u8>, s: &str)
    ensures
        final(out)@ == old(out)@ + utf8(s),
{
    push_bytes(out, s.as_bytes());
}

/// Appends the decimal digits of `n` to `out`.
pub fn push_decimal(out: &mut Vec<u8>, n: u64)
    ensures
        final(out)@ == old(out)@ + decimal(n as nat),
    decreases n,
{
    if n >= 10 {
        push_decimal(out, n / 10);
    }
    out.push(48 + (n % 10) as u8);
    assert(out@ =~= old(out)@ + decimal(n as nat));
}

/// Appends the decimal form of a signed number to `out`.
pub fn push_signed(out: &mut Vec<u8>, n: i32)
    ensures
        final(out)@ == old(out)@ + signed_decimal(n as int),
{
    if n < 0 {
        out.push(45);
        let magnitude: i64 = -(n as i64);
        push_decimal(out, magnitude as u64);
        assert(out@ =~= old(out)@ + signed_decimal(n as int));
    } else {
        push_decimal(out, n as u64);
    }
}

/// The characters of `s`.
pub fn chars_of(s: &str) -> (chars: Vec<char>)
    ensures
        chars@ == s@,
{
    let mut chars: Vec<char> = Vec::new();
    for c in it: s.chars()
        invariant
            chars@ == it.seq().take(it.index()),
            it.seq() == s@,
    {
        chars.push(c);
        assert(chars@ =~= it.seq().take(it.index() + 1));
    }
    assert(chars@ =~= s@);
    chars
}

/// The text made of `chars`.
pub fn string_of(chars: &[char]) -> (s: String)
    ensures
        s@ == chars@,
{
    let mut s = String::new();
    let mut i: usize = 0;
    while i < chars.len()
        invariant
            i <= chars.len(),
            s@ == chars@.take(i as int),
        decreases chars.len() - i,
    {
        s.push(chars[i]);
        assert(chars@.take(i + 1) =~= chars@.take(i as int).push(chars@[i as int]));
        i += 1;
    }
    assert(chars@.take(i as int) =~= chars@);
    s
}

/// The lower case of an ASCII letter; any other character is its own.
pub open spec fn ascii_lower(c: char) -> char {
    if 'A' <= c && c <= 'Z' {
        (c as u32 + 32) as char
    } else {
        c
    }
}

/// Equal but for the case of ASCII letters.
pub open spec fn same_ignoring_ascii_case(a: Seq<char>, b: Seq<char>) -> bool {
    &&& a.len() == b.len()
    &&& forall|i: int| 0 <= i < a.len() ==> ascii_lower(#[trigger] a[i]) == ascii_lower(b[i])
}

pub fn to_ascii_lower(c: char) -> (lower: char)
    ensures
        lower == ascii_lower(c),
{
    if 'A' <= c && c <= 'Z' {
        ((c as u8) + 32) as char
    } else {
        c
    }
}

pub fn eq_ignore_ascii_case(a: &str, b: &str) -> (same: bool)
    ensures
        same == same_ignoring_ascii_case(a@, b@),
{
    let left = chars_of(a);
    let right = chars_of(b);
    if left.len() != right.len() {
        return false;
    }
    let mut i: usize = 0;
    while i < left.len()
        invariant
            left@ == a@,
            right@ == b@,
            left@.len() == right@.len(),
            i <= left@.len(),
            forall|j: int| 0 <= j < i ==> ascii_lower(#[trigger] a@[j]) == ascii_lower(b@[j]),
        decreases left@.len() - i,
    {
        if to_ascii_lower(left[i]) != to_ascii_lower(right[i]) {
            assert(ascii_lower(a@[i as int]) != ascii_lower(b@[i as int]));
            return false;
        }
        i += 1;
    }
    true
}

/// Whether two slices of characters are equal.
pub fn same_chars(a: &[char], b: &[char]) -> (same: bool)
    ensures
        same == (a@ == b@),
{
    if a.len() != b.len() {
        return false;
    }
    let mut i: usize = 0;
    while i < a.len()
        invariant
            a@.len() == b@.len(),
            i <= a@.len(),
            forall|j: int| 0 <= j < i ==> a@[j] == b@[j],
        decreases a@.len() - i,
    {
        if a[i] != b[i] {
            return false;
        }
        i += 1;
    }
    assert(a@ =~= b@);
    true
}

/// Whether two texts are equal.
pub fn same_text(a: &str, b: &str) -> (same: bool)
    ensures
        same == (a@ == b@),
{
    let a = chars_of(a);
    let b = chars_of(b);
    same_chars(a.as_slice(), b.as_slice())
}

/// `needle` stands in `hay` at position `i`.
pub open spec fn occurs_at<A>(hay: Seq<A>, needle: Seq<A>, i: int) -> bool {
    &&& 0 <= i
    &&& i + needle.len() <= hay.len()
    &&& hay.subrange(i, i + needle.len()) == needle
}

#[verifier::opaque]
/// The first place where `needle` stands in `hay`; an empty needle stands nowhere.
pub open spec fn first_occurrence<A>(hay: Seq<A>, needle: Seq<A>) -> Option<int> {
    if needle.len() > 0 && exists|i: int| occurs_at(hay, needle, i) {
        Some(
            choose|i: int|
                occurs_at(hay, needle, i) && forall|j: int|
                    0 <= j < i ==> !occurs_at(hay, needle, j),
        )
    } else {
        None
    }
}

/// The first place is the place before which there is none.
pub proof fn lemma_first_occurrence<A>(hay: Seq<A>, needle: Seq<A>, i: int)
    requires
        needle.len() > 0,
        occurs_at(hay, needle, i),
        forall|j: int| 0 <= j < i ==> !occurs_at(hay, needle, j),
    ensures
        first_occurrence(hay, needle) == Some(i),
{
    reveal(first_occurrence);
    let k = choose|k: int|
        occurs_at(hay, needle, k) && forall|j: int| 0 <= j < k ==> !occurs_at(hay, needle, j);
    assert(occurs_at(hay, needle, k));
    if k < i {
        assert(!occurs_at(hay, needle, k));
    } else if i < k {
        assert(!occurs_at(hay, needle, i));
    }
}

/// Whether two slices of bytes are equal.
pub fn same_bytes(a: &[u8], b: &[u8]) -> (same: bool)
    ensures
        same == (a@ == b@),
{
    if a.len() != b.len() {
        return false;
    }
    let mut i: usize = 0;
    while i < a.len()
        invariant
            a@.len() == b@.len(),
            i <= a@.len(),
            forall|j: int| 0 <= j < i ==> a@[j] == b@[j],
        decreases a@.len() - i,
    {
        if a[i] != b[i] {
            return false;
        }
        i += 1;
    }
    assert(a@ =~= b@);
    true
}

/// The first place where `needle` stands in `haystack`.
pub fn find_subslice(haystack: &[u8], needle: &[u8]) -> (found: Option<usize>)
    ensures
        match found {
            Some(i) => first_occurrence(haystack@, needle@) == Some(i as int) && occurs_at(
                haystack@,
                needle@,
                i as int,
            ),
            None => first_occurrence(haystack@, needle@) is None,
        },
{
    let len: usize = haystack.len();
    let size: usize = needle.len();
    proof {
        reveal(first_occurrence);
    }
    if size == 0 || size > len {
        assert(first_occurrence(haystack@, needle@) is None);
        return None;
    }
    let mut i: usize = 0;
    while i <= len - size
        invariant
            len == haystack@.len(),
            size == needle@.len(),
            0 < size <= len,
            i <= len - size + 1,
            forall|j: int| 0 <= j < i ==> !occurs_at(haystack@, needle@, j),
        decreases len - size + 1 - i,
    {
        let window = slice_subrange(haystack, i, i + size);
        if same_bytes(window, needle) {
            proof {
                lemma_first_occurrence(haystack@, needle@, i as int);
            }
            return Some(i);
        }
        i += 1;
    }
    proof {
        reveal(first_occurrence);
    }
    assert forall|j: int| !occurs_at(haystack@, needle@, j) by {
        if occurs_at(haystack@, needle@, j) {
            assert(j < i);
        }
    }
    None
}

/// The number that decimal digits spell.
pub open spec fn decimal_value(digits: Seq<u8>) -> nat
    decreases digits.len(),
{
    if digits.len() == 0 {
        0
    } else {
        decimal_value(digits.drop_last()) * 10 + (digits.last() - 48) as nat
    }
}

pub open spec fn all_digits(s: Seq<u8>) -> bool {
    forall|i: int| 0 <= i < s.len() ==> 48 <= #[trigger] s[i] <= 57
}

/// The digits of a number that may have a plus sign before it.
pub open spec fn without_plus(s: Seq<u8>) -> Seq<u8> {
    if s.len() > 0 && s[0] == 43 {
        s.skip(1)
    } else {
        s
    }
}

/// The `u32` that a text spells: at least one digit, nothing but digits, and no more than fits.
pub open spec fn parsed_u32(s: Seq<u8>) -> Option<u32> {
    let digits = without_plus(s);
    if digits.len() > 0 && all_digits(digits) && decimal_value(digits) <= u32::MAX {
        Some(decimal_value(digits) as u32)
    } else {
        None
    }
}

/// More digits spell no smaller number.
proof fn lemma_decimal_value_grows(digits: Seq<u8>, n: int)
    requires
        all_digits(digits),
        0 <= n <= digits.len(),
    ensures
        decimal_value(digits.take(n)) <= decimal_value(digits),
    decreases digits.len() - n,
{
    if n == digits.len() {
        assert(digits.take(n) =~= digits);
    } else {
        lemma_decimal_value_grows(digits, n + 1);
        assert(digits.take(n + 1).drop_last() =~= digits.take(n));
        assert(digits.take(n + 1).last() == digits[n]);
    }
}

/// Reads a `u32` in base ten.
pub fn parse_u32(text: &[u8]) -> (number: Option<u32>)
    ensures
        number == parsed_u32(text@),
{
    let start: usize = if text.len() > 0 && text[0] == 43 {
        1
    } else {
        0
    };
    let digits = slice_subrange(text, start, text.len());
    assert(digits@ =~= without_plus(text@));
    if digits.len() == 0 {
        return None;
    }
    let mut value: u64 = 0;
    let mut i: usize = 0;
    while i < digits.len()
        invariant
            digits@ == without_plus(text@),
            digits@.len() > 0,
            i <= digits@.len(),
            forall|j: int| 0 <= j < i ==> 48 <= #[trigger] digits@[j] <= 57,
            value == decimal_value(digits@.take(i as int)),
            value <= u32::MAX,
        decreases digits@.len() - i,
    {
        let byte: u8 = digits[i];
        if byte < 48 || byte > 57 {
            assert(!all_digits(digits@));
            return None;
        }
        value = value * 10 + (byte - 48) as u64;
        proof {
            assert(digits@.take(i + 1).drop_last() =~= digits@.take(i as int));
            assert(digits@.take(i + 1).last() == byte);
        }
        if value > u32::MAX as u64 {
            proof {
                if all_digits(digits@) {
                    lemma_decimal_value_grows(digits@, i + 1);
                }
            }
            return None;
        }
        i += 1;
    }
    assert(digits@.take(i as int) =~= digits@);
    Some(value as u32)
}

/// Writing a number and reading it back gives the number.
pub proof fn law_decimal_round_trip(n: nat)
    ensures
        all_digits(decimal(n)),
        decimal(n).len() > 0,
        decimal_value(decimal(n)) == n,
        n <= u32::MAX ==> parsed_u32(decimal(n)) == Some(n as u32),
    decreases n,
{
    if n < 10 {
        let d = decimal(n);
        assert(d.drop_last() =~= Seq::<u8>::empty());
        assert(decimal_value(d.drop_last()) == 0);
        assert(without_plus(d) == d);
    } else {
        law_decimal_round_trip(n / 10);
        let d = decimal(n);
        let head = decimal(n / 10);
        assert(d.drop_last() =~= head);
        assert forall|i: int| 0 <= i < d.len() implies 48 <= #[trigger] d[i] <= 57 by {
            if i < head.len() {
                assert(d[i] == head[i]);
            }
        }
        assert(d[0] == head[0]);
        assert(without_plus(d) == d);
    }
}

/// The characters with the Unicode property `White_Space`.
pub open spec fn is_white_space(c: char) -> bool {
    ||| '\u{9}' <= c <= '\u{d}'
    ||| c == ' '
    ||| c == '\u{85}'
    ||| c == '\u{a0}'
    ||| c == '\u{1680}'
    ||| '\u{2000}' <= c <= '\u{200a}'
    ||| c == '\u{2028}'
    ||| c == '\u{2029}'
    ||| c == '\u{202f}'
    ||| c == '\u{205f}'
    ||| c == '\u{3000}'
}

pub fn char_is_white_space(c: char) -> (white: bool)
    ensures
        white == is_white_space(c),
{
    ('\u{9}' <= c && c <= '\u{d}') || c == ' ' || c == '\u{85}' || c == '\u{a0}' || c == '\u{1680}'
        || ('\u{2000}' <= c && c <= '\u{200a}') || c == '\u{2028}' || c == '\u{2029}' || c
        == '\u{202f}' || c == '\u{205f}' || c == '\u{3000}'
}

/// A text without the white space at its start.
pub open spec fn trimmed_start(s: Seq<char>) -> Seq<char>
    decreases s.len(),
{
    if s.len() > 0 && is_white_space(s[0]) {
        trimmed_start(s.skip(1))
    } else {
        s
    }
}

/// A text without the white space at its end.
pub open spec fn trimmed_end(s: Seq<char>) -> Seq<char>
    decreases s.len(),
{
    if s.len() > 0 && is_white_space(s.last()) {
        trimmed_end(s.drop_last())
    } else {
        s
    }
}

/// A text without the white space around it.
pub open spec fn trimmed(s: Seq<char>) -> Seq<char> {
    trimmed_end(trimmed_start(s))
}

pub fn trim_start(s: &[char]) -> (rest: &[char])
    ensures
        rest@ == trimmed_start(s@),
        rest@.len() <= s@.len(),
{
    let mut i: usize = 0;
    assert(s@.skip(0) =~= s@);
    while i < s.len() && char_is_white_space(s[i])
        invariant
            i <= s@.len(),
            trimmed_start(s@) == trimmed_start(s@.skip(i as int)),
        decreases s@.len() - i,
    {
        assert(s@.skip(i as int).skip(1) =~= s@.skip(i + 1));
        i += 1;
    }
    assert(i < s@.len() ==> s@.skip(i as int)[0] == s@[i as int]);
    let rest = slice_subrange(s, i, s.len());
    assert(rest@ =~= s@.skip(i as int));
    rest
}

pub fn trim_end(s: &[char]) -> (rest: &[char])
    ensures
        rest@ == trimmed_end(s@),
        rest@.len() <= s@.len(),
{
    let mut len: usize = s.len();
    assert(s@.take(len as int) =~= s@);
    while len > 0 && char_is_white_space(s[len - 1])
        invariant
            len <= s@.len(),
            trimmed_end(s@) == trimmed_end(s@.take(len as int)),
        decreases len,
    {
        assert(s@.take(len as int).drop_last() =~= s@.take(len - 1));
        len -= 1;
    }
    assert(len > 0 ==> s@.take(len as int).last() == s@[len - 1]);
    let rest = slice_subrange(s, 0, len);
    assert(rest@ =~= s@.take(len as int));
    rest
}

pub fn trim(s: &[char]) -> (rest: &[char])
    ensures
        rest@ == trimmed(s@),
        rest@.len() <= s@.len(),
{
    trim_end(trim_start(s))
}

/// The same text in a string of its own.
pub fn duplicate(s: &str) -> (copy: String)
    ensures
        copy@ == s@,
{
    s.to_owned()
}

/// A text that may be missing, by its characters.
pub open spec fn option_text(text: Option<String>) -> Option<Seq<char>> {
    match text {
        Some(text) => Some(text@),
        None => None,
    }
}

/// The decimal digits of `n` as characters.
pub open spec fn decimal_text(n: nat) -> Seq<char>
    decreases n,
{
    if n < 10 {
        seq![(48 + n) as char]
    } else {
        decimal_text(n / 10).push((48 + n % 10) as char)
    }
}

/// Appends the decimal digits of `n` to a text.
pub fn append_decimal(s: &mut String, n: u64)
    ensures
        final(s)@ == old(s)@ + decimal_text(n as nat),
    decreases n,
{
    if n >= 10 {
        append_decimal(s, n / 10);
    }
    s.push((48 + (n % 10) as u8) as char);
    assert(s@ =~= old(s)@ + decimal_text(n as nat));
}

/// The order of texts: by the first character in which they differ, a text before its
/// continuations.
pub open spec fn lex_before(a: Seq<char>, b: Seq<char>) -> bool
    decreases a.len(),
{
    if b.len() == 0 {
        false
    } else if a.len() == 0 {
        true
    } else if a[0] != b[0] {
        a[0] < b[0]
    } else {
        lex_before(a.skip(1), b.skip(1))
    }
}

pub proof fn lemma_lex_irreflexive(a: Seq<char>)
    ensures
        !lex_before(a, a),
    decreases a.len(),
{
    if a.len() > 0 {
        lemma_lex_irreflexive(a.skip(1));
    }
}

pub proof fn lemma_lex_total(a: Seq<char>, b: Seq<char>)
    ensures
        a == b || lex_before(a, b) || lex_before(b, a),
    decreases a.len(),
{
    if a.len() > 0 && b.len() > 0 && a[0] == b[0] {
        lemma_lex_total(a.skip(1), b.skip(1));
        if a.skip(1) == b.skip(1) {
            assert(a =~= seq![a[0]] + a.skip(1));
            assert(b =~= seq![b[0]] + b.skip(1));
        }
    } else if a.len() == 0 && b.len() == 0 {
        assert(a =~= b);
    }
}

pub proof fn lemma_lex_transitive(a: Seq<char>, b: Seq<char>, c: Seq<char>)
    requires
        lex_before(a, b),
        lex_before(b, c),
    ensures
        lex_before(a, c),
    decreases a.len(),
{
    if a.len() > 0 && a[0] == b[0] && b[0] == c[0] {
        lemma_lex_transitive(a.skip(1), b.skip(1), c.skip(1));
    }
}

pub fn text_before(a: &[char], b: &[char]) -> (before: bool)
    ensures
        before == lex_before(a@, b@),
{
    let mut i: usize = 0;
    assert(a@.skip(0) =~= a@);
    assert(b@.skip(0) =~= b@);
    while i < a.len() && i < b.len()
        invariant
            i <= a@.len(),
            i <= b@.len(),
            lex_before(a@, b@) == lex_before(a@.skip(i as int), b@.skip(i as int)),
        decreases a@.len() - i,
    {
        assert(a@.skip(i as int)[0] == a@[i as int]);
        assert(b@.skip(i as int)[0] == b@[i as int]);
        if a[i] != b[i] {
            return a[i] < b[i];
        }
        assert(a@.skip(i as int).skip(1) =~= a@.skip(i + 1));
        assert(b@.skip(i as int).skip(1) =~= b@.skip(i + 1));
        i += 1;
    }
    i < b.len()
}

/// The number that the decimal digits of a text spell.
pub open spec fn digits_value(digits: Seq<char>) -> nat
    decreases digits.len(),
{
    if digits.len() == 0 {
        0
    } else {
        digits_value(digits.drop_last()) * 10 + (digits.last() as int - 48) as nat
    }
}

pub open spec fn are_digits(s: Seq<char>) -> bool {
    forall|i: int| 0 <= i < s.len() ==> '0' <= #[trigger] s[i] <= '9'
}

/// The digits of a number that may have a plus sign before it.
pub open spec fn unsigned_digits(s: Seq<char>) -> Seq<char> {
    if s.len() > 0 && s[0] == '+' {
        s.skip(1)
    } else {
        s
    }
}

/// The number up to `max` that a text spells: at least one digit, nothing but digits.
pub open spec fn parsed_number(s: Seq<char>, max: nat) -> Option<nat> {
    let digits = unsigned_digits(s);
    if digits.len() > 0 && are_digits(digits) && digits_value(digits) <= max {
        Some(digits_value(digits))
    } else {
        None
    }
}

/// More digits spell no smaller number.
proof fn lemma_digits_value_grows(digits: Seq<char>, n: int)
    requires
        are_digits(digits),
        0 <= n <= digits.len(),
    ensures
        digits_value(digits.take(n)) <= digits_value(digits),
    decreases digits.len() - n,
{
    if n == digits.len() {
        assert(digits.take(n) =~= digits);
    } else {
        lemma_digits_value_grows(digits, n + 1);
        assert(digits.take(n + 1).drop_last() =~= digits.take(n));
        assert(digits.take(n + 1).last() == digits[n]);
    }
}

/// Reads a number in base ten that is at most `max`.
pub fn parse_number(text: &[char], max: u64) -> (number: Option<u64>)
    ensures
        match number {
            Some(n) => parsed_number(text@, max as nat) == Some(n as nat),
            None => parsed_number(text@, max as nat) is None,
        },
{
    let start: usize = if text.len() > 0 && text[0] == '+' {
        1
    } else {
        0
    };
    let digits = slice_subrange(text, start, text.len());
    assert(digits@ =~= unsigned_digits(text@));
    if digits.len() == 0 {
        return None;
    }
    let mut value: u128 = 0;
    let mut i: usize = 0;
    while i < digits.len()
        invariant
            digits@ == unsigned_digits(text@),
            digits@.len() > 0,
            i <= digits@.len(),
            forall|j: int| 0 <= j < i ==> '0' <= #[trigger] digits@[j] <= '9',
            value == digits_value(digits@.take(i as int)),
            value <= max,
        decreases digits@.len() - i,
    {
        let c = digits[i];
        if c < '0' || c > '9' {
            assert(!are_digits(digits@));
            return None;
        }
        value = value * 10 + (c as u32 - 48) as u128;
        proof {
            assert(digits@.take(i + 1).drop_last() =~= digits@.take(i as int));
            assert(digits@.take(i + 1).last() == c);
        }
        if value > max as u128 {
            proof {
                if are_digits(digits@) {
                    lemma_digits_value_grows(digits@, i + 1);
                }
            }
            return None;
        }
        i += 1;
    }
    assert(digits@.take(i as int) =~= digits@);
    Some(value as u64)
}

/// The place of the first `c`, or the length where there is none.
pub open spec fn index_of_char(s: Seq<char>, c: char) -> int
    decreases s.len(),
{
    if s.len() == 0 || s[0] == c {
        0
    } else {
        1 + index_of_char(s.skip(1), c)
    }
}

pub fn find_char(s: &[char], c: char) -> (at: usize)
    ensures
        at == index_of_char(s@, c),
        at <= s@.len(),
        at < s@.len() ==> s@[at as int] == c,
        forall|i: int| 0 <= i < at ==> #[trigger] s@[i] != c,
{
    let mut i: usize = 0;
    assert(s@.skip(0) =~= s@);
    while i < s.len()
        invariant
            i <= s@.len(),
            index_of_char(s@, c) == i + index_of_char(s@.skip(i as int), c),
            forall|j: int| 0 <= j < i ==> #[trigger] s@[j] != c,
        decreases s@.len() - i,
    {
        assert(s@.skip(i as int)[0] == s@[i as int]);
        if s[i] == c {
            return i;
        }
        assert(s@.skip(i as int).skip(1) =~= s@.skip(i + 1));
        i += 1;
    }
    i
}

/// A text without a given character at its start.
pub open spec fn stripped_start(s: Seq<char>, c: char) -> Seq<char>
    decreases s.len(),
{
    if s.len() > 0 && s[0] == c {
        stripped_start(s.skip(1), c)
    } else {
        s
    }
}

/// A text without a given character at its end.
pub open spec fn stripped_end(s: Seq<char>, c: char) -> Seq<char>
    decreases s.len(),
{
    if s.len() > 0 && s.last() == c {
        stripped_end(s.drop_last(), c)
    } else {
        s
    }
}

pub fn strip_start(s: &[char], c: char) -> (rest: &[char])
    ensures
        rest@ == stripped_start(s@, c),
        rest@.len() <= s@.len(),
{
    let mut i: usize = 0;
    assert(s@.skip(0) =~= s@);
    while i < s.len() && s[i] == c
        invariant
            i <= s@.len(),
            stripped_start(s@, c) == stripped_start(s@.skip(i as int), c),
        decreases s@.len() - i,
    {
        assert(s@.skip(i as int).skip(1) =~= s@.skip(i + 1));
        i += 1;
    }
    assert(i < s@.len() ==> s@.skip(i as int)[0] == s@[i as int]);
    let rest = slice_subrange(s, i, s.len());
    assert(rest@ =~= s@.skip(i as int));
    rest
}

pub fn strip_end(s: &[char], c: char) -> (rest: &[char])
    ensures
        rest@ == stripped_end(s@, c),
        rest@.len() <= s@.len(),
{
    let mut len: usize = s.len();
    assert(s@.take(len as int) =~= s@);
    while len > 0 && s[len - 1] == c
        invariant
            len <= s@.len(),
            stripped_end(s@, c) == stripped_end(s@.take(len as int), c),
        decreases len,
    {
        assert(s@.take(len as int).drop_last() =~= s@.take(len - 1));
        len -= 1;
    }
    assert(len > 0 ==> s@.take(len as int).last() == s@[len - 1]);
    let rest = slice_subrange(s, 0, len);
    assert(rest@ =~= s@.take(len as int));
    rest
}

/// Whether a text starts with another.
pub open spec fn starts_with(s: Seq<char>, prefix: Seq<char>) -> bool {
    s.len() >= prefix.len() && s.take(prefix.len() as int) == prefix
}

/// What follows a prefix.
pub fn strip_prefix<'a>(s: &'a [char], prefix: &str) -> (rest: Option<&'a [char]>)
    ensures
        match rest {
            Some(rest) => starts_with(s@, prefix@) && rest@ == s@.skip(prefix@.len() as int),
            None => !starts_with(s@, prefix@),
        },
{
    let wanted = chars_of(prefix);
    if s.len() < wanted.len() {
        return None;
    }
    let head = slice_subrange(s, 0, wanted.len());
    assert(head@ =~= s@.take(prefix@.len() as int));
    if !same_chars(head, wanted.as_slice()) {
        return None;
    }
    let rest = slice_subrange(s, wanted.len(), s.len());
    assert(rest@ =~= s@.skip(prefix@.len() as int));
    Some(rest)
}

/// The place where `needle` first stands in a text.
pub open spec fn index_of_text(s: Seq<char>, needle: Seq<char>) -> Option<int>
    decreases s.len(),
{
    if starts_with(s, needle) {
        Some(0)
    } else if s.len() == 0 {
        None
    } else {
        match index_of_text(s.skip(1), needle) {
            Some(i) => Some(i + 1),
            None => None,
        }
    }
}

pub fn find_text(s: &[char], needle: &str) -> (found: Option<usize>)
    ensures
        match found {
            Some(i) => index_of_text(s@, needle@) == Some(i as int) && i + needle@.len() <= s@.len(),
            None => index_of_text(s@, needle@) is None,
        },
{
    let mut i: usize = 0;
    assert(s@.skip(0) =~= s@);
    while i < s.len()
        invariant
            i <= s@.len(),
            index_of_text(s@, needle@) == match index_of_text(s@.skip(i as int), needle@) {
                Some(k) => Some(k + i),
                None => None,
            },
        decreases s@.len() - i,
    {
        let rest = slice_subrange(s, i, s.len());
        assert(rest@ =~= s@.skip(i as int));
        if strip_prefix(rest, needle).is_some() {
            return Some(i);
        }
        assert(s@.skip(i as int).skip(1) =~= s@.skip(i + 1));
        i += 1;
    }
    let rest = slice_subrange(s, i, s.len());
    assert(rest@ =~= s@.skip(i as int));
    if strip_prefix(rest, needle).is_some() {
        return Some(i);
    }
    None
}

/// The place of the last `c`.
pub open spec fn last_index_of_char(s: Seq<char>, c: char) -> Option<int>
    decreases s.len(),
{
    if s.len() == 0 {
        None
    } else if s.last() == c {
        Some(s.len() - 1)
    } else {
        last_index_of_char(s.drop_last(), c)
    }
}

pub fn find_last_char(s: &[char], c: char) -> (at: Option<usize>)
    ensures
        match at {
            Some(i) => last_index_of_char(s@, c) == Some(i as int) && i < s@.len(),
            None => last_index_of_char(s@, c) is None,
        },
{
    let mut len: usize = s.len();
    assert(s@.take(len as int) =~= s@);
    while len > 0
        invariant
            len <= s@.len(),
            last_index_of_char(s@, c) == last_index_of_char(s@.take(len as int), c),
        decreases len,
    {
        assert(s@.take(len as int).last() == s@[len - 1]);
        assert(s@.take(len as int).drop_last() =~= s@.take(len - 1));
        if s[len - 1] == c {
            return Some(len - 1);
        }
        len -= 1;
    }
    None
}

/// A line without the carriage return before its end.
pub open spec fn without_return(line: Seq<char>) -> Seq<char> {
    if line.len() > 0 && line.last() == '\r' {
        line.drop_last()
    } else {
        line
    }
}

/// The lines of a text: each ends at a line feed, with or without a carriage return before it,
/// and what follows the last line feed is a line unless it is empty.
pub open spec fn lines_of(s: Seq<char>) -> Seq<Seq<char>>
    decreases s.len(),
{
    if s.len() == 0 {
        seq![]
    } else {
        let end = index_of_char(s, '\n');
        if 0 <= end < s.len() {
            seq![without_return(s.take(end))] + lines_of(s.skip(end + 1))
        } else {
            seq![s]
        }
    }
}

/// Lists of characters by what they hold.
pub open spec fn char_lists(lists: Seq<Vec<char>>) -> Seq<Seq<char>> {
    lists.map_values(|list: Vec<char>| list@)
}

/// The characters of a slice in a vector of their own.
pub fn copy_chars(s: &[char]) -> (copy: Vec<char>)
    ensures
        copy@ == s@,
{
    let mut copy: Vec<char> = Vec::new();
    let mut i: usize = 0;
    while i < s.len()
        invariant
            i <= s@.len(),
            copy@ == s@.take(i as int),
        decreases s@.len() - i,
    {
        copy.push(s[i]);
        assert(copy@ =~= s@.take(i + 1));
        i += 1;
    }
    assert(s@.take(i as int) =~= s@);
    copy
}

pub fn split_lines(s: &[char]) -> (lines: Vec<Vec<char>>)
    ensures
        char_lists(lines@) == lines_of(s@),
{
    let mut lines: Vec<Vec<char>> = Vec::new();
    let mut at: usize = 0;
    assert(s@.skip(0) =~= s@);
    assert(char_lists(lines@) =~= seq![]);
    assert(lines_of(s@) =~= seq![] + lines_of(s@));
    while at < s.len()
        invariant
            at <= s@.len(),
            lines_of(s@) == char_lists(lines@) + lines_of(s@.skip(at as int)),
        decreases s@.len() - at,
    {
        let rest = slice_subrange(s, at, s.len());
        assert(rest@ =~= s@.skip(at as int));
        let ghost before = char_lists(lines@);
        let end: usize = find_char(rest, '\n');
        if end < rest.len() {
            let stop: usize = if end > 0 && rest[end - 1] == '\r' {
                end - 1
            } else {
                end
            };
            let line = slice_subrange(rest, 0, stop);
            proof {
                let raw = rest@.take(end as int);
                if end > 0 {
                    assert(raw.last() == rest@[end - 1]);
                }
                assert(line@ =~= without_return(raw));
            }
            let line = copy_chars(line);
            lines.push(line);
            at = at + end + 1;
            proof {
                assert(s@.skip(at as int) =~= rest@.skip(end + 1));
                assert(char_lists(lines@) =~= before.push(line@));
                assert(before + (seq![line@] + lines_of(s@.skip(at as int))) =~= char_lists(lines@)
                    + lines_of(s@.skip(at as int)));
            }
        } else {
            let line = copy_chars(rest);
            lines.push(line);
            at = s.len();
            proof {
                assert(s@.skip(at as int) =~= seq![]);
                assert(char_lists(lines@) =~= before.push(line@));
                assert(before + seq![line@] =~= char_lists(lines@) + lines_of(s@.skip(at as int)));
            }
        }
    }
    assert(s@.skip(at as int) =~= seq![]);
    assert(char_lists(lines@) + seq![] =~= char_lists(lines@));
    lines
}

/// The texts of strings.
pub open spec fn texts(strings: Seq<String>) -> Seq<Seq<char>> {
    strings.map_values(|s: String| s@)
}

/// A character that a text does not hold is first found behind it.
pub proof fn lemma_index_past(a: Seq<char>, b: Seq<char>, c: char)
    requires
        forall|i: int| 0 <= i < a.len() ==> a[i] != c,
    ensures
        index_of_char(a + b, c) == a.len() + index_of_char(b, c),
    decreases a.len(),
{
    if a.len() == 0 {
        assert(a + b =~= b);
    } else {
        assert((a + b)[0] == a[0]);
        assert((a + b).skip(1) =~= a.skip(1) + b);
        lemma_index_past(a.skip(1), b, c);
    }
}

/// A text without white space at its ends is not trimmed.
pub proof fn lemma_not_trimmed(s: Seq<char>)
    requires
        s.len() > 0,
        !is_white_space(s[0]),
        !is_white_space(s.last()),
    ensures
        trimmed(s) == s,
{
}

/// A number that is written out is read back as itself, and its text is digits alone.
pub proof fn law_number_round_trip(n: nat, max: nat)
    ensures
        are_digits(decimal_text(n)),
        decimal_text(n).len() > 0,
        digits_value(decimal_text(n)) == n,
        n <= max ==> parsed_number(decimal_text(n), max) == Some(n),
        n > max ==> parsed_number(decimal_text(n), max) is None,
    decreases n,
{
    let d = decimal_text(n);
    if n < 10 {
        assert(d.drop_last() =~= Seq::<char>::empty());
        assert(digits_value(d.drop_last()) == 0);
    } else {
        law_number_round_trip(n / 10, max);
        let head = decimal_text(n / 10);
        assert(d.drop_last() =~= head);
        assert forall|i: int| 0 <= i < d.len() implies '0' <= #[trigger] d[i] <= '9' by {
            if i < head.len() {
                assert(d[i] == head[i]);
            }
        }
    }
    assert(d[0] != '+');
    assert(unsigned_digits(d) == d);
}

/// What is trimmed has no white space at its ends, and only white space was taken away: the text is
/// what is left, with white space before and behind it.
pub proof fn law_trimming_takes_white_space_alone(before: Seq<char>, s: Seq<char>, behind: Seq<char>)
    requires
        forall|i: int| 0 <= i < before.len() ==> is_white_space(#[trigger] before[i]),
        forall|i: int| 0 <= i < behind.len() ==> is_white_space(#[trigger] behind[i]),
        s.len() > 0 ==> !is_white_space(s[0]) && !is_white_space(s.last()),
    ensures
        trimmed(before + s + behind) == s,
    decreases before.len() + behind.len(),
{
    let whole = before + s + behind;
    if before.len() > 0 {
        assert(whole[0] == before[0]);
        assert(whole.skip(1) =~= before.skip(1) + s + behind);
        assert forall|i: int| 0 <= i < before.skip(1).len() implies is_white_space(
            #[trigger] before.skip(1)[i],
        ) by {
            assert(before.skip(1)[i] == before[i + 1]);
        }
        law_trimming_takes_white_space_alone(before.skip(1), s, behind);
    } else if behind.len() > 0 && s.len() > 0 {
        assert(whole[0] == s[0]);
        assert(whole.last() == behind.last());
        assert(whole.drop_last() =~= before + s + behind.drop_last());
        law_trimming_takes_white_space_alone(before, s, behind.drop_last());
        assert((before + s + behind.drop_last())[0] == s[0]);
    } else if behind.len() > 0 {
        assert(whole[0] == behind[0]);
        assert(whole.skip(1) =~= before + s + behind.skip(1));
        assert forall|i: int| 0 <= i < behind.skip(1).len() implies is_white_space(
            #[trigger] behind.skip(1)[i],
        ) by {
            assert(behind.skip(1)[i] == behind[i + 1]);
        }
        law_trimming_takes_white_space_alone(before, s, behind.skip(1));
    } else {
        assert(whole =~= s);
    }
}

/// Lines that hold no line feed, each with one behind it, with a carriage return or without, are
/// the lines of the text that they make. The last one may end with the text.
pub proof fn law_lines_are_what_was_written(line: Seq<char>, returned: bool, rest: Seq<char>)
    requires
        !line.contains('\n'),
        line.len() > 0 ==> line.last() != '\r',
    ensures
        lines_of(line + (if returned {
            seq!['\r', '\n']
        } else {
            seq!['\n']
        }) + rest) == seq![line] + lines_of(rest),
        line.len() > 0 ==> lines_of(line) == seq![line],
        lines_of(Seq::empty()) == Seq::<Seq<char>>::empty(),
{
    let head = if returned {
        line.push('\r')
    } else {
        line
    };
    let ending = if returned {
        seq!['\r', '\n']
    } else {
        seq!['\n']
    };
    let whole = line + ending + rest;
    let tail = seq!['\n'] + rest;
    assert(whole =~= head + tail);
    assert forall|i: int| 0 <= i < line.len() implies line[i] != '\n' by {
        assert(line.contains(line[i]));
    }
    assert forall|i: int| 0 <= i < head.len() implies head[i] != '\n' by {
        if i < line.len() {
            assert(head[i] == line[i]);
        }
    }
    lemma_index_past(head, tail, '\n');
    assert(whole.take(head.len() as int) =~= head);
    assert(whole.skip(head.len() as int + 1) =~= rest);
    assert(without_return(head) =~= line);
    assert(line + seq![] =~= line);
    lemma_index_past(line, seq![], '\n');
}

/// What is taken off the start or the end of a text is the given character alone, as often as it
/// stands there.
pub proof fn law_stripping_takes_one_character(count: nat, c: char, s: Seq<char>)
    requires
        s.len() > 0 ==> s[0] != c && s.last() != c,
    ensures
        stripped_start(Seq::new(count, |i: int| c) + s, c) == s,
        stripped_end(s + Seq::new(count, |i: int| c), c) == s,
    decreases count,
{
    let run = Seq::new(count, |i: int| c);
    if count == 0 {
        assert(run + s =~= s);
        assert(s + run =~= s);
    } else {
        let less = Seq::new((count - 1) as nat, |i: int| c);
        law_stripping_takes_one_character((count - 1) as nat, c, s);
        assert((run + s).skip(1) =~= less + s);
        assert((s + run).drop_last() =~= s + less);
        assert((s + run).last() == c);
    }
}

/// A text is found where it first stands, and only where it stands.
pub proof fn law_a_text_is_found_where_it_first_stands(s: Seq<char>, needle: Seq<char>, i: int)
    ensures
        index_of_text(s, needle) matches Some(at) ==> occurs_at(s, needle, at),
        occurs_at(s, needle, i) ==> index_of_text(s, needle) is Some && index_of_text(s, needle)->0
            <= i,
    decreases s.len(),
{
    if starts_with(s, needle) {
        assert(s.take(needle.len() as int) =~= s.subrange(0, needle.len() as int));
    } else if s.len() > 0 {
        let rest = s.skip(1);
        law_a_text_is_found_where_it_first_stands(rest, needle, i - 1);
        if let Some(at) = index_of_text(rest, needle) {
            assert(s.subrange(at + 1, at + 1 + needle.len()) =~= rest.subrange(
                at,
                at + needle.len(),
            ));
        }
        if occurs_at(s, needle, i) {
            if i == 0 {
                assert(s.take(needle.len() as int) =~= s.subrange(0, needle.len() as int));
            } else {
                assert(rest.subrange(i - 1, i - 1 + needle.len()) =~= s.subrange(
                    i,
                    i + needle.len(),
                ));
            }
        }
    } else if occurs_at(s, needle, i) {
        assert(s.take(0) =~= needle);
    }
}

/// A character is found where it first stands, and from behind where it last stands.
pub proof fn law_a_character_is_found(before: Seq<char>, c: char, behind: Seq<char>)
    ensures
        !before.contains(c) ==> index_of_char(before + seq![c] + behind, c) == before.len(),
        !before.contains(c) ==> index_of_char(before, c) == before.len(),
        !behind.contains(c) ==> last_index_of_char(before + seq![c] + behind, c) == Some(
            before.len() as int,
        ),
        !behind.contains(c) ==> last_index_of_char(behind, c) is None,
{
    if !before.contains(c) {
        assert forall|i: int| 0 <= i < before.len() implies before[i] != c by {
            assert(before.contains(before[i]));
        }
        lemma_index_past(before, seq![c] + behind, c);
        assert(before + seq![c] + behind =~= before + (seq![c] + behind));
        lemma_index_past(before, seq![], c);
        assert(before + seq![] =~= before);
    }
    if !behind.contains(c) {
        lemma_last_past(before + seq![c], behind, c);
        assert((before + seq![c]).last() == c);
        lemma_last_past(seq![], behind, c);
        assert(seq![] + behind =~= behind);
    }
}

proof fn lemma_last_past(a: Seq<char>, b: Seq<char>, c: char)
    requires
        !b.contains(c),
    ensures
        last_index_of_char(a + b, c) == last_index_of_char(a, c),
    decreases b.len(),
{
    if b.len() == 0 {
        assert(a + b =~= a);
    } else {
        assert(b.contains(b.last()));
        assert((a + b).last() == b.last());
        assert((a + b).drop_last() =~= a + b.drop_last());
        assert(!b.drop_last().contains(c)) by {
            if b.drop_last().contains(c) {
                let i = choose|i: int| 0 <= i < b.drop_last().len() && b.drop_last()[i] == c;
                assert(b[i] == c);
            }
        }
        lemma_last_past(a, b.drop_last(), c);
    }
}

/// Texts are alike but for their case where each character is, and only the letters of ASCII have a
/// case.
pub proof fn law_only_letters_have_a_case(c: char, d: char)
    ensures
        'A' <= c <= 'Z' ==> ascii_lower(c) as u32 == c as u32 + ('a' as u32 - 'A' as u32),
        !('A' <= c <= 'Z') ==> ascii_lower(c) == c,
        ascii_lower(c) == ascii_lower(d) ==> c == d || ('A' <= c <= 'Z' && d as u32 == c as u32
            + 32) || ('A' <= d <= 'Z' && c as u32 == d as u32 + 32),
{
}

/// Texts are ordered by the first character in which they differ, and a text comes before its
/// continuations.
pub proof fn law_the_first_difference_orders(
    common: Seq<char>,
    a: char,
    b: char,
    behind_a: Seq<char>,
    behind_b: Seq<char>,
)
    ensures
        a < b ==> lex_before(common + seq![a] + behind_a, common + seq![b] + behind_b),
        lex_before(common, common + seq![b] + behind_b),
        a < b ==> !lex_before(common + seq![b] + behind_b, common + seq![a] + behind_a),
        !lex_before(common + seq![b] + behind_b, common),
    decreases common.len(),
{
    let left = common + seq![a] + behind_a;
    let right = common + seq![b] + behind_b;
    if common.len() == 0 {
        assert(left[0] == a && right[0] == b);
    } else {
        assert(left.skip(1) =~= common.skip(1) + seq![a] + behind_a);
        assert(right.skip(1) =~= common.skip(1) + seq![b] + behind_b);
        assert(left[0] == common[0] && right[0] == common[0]);
        law_the_first_difference_orders(common.skip(1), a, b, behind_a, behind_b);
    }
}

} // verus!
