//! What a terminal reads in the escapes that it is sent.
//!
//! The control data of an escape is a list of keys and values, `key=value` with commas between
//! them, up to a semicolon; what follows is the payload. A terminal looks every value up by its key,
//! whatever their order.

use crate::kitty_graphics::encode;
use crate::kitty_graphics::encode::GraphicsCommand;
use crate::kitty_graphics::model::{ClippedPlacement, GraphicsAnimation, HostPlacement};
use crate::text;
use vstd::prelude::*;
use vstd::utf8::*;

verus! {

/// The place of the first comma, or the length where there is none.
pub open spec fn comma(s: Seq<u8>) -> int
    decreases s.len(),
{
    if s.len() == 0 || s[0] == 44 {
        0
    } else {
        1 + comma(s.skip(1))
    }
}

/// The value of a key in control data: of the first part that starts with the key and an equals
/// sign.
#[verifier::opaque]
pub open spec fn value_of(control: Seq<u8>, key: u8) -> Option<Seq<u8>>
    decreases control.len(),
{
    let end = comma(control);
    if end < 0 || end > control.len() {
        None
    } else {
        let part = control.take(end);
        if part.len() >= 2 && part[0] == key && part[1] == 61 {
            Some(part.skip(2))
        } else if end < control.len() {
            value_of(control.skip(end + 1), key)
        } else {
            None
        }
    }
}

/// A value that is a number.
pub open spec fn number(n: int) -> Option<Seq<u8>> {
    Some(text::signed_decimal(n))
}

/// A value that is a number, and is left out where it is zero.
pub open spec fn number_if_any(n: int) -> Option<Seq<u8>> {
    if n > 0 {
        Some(text::signed_decimal(n))
    } else {
        None
    }
}

/// A value of one letter.
pub open spec fn letter(c: u8) -> Option<Seq<u8>> {
    Some(seq![c])
}

/// An escape with its control data and its payload.
pub open spec fn escape(control: Seq<u8>, payload: Seq<u8>) -> Seq<u8> {
    seq![27u8, 95, 71] + control + seq![59u8] + payload + seq![27u8, 92]
}

proof fn lemma_comma(s: Seq<u8>)
    ensures
        0 <= comma(s) <= s.len(),
        forall|i: int| 0 <= i < comma(s) ==> s[i] != 44,
        comma(s) < s.len() ==> s[comma(s)] == 44,
    decreases s.len(),
{
    if s.len() > 0 && s[0] != 44 {
        lemma_comma(s.skip(1));
        assert forall|i: int| 0 <= i < comma(s) implies s[i] != 44 by {
            if i > 0 {
                assert(s[i] == s.skip(1)[i - 1]);
            }
        }
    }
}

proof fn lemma_comma_past(a: Seq<u8>, b: Seq<u8>)
    requires
        forall|i: int| 0 <= i < a.len() ==> a[i] != 44,
    ensures
        comma(a + b) == a.len() + comma(b),
    decreases a.len(),
{
    if a.len() == 0 {
        assert(a + b =~= b);
    } else {
        assert((a + b)[0] == a[0]);
        assert((a + b).skip(1) =~= a.skip(1) + b);
        lemma_comma_past(a.skip(1), b);
    }
}

/// Parts behind a comma are looked through where those before it do not hold the key.
proof fn lemma_joined(a: Seq<u8>, b: Seq<u8>, key: u8)
    ensures
        value_of(a + seq![44u8] + b, key) == match value_of(a, key) {
            Some(value) => Some(value),
            None => value_of(b, key),
        },
    decreases a.len(),
{
    reveal_with_fuel(value_of, 2);
    let whole = a + seq![44u8] + b;
    lemma_comma(a);
    let end = comma(a);
    let part = a.take(end);
    let rest = a.skip(end) + seq![44u8] + b;
    assert(whole =~= part + rest);
    lemma_comma_past(part, rest);
    if end < a.len() {
        assert(rest[0] == a[end]);
        assert(whole.take(end) =~= part);
        assert(whole.skip(end + 1) =~= a.skip(end + 1) + seq![44u8] + b);
        lemma_joined(a.skip(end + 1), b, key);
    } else {
        assert(rest[0] == 44);
        assert(whole.take(end) =~= part);
        assert(part =~= a);
        assert(whole.skip(end + 1) =~= b);
    }
}

/// A text without a comma.
spec fn plain(s: Seq<u8>) -> bool {
    forall|i: int| 0 <= i < s.len() ==> #[trigger] s[i] != 44
}

/// A key with its value.
spec fn part(key: u8, value: Seq<u8>) -> Seq<u8> {
    seq![key, 61u8] + value
}

/// Control data with one more key and its value.
spec fn further(before: Seq<u8>, key: u8, value: Seq<u8>) -> Seq<u8> {
    before + seq![44u8, key, 61u8] + value
}

proof fn lemma_first(key: u8, value: Seq<u8>)
    requires
        plain(value),
        key != 44,
    ensures
        forall|k: u8|
            #[trigger] value_of(part(key, value), k) == if k == key {
                Some(value)
            } else {
                None
            },
{
    reveal_with_fuel(value_of, 2);
    let part = part(key, value);
    assert forall|i: int| 0 <= i < part.len() implies part[i] != 44 by {
        if i >= 2 {
            assert(part[i] == value[i - 2]);
        }
    }
    lemma_comma_past(part, seq![]);
    assert(part + seq![] =~= part);
    assert(part.take(part.len() as int) =~= part);
    assert(part.skip(2) =~= value);
}

/// One more part.
proof fn lemma_more(before: Seq<u8>, key: u8, value: Seq<u8>)
    requires
        plain(value),
        key != 44,
    ensures
        forall|k: u8|
            #[trigger] value_of(further(before, key, value), k) == match value_of(
                before,
                k,
            ) {
                Some(found) => Some(found),
                None => if k == key {
                    Some(value)
                } else {
                    None
                },
            },
{
    let whole = further(before, key, value);
    let part = part(key, value);
    assert(whole =~= before + seq![44u8] + part);
    lemma_first(key, value);
    assert forall|k: u8| #[trigger] value_of(whole, k) == match value_of(before, k) {
        Some(found) => Some(found),
        None => if k == key {
            Some(value)
        } else {
            None
        },
    } by {
        lemma_joined(before, part, k);
    }
}

proof fn lemma_numbers_are_plain(n: nat)
    ensures
        plain(text::decimal(n)),
        text::signed_decimal(n as int) == text::decimal(n),
{
    text::law_decimal_round_trip(n);
    assert forall|i: int| 0 <= i < text::decimal(n).len() implies #[trigger] text::decimal(n)[i]
        != 44 by {}
}

proof fn lemma_signed_is_plain(n: int)
    ensures
        plain(text::signed_decimal(n)),
{
    if n < 0 {
        lemma_numbers_are_plain((-n) as nat);
        let s = text::signed_decimal(n);
        assert forall|i: int| 0 <= i < s.len() implies #[trigger] s[i] != 44 by {
            if i > 0 {
                assert(s[i] == text::decimal((-n) as nat)[i - 1]);
            }
        }
    } else {
        lemma_numbers_are_plain(n as nat);
    }
}

/// A labelled number as a further part.
proof fn lemma_field(before: Seq<u8>, label: &str, key: u8, n: nat)
    requires
        text::utf8(label) == seq![44u8, key, 61u8],
        key != 44,
    ensures
        forall|k: u8|
            #[trigger] value_of(before + encode::field(label, n), k) == match value_of(before, k) {
                Some(found) => Some(found),
                None => if k == key {
                    number(n as int)
                } else {
                    None
                },
            },
{
    lemma_numbers_are_plain(n);
    lemma_more(before, key, text::decimal(n));
    assert(before + encode::field(label, n) =~= further(before, key, text::decimal(n)));
}

proof fn lemma_optional_field(before: Seq<u8>, label: &str, key: u8, n: nat)
    requires
        text::utf8(label) == seq![44u8, key, 61u8],
        key != 44,
    ensures
        forall|k: u8|
            #[trigger] value_of(before + encode::optional_field(label, n), k) == match value_of(
                before,
                k,
            ) {
                Some(found) => Some(found),
                None => if k == key {
                    number_if_any(n as int)
                } else {
                    None
                },
            },
{
    lemma_field(before, label, key, n);
    if n == 0 {
        assert(before + encode::optional_field(label, n) =~= before);
    }
}

proof fn lemma_placing_words()
    ensures
        text::utf8(",p=") == seq![44u8, 112, 61],
        text::utf8(",c=") == seq![44u8, 99, 61],
        text::utf8(",r=") == seq![44u8, 114, 61],
        text::utf8(",z=") == seq![44u8, 122, 61],
        text::utf8("a=p,i=") == seq![97u8, 61, 112, 44, 105, 61],
        text::utf8(",C=1,q=2") == seq![44u8, 67, 61, 49, 44, 113, 61, 50],
{
    reveal_strlit(",p=");
    reveal_strlit(",c=");
    reveal_strlit(",r=");
    reveal_strlit(",z=");
    reveal_strlit("a=p,i=");
    reveal_strlit(",C=1,q=2");
    is_ascii_chars_encode_utf8(",p="@);
    is_ascii_chars_encode_utf8(",c="@);
    is_ascii_chars_encode_utf8(",r="@);
    is_ascii_chars_encode_utf8(",z="@);
    is_ascii_chars_encode_utf8("a=p,i="@);
    is_ascii_chars_encode_utf8(",C=1,q=2"@);
    assert(text::utf8(",p=") =~= seq![44u8, 112, 61]);
    assert(text::utf8(",c=") =~= seq![44u8, 99, 61]);
    assert(text::utf8(",r=") =~= seq![44u8, 114, 61]);
    assert(text::utf8(",z=") =~= seq![44u8, 122, 61]);
    assert(text::utf8("a=p,i=") =~= seq![97u8, 61, 112, 44, 105, 61]);
    assert(text::utf8(",C=1,q=2") =~= seq![44u8, 67, 61, 49, 44, 113, 61, 50]);
}

proof fn lemma_crop_words()
    ensures
        text::utf8(",x=") == seq![44u8, 120, 61],
        text::utf8(",y=") == seq![44u8, 121, 61],
        text::utf8(",w=") == seq![44u8, 119, 61],
        text::utf8(",h=") == seq![44u8, 104, 61],
        text::utf8(",X=") == seq![44u8, 88, 61],
        text::utf8(",Y=") == seq![44u8, 89, 61],
{
    reveal_strlit(",x=");
    reveal_strlit(",y=");
    reveal_strlit(",w=");
    reveal_strlit(",h=");
    reveal_strlit(",X=");
    reveal_strlit(",Y=");
    is_ascii_chars_encode_utf8(",x="@);
    is_ascii_chars_encode_utf8(",y="@);
    is_ascii_chars_encode_utf8(",w="@);
    is_ascii_chars_encode_utf8(",h="@);
    is_ascii_chars_encode_utf8(",X="@);
    is_ascii_chars_encode_utf8(",Y="@);
    assert(text::utf8(",x=") =~= seq![44u8, 120, 61]);
    assert(text::utf8(",y=") =~= seq![44u8, 121, 61]);
    assert(text::utf8(",w=") =~= seq![44u8, 119, 61]);
    assert(text::utf8(",h=") =~= seq![44u8, 104, 61]);
    assert(text::utf8(",X=") =~= seq![44u8, 88, 61]);
    assert(text::utf8(",Y=") =~= seq![44u8, 89, 61]);
}

proof fn lemma_frame_of_display()
    ensures
        text::utf8("\x1b_G") == seq![27u8, 95, 71],
        text::utf8(";\x1b\\") == seq![59u8, 27, 92],
        text::utf8("\x1b[") == seq![27u8, 91],
        text::utf8(";") == seq![59u8],
        text::utf8("H") == seq![72u8],
{
    reveal_strlit("\x1b_G");
    reveal_strlit(";\x1b\\");
    reveal_strlit("\x1b[");
    reveal_strlit(";");
    reveal_strlit("H");
    is_ascii_chars_encode_utf8("\x1b_G"@);
    is_ascii_chars_encode_utf8(";\x1b\\"@);
    is_ascii_chars_encode_utf8("\x1b["@);
    is_ascii_chars_encode_utf8(";"@);
    is_ascii_chars_encode_utf8("H"@);
    assert(text::utf8("\x1b_G") =~= seq![27u8, 95, 71]);
    assert(text::utf8(";\x1b\\") =~= seq![59u8, 27, 92]);
    assert(text::utf8("\x1b[") =~= seq![27u8, 91]);
    assert(text::utf8(";") =~= seq![59u8]);
    assert(text::utf8("H") =~= seq![72u8]);
}

proof fn lemma_deletion_words()
    ensures
        text::utf8("\x1b_Ga=d,d=I,i=") == seq![27u8, 95, 71, 97, 61, 100, 44, 100, 61, 73, 44, 105, 61],
        text::utf8("\x1b_Ga=d,d=i,i=") == seq![27u8, 95, 71, 97, 61, 100, 44, 100, 61, 105, 44, 105, 61],
        text::utf8(",q=2;\x1b\\") == seq![44u8, 113, 61, 50, 59, 27, 92],
        text::utf8(",p=") == seq![44u8, 112, 61],
{
    reveal_strlit("\x1b_Ga=d,d=I,i=");
    reveal_strlit("\x1b_Ga=d,d=i,i=");
    reveal_strlit(",q=2;\x1b\\");
    reveal_strlit(",p=");
    is_ascii_chars_encode_utf8("\x1b_Ga=d,d=I,i="@);
    is_ascii_chars_encode_utf8("\x1b_Ga=d,d=i,i="@);
    is_ascii_chars_encode_utf8(",q=2;\x1b\\"@);
    is_ascii_chars_encode_utf8(",p="@);
    assert(text::utf8("\x1b_Ga=d,d=I,i=") =~= seq![27u8, 95, 71, 97, 61, 100, 44, 100, 61, 73, 44, 105, 61]);
    assert(text::utf8("\x1b_Ga=d,d=i,i=") =~= seq![27u8, 95, 71, 97, 61, 100, 44, 100, 61, 105, 44, 105, 61]);
    assert(text::utf8(",q=2;\x1b\\") =~= seq![44u8, 113, 61, 50, 59, 27, 92]);
    assert(text::utf8(",p=") =~= seq![44u8, 112, 61]);
}

proof fn lemma_upload_words()
    ensures
        text::utf8(",s=") == seq![44u8, 115, 61],
        text::utf8(",v=") == seq![44u8, 118, 61],
        text::utf8(",i=") == seq![44u8, 105, 61],
        text::utf8(",q=2") == seq![44u8, 113, 61, 50],
{
    reveal_strlit(",s=");
    reveal_strlit(",v=");
    reveal_strlit(",i=");
    reveal_strlit(",q=2");
    is_ascii_chars_encode_utf8(",s="@);
    is_ascii_chars_encode_utf8(",v="@);
    is_ascii_chars_encode_utf8(",i="@);
    is_ascii_chars_encode_utf8(",q=2"@);
    assert(text::utf8(",s=") =~= seq![44u8, 115, 61]);
    assert(text::utf8(",v=") =~= seq![44u8, 118, 61]);
    assert(text::utf8(",i=") =~= seq![44u8, 105, 61]);
    assert(text::utf8(",q=2") =~= seq![44u8, 113, 61, 50]);
}

proof fn lemma_transport_words()
    ensures
        text::utf8("a=t,t=d,f=") == seq![97u8, 61, 116, 44, 116, 61, 100, 44, 102, 61],
        text::utf8("a=t,t=f,f=") == seq![97u8, 61, 116, 44, 116, 61, 102, 44, 102, 61],
        text::utf8("\x1b_G") == seq![27u8, 95, 71],
        text::utf8(",m=0;") == seq![44u8, 109, 61, 48, 59],
        text::utf8("\x1b\\") == seq![27u8, 92],
{
    reveal_strlit("a=t,t=d,f=");
    reveal_strlit("a=t,t=f,f=");
    reveal_strlit("\x1b_G");
    reveal_strlit(",m=0;");
    reveal_strlit("\x1b\\");
    is_ascii_chars_encode_utf8("a=t,t=d,f="@);
    is_ascii_chars_encode_utf8("a=t,t=f,f="@);
    is_ascii_chars_encode_utf8("\x1b_G"@);
    is_ascii_chars_encode_utf8(",m=0;"@);
    is_ascii_chars_encode_utf8("\x1b\\"@);
    assert(text::utf8("a=t,t=d,f=") =~= seq![97u8, 61, 116, 44, 116, 61, 100, 44, 102, 61]);
    assert(text::utf8("a=t,t=f,f=") =~= seq![97u8, 61, 116, 44, 116, 61, 102, 44, 102, 61]);
    assert(text::utf8("\x1b_G") =~= seq![27u8, 95, 71]);
    assert(text::utf8(",m=0;") =~= seq![44u8, 109, 61, 48, 59]);
    assert(text::utf8("\x1b\\") =~= seq![27u8, 92]);
}

proof fn lemma_piece_words()
    ensures
        text::utf8("\x1b_G") == seq![27u8, 95, 71],
        text::utf8("\x1b\\") == seq![27u8, 92],
        text::utf8(";") == seq![59u8],
        text::utf8(",m=") == seq![44u8, 109, 61],
        text::utf8("\x1b_Gm=") == seq![27u8, 95, 71, 109, 61],
{
    reveal_strlit("\x1b_G");
    reveal_strlit("\x1b\\");
    reveal_strlit(";");
    reveal_strlit(",m=");
    reveal_strlit("\x1b_Gm=");
    is_ascii_chars_encode_utf8("\x1b_G"@);
    is_ascii_chars_encode_utf8("\x1b\\"@);
    is_ascii_chars_encode_utf8(";"@);
    is_ascii_chars_encode_utf8(",m="@);
    is_ascii_chars_encode_utf8("\x1b_Gm="@);
    assert(text::utf8("\x1b_G") =~= seq![27u8, 95, 71]);
    assert(text::utf8("\x1b\\") =~= seq![27u8, 92]);
    assert(text::utf8(";") =~= seq![59u8]);
    assert(text::utf8(",m=") =~= seq![44u8, 109, 61]);
    assert(text::utf8("\x1b_Gm=") =~= seq![27u8, 95, 71, 109, 61]);
}

proof fn lemma_frame_words()
    ensures
        text::utf8("a=f,i=") == seq![97u8, 61, 102, 44, 105, 61],
        text::utf8(",f=") == seq![44u8, 102, 61],
        text::utf8(",s=") == seq![44u8, 115, 61],
        text::utf8(",v=") == seq![44u8, 118, 61],
        text::utf8(",z=") == seq![44u8, 122, 61],
        text::utf8(",q=2") == seq![44u8, 113, 61, 50],
        text::utf8(",a=f") == seq![44u8, 97, 61, 102],
{
    reveal_strlit("a=f,i=");
    reveal_strlit(",f=");
    reveal_strlit(",s=");
    reveal_strlit(",v=");
    reveal_strlit(",z=");
    reveal_strlit(",q=2");
    reveal_strlit(",a=f");
    is_ascii_chars_encode_utf8("a=f,i="@);
    is_ascii_chars_encode_utf8(",f="@);
    is_ascii_chars_encode_utf8(",s="@);
    is_ascii_chars_encode_utf8(",v="@);
    is_ascii_chars_encode_utf8(",z="@);
    is_ascii_chars_encode_utf8(",q=2"@);
    is_ascii_chars_encode_utf8(",a=f"@);
    assert(text::utf8("a=f,i=") =~= seq![97u8, 61, 102, 44, 105, 61]);
    assert(text::utf8(",f=") =~= seq![44u8, 102, 61]);
    assert(text::utf8(",s=") =~= seq![44u8, 115, 61]);
    assert(text::utf8(",v=") =~= seq![44u8, 118, 61]);
    assert(text::utf8(",z=") =~= seq![44u8, 122, 61]);
    assert(text::utf8(",q=2") =~= seq![44u8, 113, 61, 50]);
    assert(text::utf8(",a=f") =~= seq![44u8, 97, 61, 102]);
}

proof fn lemma_start_words()
    ensures
        text::utf8("\x1b_Ga=a,i=") == seq![27u8, 95, 71, 97, 61, 97, 44, 105, 61],
        text::utf8(",r=1,z=") == seq![44u8, 114, 61, 49, 44, 122, 61],
        text::utf8(",q=2;\x1b\\") == seq![44u8, 113, 61, 50, 59, 27, 92],
        text::utf8(",s=3,v=1,q=2;\x1b\\") == seq![44u8, 115, 61, 51, 44, 118, 61, 49, 44, 113, 61, 50, 59, 27, 92],
{
    reveal_strlit("\x1b_Ga=a,i=");
    reveal_strlit(",r=1,z=");
    reveal_strlit(",q=2;\x1b\\");
    reveal_strlit(",s=3,v=1,q=2;\x1b\\");
    is_ascii_chars_encode_utf8("\x1b_Ga=a,i="@);
    is_ascii_chars_encode_utf8(",r=1,z="@);
    is_ascii_chars_encode_utf8(",q=2;\x1b\\"@);
    is_ascii_chars_encode_utf8(",s=3,v=1,q=2;\x1b\\"@);
    assert(text::utf8("\x1b_Ga=a,i=") =~= seq![27u8, 95, 71, 97, 61, 97, 44, 105, 61]);
    assert(text::utf8(",r=1,z=") =~= seq![44u8, 114, 61, 49, 44, 122, 61]);
    assert(text::utf8(",q=2;\x1b\\") =~= seq![44u8, 113, 61, 50, 59, 27, 92]);
    assert(text::utf8(",s=3,v=1,q=2;\x1b\\") =~= seq![44u8, 115, 61, 51, 44, 118, 61, 49, 44, 113, 61, 50, 59, 27, 92]);
}

proof fn lemma_head(action: u8, id: Seq<u8>)
    ensures
        seq![97u8, 61, action, 44, 105, 61] + id == further(part(97, seq![action]), 105, id),
{
    assert(seq![97u8, 61, action, 44, 105, 61] + id =~= further(part(97, seq![action]), 105, id));
}

proof fn lemma_still_and_quiet(before: Seq<u8>)
    ensures
        before + seq![44u8, 67, 61, 49, 44, 113, 61, 50] == further(
            further(before, 67, seq![49u8]),
            113,
            seq![50u8],
        ),
        before + seq![44u8, 113, 61, 50] == further(before, 113, seq![50u8]),
{
    assert(before + seq![44u8, 67, 61, 49, 44, 113, 61, 50] =~= further(
        further(before, 67, seq![49u8]),
        113,
        seq![50u8],
    ));
    assert(before + seq![44u8, 113, 61, 50] =~= further(before, 113, seq![50u8]));
}

proof fn lemma_grouped(a: Seq<u8>, b: Seq<u8>, c: Seq<u8>)
    ensures
        a + (b + c) == a + b + c,
{
    assert(a + (b + c) =~= a + b + c);
}

proof fn lemma_grouped_six(
    p: Seq<u8>,
    a: Seq<u8>,
    b: Seq<u8>,
    c: Seq<u8>,
    d: Seq<u8>,
    e: Seq<u8>,
    f: Seq<u8>,
)
    ensures
        p + (a + b + c + d + e + f) == p + a + b + c + d + e + f,
{
    lemma_grouped(p, a + b + c + d + e, f);
    lemma_grouped(p, a + b + c + d, e);
    lemma_grouped(p, a + b + c, d);
    lemma_grouped(p, a + b, c);
    lemma_grouped(p, a, b);
}

proof fn lemma_display(cursor: Seq<u8>, placed: Seq<u8>, crop: Seq<u8>)
    ensures
        cursor + seq![27u8, 95, 71] + placed + crop + seq![59u8, 27, 92] == cursor + escape(
            placed + crop,
            seq![],
        ),
{
    assert(cursor + seq![27u8, 95, 71] + placed + crop + seq![59u8, 27, 92] =~= cursor + escape(
        placed + crop,
        seq![],
    ));
}

proof fn lemma_cursor(row: Seq<u8>, column: Seq<u8>)
    ensures
        seq![27u8, 91] + row + (seq![59u8] + column) + seq![72u8] == seq![27u8, 91] + row + seq![
            59u8,
        ] + column + seq![72u8],
{
    assert(seq![27u8, 91] + row + (seq![59u8] + column) + seq![72u8] =~= seq![27u8, 91] + row + seq![
        59u8,
    ] + column + seq![72u8]);
}

proof fn lemma_deletion(kind: u8, id: Seq<u8>, more: Seq<u8>)
    ensures
        seq![27u8, 95, 71, 97, 61, 100, 44, 100, 61, kind, 44, 105, 61] + id + more + seq![
            44u8,
            113,
            61,
            50,
            59,
            27,
            92,
        ] == escape(
            further(
                further(further(part(97, seq![100u8]), 100, seq![kind]), 105, id) + more,
                113,
                seq![50u8],
            ),
            seq![],
        ),
{
    assert(seq![27u8, 95, 71, 97, 61, 100, 44, 100, 61, kind, 44, 105, 61] + id + more + seq![
        44u8,
        113,
        61,
        50,
        59,
        27,
        92,
    ] =~= escape(
        further(
            further(further(part(97, seq![100u8]), 100, seq![kind]), 105, id) + more,
            113,
            seq![50u8],
        ),
        seq![],
    ));
}

proof fn lemma_transport(transport: u8, format: Seq<u8>)
    ensures
        seq![97u8, 61, 116, 44, 116, 61, transport, 44, 102, 61] + format == further(
            further(part(97, seq![116u8]), 116, seq![transport]),
            102,
            format,
        ),
{
    assert(seq![97u8, 61, 116, 44, 116, 61, transport, 44, 102, 61] + format =~= further(
        further(part(97, seq![116u8]), 116, seq![transport]),
        102,
        format,
    ));
}

proof fn lemma_from_file(control: Seq<u8>, payload: Seq<u8>)
    ensures
        seq![27u8, 95, 71] + control + seq![44u8, 109, 61, 48, 59] + payload + seq![27u8, 92]
            == escape(control + seq![44u8, 109, 61, 48], payload),
{
    assert(seq![27u8, 95, 71] + control + seq![44u8, 109, 61, 48, 59] + payload + seq![27u8, 92]
        =~= escape(control + seq![44u8, 109, 61, 48], payload));
}

proof fn lemma_continued(follows: u8, extra: Seq<u8>)
    ensures
        seq![27u8, 95, 71, 109, 61] + seq![follows] + extra == seq![27u8, 95, 71] + (seq![
            109u8,
            61,
            follows,
        ] + extra),
{
    assert(seq![27u8, 95, 71, 109, 61] + seq![follows] + extra =~= seq![27u8, 95, 71] + (seq![
        109u8,
        61,
        follows,
    ] + extra));
}

proof fn lemma_start(id: Seq<u8>, gap: Seq<u8>)
    ensures
        ({
            let named = further(part(97, seq![97u8]), 105, id);
            let head = seq![27u8, 95, 71, 97, 61, 97, 44, 105, 61] + id;
            head + (seq![44u8, 114, 61, 49, 44, 122, 61] + gap) + seq![
                44u8,
                113,
                61,
                50,
                59,
                27,
                92,
            ] + head + seq![44u8, 115, 61, 51, 44, 118, 61, 49, 44, 113, 61, 50, 59, 27, 92]
                == escape(
                further(further(further(named, 114, seq![49u8]), 122, gap), 113, seq![50u8]),
                seq![],
            ) + escape(
                further(
                    further(further(named, 115, seq![51u8]), 118, seq![49u8]),
                    113,
                    seq![50u8],
                ),
                seq![],
            )
        }),
{
    let named = further(part(97, seq![97u8]), 105, id);
    let head = seq![27u8, 95, 71, 97, 61, 97, 44, 105, 61] + id;
    let first = head + (seq![44u8, 114, 61, 49, 44, 122, 61] + gap) + seq![
        44u8,
        113,
        61,
        50,
        59,
        27,
        92,
    ];
    let tail = seq![44u8, 115, 61, 51, 44, 118, 61, 49, 44, 113, 61, 50, 59, 27, 92];
    assert(first =~= escape(
        further(further(further(named, 114, seq![49u8]), 122, gap), 113, seq![50u8]),
        seq![],
    ));
    assert(head + tail =~= escape(
        further(further(further(named, 115, seq![51u8]), 118, seq![49u8]), 113, seq![50u8]),
        seq![],
    ));
    lemma_grouped(first, head, tail);
}

proof fn lemma_placing_control(host_id: u32, host_placement_id: u32, cols: u32, rows: u32, z: i32)
    ensures
        forall|k: u8|
            #[trigger] value_of(
                encode::placement_control(host_id, host_placement_id, cols, rows, z),
                k,
            ) == if k == 97 {
                letter(112)
            } else if k == 105 {
                number(host_id as int)
            } else if k == 112 {
                number(host_placement_id as int)
            } else if k == 99 {
                number(cols as int)
            } else if k == 114 {
                number(rows as int)
            } else if k == 122 {
                number(z as int)
            } else if k == 67 {
                letter(49)
            } else if k == 113 {
                letter(50)
            } else {
                None
            },
{
    lemma_placing_words();
    lemma_first(97, seq![112u8]);
    let a0 = part(97, seq![112u8]);
    let id = text::decimal(host_id as nat);
    lemma_numbers_are_plain(host_id as nat);
    lemma_more(a0, 105, id);
    lemma_head(112, id);
    let a1 = further(a0, 105, id);
    lemma_field(a1, ",p=", 112, host_placement_id as nat);
    let a2 = a1 + encode::field(",p=", host_placement_id as nat);
    lemma_field(a2, ",c=", 99, cols as nat);
    let a3 = a2 + encode::field(",c=", cols as nat);
    lemma_field(a3, ",r=", 114, rows as nat);
    let a4 = a3 + encode::field(",r=", rows as nat);
    lemma_signed_is_plain(z as int);
    lemma_more(a4, 122, text::signed_decimal(z as int));
    let a5 = further(a4, 122, text::signed_decimal(z as int));
    lemma_more(a5, 67, seq![49u8]);
    let a6 = further(a5, 67, seq![49u8]);
    lemma_more(a6, 113, seq![50u8]);
    lemma_still_and_quiet(a5);
    assert(encode::placement_control(host_id, host_placement_id, cols, rows, z) == further(
        a6,
        113,
        seq![50u8],
    ));
}

proof fn lemma_cropped(placed: Seq<u8>, c: ClippedPlacement)
    ensures
        forall|k: u8|
            #[trigger] value_of(placed + encode::crop_control(c), k) == match value_of(placed, k) {
                Some(found) => Some(found),
                None => if k == 120 {
                    number_if_any(c.source_x as int)
                } else if k == 121 {
                    number_if_any(c.source_y as int)
                } else if k == 119 {
                    number_if_any(c.source_width as int)
                } else if k == 104 {
                    number_if_any(c.source_height as int)
                } else if k == 88 {
                    number_if_any(c.x_offset as int)
                } else if k == 89 {
                    number_if_any(c.y_offset as int)
                } else {
                    None
                },
            },
{
    lemma_crop_words();
    let x = encode::optional_field(",x=", c.source_x as nat);
    let y = encode::optional_field(",y=", c.source_y as nat);
    let w = encode::optional_field(",w=", c.source_width as nat);
    let h = encode::optional_field(",h=", c.source_height as nat);
    let right = encode::optional_field(",X=", c.x_offset as nat);
    let lower = encode::optional_field(",Y=", c.y_offset as nat);
    lemma_optional_field(placed, ",x=", 120, c.source_x as nat);
    lemma_optional_field(placed + x, ",y=", 121, c.source_y as nat);
    lemma_optional_field(placed + x + y, ",w=", 119, c.source_width as nat);
    lemma_optional_field(placed + x + y + w, ",h=", 104, c.source_height as nat);
    lemma_optional_field(placed + x + y + w + h, ",X=", 88, c.x_offset as nat);
    lemma_optional_field(placed + x + y + w + h + right, ",Y=", 89, c.y_offset as nat);
    lemma_grouped_six(placed, x, y, w, h, right, lower);
}

/// The terminal is told to show the image with its own id, under the placement's id, over so many
/// cells and at its depth, without moving the cursor and without an answer; and which part of the
/// image, each number in its own field, where it is not zero. Before that the cursor goes to the
/// first cell, which is counted from one.
pub proof fn law_a_placement_says_what_is_shown(
    c: ClippedPlacement,
    host_id: u32,
    host_placement_id: u32,
    z: i32,
)
    ensures
        ({
            let control = encode::placement_control(host_id, host_placement_id, c.cols, c.rows, z)
                + encode::crop_control(c);
            &&& encode::display_bytes(c, host_id, host_placement_id, z) == seq![27u8, 91]
                + text::decimal((c.y + 1) as nat) + seq![59u8] + text::decimal((c.x + 1) as nat)
                + seq![72u8] + escape(control, seq![])
            &&& value_of(control, 97) == letter(112)
            &&& value_of(control, 105) == number(host_id as int)
            &&& value_of(control, 112) == number(host_placement_id as int)
            &&& value_of(control, 99) == number(c.cols as int)
            &&& value_of(control, 114) == number(c.rows as int)
            &&& value_of(control, 122) == number(z as int)
            &&& value_of(control, 67) == letter(49)
            &&& value_of(control, 113) == letter(50)
            &&& value_of(control, 120) == number_if_any(c.source_x as int)
            &&& value_of(control, 121) == number_if_any(c.source_y as int)
            &&& value_of(control, 119) == number_if_any(c.source_width as int)
            &&& value_of(control, 104) == number_if_any(c.source_height as int)
            &&& value_of(control, 88) == number_if_any(c.x_offset as int)
            &&& value_of(control, 89) == number_if_any(c.y_offset as int)
        }),
{
    lemma_placing_control(host_id, host_placement_id, c.cols, c.rows, z);
    let placed = encode::placement_control(host_id, host_placement_id, c.cols, c.rows, z);
    lemma_cropped(placed, c);
    lemma_frame_of_display();
    let column = text::decimal((c.x + 1) as nat);
    let row = text::decimal((c.y + 1) as nat);
    lemma_cursor(row, column);
    lemma_display(encode::cursor_bytes(c.x, c.y), placed, encode::crop_control(c));
}

proof fn lemma_empty_behind(s: Seq<u8>)
    ensures
        s + Seq::<u8>::empty() == s,
{
    assert(s + Seq::<u8>::empty() =~= s);
}

/// Deleting an image names it and takes its placements along; deleting a placement names it and its
/// image, and leaves the image there. Neither asks for an answer.
pub proof fn law_deletions_name_what_goes(host_id: u32, host_placement_id: u32)
    ensures
        exists|control: Seq<u8>|
            {
                &&& encode::delete_image_bytes(host_id) == escape(control, seq![])
                &&& #[trigger] value_of(control, 97) == letter(100)
                &&& value_of(control, 100) == letter(73)
                &&& value_of(control, 105) == number(host_id as int)
                &&& value_of(control, 113) == letter(50)
                &&& value_of(control, 112) is None
            },
        exists|control: Seq<u8>|
            {
                &&& encode::delete_placement_bytes(host_id, host_placement_id) == escape(
                    control,
                    seq![],
                )
                &&& #[trigger] value_of(control, 97) == letter(100)
                &&& value_of(control, 100) == letter(105)
                &&& value_of(control, 105) == number(host_id as int)
                &&& value_of(control, 112) == number(host_placement_id as int)
                &&& value_of(control, 113) == letter(50)
            },
{
    lemma_deletion_words();
    let id = text::decimal(host_id as nat);
    lemma_numbers_are_plain(host_id as nat);
    let a0 = part(97, seq![100u8]);
    lemma_first(97, seq![100u8]);
    lemma_more(a0, 100, seq![73u8]);
    let a1 = further(a0, 100, seq![73u8]);
    lemma_more(a1, 105, id);
    let none = Seq::<u8>::empty();
    let a2 = further(a1, 105, id);
    lemma_empty_behind(a2);
    lemma_more(a2, 113, seq![50u8]);
    let a3 = further(a2, 113, seq![50u8]);
    lemma_deletion(73, id, none);
    lemma_empty_behind(encode::field("\x1b_Ga=d,d=I,i=", host_id as nat));
    assert(encode::delete_image_bytes(host_id) == escape(a3, seq![]));
    assert(value_of(a3, 97) == letter(100));
    lemma_more(a0, 100, seq![105u8]);
    let b1 = further(a0, 100, seq![105u8]);
    lemma_more(b1, 105, id);
    let b2 = further(b1, 105, id);
    lemma_field(b2, ",p=", 112, host_placement_id as nat);
    let more = encode::field(",p=", host_placement_id as nat);
    let b3 = b2 + more;
    lemma_more(b3, 113, seq![50u8]);
    let b4 = further(b3, 113, seq![50u8]);
    lemma_deletion(105, id, more);
    assert(encode::delete_placement_bytes(host_id, host_placement_id) == escape(b4, seq![]));
    assert(value_of(b4, 97) == letter(100));
}

/// An upload says format, width, height and id of the image, each in its own field, and how it
/// travels.
pub open spec fn announces(
    control: Seq<u8>,
    transport: u8,
    format_code: u32,
    width: u32,
    height: u32,
    host_id: u32,
) -> bool {
    &&& value_of(control, 97) == letter(116)
    &&& value_of(control, 116) == letter(transport)
    &&& value_of(control, 102) == number(format_code as int)
    &&& value_of(control, 115) == number(width as int)
    &&& value_of(control, 118) == number(height as int)
    &&& value_of(control, 105) == number(host_id as int)
    &&& value_of(control, 113) == letter(50)
}

proof fn lemma_upload_control(
    how: &str,
    transport: u8,
    format_code: u32,
    width: u32,
    height: u32,
    host_id: u32,
)
    requires
        text::utf8(how) == seq![97u8, 61, 116, 44, 116, 61, transport, 44, 102, 61],
        transport != 44,
    ensures
        announces(
            encode::upload_control(how, format_code, width, height, host_id),
            transport,
            format_code,
            width,
            height,
            host_id,
        ),
        value_of(encode::upload_control(how, format_code, width, height, host_id), 109) is None,
{
    lemma_upload_words();
    let a0 = part(97, seq![116u8]);
    lemma_first(97, seq![116u8]);
    lemma_more(a0, 116, seq![transport]);
    let a1 = further(a0, 116, seq![transport]);
    let format = text::decimal(format_code as nat);
    lemma_numbers_are_plain(format_code as nat);
    lemma_more(a1, 102, format);
    lemma_transport(transport, format);
    let a2 = further(a1, 102, format);
    lemma_field(a2, ",s=", 115, width as nat);
    let a3 = a2 + encode::field(",s=", width as nat);
    lemma_field(a3, ",v=", 118, height as nat);
    let a4 = a3 + encode::field(",v=", height as nat);
    lemma_field(a4, ",i=", 105, host_id as nat);
    let a5 = a4 + encode::field(",i=", host_id as nat);
    lemma_more(a5, 113, seq![50u8]);
    lemma_still_and_quiet(a5);
    let a6 = further(a5, 113, seq![50u8]);
    assert(encode::upload_control(how, format_code, width, height, host_id) == a6);
}

proof fn lemma_digit(follows: u8)
    ensures
        seq![44u8, 109, 61] + seq![follows] == seq![44u8, 109, 61, follows],
{
    assert(seq![44u8, 109, 61] + seq![follows] =~= seq![44u8, 109, 61, follows]);
}

proof fn lemma_pieces(piece: Seq<u8>, more: Seq<u8>)
    requires
        piece.len() > 0,
        more.len() > 0 ==> piece.len() == 3072,
        piece.len() <= 3072,
    ensures
        encode::first_chunk(piece + more) == piece,
        encode::later_chunks(piece + more) == more,
        encode::more_follows(piece + more) == if more.len() > 0 {
            1nat
        } else {
            0
        },
{
    assert(encode::first_chunk(piece + more) =~= piece);
    assert(encode::later_chunks(piece + more) =~= more);
}

/// Image data goes out in pieces of 3072 bytes, one escape each: the first with the whole control
/// data, and every one saying whether more follow. Where the data ends no more follow, and no data
/// makes no escape.
pub proof fn law_data_goes_in_pieces(
    control: Seq<u8>,
    extra: Seq<u8>,
    piece: Seq<u8>,
    more: Seq<u8>,
)
    requires
        piece.len() > 0,
        more.len() > 0 ==> piece.len() == 3072,
        piece.len() <= 3072,
    ensures
        ({
            let follows: u8 = if more.len() > 0 {
                49
            } else {
                48
            };
            let rest = encode::continuation_bytes(extra, more);
            &&& encode::data_bytes(control, extra, piece + more) == escape(
                control + seq![44u8, 109, 61, follows],
                encode::base64_bytes(piece),
            ) + rest
            &&& encode::continuation_bytes(extra, piece + more) == escape(
                seq![109u8, 61, follows] + extra,
                encode::base64_bytes(piece),
            ) + rest
            &&& encode::continuation_bytes(extra, Seq::empty()).len() == 0
            &&& encode::data_bytes(control, extra, Seq::empty()).len() == 0
        }),
{
    lemma_piece_words();
    let data = piece + more;
    let follows: u8 = if more.len() > 0 {
        49
    } else {
        48
    };
    lemma_pieces(piece, more);
    let n = encode::more_follows(data);
    assert(text::decimal(n) =~= seq![follows]);
    lemma_digit(follows);
    lemma_grouped(seq![27u8, 95, 71], control, seq![44u8, 109, 61, follows]);
    lemma_continued(follows, extra);
}

/// The upload of a placement's image announces the image under its id, and carries its data in the
/// stream, or the path of the file where it was put. Without data nothing is uploaded.
pub proof fn law_an_upload_announces_its_image(
    p: HostPlacement,
    format_code: u32,
    host_id: u32,
    path: Seq<char>,
)
    ensures
        p.placement.data@.len() == 0 ==> encode::image_bytes(p, format_code, host_id, None).len()
            == 0 && encode::image_bytes(p, format_code, host_id, Some(path)).len() == 0,
        p.placement.data@.len() > 0 ==> {
            &&& exists|control: Seq<u8>|
                #[trigger]
                announces(
                    control,
                    100,
                    format_code,
                    p.placement.image_width,
                    p.placement.image_height,
                    host_id,
                ) && encode::image_bytes(p, format_code, host_id, None)
                    == encode::data_bytes(control, seq![], p.placement.data@)
            &&& exists|control: Seq<u8>|
                #[trigger]
                announces(
                    control,
                    102,
                    format_code,
                    p.placement.image_width,
                    p.placement.image_height,
                    host_id,
                ) && encode::image_bytes(p, format_code, host_id, Some(path)) == escape(
                    control + seq![44u8, 109, 61, 48],
                    encode::base64_bytes(encode_utf8(path)),
                )
        },
{
    lemma_transport_words();
    let width = p.placement.image_width;
    let height = p.placement.image_height;
    lemma_upload_control("a=t,t=d,f=", 100, format_code, width, height, host_id);
    lemma_upload_control("a=t,t=f,f=", 102, format_code, width, height, host_id);
    if p.placement.data@.len() > 0 {
        let direct = encode::upload_control("a=t,t=d,f=", format_code, width, height, host_id);
        assert(announces(direct, 100, format_code, width, height, host_id));
        let filed = encode::upload_control("a=t,t=f,f=", format_code, width, height, host_id);
        assert(announces(filed, 102, format_code, width, height, host_id));
        lemma_from_file(filed, encode::base64_bytes(encode_utf8(path)));
    }
}

/// A frame of an animation names its image, and its own format, size and time; every escape of it
/// says again that it belongs to a frame.
pub proof fn law_a_frame_names_its_image(
    host_id: u32,
    format_code: u32,
    width: u32,
    height: u32,
    gap_ms: u32,
    data: Seq<u8>,
)
    ensures
        exists|control: Seq<u8>|
            {
                &&& encode::frame_bytes(host_id, format_code, width, height, gap_ms, data)
                    == encode::data_bytes(control, seq![44u8, 97, 61, 102], data)
                &&& #[trigger] value_of(control, 97) == letter(102)
                &&& value_of(control, 105) == number(host_id as int)
                &&& value_of(control, 102) == number(format_code as int)
                &&& value_of(control, 115) == number(width as int)
                &&& value_of(control, 118) == number(height as int)
                &&& value_of(control, 122) == number(gap_ms as int)
                &&& value_of(control, 113) == letter(50)
            },
{
    lemma_frame_words();
    let a0 = part(97, seq![102u8]);
    lemma_first(97, seq![102u8]);
    let id = text::decimal(host_id as nat);
    lemma_numbers_are_plain(host_id as nat);
    lemma_more(a0, 105, id);
    lemma_head(102, id);
    let a1 = further(a0, 105, id);
    lemma_field(a1, ",f=", 102, format_code as nat);
    let a2 = a1 + encode::field(",f=", format_code as nat);
    lemma_field(a2, ",s=", 115, width as nat);
    let a3 = a2 + encode::field(",s=", width as nat);
    lemma_field(a3, ",v=", 118, height as nat);
    let a4 = a3 + encode::field(",v=", height as nat);
    lemma_field(a4, ",z=", 122, gap_ms as nat);
    let a5 = a4 + encode::field(",z=", gap_ms as nat);
    lemma_more(a5, 113, seq![50u8]);
    lemma_still_and_quiet(a5);
    let a6 = further(a5, 113, seq![50u8]);
    assert(value_of(a6, 97) == letter(102));
    assert(encode::frame_bytes(host_id, format_code, width, height, gap_ms, data)
        == encode::data_bytes(a6, seq![44u8, 97, 61, 102], data));
}

/// An animation is sent frame by frame in its order, all for the same image and with the same time,
/// and then it is started: the first frame gets that time too, and the frames loop. Without frames
/// nothing is sent.
pub proof fn law_an_animation_is_sent_and_started(
    host_id: u32,
    format_code: u32,
    width: u32,
    height: u32,
    animation: GraphicsAnimation,
    n: nat,
)
    requires
        n < animation.frames@.len(),
    ensures
        encode::frames_bytes(host_id, format_code, width, height, animation, 0).len() == 0,
        encode::frames_bytes(host_id, format_code, width, height, animation, n + 1)
            == encode::frames_bytes(host_id, format_code, width, height, animation, n)
            + encode::frame_bytes(
            host_id,
            format_code,
            width,
            height,
            animation.frame_gap_ms,
            animation.frames@[n as int]@,
        ),
        encode::animation_bytes(host_id, format_code, width, height, animation)
            == encode::frames_bytes(
            host_id,
            format_code,
            width,
            height,
            animation,
            animation.frames@.len(),
        ) + encode::arm_bytes(host_id, animation.frame_gap_ms),
        exists|first: Seq<u8>, second: Seq<u8>|
            {
                &&& encode::arm_bytes(host_id, animation.frame_gap_ms) == escape(first, seq![])
                    + escape(second, seq![])
                &&& #[trigger] value_of(first, 97) == letter(97)
                &&& value_of(first, 105) == number(host_id as int)
                &&& value_of(first, 114) == letter(49)
                &&& value_of(first, 122) == number(animation.frame_gap_ms as int)
                &&& #[trigger] value_of(second, 97) == letter(97)
                &&& value_of(second, 105) == number(host_id as int)
                &&& value_of(second, 115) == letter(51)
                &&& value_of(second, 118) == letter(49)
            },
{
    lemma_start_words();
    let gap_ms = animation.frame_gap_ms;
    let id = text::decimal(host_id as nat);
    let gap = text::decimal(gap_ms as nat);
    lemma_numbers_are_plain(host_id as nat);
    lemma_numbers_are_plain(gap_ms as nat);
    let a0 = part(97, seq![97u8]);
    lemma_first(97, seq![97u8]);
    lemma_more(a0, 105, id);
    let a1 = further(a0, 105, id);
    lemma_more(a1, 114, seq![49u8]);
    let a2 = further(a1, 114, seq![49u8]);
    lemma_more(a2, 122, gap);
    let a3 = further(a2, 122, gap);
    lemma_more(a3, 113, seq![50u8]);
    let first = further(a3, 113, seq![50u8]);
    lemma_more(a1, 115, seq![51u8]);
    let b2 = further(a1, 115, seq![51u8]);
    lemma_more(b2, 118, seq![49u8]);
    let b3 = further(b2, 118, seq![49u8]);
    lemma_more(b3, 113, seq![50u8]);
    let second = further(b3, 113, seq![50u8]);
    lemma_start(id, gap);
    assert(encode::arm_bytes(host_id, gap_ms) == escape(first, seq![]) + escape(second, seq![]));
    assert(value_of(first, 97) == letter(97) && value_of(second, 97) == letter(97));
}

/// Each command writes its own escapes, for the placement and the ids that it names, and several
/// commands write theirs one after the other.
pub proof fn law_commands_are_written_in_order(
    commands: Seq<GraphicsCommand>,
    command: GraphicsCommand,
    placements: Seq<HostPlacement>,
    staged: Seq<Option<String>>,
)
    ensures
        encode::commands_bytes(
            commands.push(command),
            placements,
            staged,
            commands.len() + 1,
        ) == encode::commands_bytes(commands, placements, staged, commands.len())
            + encode::command_bytes(
            command,
            placements,
            if commands.len() < staged.len() {
                text::option_text(staged[commands.len() as int])
            } else {
                None
            },
        ),
        encode::commands_bytes(commands, placements, staged, 0).len() == 0,
        match command {
            GraphicsCommand::DeleteImage { host_id } => encode::command_bytes(
                command,
                placements,
                None,
            ) == encode::delete_image_bytes(host_id),
            GraphicsCommand::DeletePlacement { host_id, host_placement_id } => encode::command_bytes(
                command,
                placements,
                None,
            ) == encode::delete_placement_bytes(host_id, host_placement_id),
            GraphicsCommand::Display { clipped, host_id, host_placement_id, z } => {
                encode::command_bytes(command, placements, None) == encode::display_bytes(
                    clipped,
                    host_id,
                    host_placement_id,
                    z,
                )
            },
            GraphicsCommand::Upload { placement, format_code, host_id } => encode::command_bytes(
                command,
                placements,
                None,
            ) == encode::image_bytes(placements[placement as int], format_code, host_id, None),
            GraphicsCommand::Animate { placement, format_code, host_id } => match placements[
                placement as int].animation {
                Some(animation) => encode::command_bytes(command, placements, None)
                    == encode::animation_bytes(
                    host_id,
                    format_code,
                    placements[placement as int].placement.image_width,
                    placements[placement as int].placement.image_height,
                    animation,
                ),
                None => encode::command_bytes(command, placements, None).len() == 0,
            },
        },
{
    let longer = commands.push(command);
    lemma_same_commands(commands, longer, placements, staged, commands.len());
}

proof fn lemma_same_commands(
    commands: Seq<GraphicsCommand>,
    longer: Seq<GraphicsCommand>,
    placements: Seq<HostPlacement>,
    staged: Seq<Option<String>>,
    count: nat,
)
    requires
        count <= commands.len() <= longer.len(),
        forall|i: int| 0 <= i < commands.len() ==> #[trigger] commands[i] == longer[i],
    ensures
        encode::commands_bytes(commands, placements, staged, count) == encode::commands_bytes(
            longer,
            placements,
            staged,
            count,
        ),
    decreases count,
{
    if count > 0 {
        lemma_same_commands(commands, longer, placements, staged, (count - 1) as nat);
    }
}

} // verus!
