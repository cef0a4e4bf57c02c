//! Image files that are dropped onto the terminal.
//!
//! A terminal turns a dropped file into typed text: the path, perhaps as a paste, perhaps quoted,
//! perhaps with backslashes before special characters.

use crate::text;
use crate::text::{chars_of, eq_ignore_ascii_case, string_of};
use vstd::prelude::*;
use vstd::slice::*;
use vstd::utf8::*;

verus! {

/// Typed bytes that are a bracketed paste: its start and its end stand around them.
pub open spec fn is_paste(data: Seq<u8>) -> bool {
    let start = text::utf8("\x1b[200~");
    let end = text::utf8("\x1b[201~");
    &&& data.len() >= start.len() + end.len()
    &&& data.take(start.len() as int) == start
    &&& data.skip(data.len() - end.len()) == end
}

/// The typed bytes inside a bracketed paste; all of them where they are no such paste.
pub open spec fn pasted(data: Seq<u8>) -> Seq<u8> {
    let start = text::utf8("\x1b[200~");
    let end = text::utf8("\x1b[201~");
    if is_paste(data) {
        data.subrange(start.len() as int, data.len() - end.len())
    } else {
        data
    }
}

pub open spec fn is_line_end(c: char) -> bool {
    c == '\r' || c == '\n'
}

/// A text without the line ends at its end.
pub open spec fn without_line_ends(s: Seq<char>) -> Seq<char>
    decreases s.len(),
{
    if s.len() > 0 && is_line_end(s.last()) {
        without_line_ends(s.drop_last())
    } else {
        s
    }
}

/// A text without the pair of quotes around it.
pub open spec fn unquoted(s: Seq<char>) -> Seq<char> {
    if s.len() >= 2 && s[0] == s.last() && (s[0] == '\'' || s[0] == '"') {
        s.subrange(1, s.len() - 1)
    } else {
        s
    }
}

/// A text in which every backslash has given way to the character behind it. A backslash at the
/// end stays.
pub open spec fn unescaped(s: Seq<char>) -> Seq<char>
    decreases s.len(),
{
    if s.len() == 0 {
        Seq::empty()
    } else if s[0] == '\\' && s.len() > 1 {
        seq![s[1]] + unescaped(s.skip(2))
    } else {
        seq![s[0]] + unescaped(s.skip(1))
    }
}

/// A path without the slashes and the `.` components at its end.
pub open spec fn without_tail(path: Seq<char>) -> Seq<char>
    decreases path.len(),
{
    if path.len() > 0 && path.last() == '/' {
        without_tail(path.drop_last())
    } else if path.len() >= 2 && path.last() == '.' && path[path.len() - 2] == '/' {
        without_tail(path.take(path.len() - 2))
    } else {
        path
    }
}

/// What follows the last `c`; everything where there is none.
pub open spec fn after_last(s: Seq<char>, c: char) -> Seq<char>
    decreases s.len(),
{
    if s.len() == 0 || s.last() == c {
        Seq::empty()
    } else {
        after_last(s.drop_last(), c).push(s.last())
    }
}

/// The name of the file that an absolute path leads to.
pub open spec fn file_name(path: Seq<char>) -> Seq<char> {
    after_last(without_tail(path), '/')
}

/// The extension of a file name: what follows its last dot, unless that dot starts the name. The
/// name of the directory above has none.
pub open spec fn extension(name: Seq<char>) -> Option<Seq<char>> {
    let ext = after_last(name, '.');
    if name == seq!['.', '.'] || ext.len() + 1 >= name.len() {
        None
    } else {
        Some(ext)
    }
}

/// The image format that an extension stands for.
pub open spec fn image_format(ext: Seq<char>) -> Option<Seq<char>> {
    if text::same_ignoring_ascii_case(ext, "png"@) {
        Some("png"@)
    } else if text::same_ignoring_ascii_case(ext, "jpg"@) || text::same_ignoring_ascii_case(
        ext,
        "jpeg"@,
    ) {
        Some("jpg"@)
    } else if text::same_ignoring_ascii_case(ext, "gif"@) {
        Some("gif"@)
    } else if text::same_ignoring_ascii_case(ext, "webp"@) {
        Some("webp"@)
    } else if text::same_ignoring_ascii_case(ext, "bmp"@) {
        Some("bmp"@)
    } else {
        None
    }
}

/// The path that dropped text names: one line, not empty, without its quotes and backslashes.
pub open spec fn dropped_path(data: Seq<u8>) -> Option<Seq<char>> {
    if !valid_utf8(pasted(data)) {
        None
    } else {
        let line = without_line_ends(decode_utf8(pasted(data)));
        if line.len() == 0 || exists|i: int| 0 <= i < line.len() && is_line_end(#[trigger] line[i]) {
            None
        } else {
            Some(unescaped(unquoted(line)))
        }
    }
}

/// The absolute path of an image file that dropped text names, and the image's format.
pub open spec fn dropped_image(data: Seq<u8>) -> Option<(Seq<char>, Seq<char>)> {
    match dropped_path(data) {
        None => None,
        Some(path) => if path.len() == 0 || path[0] != '/' {
            None
        } else {
            match extension(file_name(path)) {
                None => None,
                Some(ext) => match image_format(ext) {
                    None => None,
                    Some(format) => Some((path, format)),
                },
            }
        },
    }
}

/// The typed bytes inside a bracketed paste, where they are one.
pub fn bracketed_paste_payload(data: &[u8]) -> (payload: Option<&[u8]>)
    ensures
        payload is Some <==> is_paste(data@),
        payload is Some ==> payload->0@ == pasted(data@),
{
    let start = "\x1b[200~".as_bytes();
    let end = "\x1b[201~".as_bytes();
    proof {
        reveal_strlit("\x1b[200~");
        reveal_strlit("\x1b[201~");
        is_ascii_chars_encode_utf8("\x1b[200~"@);
        is_ascii_chars_encode_utf8("\x1b[201~"@);
    }
    let len: usize = data.len();
    if len < start.len() + end.len() {
        return None;
    }
    let head = slice_subrange(data, 0, start.len());
    let tail = slice_subrange(data, len - end.len(), len);
    assert(head@ =~= data@.take(start@.len() as int));
    assert(tail@ =~= data@.skip(data@.len() - end@.len()));
    if text::same_bytes(head, start) && text::same_bytes(tail, end) {
        Some(slice_subrange(data, start.len(), len - end.len()))
    } else {
        None
    }
}

/// How many characters are left without the line ends at the end.
fn len_without_line_ends(s: &Vec<char>) -> (len: usize)
    ensures
        len <= s@.len(),
        without_line_ends(s@) == s@.take(len as int),
{
    let mut len: usize = s.len();
    assert(s@.take(len as int) =~= s@);
    while len > 0 && (s[len - 1] == '\r' || s[len - 1] == '\n')
        invariant
            len <= s@.len(),
            without_line_ends(s@) == without_line_ends(s@.take(len as int)),
        decreases len,
    {
        assert(s@.take(len as int).drop_last() =~= s@.take(len - 1));
        len -= 1;
    }
    assert(len > 0 ==> s@.take(len as int).last() == s@[len - 1]);
    len
}

/// Removes the backslashes that a terminal put before special characters.
pub fn unescape_terminal_drop_path(s: &[char]) -> (path: Vec<char>)
    ensures
        path@ == unescaped(s@),
{
    let mut out: Vec<char> = Vec::new();
    let mut i: usize = 0;
    assert(s@.skip(0) =~= s@);
    assert(out@ + unescaped(s@.skip(0)) =~= unescaped(s@));
    while i < s.len()
        invariant
            i <= s@.len(),
            out@ + unescaped(s@.skip(i as int)) == unescaped(s@),
        decreases s@.len() - i,
    {
        let ghost before = out@;
        let ghost rest = s@.skip(i as int);
        if s[i] == '\\' && s.len() - i > 1 {
            out.push(s[i + 1]);
            assert(rest.skip(2) =~= s@.skip(i + 2));
            assert(before + unescaped(rest) =~= out@ + unescaped(s@.skip(i + 2)));
            i += 2;
        } else {
            out.push(s[i]);
            assert(rest.skip(1) =~= s@.skip(i + 1));
            assert(before + unescaped(rest) =~= out@ + unescaped(s@.skip(i + 1)));
            i += 1;
        }
    }
    assert(s@.skip(i as int) =~= Seq::empty());
    assert(out@ =~= unescaped(s@));
    out
}

/// Removes a pair of quotes around a text.
pub fn strip_matching_path_quotes(s: &[char]) -> (inner: &[char])
    ensures
        inner@ == unquoted(s@),
{
    let len: usize = s.len();
    if len >= 2 && s[0] == s[len - 1] && (s[0] == '\'' || s[0] == '"') {
        slice_subrange(s, 1, len - 1)
    } else {
        s
    }
}

fn after_last_char(s: &[char], c: char) -> (tail: &[char])
    ensures
        tail@ == after_last(s@, c),
{
    let len: usize = s.len();
    let mut start: usize = len;
    assert(s@.subrange(len as int, len as int) =~= Seq::empty());
    assert(s@.take(len as int) =~= s@);
    assert(after_last(s@.take(len as int), c) + s@.subrange(start as int, len as int)
        =~= after_last(s@, c));
    while start > 0 && s[start - 1] != c
        invariant
            start <= len,
            len == s@.len(),
            after_last(s@.take(start as int), c) + s@.subrange(start as int, len as int)
                == after_last(s@, c),
        decreases start,
    {
        let ghost whole = s@.take(start as int);
        assert(whole.drop_last() =~= s@.take(start - 1));
        assert(whole.last() == s@[start - 1]);
        assert(after_last(whole, c) + s@.subrange(start as int, len as int) =~= after_last(
            s@.take(start - 1),
            c,
        ) + s@.subrange(start - 1, len as int));
        start -= 1;
    }
    assert(start > 0 ==> s@.take(start as int).last() == s@[start - 1]);
    assert(after_last(s@.take(start as int), c) =~= Seq::empty());
    assert(s@.subrange(start as int, len as int) =~= after_last(s@, c));
    slice_subrange(s, start, len)
}

fn strip_tail(path: &[char]) -> (head: &[char])
    ensures
        head@ == without_tail(path@),
{
    let mut len: usize = path.len();
    assert(path@.take(len as int) =~= path@);
    loop
        invariant_except_break
            without_tail(path@) == without_tail(path@.take(len as int)),
            len <= path@.len(),
        ensures
            len <= path@.len(),
            without_tail(path@) == path@.take(len as int),
        decreases len,
    {
        let ghost head = path@.take(len as int);
        if len > 0 && path[len - 1] == '/' {
            assert(head.drop_last() =~= path@.take(len - 1));
            len -= 1;
        } else if len >= 2 && path[len - 1] == '.' && path[len - 2] == '/' {
            assert(head.take(head.len() - 2) =~= path@.take(len - 2));
            len -= 2;
        } else {
            assert(len > 0 ==> head.last() == path@[len - 1]);
            assert(len > 1 ==> head[head.len() - 2] == path@[len - 2]);
            break;
        }
    }
    let head = slice_subrange(path, 0, len);
    assert(head@ =~= path@.take(len as int));
    head
}

/// The image format that an extension stands for.
pub fn recognized_image_extension(extension: &str) -> (format: Option<&'static str>)
    ensures
        match format {
            Some(format) => image_format(extension@) == Some(format@),
            None => image_format(extension@) is None,
        },
{
    if eq_ignore_ascii_case(extension, "png") {
        Some("png")
    } else if eq_ignore_ascii_case(extension, "jpg") || eq_ignore_ascii_case(extension, "jpeg") {
        Some("jpg")
    } else if eq_ignore_ascii_case(extension, "gif") {
        Some("gif")
    } else if eq_ignore_ascii_case(extension, "webp") {
        Some("webp")
    } else if eq_ignore_ascii_case(extension, "bmp") {
        Some("bmp")
    } else {
        None
    }
}

fn has_line_end(s: &[char]) -> (found: bool)
    ensures
        found == exists|i: int| 0 <= i < s@.len() && is_line_end(#[trigger] s@[i]),
{
    let mut i: usize = 0;
    while i < s.len()
        invariant
            i <= s@.len(),
            forall|j: int| 0 <= j < i ==> !is_line_end(#[trigger] s@[j]),
        decreases s@.len() - i,
    {
        if s[i] == '\r' || s[i] == '\n' {
            assert(is_line_end(s@[i as int]));
            return true;
        }
        i += 1;
    }
    false
}

/// The image file that dropped text names. Only a remote client looks for one: a local session
/// reads the file itself.
pub fn image_path_from_terminal_drop(data: &[u8], is_remote_client: bool) -> (image: Option<
    (String, &'static str),
>)
    ensures
        !is_remote_client ==> image is None,
        is_remote_client ==> match image {
            Some((path, format)) => dropped_image(data@) == Some((path@, format@)),
            None => dropped_image(data@) is None,
        },
{
    if !is_remote_client {
        return None;
    }
    let bytes = match bracketed_paste_payload(data) {
        Some(payload) => payload,
        None => data,
    };
    assert(bytes@ == pasted(data@));
    let decoded = match text::decode_text(bytes) {
        Some(decoded) => decoded,
        None => {
            return None;
        },
    };
    let chars = chars_of(decoded.as_str());
    let len: usize = len_without_line_ends(&chars);
    let line = slice_subrange(chars.as_slice(), 0, len);
    assert(line@ =~= without_line_ends(chars@));
    if line.len() == 0 || has_line_end(line) {
        return None;
    }
    let path = unescape_terminal_drop_path(strip_matching_path_quotes(line));
    if path.len() == 0 || path[0] != '/' {
        return None;
    }
    let name = after_last_char(strip_tail(path.as_slice()), '/');
    let ext = after_last_char(name, '.');
    proof {
        lemma_after_last_len(name@, '.');
    }
    if (name.len() == 2 && name[0] == '.' && name[1] == '.') || ext.len() >= name.len()
        || ext.len() + 1 >= name.len() {
        assert(name@.len() == 2 && name@[0] == '.' && name@[1] == '.' ==> name@ =~= seq![
            '.',
            '.',
        ]);
        return None;
    }
    assert(name@ != seq!['.', '.']);
    let ext = string_of(ext);
    match recognized_image_extension(ext.as_str()) {
        Some(format) => Some((string_of(path.as_slice()), format)),
        None => None,
    }
}

proof fn lemma_after_last_len(s: Seq<char>, c: char)
    ensures
        after_last(s, c).len() <= s.len(),
    decreases s.len(),
{
    if s.len() > 0 && s.last() != c {
        lemma_after_last_len(s.drop_last(), c);
    }
}

/// What is found is an absolute path, and only a remote client finds anything.
pub proof fn law_dropped_image_is_absolute(data: Seq<u8>)
    ensures
        dropped_image(data) matches Some((path, format)) ==> path.len() > 0 && path[0] == '/',
{
}

/// What is pasted is what stands between the two marks of a paste; without them everything is as
/// typed.
pub proof fn law_a_paste_is_unwrapped(data: Seq<u8>)
    ensures
        is_paste(seq![27u8, 91, 50, 48, 48, 126] + data + seq![27u8, 91, 50, 48, 49, 126]),
        pasted(seq![27u8, 91, 50, 48, 48, 126] + data + seq![27u8, 91, 50, 48, 49, 126]) == data,
        data.len() > 0 && data[0] != 27 ==> pasted(data) == data,
{
    reveal_strlit("\x1b[200~");
    reveal_strlit("\x1b[201~");
    is_ascii_chars_encode_utf8("\x1b[200~"@);
    is_ascii_chars_encode_utf8("\x1b[201~"@);
    let start = seq![27u8, 91, 50, 48, 48, 126];
    let end = seq![27u8, 91, 50, 48, 49, 126];
    assert(text::utf8("\x1b[200~") =~= start);
    assert(text::utf8("\x1b[201~") =~= end);
    let whole = start + data + end;
    assert(whole.take(6) =~= start);
    assert(whole.skip(whole.len() - 6) =~= end);
    assert(whole.subrange(6, whole.len() - 6) =~= data);
    if data.len() >= 12 && data[0] != 27 {
        assert(data.take(6)[0] == data[0]);
    }
}

/// A text with a backslash before some of its characters.
pub open spec fn with_backslashes(s: Seq<char>, marked: Seq<bool>) -> Seq<char>
    decreases s.len(),
{
    if s.len() == 0 {
        Seq::empty()
    } else {
        (if marked[0] {
            seq!['\\', s[0]]
        } else {
            seq![s[0]]
        }) + with_backslashes(s.skip(1), marked.skip(1))
    }
}

/// Whichever characters a terminal puts a backslash before, as long as it does so before its own
/// backslashes, the text comes back. Quotes around a text fall away, and a line end behind it too.
pub proof fn law_backslashes_and_quotes_fall_away(s: Seq<char>, marked: Seq<bool>)
    requires
        marked.len() == s.len(),
        forall|i: int| 0 <= i < s.len() && #[trigger] s[i] == '\\' ==> marked[i],
    ensures
        unescaped(with_backslashes(s, marked)) == s,
        unquoted(seq!['\''] + s + seq!['\'']) == s,
        unquoted(seq!['"'] + s + seq!['"']) == s,
        s.len() > 0 && s[0] != '\'' && s[0] != '"' ==> unquoted(s) == s,
        s.len() > 0 && s.last() != '\r' && s.last() != '\n' ==> without_line_ends(s) == s
            && without_line_ends(s.push('\n')) == s && without_line_ends(s.push('\r').push('\n')) == s,
    decreases s.len(),
{
    assert((seq!['\''] + s + seq!['\'']).subrange(1, s.len() as int + 1) =~= s);
    assert((seq!['"'] + s + seq!['"']).subrange(1, s.len() as int + 1) =~= s);
    assert(s.push('\n').drop_last() =~= s);
    assert(s.push('\r').drop_last() =~= s);
    assert(s.push('\r').push('\n').drop_last() =~= s.push('\r'));
    assert(without_line_ends(s.push('\r')) == without_line_ends(s));
    if s.len() > 0 {
        let rest = with_backslashes(s.skip(1), marked.skip(1));
        let whole = with_backslashes(s, marked);
        assert forall|i: int|
            0 <= i < s.skip(1).len() && #[trigger] s.skip(1)[i] == '\\' implies marked.skip(1)[i] by {
            assert(s.skip(1)[i] == s[i + 1]);
        }
        law_backslashes_and_quotes_fall_away(s.skip(1), marked.skip(1));
        if marked[0] {
            assert(whole.skip(2) =~= rest);
            assert(whole[0] == '\\' && whole[1] == s[0]);
        } else {
            assert(s[0] != '\\');
            assert(whole.skip(1) =~= rest);
            assert(whole[0] == s[0]);
        }
        assert(seq![s[0]] + s.skip(1) =~= s);
    } else {
        assert(unescaped(with_backslashes(s, marked)) =~= s);
    }
}

proof fn lemma_after_last(head: Seq<char>, tail: Seq<char>, c: char)
    requires
        !tail.contains(c),
    ensures
        after_last(head.push(c) + tail, c) == tail,
        after_last(tail, c) == tail,
    decreases tail.len(),
{
    let whole = head.push(c) + tail;
    if tail.len() == 0 {
        assert(whole.last() == c);
        assert(after_last(whole, c) =~= tail);
        assert(after_last(tail, c) =~= tail);
    } else {
        let short = tail.drop_last();
        assert(tail.contains(tail[tail.len() - 1]));
        assert(whole.last() == tail.last());
        assert(whole.drop_last() =~= head.push(c) + short);
        assert(!short.contains(c)) by {
            if short.contains(c) {
                let i = choose|i: int| 0 <= i < short.len() && short[i] == c;
                assert(tail[i] == c);
            }
        }
        lemma_after_last(head, short, c);
        assert(short.push(tail.last()) =~= tail);
    }
}

/// The file's name is what follows the last slash, and its extension what follows the last dot of
/// the name, whatever the directories are called. The extensions of images are known in any case,
/// and `jpeg` is called `jpg`.
pub proof fn law_a_path_names_its_file(dir: Seq<char>, stem: Seq<char>, ext: Seq<char>)
    requires
        stem.len() > 0,
        ext.len() > 0,
        !stem.contains('/'),
        !ext.contains('/'),
        !ext.contains('.'),
    ensures
        file_name(dir.push('/') + stem.push('.') + ext) == stem.push('.') + ext,
        extension(stem.push('.') + ext) == Some(ext),
{
    let name = stem.push('.') + ext;
    let path = dir.push('/') + name;
    assert(path =~= dir.push('/') + stem.push('.') + ext);
    assert(!name.contains('/')) by {
        if name.contains('/') {
            let i = choose|i: int| 0 <= i < name.len() && name[i] == '/';
            if i < stem.len() {
                assert(stem[i] == '/');
            } else if i > stem.len() {
                assert(ext[i - stem.len() - 1] == '/');
            }
        }
    }
    assert(path.last() == ext.last());
    assert(ext.contains(ext[ext.len() - 1]));
    assert(path.last() != '/' && path.last() != '.');
    assert(without_tail(path) == path);
    lemma_after_last(dir, name, '/');
    lemma_after_last(stem, ext, '.');
    if name.len() == 2 {
        assert(name.len() > 2);
    }
}

/// The formats by their extensions, in any case.
pub proof fn law_extensions_name_their_formats(ext: Seq<char>)
    ensures
        text::same_ignoring_ascii_case(ext, seq!['p', 'n', 'g']) <==> image_format(ext) == Some(
            seq!['p', 'n', 'g'],
        ),
        text::same_ignoring_ascii_case(ext, seq!['j', 'p', 'g']) || text::same_ignoring_ascii_case(
            ext,
            seq!['j', 'p', 'e', 'g'],
        ) <==> image_format(ext) == Some(seq!['j', 'p', 'g']),
        text::same_ignoring_ascii_case(ext, seq!['g', 'i', 'f']) <==> image_format(ext) == Some(
            seq!['g', 'i', 'f'],
        ),
        text::same_ignoring_ascii_case(ext, seq!['w', 'e', 'b', 'p']) <==> image_format(ext)
            == Some(seq!['w', 'e', 'b', 'p']),
        text::same_ignoring_ascii_case(ext, seq!['b', 'm', 'p']) <==> image_format(ext) == Some(
            seq!['b', 'm', 'p'],
        ),
{
    reveal_strlit("png");
    reveal_strlit("jpg");
    reveal_strlit("jpeg");
    reveal_strlit("gif");
    reveal_strlit("webp");
    reveal_strlit("bmp");
    let png = seq!['p', 'n', 'g'];
    let jpg = seq!['j', 'p', 'g'];
    let jpeg = seq!['j', 'p', 'e', 'g'];
    let gif = seq!['g', 'i', 'f'];
    let webp = seq!['w', 'e', 'b', 'p'];
    let bmp = seq!['b', 'm', 'p'];
    assert("png"@ =~= png);
    assert("jpg"@ =~= jpg);
    assert("jpeg"@ =~= jpeg);
    assert("gif"@ =~= gif);
    assert("webp"@ =~= webp);
    assert("bmp"@ =~= bmp);
    assert(png[0] == 'p' && jpg[0] == 'j' && jpeg[0] == 'j' && gif[0] == 'g' && webp[0] == 'w'
        && bmp[0] == 'b');
    if ext.len() > 0 {
        let first = text::ascii_lower(ext[0]);
        assert(text::ascii_lower('p') == 'p' && text::ascii_lower('j') == 'j' && text::ascii_lower(
            'g',
        ) == 'g' && text::ascii_lower('w') == 'w' && text::ascii_lower('b') == 'b');
    }
}

/// An image file that is dropped is found by its path, typed as it is or pasted, quoted, and with a
/// line end behind it or without.
pub proof fn law_a_dropped_image_is_found(dir: Seq<char>, stem: Seq<char>, ext: Seq<char>)
    requires
        stem.len() > 0,
        ext.len() > 0,
        !stem.contains('/'),
        !ext.contains('/'),
        !ext.contains('.'),
        image_format(ext) is Some,
        ({
            let path = seq!['/'] + dir + seq!['/'] + stem + seq!['.'] + ext;
            forall|i: int|
                0 <= i < path.len() ==> #[trigger] path[i] != '\\' && !is_line_end(path[i])
        }),
    ensures
        ({
            let path = seq!['/'] + dir + seq!['/'] + stem + seq!['.'] + ext;
            let found = Some((path, image_format(ext)->0));
            &&& dropped_image(encode_utf8(path)) == found
            &&& dropped_image(encode_utf8(path.push('\n'))) == found
            &&& dropped_image(encode_utf8(seq!['\''] + path + seq!['\''])) == found
            &&& dropped_image(
                seq![27u8, 91, 50, 48, 48, 126] + encode_utf8(path) + seq![
                    27u8,
                    91,
                    50,
                    48,
                    49,
                    126,
                ],
            ) == found
        }),
{
    let path = seq!['/'] + dir + seq!['/'] + stem + seq!['.'] + ext;
    let folder = seq!['/'] + dir;
    assert(path =~= folder.push('/') + stem.push('.') + ext);
    law_a_path_names_its_file(folder, stem, ext);
    let unmarked = Seq::new(path.len(), |i: int| false);
    lemma_unmarked(path);
    law_backslashes_and_quotes_fall_away(path, unmarked);
    assert(path[0] == '/');
    assert(path.last() == ext.last());
    assert(!is_line_end(path[path.len() - 1]));
    lemma_dropped(path, path);
    lemma_dropped(path.push('\n'), path);
    let quoted = seq!['\''] + path + seq!['\''];
    assert(without_line_ends(quoted) == quoted);
    assert forall|i: int| 0 <= i < quoted.len() implies !is_line_end(#[trigger] quoted[i]) by {
        if 0 < i <= path.len() {
            assert(quoted[i] == path[i - 1]);
        }
    }
    lemma_dropped(quoted, quoted);
    encode_utf8_valid_utf8(path);
    encode_utf8_decode_utf8(path);
    law_a_paste_is_unwrapped(encode_utf8(path));
    lemma_starts_plain(path);
}

proof fn lemma_unmarked(s: Seq<char>)
    ensures
        with_backslashes(s, Seq::new(s.len(), |i: int| false)) == s,
    decreases s.len(),
{
    let marks = Seq::new(s.len(), |i: int| false);
    if s.len() > 0 {
        lemma_unmarked(s.skip(1));
        assert(marks.skip(1) =~= Seq::new(s.skip(1).len(), |i: int| false));
        assert(seq![s[0]] + s.skip(1) =~= s);
    } else {
        assert(with_backslashes(s, marks) =~= s);
    }
}

/// The bytes of a text start with that of its first character, where it is ASCII.
proof fn lemma_starts_plain(s: Seq<char>)
    requires
        s.len() > 0,
        s[0] == '/' || s[0] == '\'',
    ensures
        encode_utf8(s).len() > 0,
        encode_utf8(s)[0] != 27,
{
    encode_utf8_first_scalar(s);
    let bytes = encode_utf8(s);
    char_is_scalar(s[0]);
    assert(encode_scalar(s[0] as u32).len() == 1);
    let b = bytes[0];
    assert(is_leading_byte_width_1(b));
    assert(b & 0x7f == b) by (bit_vector)
        requires
            b <= 0x7f,
    ;
}

/// What dropped text names whose line is known.
proof fn lemma_dropped(typed: Seq<char>, line: Seq<char>)
    requires
        typed.len() > 0,
        typed[0] == '/' || typed[0] == '\'',
        without_line_ends(typed) == line,
        line.len() > 0,
        forall|i: int| 0 <= i < line.len() ==> !is_line_end(#[trigger] line[i]),
    ensures
        dropped_path(encode_utf8(typed)) == Some(unescaped(unquoted(line))),
{
    lemma_starts_plain(typed);
    law_a_paste_is_unwrapped(encode_utf8(typed));
    encode_utf8_valid_utf8(typed);
    encode_utf8_decode_utf8(typed);
}

/// A name has no extension where it has no dot, and where its only dot starts it.
pub proof fn law_names_without_an_extension(name: Seq<char>)
    requires
        !name.contains('.'),
    ensures
        extension(name) is None,
        extension(seq!['.'] + name) is None,
        extension(seq!['.', '.']) is None,
{
    lemma_after_last(seq![], name, '.');
    assert(Seq::<char>::empty().push('.') + name =~= seq!['.'] + name);
}

} // verus!
