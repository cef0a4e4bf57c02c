use herdr::client::attach::{AttachEscapeState, FilteredInput};
use herdr::text::{
    append_decimal, char_is_white_space, chars_of, eq_ignore_ascii_case, find_subslice,
    parse_number, parse_u32, push_signed, split_lines, string_of, text_before, trim,
};

#[test]
fn white_space_is_what_the_standard_library_calls_so() {
    for c in '\0'..=char::MAX {
        assert_eq!(char_is_white_space(c), c.is_whitespace(), "{c:?}");
    }
}

#[test]
fn numbers_are_read_as_they_are_written() {
    for n in [0u64, 7, 10, 4096, u64::MAX] {
        let mut text = String::new();
        append_decimal(&mut text, n);
        assert_eq!(text, n.to_string());
        assert_eq!(parse_number(&chars_of(&text), u64::MAX), Some(n));
    }
    assert_eq!(parse_number(&chars_of("256"), 255), None);
    for text in ["", "+", "-1", "1_0", " 1", "12x"] {
        assert_eq!(parse_u32(text.as_bytes()), text.parse::<u32>().ok(), "{text:?}");
    }
    assert_eq!(parse_u32(b"+7"), "+7".parse::<u32>().ok());
    assert_eq!(parse_u32(b"4294967296"), None);
    for n in [0i32, -1, i32::MIN, i32::MAX] {
        let mut bytes = Vec::new();
        push_signed(&mut bytes, n);
        assert_eq!(bytes, n.to_string().into_bytes());
    }
}

#[test]
fn texts_are_taken_apart_like_the_standard_library_does() {
    for text in ["", " a ", "\u{2003}x\u{85}", "no"] {
        assert_eq!(string_of(trim(&chars_of(text))), text.trim());
    }
    for text in ["", "a", "a\n", "a\r\nb", "\n\nx", "a\r"] {
        let lines: Vec<String> = split_lines(&chars_of(text))
            .iter()
            .map(|line| string_of(line))
            .collect();
        let expected: Vec<String> = text.lines().map(str::to_string).collect();
        assert_eq!(lines, expected, "{text:?}");
    }
    assert!(eq_ignore_ascii_case("RiO", "rio"));
    assert!(!eq_ignore_ascii_case("\u{e9}", "\u{c9}"));
    for (a, b) in [("a", "b"), ("a", "ab"), ("b", "ab"), ("", "a"), ("a", "a")] {
        assert_eq!(text_before(&chars_of(a), &chars_of(b)), a < b);
    }
    assert_eq!(find_subslice(b"abcabc", b"ca"), Some(2));
    assert_eq!(find_subslice(b"abc", b""), None);
    assert_eq!(find_subslice(b"ab", b"abc"), None);
}

#[test]
fn input_may_come_in_pieces() {
    let typed: &[u8] = &[b'a', 0x02, 0x02, 0x02, b'x', b'b', 0x02];
    let mut whole = AttachEscapeState::default();
    let all = match whole.filter_input(typed) {
        FilteredInput::Bytes(bytes) => bytes,
        FilteredInput::Detach => panic!("nothing detaches"),
    };
    assert_eq!(all, [b'a', 0x02, 0x02, b'x', b'b']);
    for cut in 0..=typed.len() {
        let mut state = AttachEscapeState::default();
        let mut bytes = Vec::new();
        for piece in [&typed[..cut], &typed[cut..]] {
            match state.filter_input(piece) {
                FilteredInput::Bytes(more) => bytes.extend(more),
                FilteredInput::Detach => panic!("nothing detaches"),
            }
        }
        assert_eq!(bytes, all);
        assert_eq!(state.pending_prefix, whole.pending_prefix);
    }
    let mut state = AttachEscapeState::default();
    assert!(matches!(state.filter_input(&[0x02]), FilteredInput::Bytes(bytes) if bytes.is_empty()));
    assert!(matches!(state.filter_input(b"q"), FilteredInput::Detach));
}
