use lindy_videos::text::{
    chars_of, clone_strings, find_last_dot, is_whitespace, line_end, string_of, trim_bounds,
};

#[test]
fn whitespace_is_what_std_calls_whitespace() {
    let mut c = 0u32;
    while c <= 0x3100 {
        if let Some(ch) = char::from_u32(c) {
            assert_eq!(is_whitespace(ch), ch.is_whitespace(), "U+{:04X}", c);
        }
        c += 1;
    }
    assert!(!is_whitespace('\u{200B}'));
    assert!(!is_whitespace('\u{FEFF}'));
    assert!(!is_whitespace('\u{10FFFF}'));
}

#[test]
fn chars_of_keeps_every_character() {
    assert_eq!(chars_of("aé\n𝄞"), vec!['a', 'é', '\n', '𝄞']);
    assert_eq!(chars_of(""), Vec::<char>::new());
}

#[test]
fn string_of_takes_the_range() {
    let chars = chars_of("hello world");
    assert_eq!(string_of(&chars, 6, 11), "world");
    assert_eq!(string_of(&chars, 3, 3), "");
}

#[test]
fn trim_bounds_matches_str_trim() {
    for text in ["", "   ", "a", " a", "a ", "  a b  ", "\t\r\nx\u{a0}", "\u{3000}"] {
        let chars = chars_of(text);
        let (a, b) = trim_bounds(&chars, 0, chars.len());
        assert_eq!(string_of(&chars, a, b), text.trim(), "{:?}", text);
    }
}

#[test]
fn trim_bounds_inside_a_range() {
    let chars = chars_of("ab  cd  ef");
    assert_eq!(trim_bounds(&chars, 2, 8), (4, 6));
    assert_eq!(trim_bounds(&chars, 2, 4), (4, 4));
}

#[test]
fn line_end_finds_the_line_feed() {
    let chars = chars_of("ab\ncd\n\nef");
    assert_eq!(line_end(&chars, 0), 2);
    assert_eq!(line_end(&chars, 3), 5);
    assert_eq!(line_end(&chars, 6), 6);
    assert_eq!(line_end(&chars, 7), 9);
    assert_eq!(line_end(&chars, 9), 9);
}

#[test]
fn find_last_dot_examples() {
    assert_eq!(find_last_dot(&chars_of("a.b.c")), Some(3));
    assert_eq!(find_last_dot(&chars_of(".hidden")), Some(0));
    assert_eq!(find_last_dot(&chars_of("name.")), Some(4));
    assert_eq!(find_last_dot(&chars_of("name")), None);
    assert_eq!(find_last_dot(&chars_of("")), None);
}

#[test]
fn clone_strings_copies() {
    let v = vec!["a".to_string(), "".to_string(), "é".to_string()];
    assert_eq!(clone_strings(&v), v);
}
