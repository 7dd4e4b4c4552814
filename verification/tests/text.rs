use zsh2fish::text::{
    extend, find_char, from_chars, is_whitespace, skip_spaces, slice_of, string_of, to_chars,
    word_end,
};

fn chars(s: &str) -> Vec<char> {
    s.chars().collect()
}

#[test]
fn whitespace_is_what_std_calls_whitespace() {
    let mut code: u32 = 0;
    while code <= 0x10FFFF {
        if let Some(c) = char::from_u32(code) {
            assert_eq!(is_whitespace(c), c.is_whitespace(), "U+{:04X}", code);
        }
        code += 1;
    }
}

#[test]
fn whitespace_examples() {
    assert!(is_whitespace(' '));
    assert!(is_whitespace('\t'));
    assert!(is_whitespace('\n'));
    assert!(is_whitespace('\r'));
    assert!(is_whitespace('\u{00A0}'));
    assert!(is_whitespace('\u{3000}'));
    assert!(!is_whitespace('a'));
    assert!(!is_whitespace('\u{200B}'));
    assert!(!is_whitespace('\0'));
}

#[test]
fn to_chars_gives_the_characters_in_order() {
    assert_eq!(to_chars(""), Vec::<char>::new());
    assert_eq!(to_chars("ls -la"), vec!['l', 's', ' ', '-', 'l', 'a']);
    assert_eq!(to_chars("é→x"), vec!['é', '→', 'x']);
}

#[test]
fn from_chars_builds_the_string() {
    assert_eq!(from_chars(&Vec::new()), "");
    assert_eq!(from_chars(&vec!['a', 'b', 'c']), "abc");
    assert_eq!(from_chars(&vec!['é', '→', 'x']), "é→x");
}

#[test]
fn chars_round_trip() {
    for s in ["", "a", "foo && bar", "日本語 テキスト", "tab\tnew\nline"] {
        assert_eq!(from_chars(&to_chars(s)), s);
    }
}

#[test]
fn string_of_takes_a_range() {
    let v = chars("hello world");
    assert_eq!(string_of(&v, 0, 5), "hello");
    assert_eq!(string_of(&v, 6, 11), "world");
    assert_eq!(string_of(&v, 3, 3), "");
    assert_eq!(string_of(&v, 0, 11), "hello world");
}

#[test]
fn slice_of_takes_a_range() {
    let v = chars("hello world");
    assert_eq!(slice_of(&v, 0, 5), chars("hello"));
    assert_eq!(slice_of(&v, 4, 7), chars("o w"));
    assert_eq!(slice_of(&v, 11, 11), chars(""));
}

#[test]
fn extend_appends() {
    let mut v = chars("ab");
    extend(&mut v, &chars("cd"));
    assert_eq!(v, chars("abcd"));
    extend(&mut v, &chars(""));
    assert_eq!(v, chars("abcd"));
    let mut empty = chars("");
    extend(&mut empty, &chars("x"));
    assert_eq!(empty, chars("x"));
}

#[test]
fn skip_spaces_stops_at_the_first_other_character() {
    let v = chars("  \t ls  -la ");
    assert_eq!(skip_spaces(&v, 0), 4);
    assert_eq!(skip_spaces(&v, 4), 4);
    assert_eq!(skip_spaces(&v, 6), 8);
    assert_eq!(skip_spaces(&v, 11), 12);
    assert_eq!(skip_spaces(&v, 12), 12);
    assert_eq!(skip_spaces(&chars("   "), 0), 3);
    assert_eq!(skip_spaces(&chars(""), 0), 0);
}

#[test]
fn word_end_stops_at_the_first_white_space() {
    let v = chars("ls  -la\u{3000}x");
    assert_eq!(word_end(&v, 0), 2);
    assert_eq!(word_end(&v, 2), 2);
    assert_eq!(word_end(&v, 4), 7);
    assert_eq!(word_end(&v, 8), 9);
    assert_eq!(word_end(&v, 9), 9);
}

#[test]
fn find_char_gives_the_first_index_or_the_length() {
    let v = chars("a=b=c");
    assert_eq!(find_char(&v, 0, '='), 1);
    assert_eq!(find_char(&v, 1, '='), 1);
    assert_eq!(find_char(&v, 2, '='), 3);
    assert_eq!(find_char(&v, 4, '='), 5);
    assert_eq!(find_char(&v, 0, 'z'), 5);
    assert_eq!(find_char(&v, 5, 'a'), 5);
}
