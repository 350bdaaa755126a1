use minicomp::text::{chars_of, find, find_from, is_space, slice, split, trim};

fn texts_chars(text: &str) -> Vec<char> {
    text.chars().collect()
}

fn texts_string(chars: &[char]) -> String {
    chars.iter().collect()
}

#[test]
fn chars_of_keeps_every_character() {
    assert_eq!(chars_of("a\u{e9}\u{1f600}z"), vec!['a', '\u{e9}', '\u{1f600}', 'z']);
    assert_eq!(chars_of(""), Vec::<char>::new());
}

#[test]
fn is_space_agrees_with_char_is_whitespace() {
    for code in 0u32..0x11_0000 {
        if let Some(c) = char::from_u32(code) {
            assert_eq!(is_space(c), c.is_whitespace(), "U+{:04X}", code);
        }
    }
}

#[test]
fn trim_agrees_with_str_trim() {
    for text in ["", " ", "  a  ", "\ta b\n", "x", " \u{a0}\u{3000}y\u{2003} ", "a  ", "  a"] {
        assert_eq!(texts_string(&trim(&texts_chars(text))), text.trim());
    }
}

#[test]
fn split_agrees_with_str_split() {
    for text in ["", ";", "a", "a;b", ";a;", "a;;b", ";;", "a;b;c;"] {
        let pieces: Vec<String> =
            split(&texts_chars(text), ';').iter().map(|p| texts_string(p)).collect();
        let expected: Vec<String> = text.split(';').map(String::from).collect();
        assert_eq!(pieces, expected);
    }
}

#[test]
fn find_gives_the_first_index_or_the_length() {
    let text = texts_chars("f(x)=(y)");
    assert_eq!(find(&text, '('), 1);
    assert_eq!(find(&text, ')'), 3);
    assert_eq!(find(&text, '='), 4);
    assert_eq!(find(&text, ';'), 8);
    assert_eq!(find_from(&text, '(', 2), 5);
    assert_eq!(find_from(&text, '(', 6), 8);
    assert_eq!(find_from(&text, '(', 8), 8);
    assert_eq!(find(&Vec::new(), 'a'), 0);
}

#[test]
fn slice_copies_a_range() {
    let text = texts_chars("abcdef");
    assert_eq!(slice(&text, 1, 4), vec!['b', 'c', 'd']);
    assert_eq!(slice(&text, 0, 6), text);
    assert_eq!(slice(&text, 3, 3), Vec::<char>::new());
}
