use card_receipt::text::{
    append_chars, append_str, chars_eq, find, has, has_any, has_str, is_ascii_digit,
    is_whitespace, matches_at, slice_of, split_lines, string_of, to_chars, to_string, trim,
};

fn chars(s: &str) -> Vec<char> {
    s.chars().collect()
}

fn strings(lines: Vec<Vec<char>>) -> Vec<String> {
    lines.iter().map(|l| l.iter().collect()).collect()
}

#[test]
fn text_to_chars_and_back() {
    assert_eq!(to_chars("a가b"), vec!['a', '가', 'b']);
    assert_eq!(to_chars(""), Vec::<char>::new());
    assert_eq!(string_of(&chars("a가b")), "a가b");
    assert_eq!(to_string(&chars("hello"), 1, 3), "el");
    assert_eq!(slice_of(&chars("hello"), 2, 5), chars("llo"));
    assert_eq!(slice_of(&chars("hello"), 2, 2), chars(""));
}

#[test]
fn appending_chars() {
    let mut v = chars("ab");
    append_chars(&mut v, &chars("cd"));
    append_str(&mut v, "한");
    assert_eq!(v, chars("abcd한"));
}

#[test]
fn comparing_chars() {
    assert!(chars_eq(&chars("abc"), &chars("abc")));
    assert!(!chars_eq(&chars("abc"), &chars("abd")));
    assert!(!chars_eq(&chars("abc"), &chars("ab")));
    assert!(chars_eq(&chars(""), &chars("")));
}

#[test]
fn character_classes_agree_with_std() {
    for u in 0..0x3100u32 {
        if let Some(c) = char::from_u32(u) {
            assert_eq!(is_whitespace(c), c.is_whitespace(), "{:x}", u);
            assert_eq!(is_ascii_digit(c), c.is_ascii_digit(), "{:x}", u);
        }
    }
}

#[test]
fn trimming_agrees_with_std() {
    for s in ["", " ", "  a b \t\n", "a", "\u{3000}가 나\u{a0}", " \r\n ", "x  "] {
        assert_eq!(string_of(&trim(&chars(s))), s.trim(), "{:?}", s);
    }
}

#[test]
fn searching_agrees_with_std() {
    let cases = [("hello", "l"), ("hello", "lo"), ("hello", ""), ("", ""), ("", "a"),
        ("aab", "ab"), ("abc", "abcd"), ("가나다", "나다"), ("abab", "ba")];
    for (s, p) in cases {
        assert_eq!(has(&chars(s), &chars(p)), s.contains(p), "{:?} {:?}", s, p);
        assert_eq!(has_str(&chars(s), p), s.contains(p));
        let expected = s.find(p).map(|b| s[..b].chars().count()).unwrap_or(s.chars().count());
        assert_eq!(find(&chars(s), &chars(p), 0), expected, "{:?} {:?}", s, p);
    }
    assert_eq!(find(&chars("abab"), &chars("ab"), 1), 2);
    assert_eq!(find(&chars("abab"), &chars("ab"), 3), 4);
    assert!(matches_at(&chars("abab"), &chars("ba"), 1));
    assert!(!matches_at(&chars("abab"), &chars("ba"), 3));
    assert!(matches_at(&chars("ab"), &chars(""), 2));
    assert!(!matches_at(&chars("ab"), &chars(""), 3));
}

#[test]
fn any_of_several_phrases() {
    assert!(has_any(&chars("pay by VISA card"), &vec!["USD", "VISA"]));
    assert!(!has_any(&chars("pay by card"), &vec!["USD", "VISA"]));
    assert!(!has_any(&chars("pay by card"), &vec![]));
}

#[test]
fn lines_agree_with_std() {
    for s in ["", "a", "a\n", "a\nb", "a\r\nb\r\n", "\n", "\n\n", "a\n\nb", "a\r", "a\r\n\r",
        "\r\n", "a\rb\n", "가\n나"]
    {
        let expected: Vec<String> = s.lines().map(|l| l.to_string()).collect();
        assert_eq!(strings(split_lines(&chars(s))), expected, "{:?}", s);
    }
}
