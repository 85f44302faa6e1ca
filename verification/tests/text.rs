use resh::text;

#[test]
fn white_space_is_what_unicode_says() {
    for n in 0..=0x10ffff_u32 {
        if let Some(c) = char::from_u32(n) {
            assert_eq!(text::white(c), c.is_whitespace(), "{n:x}");
        }
    }
}

#[test]
fn trimming_agrees_with_the_standard_library() {
    for s in ["", " ", "\u{3000}a b\u{2028}\n", "a", "\t\u{85}x\r\n", "\u{200b}y "] {
        assert_eq!(text::trim(s), s.trim());
        assert_eq!(text::trim_char(s, ' '), s.trim_matches(' '));
    }
    assert_eq!(text::trim_char("//a//b/", '/'), "a//b");
}

#[test]
fn splitting_agrees_with_the_standard_library() {
    for s in ["", "\n", "a", "a\n", "a\r\n\nb\r", "a\r\r\nb\n\n", "x\ny", "\r"] {
        assert_eq!(text::lines(s), s.lines().collect::<Vec<_>>());
        assert_eq!(text::split_char(s, '\n'), s.split('\n').collect::<Vec<_>>());
        assert_eq!(text::fields(s), s.split_whitespace().collect::<Vec<_>>());
    }
    for s in ["", ":", "a:b", "a:b:c", "::", "none", "\u{e9}:\u{96ea}"] {
        let expected = s.split_once(':').map(|(a, b)| (a.to_string(), b.to_string()));
        assert_eq!(text::split_once(s, ':'), expected);
    }
}

#[test]
fn prefixes_agree_with_the_standard_library() {
    for (s, prefix) in [("", ""), ("abc", ""), ("abc", "ab"), ("abc", "abc"), ("abc", "abcd"), ("abc", "b"), ("\u{96ea}x", "\u{96ea}")] {
        assert_eq!(text::starts_with(s, prefix), s.starts_with(prefix));
        assert_eq!(text::strip_prefix(s, prefix), s.strip_prefix(prefix).map(String::from));
    }
}

#[test]
fn replacing_and_escaping() {
    assert_eq!(text::replace_char("a.b..c", '.', "::"), "a::b::::c");
    assert_eq!(text::replace_char("", '.', "x"), "");
    assert_eq!(text::escape("a\\b\"c", "\\\""), "a\\\\b\\\"c");
    assert_eq!(text::escape("a$b", "\\\""), "a$b");
}

#[test]
fn numbers_agree_with_the_standard_library() {
    for n in [0, 9, 10, 99, 100, 12345, u64::MAX] {
        assert_eq!(text::decimal_text(n), n.to_string());
        assert_eq!(text::low_digits_text(n, 16, 6), format!("{:06x}", n & 0xffffff));
    }
    for n in [0, -1, -10, i64::MAX, i64::MIN] {
        assert_eq!(text::signed_decimal_text(n), n.to_string());
    }
    assert_eq!(text::low_digits_text(7, 10, 3), "007");
    assert_eq!(text::low_digits_text(1234, 10, 3), "234");
}

#[test]
fn lists_of_texts() {
    let list = vec!["a".to_string(), String::new(), "b".to_string()];
    assert_eq!(text::join(&list, ", "), "a, , b");
    assert_eq!(text::join(&Vec::new(), ", "), "");
    assert!(text::contains_text(&list, ""));
    assert!(!text::contains_text(&list, "c"));
    assert!(text::has_char("abc", 'c'));
    assert!(!text::has_char("abc", 'd'));
}
