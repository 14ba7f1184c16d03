use netmon_rs::names::{NameMap, NameSet};
use netmon_rs::text;

#[test]
fn a_set_holds_each_name_once() {
    let mut set = NameSet::default();
    assert!(set.insert("a".to_string()));
    assert!(!set.insert("a".to_string()));
    assert!(set.insert("b".to_string()));
    assert_eq!(set.len(), 2);
    let mut keep = NameSet::new();
    keep.insert("b".to_string());
    keep.insert("c".to_string());
    set.retain(&keep);
    assert!(!set.contains("a") && set.contains("b") && !set.contains("c"));
    set.remove("b");
    assert_eq!(set.len(), 0);
}

#[test]
fn a_map_keeps_the_last_value() {
    let mut map: NameMap<u32> = NameMap::new();
    map.insert("a".to_string(), 1);
    map.insert("b".to_string(), 2);
    map.insert("a".to_string(), 3);
    assert_eq!(map.get("a"), Some(&3));
    assert_eq!(map.get("b"), Some(&2));
    assert_eq!(map.get("c"), None);
    assert_eq!(map.len(), 2);
    assert_eq!(map.name_at(0), "a");
    assert!(map.contains_key("b") && !map.contains_key("c"));
}

#[test]
fn white_space_is_unicode_white_space() {
    for c in '\0'..=char::MAX {
        assert_eq!(text::white(c), c.is_whitespace(), "{c:?}");
    }
}

#[test]
fn texts_agree_with_the_standard_library() {
    for s in [
        "",
        " ",
        "a",
        " a b ",
        "\ta\u{a0}b\r\n",
        "x\n\ny\r\n",
        "\r\n",
        "one\rtwo\n",
        "tail\r",
        "\u{3000}wide\u{2003}",
    ] {
        assert_eq!(text::trim(s), s.trim());
        let chars = text::chars_of(s);
        let words: Vec<String> = text::words_of(&chars)
            .iter()
            .map(|w| text::text_of(w))
            .collect();
        assert_eq!(words, s.split_whitespace().collect::<Vec<_>>());
        let lines: Vec<String> = text::lines_of(s)
            .iter()
            .map(|l| text::text_of(l))
            .collect();
        assert_eq!(lines, s.lines().collect::<Vec<_>>());
        let parts: Vec<String> = text::split_at_each(&chars, 'a')
            .iter()
            .map(|p| text::text_of(p))
            .collect();
        assert_eq!(parts, s.split('a').collect::<Vec<_>>());
        assert_eq!(text::has(s, "b"), s.contains("b"));
        assert_eq!(text::begins_with(s, " a"), s.starts_with(" a"));
    }
}

#[test]
fn octets_agree_with_the_standard_library() {
    for s in ["", "0", "7", "255", "256", "+1", "+", "-0", "001", "1 ", "a", "99999999999999999999"] {
        assert_eq!(text::octet(&text::chars_of(s)), s.parse::<u8>().is_ok(), "{s}");
        assert_eq!(
            text::parse_u32(&text::chars_of(s)),
            if s.starts_with('+') { None } else { s.parse::<u32>().ok() },
            "{s}"
        );
    }
    assert_eq!(text::parse_u32(&text::chars_of("4294967295")), Some(u32::MAX));
    assert_eq!(text::parse_u32(&text::chars_of("4294967296")), None);
}

#[test]
fn numbers_in_decimal() {
    for n in [0, 7, 10, 99, 100, 1234567890, u64::MAX] {
        let mut out = String::from("n=");
        text::push_decimal(&mut out, n);
        assert_eq!(out, format!("n={n}"));
    }
    let mut out = String::new();
    text::push_two_digits(&mut out, 5);
    text::push_two_digits(&mut out, 123);
    assert_eq!(out, "05123");
}

#[test]
fn finds_the_first_occurrence() {
    let s = text::chars_of("abcabc");
    assert_eq!(text::find(&s, &text::chars_of("ca")), Some(2));
    assert_eq!(text::find(&s, &text::chars_of("bc")), Some(1));
    assert_eq!(text::find(&s, &text::chars_of("x")), None);
    assert_eq!(text::find(&s, &[]), Some(0));
    assert!(text::has_char(&s, 'c') && !text::has_char(&s, 'd'));
    assert!(text::same_text("é", "é") && !text::same_text("é", "e"));
}
