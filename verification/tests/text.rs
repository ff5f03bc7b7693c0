use applepi::json::Json;
use applepi::text::{
    byte_len, has_part, i64_text, join, parse_i64, replace_char, sort_unique, split_lines,
    split_once, split_words, take_chars, to_lower, trim, u64_text, CharClass,
};

#[test]
fn white_space_is_the_unicode_property() {
    for c in '\0'..=char::MAX {
        let u = c as u32;
        let white = (0x9..=0xd).contains(&u)
            || u == 0x20
            || u == 0x85
            || u == 0xa0
            || u == 0x1680
            || (0x2000..=0x200a).contains(&u)
            || [0x2028, 0x2029, 0x202f, 0x205f, 0x3000].contains(&u);
        assert_eq!(c.is_whitespace(), white, "{u:x}");
        assert_eq!(c.is_control(), u <= 0x1f || (0x7f..=0x9f).contains(&u), "{u:x}");
        if u < 0x80 {
            assert_eq!(c.is_alphanumeric(), c.is_ascii_alphanumeric());
        }
    }
}

#[test]
fn texts_are_taken_apart() {
    assert_eq!(trim("\u{3000} a b \n"), "a b");
    assert_eq!(split_lines("a\nb\r\n\nc"), vec!["a\n", "b\r\n", "\n", "c"]);
    assert_eq!(split_words(" a \t b\n"), vec!["a", "b"]);
    assert_eq!(split_once("a b c", CharClass::Blank), Some(("a".into(), "b c".into())));
    assert_eq!(split_once("abc", CharClass::Blank), None);
    assert_eq!(take_chars("一二三", 2), "一二");
    assert_eq!(take_chars("一", 2), "一");
    assert_eq!(join(&vec!["a".into(), "b".into()], "--"), "a--b");
    assert_eq!(replace_char("a&b&", '&', "&amp;"), "a&amp;b&amp;");
    assert_eq!(to_lower("AbÄ"), "abÄ");
    assert!(has_part("abc", "bc"));
    assert!(!has_part("abc", "ac"));
    assert_eq!(byte_len("字a"), 4);
}

#[test]
fn numbers_are_written_and_read_back() {
    for n in [0, 7, -7, 10, 305, i64::MAX, i64::MIN] {
        assert_eq!(i64_text(n), n.to_string());
        assert_eq!(parse_i64(&i64_text(n)), Some(n));
    }
    assert_eq!(u64_text(u64::MAX), u64::MAX.to_string());
    for bad in ["", "-", "+", "1a", " 1", "9223372036854775808", "-9223372036854775809"] {
        assert_eq!(parse_i64(bad), None, "{bad}");
        assert!(bad.parse::<i64>().is_err());
    }
    assert_eq!(parse_i64("+5"), Some(5));
    assert_eq!(parse_i64("007"), Some(7));
}

#[test]
fn sorting_drops_what_is_there_twice() {
    let v: Vec<String> = ["b", "a", "", "ab", "b", "字", "z"].iter().map(|s| s.to_string()).collect();
    let mut expected = v.clone();
    expected.sort();
    expected.dedup();
    assert_eq!(sort_unique(&v), expected);
}

#[test]
fn json_is_read_and_written() {
    let text = r#"{"a":[1,-2,2.5,null,true,"x\n"],"b":{"c":18446744073709551615}}"#;
    let v = Json::parse(text).unwrap();
    assert_eq!(v.render(), text);
    assert_eq!(v.duplicate().render(), text);
    let a = v.array_at("a").unwrap();
    assert_eq!(a[0].as_u64(), Some(1));
    assert_eq!(a[1].as_i64(), Some(-2));
    assert_eq!(a[1].as_u64(), None);
    assert_eq!(a[2].as_i64(), None);
    assert_eq!(a[5].as_text(), Some("x\n"));
    assert_eq!(v.get("b").unwrap().u64_at("c"), Some(u64::MAX));
    assert_eq!(v.get("b").unwrap().i64_at("c"), None);
    assert!(v.at(0).is_none());
    assert!(Json::parse("{").is_none());
    assert!(Json::read("{").unwrap_err().contains("line 1"));
    let twice = Json::parse(r#"{"k":1,"k":2}"#).unwrap();
    assert_eq!(twice.u64_at("k"), Some(2));
    let made = Json::object().with("k", Json::unsigned(1)).with("k", Json::signed(-2));
    assert_eq!(made.render(), r#"{"k":-2}"#);
    assert_eq!(made.i64_at("k"), Some(-2));
    assert_eq!(made.bool_at("k"), None);
}
