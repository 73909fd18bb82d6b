//! Text, offsets and JSON.
use lsp_mcp::json::{Json, JsonNumber};
use lsp_mcp::offsets::{part, slice};
use lsp_mcp::text::{
    contains, decimal_text, ends_with_newline, join, lines, parse_usize, remove_text, same_text,
    split_once, strip_prefix, trim, trim_end_char,
};

fn json(text: &str) -> Json {
    Json::parse(text.as_bytes()).unwrap()
}

#[test]
fn lines_are_split_like_the_standard_library_does() {
    for text in ["", "a", "a\n", "a\nb", "a\r\nb\r\n", "\n", "\n\n", "a\rb\n\r\n", "é\nü"] {
        let expected: Vec<String> = text.lines().map(|line| line.to_string()).collect();
        assert_eq!(lines(text), expected, "{:?}", text);
    }
}

#[test]
fn joined_lines_are_the_text_again() {
    let text = "fn main() {\n    let x = 1;\n}";
    assert_eq!(join(&lines(text), "\n"), text);
    assert_eq!(join(&lines("a\nb\n"), "\n"), "a\nb");
    assert_eq!(join(&vec![], ", "), "");
}

#[test]
fn white_space_is_trimmed_at_both_ends() {
    for text in ["", "  ", "\t a b \r\n", "\u{3000}x\u{85}", "\u{200b}x", "x\u{a0}\u{2028}"] {
        assert_eq!(trim(text), text.trim());
    }
    assert_eq!(trim_end_char("a {{{", '{'), "a ");
    assert_eq!(trim_end_char(";;", ';'), "");
}

#[test]
fn patterns_are_found_and_removed() {
    assert!(contains("hello world", "lo w"));
    assert!(contains("abc", ""));
    assert!(!contains("ab", "abc"));
    assert_eq!(remove_text("aabaabaa", "aab"), "aa");
    assert_eq!(remove_text("aaaa", "aa"), "");
    assert_eq!(remove_text("aaa", "aa"), "a");
    assert_eq!(remove_text("no marker", "---"), "no marker");
}

#[test]
fn prefixes_and_separators() {
    assert_eq!(strip_prefix("Content-Length: 12\r\n", "Content-Length: "), Some("12\r\n".to_string()));
    assert_eq!(strip_prefix("content-length: 12", "Content-Length: "), None);
    assert_eq!(split_once("a b c", ' '), Some(("a".to_string(), "b c".to_string())));
    assert_eq!(split_once("abc", ' '), None);
    assert!(same_text("é", "é"));
    assert!(!same_text("a", "ab"));
    assert!(ends_with_newline("a\n"));
    assert!(!ends_with_newline(""));
}

#[test]
fn numbers_are_written_and_read() {
    assert_eq!(decimal_text(0), "0");
    assert_eq!(decimal_text(u64::MAX), "18446744073709551615");
    for text in ["0", "007", "+5", "18446744073709551615", "18446744073709551616", "", "+", "-1", "1a"] {
        assert_eq!(parse_usize(text), text.parse::<usize>().ok(), "{:?}", text);
    }
    for n in [0usize, 9, 10, 4096, usize::MAX] {
        assert_eq!(parse_usize(&decimal_text(n as u64)), Some(n));
    }
}

#[test]
fn lines_are_parted_by_bytes() {
    assert_eq!(part("añb", 3), ("añ".to_string(), "b".to_string()));
    assert_eq!(slice("añb", 1, 3), "ñ");
    assert_eq!(slice("let x = 1;", 4, 5), "x");
    assert_eq!(slice("abc", 2, 2), "");
}

#[test]
fn json_is_read_and_written() {
    assert_eq!(json("{\"b\": [1, -2, 0.5, null], \"a\": \"x\\n\"}").render(),
        "{\"a\":\"x\\n\",\"b\":[1,-2,0.5,null]}");
    assert!(Json::parse(b"{\"a\": }").is_none());
    assert!(Json::parse(b"1 2").is_none());
    assert!(Json::parse(b"").is_none());
}

#[test]
fn json_numbers_keep_their_kind() {
    assert!(matches!(json("5"), Json::Number(JsonNumber::Unsigned(5))));
    assert!(matches!(json("-5"), Json::Number(JsonNumber::Signed(-5))));
    assert!(matches!(json("5.0"), Json::Number(JsonNumber::Fraction(_))));
    assert_eq!(json("5").as_u64(), Some(5));
    assert_eq!(json("-5").as_u64(), None);
    assert_eq!(json("5.0").as_u64(), None);
    assert_eq!(Json::Number(JsonNumber::Signed(7)).as_u64(), Some(7));
}

#[test]
fn the_later_member_of_a_name_counts() {
    let twice = Json::Object(vec![
        ("a".to_string(), Json::integer(1)),
        ("a".to_string(), Json::integer(2)),
    ]);
    assert_eq!(twice.get("a").unwrap().as_u64(), Some(2));
    assert_eq!(twice.render(), "{\"a\":2}");
    assert_eq!(json("{\"a\":1,\"a\":2}").render(), "{\"a\":2}");
}

#[test]
fn members_are_set_in_objects_and_null() {
    let mut value = Json::Null;
    value.set("path", Json::text("x"));
    assert_eq!(value.render(), "{\"path\":\"x\"}");
    value.set("path", Json::Bool(true));
    value.set("n", Json::integer(3));
    assert_eq!(value.render(), "{\"n\":3,\"path\":true}");
    assert!(value.get("m").is_none());
    assert!(Json::text("x").get("path").is_none());
    assert_eq!(Json::text("x").as_text(), Some("x"));
    assert_eq!(Json::Null.as_text(), None);
}

#[test]
fn json_goes_to_the_serializer_and_back() {
    let text = "{\"a\":[1.25,{\"b\":-1}],\"c\":18446744073709551615}";
    let value: serde_json::Value = serde_json::from_str(text).unwrap();
    assert_eq!(Json::from_value(&value).to_value(), value);
    assert_eq!(Json::from_value(&value).copy().render(), text);
    assert_eq!(Json::array(vec![Json::Null, Json::object()]).render(), "[null,{}]");
}
