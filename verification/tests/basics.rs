use jyc_agent::json::{parse_json, Json};
use jyc_agent::numbers::{decimal_string, parse_u16, parse_u64};
use jyc_agent::text::{contains, find_text, split_lines, trimmed};

#[test]
fn documents_are_read_and_written() {
    let json = parse_json(r#" {"b": [1, null, true], "a": "x\n"} "#).unwrap();
    assert_eq!(json.to_text(), r#"{"a":"x\n","b":[1,null,true]}"#);
    assert_eq!(json.get_str("a"), Some("x\n"));
    assert_eq!(json.get_array("b").unwrap().len(), 3);
    assert_eq!(json.get_array("b").unwrap()[0].as_u64(), Some(1));
    assert_eq!(json.get_array("b").unwrap()[2].as_bool(), Some(true));
    assert!(json.get("c").is_none());
    assert!(parse_json("{").is_none());
    assert!(parse_json("").is_none());
}

#[test]
fn numbers_keep_what_they_are() {
    let json = parse_json("[-1, 1.5, 18446744073709551615]").unwrap();
    let items = json.as_array().unwrap();
    assert_eq!(items[0].as_u64(), None);
    assert_eq!(items[1].as_u64(), None);
    assert_eq!(items[2].as_u64(), Some(u64::MAX));
    assert_eq!(json.to_text(), "[-1,1.5,18446744073709551615]");
    assert_eq!(Json::uint(7).to_text(), "7");
}

#[test]
fn fields_are_set_and_taken_away() {
    let json = Json::object().with("a", Json::uint(1)).with("b", Json::text("x"));
    let json = json.with("a", Json::uint(2));
    assert_eq!(json.to_text(), r#"{"a":2,"b":"x"}"#);
    assert_eq!(json.clone().without("a").to_text(), r#"{"b":"x"}"#);
    assert_eq!(json.get_u64("a"), Some(2));
    assert_eq!(
        json.to_pretty_text(),
        Some("{\n  \"a\": 2,\n  \"b\": \"x\"\n}".to_string())
    );
}

#[test]
fn decimals_read_back() {
    for n in [0u64, 9, 10, 429, u64::MAX] {
        assert_eq!(decimal_string(n), n.to_string());
        assert_eq!(parse_u64(&decimal_string(n)), Some(n));
    }
    assert_eq!(parse_u16("65536"), None);
    assert_eq!(parse_u16("65535"), Some(65535));
    assert_eq!(parse_u64(""), None);
    assert_eq!(parse_u64("1x"), None);
}

#[test]
fn texts_are_searched() {
    assert_eq!(find_text("ab é cd", "cd"), Some(5));
    assert_eq!(find_text("abc", ""), Some(0));
    assert!(contains("hello", "ell"));
    assert!(!contains("hello", "elo"));
    assert_eq!(trimmed("  x y\n"), "x y");
    assert_eq!(split_lines("a\r\nb\n"), vec!["a", "b"]);
}
