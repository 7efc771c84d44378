use session_import::json::{parse_json, parse_json_lines, Json};
use session_import::message::{block_chars, content_chars, user_prompt, ContentBlock, Role};
use session_import::text::{
    byte_length, contains, decimal, join, lines, replace, same_text, shorten, starts_with,
    to_ascii_lowercase, trim, truncate_str,
};
use session_import::time::{earlier, parse_rfc3339_json, parse_rfc3339_string, Timestamp};

fn json(text: &str) -> Json {
    match parse_json(text) {
        Ok(value) => value,
        Err(error) => panic!("{error}"),
    }
}

#[test]
fn reads_json() {
    let value = json(r#" {"a": [1, -2, 2.5, "s", null, true], "b": {"c": false}, "a2": "ü\n"} "#);
    let items = value.get("a").unwrap().as_array().unwrap();
    assert_eq!(items.len(), 6);
    assert_eq!(items[0].as_i64(), Some(1));
    assert_eq!(items[1].as_i64(), Some(-2));
    assert_eq!(items[2].as_i64(), None);
    assert_eq!(items[3].as_str().unwrap(), "s");
    assert_eq!(items[3].as_i64(), None);
    assert!(matches!(items[4], Json::Null));
    assert_eq!(items[5].as_bool(), Some(true));
    assert_eq!(value.get("b").unwrap().get_bool("c"), Some(false));
    assert_eq!(value.get_text("a2").as_deref(), Some("ü\n"));
    assert!(value.get("missing").is_none());
    assert!(items[0].get("x").is_none());
    assert!(items[0].as_array().is_none());
    assert_eq!(value.get_str("a"), None);
    assert!(parse_json("{").is_err());
    assert!(parse_json("").is_err());
    assert!(parse_json("1 2").is_err());
}

#[test]
fn later_keys_replace_earlier_ones() {
    let value = json(r#"{"k": 1, "k": 2}"#);
    assert_eq!(value.get("k").unwrap().as_i64(), Some(2));
    let built = Json::Object(vec![
        ("k".to_string(), Json::Bool(true)),
        ("k".to_string(), Json::Bool(false)),
    ]);
    assert_eq!(built.get_bool("k"), Some(false));
    assert_eq!(built.render(), r#"{"k":false}"#);
    let nested = Json::Object(vec![
        ("z".to_string(), Json::Bool(true)),
        ("a".to_string(), Json::Null),
        ("z".to_string(), Json::Text("mid".to_string())),
        ("m".to_string(), built),
        ("z".to_string(), Json::Array(vec![Json::Bool(false)])),
    ]);
    assert_eq!(nested.render(), r#"{"a":null,"m":{"k":false},"z":[false]}"#);
}

#[test]
fn writes_json() {
    let text = r#"{"a":[1,-2,2.5,"s\"",null,true],"b":{"c":{}},"u":"ü"}"#;
    let value = json(text);
    assert_eq!(value.render(), text);
    assert_eq!(value.duplicate().render(), text);
    assert_eq!(json("[ 1 , 18446744073709551615 ]").render(), "[1,18446744073709551615]");
    assert_eq!(json("18446744073709551615").as_i64(), None);
    assert_eq!(json("-9223372036854775808").as_i64(), Some(i64::MIN));
}

#[test]
fn reads_lines_of_json() {
    let lines: Vec<String> = ["1", " ", "x", " 2 "].iter().map(|s| s.to_string()).collect();
    let values = parse_json_lines(&lines, 1);
    assert_eq!(values.len(), 1);
    assert_eq!(values[0].as_i64(), Some(2));
    assert_eq!(parse_json_lines(&lines, 0).len(), 2);
    assert!(parse_json_lines(&lines, 4).is_empty());
}

#[test]
fn reads_times() {
    let read = |text: &str| parse_rfc3339_string(&Some(text.to_string()));
    assert_eq!(read("1970-01-01T00:00:00Z"), Some(Timestamp { secs: 0, nanos: 0 }));
    assert_eq!(
        read("2026-04-05T21:00:00.25+02:00"),
        Some(Timestamp { secs: 1_775_415_600, nanos: 250_000_000 })
    );
    assert_eq!(
        read("2016-12-31T23:59:60Z"),
        Some(Timestamp { secs: 1_483_228_799, nanos: 1_000_000_000 })
    );
    assert_eq!(read("2026-04-05"), None);
    assert_eq!(read(""), None);
    assert_eq!(parse_rfc3339_string(&None), None);
    assert_eq!(
        parse_rfc3339_json(Some(&json("\"1969-12-31T23:59:59Z\""))),
        Some(Timestamp { secs: -1, nanos: 0 })
    );
    assert_eq!(parse_rfc3339_json(Some(&json("5"))), None);
    assert_eq!(parse_rfc3339_json(None), None);
}

#[test]
fn orders_times() {
    let t = |secs, nanos| Some(Timestamp { secs, nanos });
    assert!(earlier(t(1, 5), t(2, 0)));
    assert!(earlier(t(1, 5), t(1, 6)));
    assert!(!earlier(t(1, 5), t(1, 5)));
    assert!(earlier(None, t(-9, 0)));
    assert!(!earlier(t(-9, 0), None));
    assert!(!earlier(None, None));
}

#[test]
fn texts() {
    for s in ["", "  ", "\u{3000}a b\u{a0}\t\n", "x", " ä ", "\u{200b}z"] {
        assert_eq!(trim(s), s.trim());
    }
    for s in ["", "\n", "a", "a\n", "a\nb", "a\r\nb\r", "\r\n\n", "ä\rö\nü"] {
        let expected: Vec<String> = s.lines().map(|l| l.to_string()).collect();
        assert_eq!(lines(s), expected);
    }
    assert!(contains("abcabd", "abd") && !contains("ab", "abc") && contains("x", ""));
    assert!(starts_with("<system-reminder>x", "<system-reminder>") && !starts_with("a", "b"));
    assert_eq!(replace("aXbXX", "X", "--"), "a--b----");
    assert_eq!(replace("aaa", "aa", "b"), "ba");
    assert_eq!(to_ascii_lowercase("AbZ[ÄÖ"), "abz[ÄÖ");
    assert_eq!(join(&vec!["a".to_string(), "b".to_string(), String::new()], ", "), "a, b, ");
    assert_eq!(join(&vec![], ", "), "");
    assert_eq!(decimal(0), "0");
    assert_eq!(decimal(1_203), "1203");
    assert_eq!(decimal(usize::MAX), usize::MAX.to_string());
    assert_eq!(byte_length("aä€😀"), 10);
    assert_eq!(truncate_str("aä€😀", 5), "aä");
    assert_eq!(truncate_str("aä€😀", 6), "aä€");
    assert_eq!(truncate_str("aä€😀", 9), "aä€");
    assert_eq!(truncate_str("aä€😀", 10), "aä€😀");
    assert_eq!(truncate_str("ä", 1), "");
    assert_eq!(shorten("😀😀😀", 1), "😀 …[truncated]");
    assert!(same_text("a", "a") && !same_text("a", "b"));
}

#[test]
fn sizes_of_blocks() {
    let text = |s: &str| ContentBlock::Text { text: s.to_string() };
    assert_eq!(block_chars(&text("äb")), 3);
    assert_eq!(block_chars(&ContentBlock::Other), 0);
    let call = ContentBlock::ToolUse {
        id: "long id".to_string(),
        name: "n".to_string(),
        input: json("{\"x\": \"ä\"}"),
    };
    assert_eq!(block_chars(&call), 1 + 10);
    let result = ContentBlock::ToolResult {
        tool_use_id: "t".to_string(),
        content: "abc".to_string(),
        is_error: None,
    };
    assert_eq!(content_chars(&vec![text("12"), call, result]), 2 + 11 + 3);
}

#[test]
fn prompts_of_the_user() {
    let text = |s: &str| ContentBlock::Text { text: s.to_string() };
    assert_eq!(
        user_prompt(Role::User, &vec![text(" a"), text("b ")]).as_deref(),
        Some("a b")
    );
    assert_eq!(user_prompt(Role::Assistant, &vec![text("a")]), None);
    assert_eq!(user_prompt(Role::User, &vec![text(" ")]), None);
    assert_eq!(user_prompt(Role::User, &vec![text(" <system-reminder>x")]), None);
    let result = ContentBlock::ToolResult {
        tool_use_id: "t".to_string(),
        content: "abc".to_string(),
        is_error: None,
    };
    assert_eq!(user_prompt(Role::User, &vec![text("a"), result]), None);
    assert_eq!(
        user_prompt(Role::User, &vec![text(&"p".repeat(201))]),
        Some(format!("{} …[truncated]", "p".repeat(200)))
    );
}
