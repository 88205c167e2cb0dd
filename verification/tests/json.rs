//! JSON texts: how values are written and read.
use kanbei::json::{read, render, text_json, Json};

fn number(t: &str) -> Json {
    Json::Number(t.to_string())
}

#[test]
fn literals_are_escaped() {
    assert_eq!(
        render(&text_json("a\"b\\c\u{8}\t\n\u{c}\r\u{0}\u{1f}\u{7f}é/")),
        "\"a\\\"b\\\\c\\b\\t\\n\\f\\r\\u0000\\u001f\u{7f}é/\""
    );
    let t = "tab\tand \u{1}";
    assert_eq!(read(&render(&text_json(t))), Some(text_json(t)));
}

#[test]
fn numbers_are_told_apart() {
    assert_eq!(read("7"), Some(Json::Unsigned(7)));
    assert_eq!(
        read("18446744073709551615"),
        Some(Json::Unsigned(u64::MAX))
    );
    assert_eq!(read("-7"), Some(number("-7")));
    assert_eq!(read(" 0.25 "), Some(number("0.25")));
    assert_eq!(read("1e999"), None);
    assert_eq!(read("007"), None);
}

#[test]
fn parts_are_read_from_the_text_they_have() {
    for t in ["0.1", "2.2250738585072011e-308", "123456789012345678901234567890"] {
        let alone = read(t).unwrap();
        let deep = read(&format!("[[{{\"x\":[{t}]}}]]")).unwrap();
        let inner = Json::List(vec![alone]);
        match deep {
            Json::List(a) => match &a[0] {
                Json::List(b) => assert_eq!(b[0].get("x"), Some(&inner), "{t}"),
                other => panic!("a list, got {other:?}"),
            },
            other => panic!("a list, got {other:?}"),
        }
    }
}

#[test]
fn members_ascend_and_the_last_one_counts() {
    let v = read(r#" { "b" : 1, "a" : [ ], "b" : { "d" : null , "c" : true } } "#).unwrap();
    assert_eq!(render(&v), r#"{"a":[],"b":{"c":true,"d":null}}"#);
    // A member that does not count is still read.
    assert_eq!(read(r#"{"a":1e999,"a":1}"#), None);
    assert_eq!(read(r#"[{"b":{"a":[1e999],"a":1}}]"#), None);
    assert_eq!(read("{\"a\":}"), None);
    assert_eq!(read("[1,]"), None);
    assert_eq!(read(""), None);
    assert_eq!(read("nul"), None);
    assert_eq!(read("[\"\\ud800\"]"), None);
}

#[test]
fn nesting_is_bounded() {
    let nested = |n: usize| format!("{}{}", "[".repeat(n), "]".repeat(n));
    assert!(read(&nested(127)).is_some());
    assert_eq!(read(&nested(128)), None);
}
