use iot2db::config::{
    default_mqtt_client_id, default_mqtt_port, default_postgres_port, default_true, Aggregate,
    Value, ValueKind,
};
use iot2db::iter_json_value::{escape_key, iter_json_value, unescape_key};
use iot2db::json::{framed_list, member_text, Document};
use iot2db::text::{chars_of, decimal_string, has_char, replace};

fn parse(text: &str) -> Document {
    fn document(value: &serde_json::Value) -> Document {
        match value {
            serde_json::Value::Null => Document::Null,
            serde_json::Value::Bool(b) => Document::Bool(*b),
            serde_json::Value::Number(n) => Document::Number(n.to_string()),
            serde_json::Value::String(s) => Document::String(s.clone()),
            serde_json::Value::Array(items) => Document::Array(items.iter().map(document).collect()),
            serde_json::Value::Object(members) => {
                Document::Object(members.iter().map(|(k, v)| (k.clone(), document(v))).collect())
            }
        }
    }
    document(&serde_json::from_str::<serde_json::Value>(text).unwrap())
}

fn pointers(document: &Document) -> Vec<String> {
    iter_json_value(document).into_iter().map(|(pointer, _)| pointer).collect()
}

#[test]
fn json_tree_in_pre_order() {
    let doc = parse(r#"{"bar":42,"foo":{"baz":[1,2,"3"]}}"#);
    let nodes = iter_json_value(&doc);
    let expected = vec![
        ("", doc.clone()),
        ("/bar", Document::Number("42".to_string())),
        ("/foo", parse(r#"{"baz":[1,2,"3"]}"#)),
        ("/foo/baz", parse(r#"[1,2,"3"]"#)),
        ("/foo/baz/0", Document::Number("1".to_string())),
        ("/foo/baz/1", Document::Number("2".to_string())),
        ("/foo/baz/2", Document::String("3".to_string())),
    ];
    assert_eq!(nodes.len(), expected.len());
    for ((pointer, node), (expected_pointer, expected_node)) in nodes.iter().zip(expected.iter()) {
        assert_eq!(pointer, expected_pointer);
        assert_eq!(*node, expected_node);
    }
}

#[test]
fn nodes_are_references_into_the_document() {
    let doc = parse(r#"{"a":[{"b":null}]}"#);
    let nodes = iter_json_value(&doc);
    assert!(std::ptr::eq(nodes[0].1, &doc));
    let Document::Object(members) = &doc else { unreachable!() };
    assert!(std::ptr::eq(nodes[1].1, &members[0].1));
    let Document::Array(items) = &members[0].1 else { unreachable!() };
    assert!(std::ptr::eq(nodes[2].1, &items[0]));
}

#[test]
fn scalars_have_one_node() {
    for text in ["null", "true", "7", "\"s\"", "[]", "{}"] {
        assert_eq!(pointers(&parse(text)), vec![""]);
    }
}

#[test]
fn members_are_visited_in_the_documents_order() {
    let doc = Document::Object(vec![
        ("z".to_string(), Document::Null),
        ("a".to_string(), Document::Array(vec![Document::Null, Document::Null])),
        ("m".to_string(), Document::Null),
    ]);
    assert_eq!(pointers(&doc), vec!["", "/z", "/a", "/a/0", "/a/1", "/m"]);
}

#[test]
fn keys_are_escaped_in_pointers() {
    let doc = parse(r#"{"a/b":{"~":1,"~1":2},"":3,"x~0/":4}"#);
    assert_eq!(pointers(&doc), vec!["", "/", "/a~1b", "/a~1b/~0", "/a~1b/~01", "/x~00~1"]);
    assert_eq!(escape_key("a/b"), "a~1b");
    assert_eq!(escape_key("~/~"), "~0~1~0");
    assert_eq!(escape_key("plain"), "plain");
    assert_eq!(escape_key(""), "");
}

#[test]
fn array_indices_count_in_decimal() {
    let doc = Document::Array((0..12).map(|_| Document::Null).collect());
    let got = pointers(&doc);
    assert_eq!(got.len(), 13);
    assert_eq!(got[1], "/0");
    assert_eq!(got[10], "/9");
    assert_eq!(got[11], "/10");
    assert_eq!(got[12], "/11");
}

#[test]
fn json_text_is_compact() {
    for text in [
        "null",
        "true",
        "false",
        "42",
        "-1.5",
        "\"corge\"",
        "[]",
        "{}",
        "[1,2,\"3\"]",
        "{\"bar\":42,\"foo\":{\"baz\":[1,2,\"3\"],\"qux\":\"corge\"}}",
        "[[],[[]],{\"a\":{}}]",
    ] {
        let parsed: serde_json::Value = serde_json::from_str(text).unwrap();
        assert_eq!(parse(text).to_json(), parsed.to_string());
        assert_eq!(parse(text).to_json(), text);
    }
    // a number is written as the parser read it
    let parsed: serde_json::Value = serde_json::from_str("[1e2,-0.0,18446744073709551615]").unwrap();
    assert_eq!(parse("[1e2,-0.0,18446744073709551615]").to_json(), parsed.to_string());
}

#[test]
fn json_text_escapes_strings_and_keys() {
    let tricky = "quote\" backslash\\ newline\n tab\t bell\u{7} del\u{7f} ü €";
    let doc = Document::Object(vec![(tricky.to_string(), Document::String(tricky.to_string()))]);
    let mut map = serde_json::Map::new();
    map.insert(tricky.to_string(), serde_json::Value::String(tricky.to_string()));
    assert_eq!(doc.to_json(), serde_json::Value::Object(map).to_string());
    assert_eq!(
        Document::String("a\"b\n".to_string()).to_json(),
        "\"a\\\"b\\n\""
    );
}

#[test]
fn lists_are_framed_and_separated_by_commas() {
    let texts = |items: &[&str]| items.iter().map(|t| t.to_string()).collect::<Vec<String>>();
    assert_eq!(framed_list('[', &texts(&[]), ']'), "[]");
    assert_eq!(framed_list('[', &texts(&["1"]), ']'), "[1]");
    assert_eq!(framed_list('[', &texts(&["1", "\"2\"", "[]"]), ']'), "[1,\"2\",[]]");
    assert_eq!(framed_list('{', &texts(&["\"a\":1", "\"b\":{}"]), '}'), "{\"a\":1,\"b\":{}}");
    assert_eq!(framed_list('<', &texts(&["", ""]), '>'), "<,>");
    assert_eq!(member_text("\"key\"", "[1,2]"), "\"key\":[1,2]");
    assert_eq!(member_text("", ""), ":");
}

#[test]
fn column_text_of_a_string_is_its_content() {
    assert_eq!(Document::String("a\"b".to_string()).to_column_text(), "a\"b");
    assert_eq!(Document::Number("42".to_string()).to_column_text(), "42");
    assert_eq!(Document::Null.to_column_text(), "null");
    assert_eq!(Document::Bool(false).to_column_text(), "false");
    assert_eq!(parse("[\"a\"]").to_column_text(), "[\"a\"]");
}

#[test]
fn leaves_have_no_children() {
    assert!(Document::Null.has_no_children());
    assert!(parse("[]").has_no_children());
    assert!(parse("{}").has_no_children());
    assert!(!parse("[1]").has_no_children());
    assert!(!parse("{\"a\":1}").has_no_children());
    assert!(parse("[1]").is_array() && !parse("[1]").is_object());
    assert!(parse("{}").is_object() && !parse("{}").is_array());
}

#[test]
fn replace_scans_from_the_left() {
    assert_eq!(replace("a/b/c", "/", "_"), "a_b_c");
    assert_eq!(replace("aaa", "aa", "b"), "ba");
    assert_eq!(replace("abab", "ab", "abab"), "abababab");
    assert_eq!(replace("abc", "", "x"), "abc");
    assert_eq!(replace("", "a", "x"), "");
    assert_eq!(replace("äöü", "ö", ""), "äü");
    for (s, from, to) in [("~01~1", "~1", "/"), ("a\\+b\\+", "\\+", "[^/]*"), ("xyz", "q", "r")] {
        assert_eq!(replace(s, from, to), s.replace(from, to));
    }
}

#[test]
fn decimal_string_writes_numbers() {
    for n in [0usize, 1, 9, 10, 11, 99, 100, 12345, 4294967295] {
        assert_eq!(decimal_string(n), n.to_string());
    }
    assert_eq!(decimal_string(usize::MAX), usize::MAX.to_string());
}

#[test]
fn chars_and_membership() {
    assert_eq!(chars_of("aü€"), vec!['a', 'ü', '€']);
    assert!(has_char("a\"b", '"'));
    assert!(!has_char("ab", '"'));
    assert!(!has_char("", 'a'));
}

#[test]
fn keys_come_back_from_their_segments() {
    for key in ["", "plain", "a/b", "~", "~0", "~1", "~~//", "/~01~10", "ä/~ö"] {
        assert_eq!(unescape_key(&escape_key(key)), key);
    }
    assert_eq!(unescape_key("a~1b~0c"), "a/b~c");
    assert_eq!(unescape_key("~01"), "~1");
    assert_eq!(unescape_key("~2~"), "~2~");
}

#[test]
fn unique_keys_are_told_from_repeated_ones() {
    assert!(parse(r#"{"a":1,"b":{"a":2,"c":[{"a":3},{"a":4}]}}"#).has_unique_keys());
    assert!(Document::Null.has_unique_keys());
    assert!(parse("[[],{}]").has_unique_keys());
    let twice = |inner: Document| {
        Document::Object(vec![("k".to_string(), inner), ("k".to_string(), Document::Null)])
    };
    assert!(!twice(Document::Null).has_unique_keys());
    assert!(!Document::Array(vec![Document::Null, twice(Document::Null)]).has_unique_keys());
    let nested = Document::Object(vec![("outer".to_string(), twice(Document::Bool(true)))]);
    assert!(!nested.has_unique_keys());
    // in a document that has a key twice, two nodes share a pointer
    let nodes: Vec<String> = pointers(&twice(Document::Null));
    assert_eq!(nodes, vec!["", "/k", "/k"]);
}

#[test]
fn a_copy_holds_the_same_values() {
    let doc = parse(r#"{"bar":42,"foo":{"baz":[1,2,"3",null,true],"qux":"corge"}}"#);
    let copy = doc.clone();
    assert_eq!(copy, doc);
    assert_eq!(copy.to_json(), doc.to_json());
}

#[test]
fn defaults() {
    let parsed: Value = "/x/y".parse().unwrap();
    assert!(matches!(&parsed.kind, ValueKind::Pointer { pointer } if pointer == "/x/y"));
    assert!(parsed.preprocess.is_none() && parsed.postprocess.is_none());
    assert_eq!(default_mqtt_port(), 1883);
    assert_eq!(default_mqtt_client_id(), "iot2db");
    assert_eq!(default_postgres_port(), 5432);
    assert!(default_true());
    assert!(matches!(Aggregate::default(), Aggregate::Off));
    let value = Value::from_pointer("/a/b");
    assert!(matches!(&value.kind, ValueKind::Pointer { pointer } if pointer == "/a/b"));
    assert!(value.preprocess.is_none() && value.postprocess.is_none());
    assert!(matches!(value.aggregate, Aggregate::Off));
}
