use iot2db::iter_json_value::iter_json_value;
use iot2db::json::Document;

fn document(value: &serde_json::Value) -> Document {
    match value {
        serde_json::Value::Null => Document::Null,
        serde_json::Value::Bool(b) => Document::Bool(*b),
        serde_json::Value::Number(n) => Document::Number(n.to_string()),
        serde_json::Value::String(s) => Document::String(s.clone()),
        serde_json::Value::Array(items) => Document::Array(items.iter().map(document).collect()),
        serde_json::Value::Object(members) => {
            Document::Object(members.iter().map(|(k, v)| (k.clone(), document(v))).collect())
        }
    }
}

fn number(text: &str) -> Document {
    Document::Number(text.to_string())
}

fn string(text: &str) -> Document {
    Document::String(text.to_string())
}

#[test]
fn iter_json_value_test() {
    let val: serde_json::Value = serde_json::from_str(r#"
            {
                "bar": 42,
                "foo": {
                    "baz": [1, 2, "3"],
                    "qux": "corge"
                }
            }
        "#).unwrap();
    let val = document(&val);
    // the members of an object parsed by serde_json come sorted by key
    let nodes = iter_json_value(&val);
    let mut iter = nodes.into_iter();
    let (pointer, value) = iter.next().unwrap();
    assert_eq!(pointer, "");
    assert!(value.is_object());
    let (pointer, value) = iter.next().unwrap();
    assert_eq!(pointer, "/bar");
    assert_eq!(*value, number("42"));
    let (pointer, value) = iter.next().unwrap();
    assert_eq!(pointer, "/foo");
    assert!(value.is_object());
    let (pointer, value) = iter.next().unwrap();
    assert_eq!(pointer, "/foo/baz");
    assert!(value.is_array());
    let (pointer, value) = iter.next().unwrap();
    assert_eq!(pointer, "/foo/baz/0");
    assert_eq!(*value, number("1"));
    let (pointer, value) = iter.next().unwrap();
    assert_eq!(pointer, "/foo/baz/1");
    assert_eq!(*value, number("2"));
    let (pointer, value) = iter.next().unwrap();
    assert_eq!(pointer, "/foo/baz/2");
    assert_eq!(*value, string("3"));
    let (pointer, value) = iter.next().unwrap();
    assert_eq!(pointer, "/foo/qux");
    assert_eq!(*value, string("corge"));
}
