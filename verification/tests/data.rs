use indexmap::IndexMap;
use iot2db::backend::postgres::PostgresEscaper;
use iot2db::backend::{BackendEscaper, NoopEscaper};
use iot2db::config::{Aggregate, DirectValues, DirectValuesAll, Mapping, Value, ValueKind};
use iot2db::data::{
    get_and_process_values, iter_mapped_constants, json_pointer_to_key, process_value, DataMapper,
    NarrowToWide, WideToWide,
};
use iot2db::eval::EvalError;
use iot2db::json::Document;

/// An evaluator for the tests: `upper` and `wrap` work on strings, `fail`
/// raises, and anything else is no program.
fn scripts(expression: String, input: String) -> Result<String, EvalError> {
    match expression.as_str() {
        "upper" => Ok(input.to_uppercase()),
        "wrap" => Ok(format!("<{input}>")),
        "fail" => Err(EvalError::Raised),
        _ => Err(EvalError::Malformed),
    }
}

/// The evaluator of a deployment without expressions.
fn no_scripts(_expression: String, _input: String) -> Result<String, EvalError> {
    Err(EvalError::Malformed)
}

fn pointer(pointer: &str) -> Value {
    Value::from_pointer(pointer)
}

fn constant(text: &str) -> Value {
    Value {
        kind: ValueKind::Constant { constant_value: text.to_string() },
        preprocess: None,
        postprocess: None,
        aggregate: Aggregate::Off,
    }
}

fn with_scripts(mut value: Value, preprocess: Option<&str>, postprocess: Option<&str>) -> Value {
    value.preprocess = preprocess.map(str::to_string);
    value.postprocess = postprocess.map(str::to_string);
    value
}

fn mapping(direct_values: Option<DirectValues>, values: Vec<(&str, Value)>) -> Mapping {
    let mut map = IndexMap::new();
    for (name, value) in values {
        map.insert(name.to_string(), value);
    }
    Mapping { direct_values, values: map }
}

fn object(members: Vec<(&str, Document)>) -> Document {
    Document::Object(members.into_iter().map(|(k, v)| (k.to_string(), v)).collect())
}

fn number(text: &str) -> Document {
    Document::Number(text.to_string())
}

fn string(text: &str) -> Document {
    Document::String(text.to_string())
}

fn record(entries: Vec<(&str, &str)>) -> IndexMap<String, String> {
    entries.into_iter().map(|(k, v)| (k.to_string(), v.to_string())).collect()
}

fn entries(record: &IndexMap<String, String>) -> Vec<(String, String)> {
    record.iter().map(|(k, v)| (k.clone(), v.clone())).collect()
}

fn sample() -> Document {
    object(vec![
        ("bar", number("42")),
        (
            "foo",
            object(vec![
                ("baz", Document::Array(vec![number("1"), number("2"), string("3")])),
                ("qux", string("corge")),
            ]),
        ),
        ("a/b", Document::Bool(true)),
        ("t~x", Document::Null),
    ])
}

#[test]
fn process_value_escapes_without_expressions() {
    let out = process_value("it's".to_string(), None, None, &PostgresEscaper, &no_scripts);
    assert_eq!(out, Ok("'it''s'".to_string()));
    let out = process_value("plain".to_string(), None, None, &NoopEscaper, &no_scripts);
    assert_eq!(out, Ok("plain".to_string()));
}

#[test]
fn process_value_runs_preprocess_escape_postprocess_in_order() {
    let out = process_value(
        "it's".to_string(),
        Some("upper".to_string()),
        Some("wrap".to_string()),
        &PostgresEscaper,
        &scripts,
    );
    // the postprocess expression sees the escaped value
    assert_eq!(out, Ok("<'IT''S'>".to_string()));
}

#[test]
fn process_value_fails_with_the_expression() {
    let pre = process_value("v".to_string(), Some("fail".to_string()), None, &NoopEscaper, &scripts);
    assert_eq!(pre, Err(EvalError::Raised));
    let post =
        process_value("v".to_string(), None, Some("nonsense".to_string()), &NoopEscaper, &scripts);
    assert_eq!(post, Err(EvalError::Malformed));
    let both = process_value(
        "v".to_string(),
        Some("nonsense".to_string()),
        Some("fail".to_string()),
        &NoopEscaper,
        &scripts,
    );
    assert_eq!(both, Err(EvalError::Malformed));
    let none = process_value("v".to_string(), Some("upper".to_string()), None, &NoopEscaper, &no_scripts);
    assert_eq!(none, Err(EvalError::Malformed));
}

#[test]
fn json_pointer_to_key_flattens_and_restores() {
    assert_eq!(json_pointer_to_key(&"/foo/baz/0".to_string()), "foo_baz_0");
    assert_eq!(json_pointer_to_key(&"/bar".to_string()), "bar");
    assert_eq!(json_pointer_to_key(&"/a~1b/c".to_string()), "a/b_c");
    assert_eq!(json_pointer_to_key(&"/t~0x".to_string()), "t~x");
    assert_eq!(json_pointer_to_key(&"/~01".to_string()), "~1");
    assert_eq!(json_pointer_to_key(&"".to_string()), "");
    assert_eq!(json_pointer_to_key(&"/".to_string()), "");
    assert_eq!(json_pointer_to_key(&"//".to_string()), "_");
}

#[test]
fn wide_to_wide_takes_the_pointers_that_exist() {
    let m = mapping(
        None,
        vec![
            ("third", pointer("/foo/baz/2")),
            ("missing", pointer("/foo/nope")),
            ("answer", pointer("/bar")),
            ("list", pointer("/foo/baz")),
            ("slash", pointer("/a~1b")),
            ("tilde", pointer("/t~0x")),
        ],
    );
    let mut mapper = WideToWide::new(m, PostgresEscaper);
    let got = mapper.consume_value(&sample(), &no_scripts).unwrap().unwrap();
    assert_eq!(
        entries(&got),
        entries(&record(vec![
            ("third", "'3'"),
            ("answer", "'42'"),
            ("list", "'[1,2,\"3\"]'"),
            ("slash", "'true'"),
            ("tilde", "'null'"),
        ]))
    );
}

#[test]
fn wide_to_wide_twice_gives_the_same_record() {
    let m = mapping(
        Some(DirectValues::All(DirectValuesAll::All)),
        vec![("answer", pointer("/bar")), ("site", constant("roof"))],
    );
    let mut mapper = WideToWide::new(m, NoopEscaper);
    let first = mapper.consume_value(&sample(), &no_scripts).unwrap().unwrap();
    let second = mapper.consume_value(&sample(), &no_scripts).unwrap().unwrap();
    assert_eq!(entries(&first), entries(&second));
    assert_eq!(
        entries(&first),
        entries(&record(vec![
            ("answer", "42"),
            ("foo_baz_0", "1"),
            ("foo_baz_1", "2"),
            ("foo_baz_2", "3"),
            ("foo_qux", "corge"),
            ("a/b", "true"),
            ("t~x", "null"),
            ("site", "roof"),
        ]))
    );
}

#[test]
fn wide_to_wide_direct_values_from_a_list() {
    let keys = vec!["/foo/qux".to_string(), "/bar".to_string(), "/foo".to_string(), "/nope".to_string()];
    let m = mapping(Some(DirectValues::Keys(keys)), vec![("answer", pointer("/bar"))]);
    let mut mapper = WideToWide::new(m, NoopEscaper);
    let got = mapper.consume_value(&sample(), &no_scripts).unwrap().unwrap();
    // "/bar" is claimed by a rule, "/foo" is no leaf
    assert_eq!(entries(&got), entries(&record(vec![("answer", "42"), ("foo_qux", "corge")])));
}

#[test]
fn wide_to_wide_empty_containers_and_scalar_roots_are_leaves() {
    let all = || Some(DirectValues::All(DirectValuesAll::All));
    let doc = object(vec![("e", Document::Array(vec![])), ("o", object(vec![]))]);
    let mut mapper = WideToWide::new(mapping(all(), vec![]), NoopEscaper);
    let got = mapper.consume_value(&doc, &no_scripts).unwrap().unwrap();
    assert_eq!(entries(&got), entries(&record(vec![("e", "[]"), ("o", "{}")])));
    let got = mapper.consume_value(&number("7"), &no_scripts).unwrap().unwrap();
    assert_eq!(entries(&got), entries(&record(vec![("", "7")])));
}

#[test]
fn wide_to_wide_later_values_replace_earlier_ones_in_place() {
    let doc = object(vec![("a", string("first")), ("b", string("second"))]);
    let m = mapping(
        Some(DirectValues::All(DirectValuesAll::All)),
        vec![("b", pointer("/a")), ("z", pointer("/nope")), ("a", constant("fixed"))],
    );
    let mut mapper = WideToWide::new(m, NoopEscaper);
    let got = mapper.consume_value(&doc, &no_scripts).unwrap().unwrap();
    // the rule fills "b", the direct value of "/b" replaces it in place, the
    // constant "a" comes last
    assert_eq!(entries(&got), entries(&record(vec![("b", "second"), ("a", "fixed")])));
}

#[test]
fn wide_to_wide_constants_are_processed_and_always_there() {
    let m = mapping(
        None,
        vec![
            ("site", with_scripts(constant("roof"), Some("upper"), Some("wrap"))),
            ("answer", with_scripts(pointer("/bar"), None, Some("wrap"))),
        ],
    );
    let mut mapper = WideToWide::new(m, PostgresEscaper);
    let got = mapper.consume_value(&sample(), &scripts).unwrap().unwrap();
    assert_eq!(entries(&got), entries(&record(vec![("answer", "<'42'>"), ("site", "<'ROOF'>")])));
    let got = mapper.consume_value(&Document::Null, &scripts).unwrap().unwrap();
    assert_eq!(entries(&got), entries(&record(vec![("site", "<'ROOF'>")])));
}

#[test]
fn wide_to_wide_fails_with_the_first_failing_expression() {
    let m = mapping(
        None,
        vec![
            ("site", with_scripts(constant("roof"), Some("nonsense"), None)),
            ("skipped", with_scripts(pointer("/nope"), Some("nonsense"), None)),
            ("answer", with_scripts(pointer("/bar"), Some("fail"), None)),
        ],
    );
    let mut mapper = WideToWide::new(m, NoopEscaper);
    assert_eq!(mapper.consume_value(&sample(), &scripts).map(|r| r.map(|r| entries(&r))), Err(EvalError::Raised));
    // without the node of "answer" only the constant is left to fail
    assert_eq!(
        mapper.consume_value(&Document::Null, &scripts).map(|r| r.map(|r| entries(&r))),
        Err(EvalError::Malformed)
    );
}

#[test]
fn get_and_process_values_leaves_constants_out() {
    let m = mapping(None, vec![("site", constant("roof")), ("answer", pointer("/bar"))]);
    let got = get_and_process_values(&sample(), &m, &NoopEscaper, &no_scripts).unwrap();
    assert_eq!(entries(&got), entries(&record(vec![("answer", "42")])));
    let constants = iter_mapped_constants(&m, &PostgresEscaper, &no_scripts).unwrap();
    assert_eq!(constants, vec![("site".to_string(), "'roof'".to_string())]);
}

fn narrow_event(key: &str, value: &str) -> Document {
    object(vec![(key, string(value))])
}

#[test]
fn narrow_to_wide_flushes_when_a_column_repeats() {
    let m = mapping(None, vec![("x", pointer("/x")), ("y", pointer("/y"))]);
    let mut mapper = NarrowToWide::new(m, NoopEscaper);
    assert_eq!(mapper.buffered_len(), 0);
    assert!(mapper.consume_value(&narrow_event("x", "1"), &no_scripts).unwrap().is_none());
    assert!(mapper.consume_value(&narrow_event("y", "2"), &no_scripts).unwrap().is_none());
    assert_eq!(mapper.buffered_len(), 2);
    let row = mapper.consume_value(&narrow_event("x", "3"), &no_scripts).unwrap().unwrap();
    assert_eq!(entries(&row), entries(&record(vec![("x", "1"), ("y", "2")])));
    // the buffer now holds x = 3 alone: y completes nothing, x hands it back
    assert_eq!(mapper.buffered_len(), 1);
    assert!(mapper.consume_value(&narrow_event("y", "4"), &no_scripts).unwrap().is_none());
    let row = mapper.consume_value(&narrow_event("x", "5"), &no_scripts).unwrap().unwrap();
    assert_eq!(entries(&row), entries(&record(vec![("x", "3"), ("y", "4")])));
    assert!(!mapper.several_matches());
}

#[test]
fn narrow_to_wide_adds_constants_on_flush_and_ignores_misses() {
    let m = mapping(
        Some(DirectValues::All(DirectValuesAll::All)),
        vec![("site", constant("roof")), ("x", pointer("/x")), ("y", pointer("/y"))],
    );
    let mut mapper = NarrowToWide::new(m, PostgresEscaper);
    assert!(mapper.consume_value(&narrow_event("x", "1"), &no_scripts).unwrap().is_none());
    // no rule reads "/z": nothing changes, and direct values play no part
    assert!(mapper.consume_value(&narrow_event("z", "9"), &no_scripts).unwrap().is_none());
    assert_eq!(mapper.buffered_len(), 1);
    let row = mapper.consume_value(&narrow_event("x", "2"), &no_scripts).unwrap().unwrap();
    assert_eq!(entries(&row), entries(&record(vec![("x", "'1'"), ("site", "'roof'")])));
}

#[test]
fn narrow_to_wide_takes_the_first_of_several_matches_and_flags_it() {
    let m = mapping(None, vec![("x", pointer("/x")), ("y", pointer("/y"))]);
    let mut mapper = NarrowToWide::new(m, NoopEscaper);
    let both = object(vec![("y", string("2")), ("x", string("1"))]);
    assert!(mapper.consume_value(&both, &no_scripts).unwrap().is_none());
    assert!(mapper.several_matches());
    assert_eq!(mapper.buffered_len(), 1);
    // x was taken: y is new to the buffer, x is not
    assert!(mapper.consume_value(&narrow_event("y", "3"), &no_scripts).unwrap().is_none());
    assert!(!mapper.several_matches());
    let row = mapper.consume_value(&narrow_event("x", "4"), &no_scripts).unwrap().unwrap();
    assert_eq!(entries(&row), entries(&record(vec![("x", "1"), ("y", "3")])));
}

#[test]
fn narrow_to_wide_keeps_its_buffer_when_an_expression_fails() {
    let m = mapping(
        None,
        vec![
            ("x", pointer("/x")),
            ("y", with_scripts(pointer("/y"), Some("fail"), None)),
            ("site", with_scripts(constant("roof"), None, Some("nonsense"))),
        ],
    );
    let mut mapper = NarrowToWide::new(m, NoopEscaper);
    assert!(mapper.consume_value(&narrow_event("x", "1"), &scripts).unwrap().is_none());
    assert_eq!(
        mapper.consume_value(&narrow_event("y", "2"), &scripts).map(|r| r.map(|r| entries(&r))),
        Err(EvalError::Raised)
    );
    assert_eq!(mapper.buffered_len(), 1);
    // the flush fails with the constant, and the row stays buffered
    assert_eq!(
        mapper.consume_value(&narrow_event("x", "3"), &scripts).map(|r| r.map(|r| entries(&r))),
        Err(EvalError::Malformed)
    );
    assert_eq!(mapper.buffered_len(), 1);
}

#[test]
fn escapers_differ() {
    assert_eq!(NoopEscaper.escape_value("a'b\\c".to_string()), "a'b\\c");
    assert_eq!(PostgresEscaper.escape_value("a'b\\c".to_string()), " E'a''b\\\\c'");
    assert_eq!(PostgresEscaper.escape_value("a'b".to_string()), "'a''b'");
    assert_eq!(PostgresEscaper.escape_value("".to_string()), "''");
}
