use indexmap::IndexMap;
use iot2db::backend::postgres::PostgresEscaper;
use iot2db::backend::{BackendError, Backends, NoopEscaper, Sink};
use iot2db::config::{
    BackendConfig, BackendRef, DataType, FrontendConfig, FrontendRef, FrontendRefData,
    HomematicCcu3Config, HttpRestConfig, JournaldConfig, Mapping, MqttConfig, PostgresConfig,
    PostgresRef, ShellConfig, StdoutRef, Value,
};
use iot2db::eval::EvalError;
use iot2db::frontend::{FrontendError, Frontends, StreamRequest};
use iot2db::json::Document;
use iot2db::pipeline::{Pipeline, SWEEP_PERIOD_SECS};
use std::collections::HashMap;

fn mapping(values: Vec<(&str, &str)>) -> Mapping {
    let mut map = IndexMap::new();
    for (name, pointer) in values {
        map.insert(name.to_string(), Value::from_pointer(pointer));
    }
    Mapping { direct_values: None, values: map }
}

fn event(key: &str, value: &str) -> Document {
    Document::Object(vec![(key.to_string(), Document::String(value.to_string()))])
}

fn scripts(expression: String, input: String) -> Result<String, EvalError> {
    match expression.as_str() {
        "upper" => Ok(input.to_uppercase()),
        _ => Err(EvalError::Malformed),
    }
}

fn filters(expression: String, document: &Document) -> Result<bool, EvalError> {
    match expression.as_str() {
        "objects" => Ok(document.is_object()),
        "never" => Ok(false),
        "boom" => Err(EvalError::Raised),
        _ => Err(EvalError::Malformed),
    }
}

fn entries(record: &IndexMap<String, String>) -> Vec<(String, String)> {
    record.iter().map(|(k, v)| (k.clone(), v.clone())).collect()
}

fn pairs(expected: Vec<(&str, &str)>) -> Vec<(String, String)> {
    expected.into_iter().map(|(k, v)| (k.to_string(), v.to_string())).collect()
}

#[test]
fn wide_pipeline_hands_on_every_record_with_its_directive() {
    let mut pipeline =
        Pipeline::new(DataType::Wide, mapping(vec![("x", "/x")]), PostgresEscaper, None, Some(300));
    let data = pipeline.process(&event("x", "1"), &filters, &scripts).unwrap().unwrap();
    assert_eq!(entries(&data.escaped_values), pairs(vec![("x", "'1'")]));
    assert_eq!(data.persistent_every_secs, Some(300));
    // a document without the node still gives a record
    let data = pipeline.process(&event("y", "1"), &filters, &scripts).unwrap().unwrap();
    assert_eq!(entries(&data.escaped_values), pairs(vec![]));
}

#[test]
fn pipeline_drops_what_the_filter_turns_away() {
    let filter = Some("objects".to_string());
    let mut pipeline =
        Pipeline::new(DataType::Wide, mapping(vec![("x", "/x")]), NoopEscaper, filter, None);
    assert!(pipeline.process(&Document::Null, &filters, &scripts).unwrap().is_none());
    let data = pipeline.process(&event("x", "1"), &filters, &scripts).unwrap().unwrap();
    assert_eq!(entries(&data.escaped_values), pairs(vec![("x", "1")]));
    assert_eq!(data.persistent_every_secs, None);
}

#[test]
fn a_filtered_document_does_not_reach_a_narrow_buffer() {
    let filter = Some("objects".to_string());
    // the rule reads the document itself
    let m = mapping(vec![("x", "")]);
    let mut pipeline = Pipeline::new(DataType::Narrow, m, NoopEscaper, filter, Some(60));
    // the string is turned away, though the rule would read it
    let turned_away = Document::String("2".to_string());
    assert!(pipeline.process(&turned_away, &filters, &scripts).unwrap().is_none());
    assert!(pipeline.process(&event("a", "1"), &filters, &scripts).unwrap().is_none());
    let data = pipeline.process(&event("b", "2"), &filters, &scripts).unwrap().unwrap();
    assert_eq!(entries(&data.escaped_values), pairs(vec![("x", "{\"a\":\"1\"}")]));
    assert_eq!(data.persistent_every_secs, Some(60));
}

#[test]
fn a_failing_filter_fails_the_document() {
    let m = || mapping(vec![("x", "/x")]);
    let mut boom = Pipeline::new(DataType::Wide, m(), NoopEscaper, Some("boom".to_string()), None);
    assert_eq!(boom.process(&event("x", "1"), &filters, &scripts).err(), Some(EvalError::Raised));
    let mut bad = Pipeline::new(DataType::Wide, m(), NoopEscaper, Some("what".to_string()), None);
    assert_eq!(bad.process(&event("x", "1"), &filters, &scripts).err(), Some(EvalError::Malformed));
    let mut never = Pipeline::new(DataType::Wide, m(), NoopEscaper, Some("never".to_string()), None);
    assert!(never.process(&event("x", "1"), &filters, &scripts).unwrap().is_none());
}

#[test]
fn a_failing_expression_fails_the_document() {
    let mut map = IndexMap::new();
    let mut rule = Value::from_pointer("/x");
    rule.preprocess = Some("nonsense".to_string());
    map.insert("x".to_string(), rule);
    let m = Mapping { direct_values: None, values: map };
    let mut pipeline = Pipeline::new(DataType::Wide, m, NoopEscaper, None, None);
    assert_eq!(
        pipeline.process(&event("x", "1"), &filters, &scripts).err(),
        Some(EvalError::Malformed)
    );
    assert!(pipeline.process(&event("y", "1"), &filters, &scripts).unwrap().is_some());
}

fn http() -> FrontendConfig {
    FrontendConfig::HttpRest(HttpRestConfig {
        url: "http://device/".to_string(),
        basic_auth: None,
        frequency_secs: 60,
    })
}

fn mqtt() -> FrontendConfig {
    FrontendConfig::Mqtt(MqttConfig {
        host: "broker".to_string(),
        port: 1883,
        auth: None,
        client_id: "iot2db".to_string(),
    })
}

fn shell() -> FrontendConfig {
    FrontendConfig::Shell(ShellConfig {
        cmd: "uptime".to_string(),
        frequency_secs: 5,
        regex: HashMap::new(),
    })
}

fn journald() -> FrontendConfig {
    FrontendConfig::Journald(JournaldConfig {
        system: true,
        current_user: true,
        directory: None,
        unit: vec!["sshd.service".to_string()],
    })
}

fn homematic() -> FrontendConfig {
    FrontendConfig::HomematicCcu3(HomematicCcu3Config {
        url: "http://ccu3".to_string(),
        basic_auth: None,
        frequency_secs: 60,
        username: "u".to_string(),
        password: "p".to_string(),
    })
}

fn wide(name: &str) -> FrontendRef {
    FrontendRef { name: name.to_string(), data_type: DataType::Wide, data: None }
}

fn topic(name: &str, data_type: DataType, topic: &str) -> FrontendRef {
    FrontendRef {
        name: name.to_string(),
        data_type,
        data: Some(FrontendRefData::Mqtt { mqtt_topic: topic.to_string() }),
    }
}

fn frontends() -> Frontends {
    let mut frontends = Frontends::new();
    assert_eq!(frontends.add("rest".to_string(), http()), Ok(0));
    assert_eq!(frontends.add("bus".to_string(), mqtt()), Ok(1));
    assert_eq!(frontends.add("sh".to_string(), shell()), Ok(2));
    assert_eq!(frontends.add("log".to_string(), journald()), Ok(3));
    assert_eq!(frontends.add("ccu".to_string(), homematic()), Ok(4));
    frontends
}

#[test]
fn frontends_refuse_a_name_twice() {
    let mut frontends = frontends();
    assert_eq!(frontends.len(), 5);
    assert_eq!(frontends.add("bus".to_string(), http()), Err(FrontendError::Duplicate));
    assert_eq!(frontends.len(), 5);
    // the frontend that was there stays
    let (name, config) = frontends.get(1).unwrap();
    assert_eq!(name, "bus");
    assert!(matches!(config, FrontendConfig::Mqtt(_)));
    assert!(frontends.get(5).is_none());
}

#[test]
fn frontends_resolve_wide_streams_by_name() {
    let frontends = frontends();
    assert_eq!(frontends.stream(&wide("rest")), Ok(StreamRequest::HttpRest { frontend: 0 }));
    assert_eq!(frontends.stream(&wide("sh")), Ok(StreamRequest::Shell { frontend: 2 }));
    assert_eq!(frontends.stream(&wide("log")), Ok(StreamRequest::Journald { frontend: 3 }));
    assert_eq!(frontends.stream(&wide("ccu")), Ok(StreamRequest::HomematicCcu3 { frontend: 4 }));
    assert_eq!(frontends.stream(&wide("nope")), Err(FrontendError::Unknown));
}

#[test]
fn frontends_hold_entries_to_what_their_frontend_takes() {
    let frontends = frontends();
    let narrow = FrontendRef { name: "rest".to_string(), data_type: DataType::Narrow, data: None };
    assert_eq!(frontends.stream(&narrow), Err(FrontendError::NotWide));
    assert_eq!(
        frontends.stream(&topic("rest", DataType::Wide, "a/b")),
        Err(FrontendError::UnexpectedData)
    );
    // addressing that is not wanted is reported before the shape
    assert_eq!(
        frontends.stream(&topic("sh", DataType::Narrow, "a/b")),
        Err(FrontendError::UnexpectedData)
    );
    assert_eq!(frontends.stream(&wide("bus")), Err(FrontendError::NoTopic));
    assert_eq!(
        frontends.stream(&topic("bus", DataType::Narrow, "a/+")),
        Ok(StreamRequest::Mqtt { frontend: 1, topic: "a/+".to_string() })
    );
    assert_eq!(
        frontends.stream(&topic("bus", DataType::Wide, "a/#")),
        Ok(StreamRequest::Mqtt { frontend: 1, topic: "a/#".to_string() })
    );
    assert_eq!(frontends.stream(&topic("nope", DataType::Wide, "a")), Err(FrontendError::Unknown));
}

fn postgres(host: &str) -> BackendConfig {
    BackendConfig::Postgres(PostgresConfig {
        host: host.to_string(),
        port: 5432,
        database: "iot".to_string(),
        username: "iot".to_string(),
        password: None,
    })
}

fn table(name: &str, table: &str) -> BackendRef {
    BackendRef::Postgres(PostgresRef { name: name.to_string(), postgres_table: table.to_string() })
}

#[test]
fn backends_resolve_sinks_by_name() {
    let mut backends = Backends::new();
    assert_eq!(backends.add("main".to_string(), postgres("db1")), Ok(0));
    assert_eq!(backends.add("spare".to_string(), postgres("db2")), Ok(1));
    assert_eq!(backends.add("main".to_string(), postgres("db3")), Err(BackendError::Duplicate));
    assert_eq!(backends.len(), 2);
    let BackendConfig::Postgres(first) = backends.get(0).unwrap().1;
    assert_eq!(first.host, "db1");
    assert!(backends.get(2).is_none());
    assert_eq!(
        backends.sink(&table("spare", "weather"), Some(30)),
        Ok(Sink::Postgres { backend: 1, table: "weather".to_string(), sweep_after_days: Some(30) })
    );
    assert_eq!(
        backends.sink(&table("main", "power"), None),
        Ok(Sink::Postgres { backend: 0, table: "power".to_string(), sweep_after_days: None })
    );
    assert_eq!(backends.sink(&table("nope", "power"), None), Err(BackendError::Unknown));
    // the backend that shows its records is always there and never swept
    assert_eq!(backends.sink(&BackendRef::Stdout(StdoutRef::Stdout), Some(7)), Ok(Sink::Stdout));
    assert_eq!(Backends::new().sink(&BackendRef::Stdout(StdoutRef::Stdout), None), Ok(Sink::Stdout));
}

#[test]
fn the_sweep_runs_once_a_day() {
    assert_eq!(SWEEP_PERIOD_SECS, 86_400);
}

#[test]
fn registry_keeps_order_and_refuses_taken_names() {
    let mut registry: iot2db::registry::Registry<u32> = iot2db::registry::Registry::new();
    assert_eq!(registry.len(), 0);
    assert_eq!(registry.position(&"a".to_string()), None);
    assert_eq!(registry.add("a".to_string(), 1), Ok(0));
    assert_eq!(registry.add("b".to_string(), 2), Ok(1));
    // the thing that was refused comes back
    assert_eq!(registry.add("a".to_string(), 3), Err(3));
    assert_eq!(registry.len(), 2);
    assert_eq!(registry.position(&"b".to_string()), Some(1));
    assert_eq!(registry.get(0), Some((&"a".to_string(), &1)));
    assert_eq!(registry.get(1), Some((&"b".to_string(), &2)));
    assert_eq!(registry.get(2), None);
}
