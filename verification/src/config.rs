//! The configuration that a deployment is described by: frontends,
//! backends, and the data entries that connect one to the other.

use indexmap::IndexMap;
use std::collections::HashMap;
use vstd::prelude::*;

verus! {

/// One source of documents.
#[derive(Debug, Clone)]
pub enum FrontendConfig {
    HttpRest(HttpRestConfig),
    HomematicCcu3(HomematicCcu3Config),
    Mqtt(MqttConfig),
    Shell(ShellConfig),
    Journald(JournaldConfig),
}

/// One storage backend.
#[derive(Debug, Clone)]
pub enum BackendConfig {
    Postgres(PostgresConfig),
}

/// An HTTP endpoint that is polled for a document.
#[derive(Debug, Clone)]
pub struct HttpRestConfig {
    pub url: String,
    pub basic_auth: Option<BasicAuth>,
    pub frequency_secs: u32,
}

/// A Homematic CCU3 whose device list is polled.
#[derive(Debug, Clone)]
pub struct HomematicCcu3Config {
    pub url: String,
    pub basic_auth: Option<BasicAuth>,
    pub frequency_secs: u32,
    pub username: String,
    pub password: String,
}

/// Credentials for HTTP basic authentication.
#[derive(Debug, Clone)]
pub struct BasicAuth {
    pub username: String,
    pub password: Option<String>,
}

/// An MQTT broker.
#[derive(Debug, Clone)]
pub struct MqttConfig {
    pub host: String,
    pub port: u16,
    pub auth: Option<MqttAuth>,
    pub client_id: String,
}

/// Credentials for an MQTT broker.
#[derive(Debug, Clone)]
pub struct MqttAuth {
    pub username: String,
    pub password: String,
}

/// A command that is run for a document: its output is the document, or
/// the expressions in `regex` pick the members of one from it.
#[derive(Debug, Clone)]
pub struct ShellConfig {
    pub cmd: String,
    pub frequency_secs: u32,
    pub regex: HashMap<String, String>,
}

/// The journal, followed for the entries about the listed units.
#[derive(Debug, Clone)]
pub struct JournaldConfig {
    pub system: bool,
    pub current_user: bool,
    pub directory: Option<String>,
    pub unit: Vec<String>,
}

/// A PostgreSQL server.
#[derive(Debug, Clone)]
pub struct PostgresConfig {
    pub host: String,
    pub port: u16,
    pub database: String,
    pub username: String,
    pub password: Option<String>,
}

/// One pipeline: a frontend, a backend, and the mapping between them.
#[derive(Debug)]
pub struct DataConfig {
    pub frontend: FrontendRef,
    pub backend: BackendRef,
    pub persistent_every_secs: Option<u32>,
    pub clean_non_persistent_after_days: Option<u32>,
    /// An expression that decides, per document, whether it is mapped at all.
    pub filter: Option<String>,
    pub mapping: Mapping,
}

/// The columns of a record and where each takes its value from.
#[derive(Debug)]
pub struct Mapping {
    pub direct_values: Option<DirectValues>,
    /// Column name to rule, in output order.
    pub values: IndexMap<String, Value>,
}

/// Which leaves of a document become columns without a rule of their own.
#[derive(Debug, Clone)]
pub enum DirectValues {
    /// Every leaf.
    All(DirectValuesAll),
    /// The leaves under the listed pointers.
    Keys(Vec<String>),
}

/// The one word that stands for every leaf.
#[derive(Debug, Clone)]
pub enum DirectValuesAll {
    All,
}

/// The rule for one column.
#[derive(Debug, Clone)]
pub struct Value {
    pub kind: ValueKind,
    /// An expression applied to the value before it is escaped.
    pub preprocess: Option<String>,
    /// An expression applied to the value after it was escaped.
    pub postprocess: Option<String>,
    pub aggregate: Aggregate,
}

/// Where a column's value comes from.
#[derive(Debug, Clone)]
pub enum ValueKind {
    /// The node of the document under this pointer.
    Pointer { pointer: String },
    /// This text, whatever the document holds.
    Constant { constant_value: String },
}

/// How the values of a column are aggregated. The mode is carried along
/// and changes nothing in how a record is assembled.
#[derive(Debug, Clone)]
pub enum Aggregate {
    /// The value is taken as it is.
    Off,
    IncrementingValueWhichMayReset,
}

/// The frontend of a data entry, by name, with the shape that the entry
/// expects and the addressing that the frontend needs.
#[derive(Debug, Clone)]
pub struct FrontendRef {
    pub name: String,
    pub data_type: DataType,
    pub data: Option<FrontendRefData>,
}

/// What a frontend needs to know of a data entry.
#[derive(Debug, Clone, PartialEq, Eq)]
pub enum FrontendRefData {
    Mqtt { mqtt_topic: String },
}

/// The shape in which a frontend delivers a row.
#[derive(Debug, Clone, Copy, PartialEq, Eq, Structural)]
pub enum DataType {
    /// One document carries a whole row.
    Wide,
    /// One document carries one value; a row is assembled from several.
    Narrow,
}

/// The backend of a data entry.
#[derive(Debug, Clone)]
pub enum BackendRef {
    Stdout(StdoutRef),
    Postgres(PostgresRef),
}

/// The backend that shows its records; it has one name.
#[derive(Debug, Clone)]
pub enum StdoutRef {
    Stdout,
}

/// A table of a PostgreSQL backend, the backend by name.
#[derive(Debug, Clone)]
pub struct PostgresRef {
    pub name: String,
    pub postgres_table: String,
}

/// The rules of a mapping as they stand in it: column name and rule, in
/// output order.
pub uninterp spec fn mapping_entries(values: IndexMap<String, Value>) -> Seq<(Seq<char>, Value)>;

/// The rules of a mapping, in output order.
///
/// Wraps `IndexMap::iter`, which walks the entries in the map's order; a
/// map holds no name twice.
#[verifier::external_body]
pub(crate) fn mapping_items(values: &IndexMap<String, Value>) -> (items: Vec<(&String, &Value)>)
    ensures
        items@.len() == mapping_entries(*values).len(),
        forall|i: int|
            0 <= i < items@.len() ==> {
                &&& (#[trigger] items@[i]).0@ == mapping_entries(*values)[i].0
                &&& *items@[i].1 == mapping_entries(*values)[i].1
            },
        forall|i: int, j: int|
            0 <= i < j < items@.len() ==> (#[trigger] items@[i]).0@ != (#[trigger] items@[j]).0@,
{
    values.iter().collect()
}

impl Value {
    /// The rule that reads the node under `pointer` and applies no
    /// expression.
    pub fn from_pointer(pointer: &str) -> (value: Value)
        ensures
            value.kind matches ValueKind::Pointer { pointer: p } && p@ == pointer@,
            value.preprocess is None,
            value.postprocess is None,
            value.aggregate is Off,
    {
        Value {
            kind: ValueKind::Pointer { pointer: pointer.to_string() },
            preprocess: None,
            postprocess: None,
            aggregate: Aggregate::Off,
        }
    }
}

impl std::str::FromStr for Value {
    type Err = std::convert::Infallible;

    /// Reads a rule that is written as a bare pointer.
    fn from_str(s: &str) -> (result: Result<Value, std::convert::Infallible>)
        ensures
            result matches Ok(value) && value.kind matches ValueKind::Pointer { pointer: p } && p@
                == s@ && value.preprocess is None && value.postprocess is None
                && value.aggregate is Off,
    {
        Ok(Value::from_pointer(s))
    }
}

impl Default for Aggregate {
    fn default() -> (aggregate: Aggregate)
        ensures
            aggregate is Off,
    {
        Aggregate::Off
    }
}

/// The port of an MQTT broker where none is configured.
pub fn default_mqtt_port() -> (port: u16)
    ensures
        port == 1883,
{
    1883
}

/// The client id under which a frontend connects where none is configured.
pub fn default_mqtt_client_id() -> (id: String)
    ensures
        id@ == "iot2db"@,
{
    "iot2db".to_string()
}

/// The port of a PostgreSQL server where none is configured.
pub fn default_postgres_port() -> (port: u16)
    ensures
        port == 5432,
{
    5432
}

/// The value of a switch that is on where nothing is configured.
pub fn default_true() -> (on: bool)
    ensures
        on,
{
    true
}

} // verus!
