//! Storage backends: how a value is escaped for one, and what is handed to
//! it.

use crate::config::{BackendConfig, BackendRef};
use crate::record::{has_key, key_position, lemma_position_unique, record_entries, Record};
use crate::registry::Registry;
use vstd::prelude::*;

pub mod postgres;

verus! {

/// A record on its way into a backend.
pub struct DataToInsert {
    pub escaped_values: Record,
    /// Where set: the backend flags a row persistent at most once in this
    /// many seconds.
    pub persistent_every_secs: Option<u32>,
}

/// Turns a value into the literal syntax of one backend.
pub trait BackendEscaper {
    /// What escaping makes of `value`.
    spec fn escaped(&self, value: Seq<char>) -> Seq<char>;

    fn escape_value(&self, value: String) -> (out: String)
        ensures
            out@ == self.escaped(value@),
    ;
}

/// The escaper of a backend that takes values as they are.
pub struct NoopEscaper;

impl BackendEscaper for NoopEscaper {
    open spec fn escaped(&self, value: Seq<char>) -> Seq<char> {
        value
    }

    fn escape_value(&self, value: String) -> (out: String) {
        value
    }
}

/// How a record reads when it is written out for a person: the `Debug`
/// form of the map, one entry per line.
pub uninterp spec fn record_debug_text(entries: Seq<(Seq<char>, Seq<char>)>) -> Seq<char>;

/// Writes a record out for a person.
///
/// Wraps the alternate `Debug` form of `IndexMap`, which depends on the
/// entries and their order alone; its result is named
/// [`record_debug_text`].
#[verifier::external_body]
fn debug_text(record: &Record) -> (out: String)
    ensures
        out@ == record_debug_text(record_entries(*record)),
{
    format!("{:#?}", record)
}

/// The backend that stores nothing and shows each record instead.
pub struct Stdout(());

impl Stdout {
    pub fn new(_config: ()) -> Stdout {
        Stdout(())
    }

    /// The escaper of this backend: values stay as they are.
    pub fn escaper(&self) -> NoopEscaper {
        NoopEscaper
    }

    /// The text that stands for one insert.
    pub fn render(&self, data: &DataToInsert) -> (line: String)
        ensures
            line@ == record_debug_text(record_entries(data.escaped_values)),
    {
        debug_text(&data.escaped_values)
    }
}

/// Why a data entry's backend could not be resolved.
#[derive(Debug, Clone, Copy, PartialEq, Eq, Structural)]
pub enum BackendError {
    /// A backend of this name is there already.
    Duplicate,
    /// No backend has this name.
    Unknown,
}

/// Where the records of a data entry go.
#[derive(Debug, PartialEq, Eq)]
pub enum Sink {
    /// To the backend that shows them.
    Stdout,
    /// Into a table of the PostgreSQL backend at position `backend`, which
    /// is swept of rows that are not persistent and older than
    /// `sweep_after_days` days, where that is set.
    Postgres { backend: usize, table: String, sweep_after_days: Option<u32> },
}

/// The backends of a deployment, each under its name.
pub struct Backends {
    backends: Registry<BackendConfig>,
}

impl Backends {
    /// The registered backends: name and configuration, in the order in
    /// which they were added.
    pub closed spec fn registered(&self) -> Seq<(Seq<char>, BackendConfig)> {
        self.backends.registered()
    }

    /// No backends.
    pub fn new() -> (backends: Self)
        ensures
            backends.registered() == Seq::<(Seq<char>, BackendConfig)>::empty(),
    {
        Backends { backends: Registry::new() }
    }

    /// Registers a backend under a name that is not taken, and says at
    /// which position it stands. A name that is taken is an error, and
    /// changes nothing.
    pub fn add(&mut self, name: String, config: BackendConfig) -> (result: Result<
        usize,
        BackendError,
    >)
        ensures
            if has_key(old(self).registered(), name@) {
                &&& result == Err::<usize, BackendError>(BackendError::Duplicate)
                &&& final(self).registered() == old(self).registered()
            } else {
                &&& result == Ok::<usize, BackendError>(old(self).registered().len() as usize)
                &&& final(self).registered() == old(self).registered().push((name@, config))
            },
    {
        match self.backends.add(name, config) {
            Ok(at) => Ok(at),
            Err(_) => Err(BackendError::Duplicate),
        }
    }

    /// The number of registered backends.
    pub fn len(&self) -> (n: usize)
        ensures
            n == self.registered().len(),
    {
        self.backends.len()
    }

    /// The backend at position `at`, with its name.
    pub fn get(&self, at: usize) -> (found: Option<(&String, &BackendConfig)>)
        ensures
            match found {
                Some(entry) => at < self.registered().len() && (entry.0@, *entry.1)
                    == self.registered()[at as int],
                None => at >= self.registered().len(),
            },
    {
        self.backends.get(at)
    }

    /// Resolves the backend that a data entry names. The backend that
    /// shows its records needs no registration and is never swept; a
    /// PostgreSQL backend has to be registered under the name that the
    /// entry gives.
    pub fn sink(&self, backend_ref: &BackendRef, clean_non_persistent_after_days: Option<u32>) -> (result:
        Result<Sink, BackendError>)
        ensures
            result == match *backend_ref {
                BackendRef::Stdout(_) => Ok::<Sink, BackendError>(Sink::Stdout),
                BackendRef::Postgres(postgres) => if has_key(self.registered(), postgres.name@) {
                    Ok(
                        Sink::Postgres {
                            backend: key_position(self.registered(), postgres.name@) as usize,
                            table: postgres.postgres_table,
                            sweep_after_days: clean_non_persistent_after_days,
                        },
                    )
                } else {
                    Err(BackendError::Unknown)
                },
            },
    {
        match backend_ref {
            BackendRef::Stdout(_) => Ok(Sink::Stdout),
            BackendRef::Postgres(postgres) => {
                match self.backends.position(&postgres.name) {
                    Some(at) => {
                        proof {
                            lemma_position_unique(self.registered(), postgres.name@, at as int);
                        }
                        Ok(
                            Sink::Postgres {
                                backend: at,
                                table: postgres.postgres_table.clone(),
                                sweep_after_days: clean_non_persistent_after_days,
                            },
                        )
                    },
                    None => Err(BackendError::Unknown),
                }
            },
        }
    }
}

} // verus!
