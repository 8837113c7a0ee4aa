//! The PostgreSQL backend: literal and identifier syntax, and the text of
//! the statements that insert a row and sweep old ones.

use crate::backend::BackendEscaper;
use crate::record::{
    has_key, lemma_position_unique, record_entries, record_entry, record_len, record_position,
    value_of, Entries, Record,
};
use crate::text::{decimal, decimal_string, has_char, push_char};
use vstd::prelude::*;

verus! {

/// `text` with every `quote`, and every backslash where `backslashes` is
/// set, written twice.
pub open spec fn doubled(text: Seq<char>, quote: char, backslashes: bool) -> Seq<char>
    decreases text.len(),
{
    if text.len() == 0 {
        text
    } else {
        let c = text.last();
        let rest = doubled(text.drop_last(), quote, backslashes);
        if c == quote || (backslashes && c == '\\') {
            rest.push(c).push(c)
        } else {
            rest.push(c)
        }
    }
}

/// `text` as a string literal: between single quotes, single quotes and
/// backslashes doubled, and ` E` in front where a backslash occurs.
pub open spec fn pg_literal(text: Seq<char>) -> Seq<char> {
    if text.contains('\\') {
        seq![' ', 'E', '\''] + doubled(text, '\'', true) + seq!['\'']
    } else {
        seq!['\''] + doubled(text, '\'', true) + seq!['\'']
    }
}

/// `text` as an identifier: between double quotes, double quotes doubled.
pub open spec fn pg_identifier(text: Seq<char>) -> Seq<char> {
    seq!['"'] + doubled(text, '"', false) + seq!['"']
}

/// Escapes a string literal.
///
/// Wraps `postgres_protocol::escape::escape_literal`: the text goes between
/// single quotes with each single quote and each backslash doubled, behind
/// ` E` where the text holds a backslash.
#[verifier::external_body]
pub(crate) fn escape_literal(text: &str) -> (out: String)
    ensures
        out@ == pg_literal(text@),
{
    postgres_protocol::escape::escape_literal(text)
}

/// Escapes an identifier.
///
/// Wraps `postgres_protocol::escape::escape_identifier`: the text goes
/// between double quotes with each double quote doubled.
#[verifier::external_body]
pub(crate) fn escape_identifier(text: &str) -> (out: String)
    ensures
        out@ == pg_identifier(text@),
{
    postgres_protocol::escape::escape_identifier(text)
}

/// The escaper of the PostgreSQL backend: every value becomes a string
/// literal.
pub struct PostgresEscaper;

impl BackendEscaper for PostgresEscaper {
    open spec fn escaped(&self, value: Seq<char>) -> Seq<char> {
        pg_literal(value)
    }

    fn escape_value(&self, value: String) -> (out: String) {
        escape_literal(value.as_str())
    }
}

/// Why no statement was built.
#[derive(Debug, Clone, Copy, PartialEq, Eq, Structural)]
pub enum StatementError {
    /// The table or a column has a double quote in its name.
    QuoteInIdentifier,
    /// The record has no column.
    NoColumns,
    /// The row is to be flagged, and the record has no `timestamp` column.
    NoTimestamp,
}

/// Whether one of the first `n` names holds a double quote.
pub open spec fn quote_in_names(entries: Entries, n: nat) -> bool {
    exists|i: int| 0 <= i < n && i < entries.len() && (#[trigger] entries[i]).0.contains('"')
}

/// The first `n` names as identifiers, separated by commas.
pub open spec fn column_list(entries: Entries, n: nat) -> Seq<char>
    decreases n,
{
    if n == 0 || n > entries.len() {
        Seq::empty()
    } else if n == 1 {
        pg_identifier(entries[0].0)
    } else {
        column_list(entries, (n - 1) as nat) + seq![','] + pg_identifier(entries[n - 1].0)
    }
}

/// The first `n` values as they stand, separated by commas.
pub open spec fn value_list(entries: Entries, n: nat) -> Seq<char>
    decreases n,
{
    if n == 0 || n > entries.len() {
        Seq::empty()
    } else if n == 1 {
        entries[0].1
    } else {
        value_list(entries, (n - 1) as nat) + seq![','] + entries[n - 1].1
    }
}

/// The expression by which the server decides whether a row is
/// persistent: true where the table holds no persistent row, or where the
/// latest persistent row's timestamp and `secs` seconds are at most
/// `timestamp`.
pub open spec fn persistence_clause(table: Seq<char>, secs: u32, timestamp: Seq<char>) -> Seq<
    char,
> {
    "(SELECT COALESCE(max(\"timestamp\") + INTERVAL '"@ + decimal(secs as nat) + " SECONDS' <= "@
        + timestamp + ", true) FROM "@ + pg_identifier(table) + " where persistent)"@
}

/// The statement that inserts one row.
pub open spec fn insert_text(
    table: Seq<char>,
    entries: Entries,
    persistent_every_secs: Option<u32>,
) -> Seq<char> {
    match persistent_every_secs {
        Some(secs) => "INSERT INTO "@ + pg_identifier(table) + " ("@ + "persistent,"@
            + column_list(entries, entries.len()) + ") VALUES ("@ + persistence_clause(
            table,
            secs,
            value_of(entries, "timestamp"@)->0,
        ) + seq![','] + value_list(entries, entries.len()) + ") ON CONFLICT DO NOTHING"@,
        None => "INSERT INTO "@ + pg_identifier(table) + " ("@ + column_list(
            entries,
            entries.len(),
        ) + ") VALUES ("@ + value_list(entries, entries.len()) + ") ON CONFLICT DO NOTHING"@,
    }
}

/// The statement that inserts one row, or why there is none: a double
/// quote in the name of the table or of a column, a record without
/// columns, or a row to be flagged without a `timestamp` column, in this
/// order.
pub open spec fn insert_statement_for(
    table: Seq<char>,
    entries: Entries,
    persistent_every_secs: Option<u32>,
) -> Result<Seq<char>, StatementError> {
    if table.contains('"') || quote_in_names(entries, entries.len()) {
        Err(StatementError::QuoteInIdentifier)
    } else if entries.len() == 0 {
        Err(StatementError::NoColumns)
    } else if persistent_every_secs is Some && !has_key(entries, "timestamp"@) {
        Err(StatementError::NoTimestamp)
    } else {
        Ok(insert_text(table, entries, persistent_every_secs))
    }
}

/// The statement that removes the rows that are not persistent and older
/// than `days` days.
pub open spec fn delete_text(table: Seq<char>, days: u32) -> Seq<char> {
    "DELETE FROM "@ + pg_identifier(table)
        + " WHERE persistent = false AND timestamp < (NOW() - INTERVAL '"@ + decimal(days as nat)
        + " DAYS')"@
}

/// A statement or the reason why there is none, as characters.
pub open spec fn statement_result(result: Result<String, StatementError>) -> Result<
    Seq<char>,
    StatementError,
> {
    match result {
        Ok(text) => Ok(text@),
        Err(e) => Err(e),
    }
}

/// Builds the statement that appends `escaped_values` to `table` as one
/// row. The values go in as they stand: they are escaped already. A row
/// that conflicts with one that is stored is ignored by the statement.
///
/// With `persistent_every_secs` the statement also fills the `persistent`
/// column, by an expression that the server evaluates together with the
/// insert: see [`persistence_clause`].
pub fn insert_statement(
    table: &str,
    escaped_values: &Record,
    persistent_every_secs: Option<u32>,
) -> (result: Result<String, StatementError>)
    ensures
        statement_result(result) == insert_statement_for(
            table@,
            record_entries(*escaped_values),
            persistent_every_secs,
        ),
{
    let ghost entries = record_entries(*escaped_values);
    if has_char(table, '"') {
        return Err(StatementError::QuoteInIdentifier);
    }
    let n = record_len(escaped_values);
    let mut columns = String::new();
    let mut values = String::new();
    let mut i: usize = 0;
    while i < n
        invariant
            i <= n == entries.len(),
            entries == record_entries(*escaped_values),
            !quote_in_names(entries, i as nat),
            columns@ == column_list(entries, i as nat),
            values@ == value_list(entries, i as nat),
        decreases n - i,
    {
        let (name, value) = match record_entry(escaped_values, i) {
            Some(entry) => entry,
            None => {
                assert(false);
                return Err(StatementError::NoColumns);
            },
        };
        if has_char(name.as_str(), '"') {
            assert(entries[i as int].0.contains('"'));
            return Err(StatementError::QuoteInIdentifier);
        }
        if i > 0 {
            push_char(&mut columns, ',');
            push_char(&mut values, ',');
        }
        let identifier = escape_identifier(name.as_str());
        columns.append(identifier.as_str());
        values.append(value.as_str());
        assert(!quote_in_names(entries, (i + 1) as nat)) by {
            if quote_in_names(entries, (i + 1) as nat) {
                let k = choose|k: int|
                    0 <= k < i + 1 && k < entries.len() && (#[trigger] entries[k]).0.contains(
                        '"',
                    );
                if k < i {
                    assert(quote_in_names(entries, i as nat));
                }
            }
        }
        i += 1;
        assert(columns@ =~= column_list(entries, i as nat));
        assert(values@ =~= value_list(entries, i as nat));
    }
    if n == 0 {
        return Err(StatementError::NoColumns);
    }
    let table_identifier = escape_identifier(table);
    let mut out = String::new();
    out.append("INSERT INTO ");
    out.append(table_identifier.as_str());
    out.append(" (");
    match persistent_every_secs {
        Some(secs) => {
            let at = match record_position(escaped_values, "timestamp") {
                Some(at) => at,
                None => {
                    return Err(StatementError::NoTimestamp);
                },
            };
            proof {
                lemma_position_unique(entries, "timestamp"@, at as int);
            }
            let timestamp = match record_entry(escaped_values, at) {
                Some(entry) => entry.1,
                None => {
                    assert(false);
                    return Err(StatementError::NoTimestamp);
                },
            };
            assert(timestamp@ == value_of(entries, "timestamp"@)->0);
            out.append("persistent,");
            out.append(columns.as_str());
            out.append(") VALUES (");
            out.append("(SELECT COALESCE(max(\"timestamp\") + INTERVAL '");
            out.append(decimal_string(secs as usize).as_str());
            out.append(" SECONDS' <= ");
            out.append(timestamp.as_str());
            out.append(", true) FROM ");
            out.append(table_identifier.as_str());
            out.append(" where persistent)");
            push_char(&mut out, ',');
            out.append(values.as_str());
            out.append(") ON CONFLICT DO NOTHING");
            assert(out@ =~= insert_text(table@, entries, persistent_every_secs));
        },
        None => {
            out.append(columns.as_str());
            out.append(") VALUES (");
            out.append(values.as_str());
            out.append(") ON CONFLICT DO NOTHING");
            assert(out@ =~= insert_text(table@, entries, persistent_every_secs));
        },
    }
    Ok(out)
}

/// Builds the statement of the retention sweep: it removes from `table`
/// the rows that are not persistent and whose timestamp lies more than
/// `delete_older_than_days` days back. A table name with a double quote
/// is refused.
pub fn delete_old_non_persistent_statement(table: &str, delete_older_than_days: u32) -> (result:
    Result<String, StatementError>)
    ensures
        statement_result(result) == if table@.contains('"') {
            Err::<Seq<char>, StatementError>(StatementError::QuoteInIdentifier)
        } else {
            Ok(delete_text(table@, delete_older_than_days))
        },
{
    if has_char(table, '"') {
        return Err(StatementError::QuoteInIdentifier);
    }
    let mut out = String::new();
    out.append("DELETE FROM ");
    out.append(escape_identifier(table).as_str());
    out.append(" WHERE persistent = false AND timestamp < (NOW() - INTERVAL '");
    out.append(decimal_string(delete_older_than_days as usize).as_str());
    out.append(" DAYS')");
    assert(out@ =~= delete_text(table@, delete_older_than_days));
    Ok(out)
}

} // verus!
