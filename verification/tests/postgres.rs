use indexmap::IndexMap;
use iot2db::backend::postgres::{
    delete_old_non_persistent_statement, insert_statement, StatementError,
};
use iot2db::backend::{DataToInsert, Stdout};

fn record(entries: Vec<(&str, &str)>) -> IndexMap<String, String> {
    entries.into_iter().map(|(k, v)| (k.to_string(), v.to_string())).collect()
}

#[test]
fn insert_statement_lists_columns_and_values_in_order() {
    let values = record(vec![("timestamp", "'2024-05-01 12:00:00'"), ("temp", "'21.5'")]);
    assert_eq!(
        insert_statement("weather", &values, None),
        Ok("INSERT INTO \"weather\" (\"timestamp\",\"temp\") VALUES ('2024-05-01 12:00:00','21.5') ON CONFLICT DO NOTHING".to_string())
    );
    let one = record(vec![("x", "1")]);
    assert_eq!(
        insert_statement("t", &one, None),
        Ok("INSERT INTO \"t\" (\"x\") VALUES (1) ON CONFLICT DO NOTHING".to_string())
    );
}

#[test]
fn insert_statement_asks_the_server_for_the_persistent_flag() {
    let values = record(vec![("temp", "'21.5'"), ("timestamp", "to_timestamp(1714564800)")]);
    assert_eq!(
        insert_statement("weather", &values, Some(3600)),
        Ok("INSERT INTO \"weather\" (persistent,\"temp\",\"timestamp\") VALUES ((SELECT COALESCE(max(\"timestamp\") + INTERVAL '3600 SECONDS' <= to_timestamp(1714564800), true) FROM \"weather\" where persistent),'21.5',to_timestamp(1714564800)) ON CONFLICT DO NOTHING".to_string())
    );
    let zero = record(vec![("timestamp", "NOW()")]);
    assert_eq!(
        insert_statement("w", &zero, Some(0)),
        Ok("INSERT INTO \"w\" (persistent,\"timestamp\") VALUES ((SELECT COALESCE(max(\"timestamp\") + INTERVAL '0 SECONDS' <= NOW(), true) FROM \"w\" where persistent),NOW()) ON CONFLICT DO NOTHING".to_string())
    );
    let most = insert_statement("w", &zero, Some(u32::MAX)).unwrap();
    assert!(most.contains("INTERVAL '4294967295 SECONDS'"));
}

#[test]
fn insert_statement_refuses_quotes_in_identifiers() {
    let values = record(vec![("temp", "1")]);
    assert_eq!(insert_statement("wea\"ther", &values, None), Err(StatementError::QuoteInIdentifier));
    let quoted = record(vec![("ok", "1"), ("te\"mp", "2")]);
    assert_eq!(insert_statement("weather", &quoted, None), Err(StatementError::QuoteInIdentifier));
    // a quote in a value is the escaper's business
    let value = record(vec![("temp", "'\"'")]);
    assert!(insert_statement("weather", &value, None).is_ok());
    // the quote is reported before anything else
    assert_eq!(insert_statement("\"", &record(vec![]), Some(1)), Err(StatementError::QuoteInIdentifier));
    assert_eq!(insert_statement("w", &quoted, Some(1)), Err(StatementError::QuoteInIdentifier));
}

#[test]
fn insert_statement_needs_columns_and_a_timestamp() {
    assert_eq!(insert_statement("w", &record(vec![]), None), Err(StatementError::NoColumns));
    assert_eq!(insert_statement("w", &record(vec![]), Some(60)), Err(StatementError::NoColumns));
    let values = record(vec![("temp", "1")]);
    assert_eq!(insert_statement("w", &values, Some(60)), Err(StatementError::NoTimestamp));
    assert!(insert_statement("w", &values, None).is_ok());
}

#[test]
fn identifiers_keep_backslashes_and_single_quotes() {
    let values = record(vec![("a\\b'c", "1")]);
    assert_eq!(
        insert_statement("t'\\", &values, None),
        Ok("INSERT INTO \"t'\\\" (\"a\\b'c\") VALUES (1) ON CONFLICT DO NOTHING".to_string())
    );
}

#[test]
fn delete_statement_sweeps_rows_that_are_not_persistent() {
    assert_eq!(
        delete_old_non_persistent_statement("weather", 30),
        Ok("DELETE FROM \"weather\" WHERE persistent = false AND timestamp < (NOW() - INTERVAL '30 DAYS')".to_string())
    );
    assert_eq!(
        delete_old_non_persistent_statement("w", 0),
        Ok("DELETE FROM \"w\" WHERE persistent = false AND timestamp < (NOW() - INTERVAL '0 DAYS')".to_string())
    );
    assert_eq!(
        delete_old_non_persistent_statement("w\"", 1),
        Err(StatementError::QuoteInIdentifier)
    );
}

#[test]
fn stdout_renders_the_record() {
    let stdout = Stdout::new(());
    let data = DataToInsert {
        escaped_values: record(vec![("temp", "21.5"), ("site", "roof")]),
        persistent_every_secs: None,
    };
    let expected = format!("{:#?}", data.escaped_values);
    assert_eq!(stdout.render(&data), expected);
    assert_eq!(stdout.render(&data), "{\n    \"temp\": \"21.5\",\n    \"site\": \"roof\",\n}");
    let empty = DataToInsert { escaped_values: record(vec![]), persistent_every_secs: Some(1) };
    assert_eq!(stdout.render(&empty), "{}");
}
