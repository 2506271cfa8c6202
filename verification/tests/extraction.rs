use parsley_csv::{
    clean_value, extract_insert_values, handle_replace_function, parse_sql_text,
    parse_table_columns, parse_values, tokenize_values,
};

#[test]
fn parser_test_parse_table_columns() {
    let columns_text = r#"
            id TEXT PRIMARY KEY,
            callSessionId TEXT NOT NULL,
            type TEXT NOT NULL,
            FOREIGN KEY (callSessionId) REFERENCES CallSession(id)
        "#;

    let columns = parse_table_columns(columns_text);
    assert_eq!(columns, vec!["id", "callSessionId", "type"]);
}

#[test]
fn main_test_parse_table_columns() {
    let columns_text = r#"
            id TEXT PRIMARY KEY,
            callSessionId TEXT NOT NULL,
            type TEXT NOT NULL,
            FOREIGN KEY (callSessionId) REFERENCES CallSession(id)
        "#;

    let columns = parse_table_columns(columns_text);
    assert_eq!(columns, vec!["id", "callSessionId", "type"]);
}

#[test]
fn parser_test_clean_value() {
    assert_eq!(clean_value("'test'".to_string()), "test");
    assert_eq!(clean_value("\"test\"".to_string()), "test");
    assert_eq!(clean_value("'test''s'".to_string()), "test's");
    assert_eq!(clean_value("test".to_string()), "test");
}

#[test]
fn main_test_clean_value() {
    assert_eq!(clean_value("'test'".to_string()), "test");
    assert_eq!(clean_value("\"test\"".to_string()), "test");
    assert_eq!(clean_value("'test''s'".to_string()), "test's");
    assert_eq!(clean_value("test".to_string()), "test");
}

#[test]
fn parser_test_parse_values() {
    let values_str = "'value1', 'value2', 'value''3'";
    let values = parse_values(values_str);
    assert_eq!(values, vec!["value1", "value2", "value'3"]);
}

#[test]
fn main_test_parse_values() {
    let values_str = "'value1', 'value2', 'value''3'";
    let values = parse_values(values_str);
    assert_eq!(values, vec!["value1", "value2", "value'3"]);
}

#[test]
fn test_parse_table_columns_with_constraints() {
    let columns_text = r#"
        id INTEGER PRIMARY KEY,
        name TEXT NOT NULL,
        email TEXT UNIQUE
    "#;

    let columns = parse_table_columns(columns_text);
    assert_eq!(columns.len(), 3);
    assert_eq!(columns[0], "id");
    assert_eq!(columns[1], "name");
    assert_eq!(columns[2], "email");
}

#[test]
fn test_tokenizer_keeps_quoted_commas() {
    let tokens = tokenize_values("'a,b', 'c', 3");
    assert_eq!(tokens, vec!["'a,b'", "'c'", "3"]);
}

#[test]
fn test_normalizer_unescapes_both_quote_kinds() {
    assert_eq!(clean_value("'it''s'".to_string()), "it's");
    assert_eq!(clean_value("\"x\"\"y\"".to_string()), "x\"y");
    assert_eq!(clean_value("42".to_string()), "42");
}

#[test]
fn test_tokenizer_unterminated_quote_is_lenient() {
    let tokens = tokenize_values("'open, never closed");
    assert_eq!(tokens, vec!["'open, never closed"]);
}

#[test]
fn test_schema_tables_always_have_columns() {
    let dump = "CREATE TABLE empty_one (FOREIGN KEY (x) REFERENCES t(y)) \
                CREATE TABLE real_one (id TEXT, value TEXT) ";
    let tables = parse_sql_text(dump).expect("extraction should succeed");
    assert_eq!(tables.len(), 1);
    for table in &tables {
        assert!(!table.columns.is_empty());
    }
    assert_eq!(tables[0].name, "real_one");
    assert_eq!(tables[0].columns, vec!["id", "value"]);
}

#[test]
fn test_end_to_end_users_dump() {
    let dump = "CREATE TABLE users (id TEXT PRIMARY KEY, name TEXT, email TEXT);\n\
                INSERT INTO users VALUES('1','Alice Smith','alice@example.com');\n";
    let tables = parse_sql_text(dump).expect("schema extraction should succeed");
    assert_eq!(tables.len(), 1);
    assert_eq!(tables[0].name, "users");
    assert_eq!(tables[0].columns, vec!["id", "name", "email"]);

    let rows = extract_insert_values(dump, "users").expect("row extraction should succeed");
    assert_eq!(rows.len(), 1);
    assert_eq!(rows[0], vec!["1", "Alice Smith", "alice@example.com"]);
}

#[test]
fn test_row_extractor_quote_styles_in_order() {
    let dump = "INSERT INTO \"users\" VALUES('dq');\n\
                INSERT INTO users VALUES('bare');\n\
                INSERT INTO `users` VALUES('bq');\n";
    let rows = extract_insert_values(dump, "users").expect("row extraction should succeed");
    assert_eq!(rows, vec![vec!["dq"]]);

    let bare_only = "INSERT INTO users VALUES('bare');\n";
    let rows = extract_insert_values(bare_only, "users").expect("row extraction should succeed");
    assert_eq!(rows, vec![vec!["bare"]]);

    let bq_only = "INSERT INTO `users` VALUES('bq');\n";
    let rows = extract_insert_values(bq_only, "users").expect("row extraction should succeed");
    assert_eq!(rows, vec![vec!["bq"]]);
}

#[test]
fn test_row_extractor_no_match_is_empty() {
    let dump = "CREATE TABLE users (id TEXT);\n";
    let rows = extract_insert_values(dump, "users").expect("row extraction should succeed");
    assert!(rows.is_empty());
}

#[test]
fn test_rewriter_collapses_replace_calls() {
    let payload = "replace('a\\'b', 'x'), replace('l1\\nl2', 'y')";
    let rewritten = handle_replace_function(payload);
    assert_eq!(rewritten, "'a'b', 'l1\nl2'");
}

#[test]
fn test_rewriter_is_idempotent_on_rewritten_text() {
    let untouched = "'nothing to do here', 42";
    assert_eq!(handle_replace_function(untouched), untouched);

    let payload = "replace('abc', 'x', 'y')";
    let once = handle_replace_function(payload);
    let twice = handle_replace_function(&once);
    assert_eq!(once, twice);
}

#[test]
fn test_multiline_insert_payload() {
    let dump = "INSERT INTO notes VALUES('first\nsecond', 2);";
    let rows = extract_insert_values(dump, "notes").expect("row extraction should succeed");
    assert_eq!(rows, vec![vec!["first\nsecond", "2"]]);
}

#[test]
fn test_schema_is_case_insensitive_and_multiline() {
    let dump = "create table Sessions (\n  id TEXT,\n  startedAt TEXT\n);\n";
    let tables = parse_sql_text(dump).expect("schema extraction should succeed");
    assert_eq!(tables.len(), 1);
    assert_eq!(tables[0].name, "Sessions");
    assert_eq!(tables[0].columns, vec!["id", "startedAt"]);
}

#[test]
fn test_parse_values_unquoted_passthrough() {
    let values = parse_values("1, NULL, 2.5, two words");
    assert_eq!(values, vec!["1", "NULL", "2.5", "two words"]);
}

#[test]
fn test_parse_values_empty_payload() {
    let values = parse_values("");
    assert!(values.is_empty());
}

#[test]
fn test_parse_values_empty_segments_kept() {
    let values = parse_values("a,,b");
    assert_eq!(values, vec!["a", "", "b"]);
}

#[test]
fn test_column_candidates_must_be_word_characters() {
    let columns = parse_table_columns("UNIQUE(a), snake_name TEXT, bad-name TEXT");
    assert_eq!(columns, vec!["snake_name"]);
}

#[test]
fn test_insert_with_replace_call() {
    let dump = "INSERT INTO t VALUES(replace('a\\'b','c'));";
    let rows = extract_insert_values(dump, "t").expect("row extraction should succeed");
    assert_eq!(rows, vec![vec!["a'b"]]);
}
