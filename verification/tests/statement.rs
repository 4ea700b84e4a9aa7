use sqlschema::constructs::components::{
    ColumnDefinition, DataType, DataTypeRaw, TableDefinition,
};
use sqlschema::sql::errors::{StatementValidationError, SyntaxError};
use sqlschema::sql::expects::ExpectOk;
use sqlschema::sql::tokenizer::tokenize;
use sqlschema::sql::{
    expect_create_table, expect_if_not_exists, parse_statement, validate_table_definition,
    ParseError,
};

fn syntax(message: &str) -> Result<TableDefinition, ParseError> {
    Err(ParseError::Syntax(SyntaxError(message.to_string())))
}

fn validation(message: &str) -> Result<TableDefinition, ParseError> {
    Err(ParseError::StatementValidation(StatementValidationError(
        message.to_string(),
    )))
}

fn column(name: &str, data_type: DataTypeRaw, is_nullable: bool, primary_key: bool) -> ColumnDefinition {
    ColumnDefinition {
        name: name.to_string(),
        data_type: DataType {
            data_type,
            is_nullable,
        },
        primary_key,
    }
}

#[test]
fn users_table_is_read_and_validated() {
    let table = parse_statement(
        "CREATE TABLE users (id UInt64 PRIMARY KEY, name String, age NULLABLE(UInt8))",
    )
    .unwrap();
    assert_eq!(table.name, "users");
    assert_eq!(table.columns.len(), 3);
    assert_eq!(table.primary_key_index, 0);
    assert!(table.columns[2].data_type.is_nullable);
    assert_eq!(
        table,
        TableDefinition {
            name: "users".to_string(),
            columns: vec![
                column("id", DataTypeRaw::UInt64, false, true),
                column("name", DataTypeRaw::String, false, false),
                column("age", DataTypeRaw::UInt8, true, false),
            ],
            primary_key_index: 0,
        }
    );
}

#[test]
fn missing_table_name_is_a_syntax_error() {
    assert_eq!(
        parse_statement("CREATE TABLE (id UInt64)"),
        syntax("Expected an identifier, instead found `(` at line 1.")
    );
}

#[test]
fn duplicate_column_is_a_validation_error() {
    assert_eq!(
        parse_statement("CREATE TABLE t (a UInt64, a String PRIMARY KEY)"),
        validation(
            "Problem at column 2: There is more than one column with name `a` in table definition"
        )
    );
}

#[test]
fn reading_twice_gives_the_same() {
    for text in [
        "CREATE TABLE users (id UInt64 PRIMARY KEY, name String)",
        "CREATE TABLE users (id UInt64, name String)",
        "CREATE TABLE users (id UInt64 PRIMARY KEY,)",
        "CREATE TABLE users (id UInt64 PRIMARY KEY) #",
        "",
    ] {
        assert_eq!(parse_statement(text), parse_statement(text));
    }
}

#[test]
fn statement_may_end_with_a_semicolon() {
    let plain = parse_statement("create table t (a Bool primary key)").unwrap();
    let ended = parse_statement("create table t (a Bool primary key);").unwrap();
    assert_eq!(plain, ended);
    assert_eq!(
        parse_statement("create table t (a Bool primary key); create"),
        syntax("Found tokens after a semicolon! Only a single statement at once can be provided.")
    );
    assert_eq!(
        parse_statement("create table t (a Bool primary key) create"),
        syntax("Expected no more tokens or a semicolon, instead found `CREATE` at line 1.")
    );
}

#[test]
fn if_not_exists_is_optional() {
    let plain = parse_statement("CREATE TABLE t (a Bool PRIMARY KEY)").unwrap();
    let conditional = parse_statement("CREATE TABLE IF NOT EXISTS t (a Bool PRIMARY KEY)").unwrap();
    assert_eq!(plain, conditional);
    assert_eq!(
        parse_statement("CREATE TABLE IF EXISTS t (a Bool PRIMARY KEY)"),
        syntax("Expected `NOT`, instead found `EXISTS` at line 1.")
    );
    assert_eq!(
        parse_statement("CREATE TABLE IF NOT"),
        syntax("Expected `EXISTS`, instead found end of statement.")
    );
}

#[test]
fn other_statements_are_refused() {
    assert_eq!(
        parse_statement("SELECT a"),
        syntax("Expected `CREATE`, instead found `SELECT` at line 1.")
    );
    assert_eq!(
        parse_statement("CREATE INDEX i"),
        syntax("Expected `TABLE`, instead found `INDEX` at line 1.")
    );
    assert_eq!(
        parse_statement(""),
        syntax("Expected `CREATE`, instead found end of statement.")
    );
    assert_eq!(
        parse_statement(";"),
        syntax("Expected `CREATE`, instead found end of statement.")
    );
}

#[test]
fn lexing_fails_first() {
    assert_eq!(
        parse_statement("SELECT a\nFROM b WHERE c = 1"),
        syntax("Unexpected character `=` at line 2.")
    );
}

#[test]
fn messages_name_the_line() {
    assert_eq!(
        parse_statement("CREATE TABLE users (\n  id UInt64 PRIMARY KEY,\n  name\n)"),
        syntax("Expected a type or `NULLABLE(`, instead found `)` at line 4.")
    );
    assert_eq!(
        parse_statement("CREATE TABLE users (\n  id UInt64 PRIMARY,\n  name String\n)"),
        syntax("Expected `KEY`, instead found `,` at line 2.")
    );
}

#[test]
fn trailing_comma_is_refused() {
    assert_eq!(
        parse_statement("CREATE TABLE t (a UInt64 PRIMARY KEY,)"),
        syntax("Expected an identifier, instead found `)` at line 1.")
    );
}

#[test]
fn table_needs_columns() {
    assert_eq!(
        parse_statement("CREATE TABLE t ()"),
        syntax("Expected an identifier, instead found `)` at line 1.")
    );
    assert_eq!(
        parse_statement("CREATE TABLE t"),
        syntax("Expected `(`, instead found end of statement.")
    );
    assert_eq!(
        parse_statement("CREATE TABLE t (a UInt8 PRIMARY KEY"),
        syntax("Expected `)`, instead found end of statement.")
    );
}

#[test]
fn reserved_words_are_no_names() {
    assert_eq!(
        parse_statement("CREATE TABLE table (a UInt8 PRIMARY KEY)"),
        syntax("Expected an identifier, instead found `TABLE` at line 1.")
    );
    assert_eq!(
        parse_statement("CREATE TABLE t (key UInt8 PRIMARY KEY)"),
        syntax("Expected an identifier, instead found `KEY` at line 1.")
    );
    assert_eq!(
        parse_statement("CREATE TABLE t (uuid Uuid PRIMARY KEY)"),
        syntax("Expected an identifier, instead found `Uuid` at line 1.")
    );
}

#[test]
fn primary_key_count_is_checked() {
    assert_eq!(
        parse_statement("CREATE TABLE t (a UInt64, b String)"),
        validation("A table must have exactly 1 PRIMARY KEY column, not 0")
    );
    assert_eq!(
        parse_statement("CREATE TABLE t (a UInt64 PRIMARY KEY, b String PRIMARY KEY)"),
        validation("A table must have exactly 1 PRIMARY KEY column, not 2")
    );
    let table = parse_statement("CREATE TABLE t (a UInt64, b String PRIMARY KEY)").unwrap();
    assert_eq!(table.primary_key_index, 1);
}

#[test]
fn nullable_column_may_be_the_primary_key() {
    let table = parse_statement("CREATE TABLE t (a NULLABLE(Timestamp) PRIMARY KEY)").unwrap();
    assert_eq!(
        table.columns,
        vec![column("a", DataTypeRaw::Timestamp, true, true)]
    );
}

#[test]
fn if_not_exists_alone() {
    let tokens = tokenize("if not exists t").unwrap();
    assert_eq!(
        expect_if_not_exists(&tokens),
        Ok(ExpectOk {
            rest: &tokens[3..],
            tokens_consumed_count: 3,
            outcome: true
        })
    );
    let tokens = tokenize("t (").unwrap();
    assert_eq!(
        expect_if_not_exists(&tokens),
        Ok(ExpectOk {
            rest: &tokens[..],
            tokens_consumed_count: 0,
            outcome: false
        })
    );
}

#[test]
fn create_table_counts_all_tokens() {
    let tokens = tokenize("create table if not exists t (a Bool);").unwrap();
    let ok = expect_create_table(&tokens).unwrap();
    assert_eq!(ok.tokens_consumed_count, 11);
    assert!(ok.rest.is_empty());
    assert_eq!(ok.outcome.name, "t");
    assert_eq!(ok.outcome.columns.len(), 1);
    assert!(!ok.outcome.columns[0].primary_key);
}

#[test]
fn validation_leaves_the_written_table_as_it_was() {
    let tokens = tokenize("create table t (a Bool primary key, b NULLABLE(Uuid))").unwrap();
    let written = expect_create_table(&tokens).unwrap().outcome;
    let valid = validate_table_definition(&written).unwrap();
    assert_eq!(valid.name, written.name);
    assert_eq!(valid.columns.len(), written.columns.len());
    assert_eq!(valid.columns[1].name, written.columns[1].name);
    assert_eq!(valid.columns[1].data_type, written.columns[1].data_type);
    assert_eq!(valid.primary_key_index, 0);
    assert_eq!(written.columns.len(), 2);
}

#[test]
fn errors_have_a_kind_and_a_message() {
    let error = parse_statement("CREATE").unwrap_err();
    assert_eq!(error.kind(), "syntax");
    assert_eq!(
        error.message(),
        "Expected `TABLE`, instead found end of statement."
    );
    let error = parse_statement("CREATE TABLE t (a Bool)").unwrap_err();
    assert_eq!(error.kind(), "statement_validation");
    assert_eq!(
        error.message(),
        "A table must have exactly 1 PRIMARY KEY column, not 0"
    );
    let error = SyntaxError("oops".to_string());
    assert_eq!(error.kind(), "syntax");
    assert_eq!(error.message(), "oops");
    assert_eq!(error.to_text(), "SyntaxError: oops");
    let error = StatementValidationError("oops".to_string());
    assert_eq!(error.kind(), "statement_validation");
    assert_eq!(error.message(), "oops");
    assert_eq!(error.to_text(), "StatementValidationError: oops");
}
