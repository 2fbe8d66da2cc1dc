use minidb::errors::ErrorKind;
use minidb::meta_command::{MetaCommand, MetaCommandResult};
use minidb::statement::{
    classify, execute, parse_i32, ExecutionResult, Statement, StatementType,
};
use minidb::table::{Table, TABLE_MAX_ROWS};

fn tokens(line: &str) -> Vec<String> {
    line.split_whitespace().map(|t| t.to_string()).collect()
}

#[test]
fn classify_insert() {
    assert_eq!(classify("insert"), StatementType::Insert);
}

#[test]
fn classify_select() {
    assert_eq!(classify("select"), StatementType::Select);
}

#[test]
fn classify_delete_is_unrecognized() {
    assert_eq!(classify("delete"), StatementType::Unrecognized);
    assert_eq!(classify("INSERT"), StatementType::Unrecognized);
    assert_eq!(classify(""), StatementType::Unrecognized);
}

#[test]
fn statement_new_classifies_token() {
    assert_eq!(Statement::new("insert".to_string()).statement_type, StatementType::Insert);
    assert_eq!(Statement::new("select".to_string()).statement_type, StatementType::Select);
    assert_eq!(Statement::new("drop".to_string()).statement_type, StatementType::Unrecognized);
}

#[test]
fn parse_i32_accepts_decimal_integers() {
    assert_eq!(parse_i32("0"), Some(0));
    assert_eq!(parse_i32("42"), Some(42));
    assert_eq!(parse_i32("-42"), Some(-42));
    assert_eq!(parse_i32("007"), Some(7));
    assert_eq!(parse_i32("2147483647"), Some(2147483647));
    assert_eq!(parse_i32("-2147483648"), Some(-2147483648));
}

#[test]
fn parse_i32_rejects_everything_else() {
    assert_eq!(parse_i32(""), None);
    assert_eq!(parse_i32("-"), None);
    assert_eq!(parse_i32("+5"), None);
    assert_eq!(parse_i32("12a"), None);
    assert_eq!(parse_i32("1 2"), None);
    assert_eq!(parse_i32("2147483648"), None);
    assert_eq!(parse_i32("-2147483649"), None);
    assert_eq!(parse_i32("99999999999999999999"), None);
}

#[test]
fn insert_then_select_returns_the_row() {
    let mut t = Table::new();
    let r = execute(&tokens("insert 1 alice alice@example.com"), &mut t);
    assert!(matches!(r, ExecutionResult::Success(_)));
    match execute(&tokens("select"), &mut t) {
        ExecutionResult::Success(rows) => {
            assert_eq!(rows.len(), 1);
            assert_eq!(rows[0].id, 1);
            assert_eq!(rows[0].username, b"alice".to_vec());
            assert_eq!(rows[0].email, b"alice@example.com".to_vec());
        },
        ExecutionResult::Error(kind, _) => panic!("select failed: {:?}", kind),
    }
}

#[test]
fn insert_missing_email_is_syntax_error() {
    let mut t = Table::new();
    match execute(&tokens("insert 1 alice"), &mut t) {
        ExecutionResult::Error(kind, msg) => {
            assert_eq!(kind, ErrorKind::SyntaxError);
            assert!(!msg.is_empty());
        },
        ExecutionResult::Success(_) => panic!("missing argument must not succeed"),
    }
    assert_eq!(t.row_count(), 0);
}

#[test]
fn insert_extra_argument_is_syntax_error() {
    let mut t = Table::new();
    let r = execute(&tokens("insert 1 alice alice@example.com extra"), &mut t);
    assert!(matches!(r, ExecutionResult::Error(ErrorKind::SyntaxError, _)));
    assert_eq!(t.row_count(), 0);
}

#[test]
fn insert_unparsable_id_is_syntax_error() {
    let mut t = Table::new();
    let r = execute(&tokens("insert abc alice alice@example.com"), &mut t);
    assert!(matches!(r, ExecutionResult::Error(ErrorKind::SyntaxError, _)));
    assert_eq!(t.row_count(), 0);
}

#[test]
fn unrecognized_statement_is_reported_not_executed() {
    let mut t = Table::new();
    let r = execute(&tokens("delete 1"), &mut t);
    assert!(matches!(r, ExecutionResult::Error(ErrorKind::SyntaxError, _)));
    let r = execute(&tokens(""), &mut t);
    assert!(matches!(r, ExecutionResult::Error(ErrorKind::SyntaxError, _)));
    assert_eq!(t.row_count(), 0);
}

#[test]
fn oversized_username_is_field_too_long() {
    let mut t = Table::new();
    let line = format!("insert 1 {} mail@example.com", "x".repeat(33));
    let r = execute(&tokens(&line), &mut t);
    assert!(matches!(r, ExecutionResult::Error(ErrorKind::FieldTooLong, _)));
    assert_eq!(t.row_count(), 0);
}

#[test]
fn select_ignores_trailing_arguments() {
    let mut t = Table::new();
    execute(&tokens("insert 2 bob bob@example.com"), &mut t);
    match execute(&tokens("select everything please"), &mut t) {
        ExecutionResult::Success(rows) => assert_eq!(rows.len(), 1),
        ExecutionResult::Error(kind, _) => panic!("select failed: {:?}", kind),
    }
}

#[test]
fn pipeline_reports_table_full_at_capacity() {
    let mut t = Table::new();
    for i in 0..TABLE_MAX_ROWS {
        let line = format!("insert {} u e", i);
        assert!(matches!(execute(&tokens(&line), &mut t), ExecutionResult::Success(_)));
    }
    let r = execute(&tokens("insert 0 u e"), &mut t);
    assert!(matches!(r, ExecutionResult::Error(ErrorKind::TableFull, _)));
    assert_eq!(t.row_count(), TABLE_MAX_ROWS);
}

#[test]
fn engine_stays_usable_after_an_error() {
    let mut t = Table::new();
    let _ = execute(&tokens("insert nope u e"), &mut t);
    let r = execute(&tokens("insert 5 u e"), &mut t);
    assert!(matches!(r, ExecutionResult::Success(_)));
    assert_eq!(t.row_count(), 1);
}

#[test]
fn meta_command_exit_succeeds() {
    assert_eq!(MetaCommand::process(".exit".to_string()), MetaCommandResult::Success);
}

#[test]
fn meta_command_other_is_unrecognized() {
    assert_eq!(
        MetaCommand::process(".quit".to_string()),
        MetaCommandResult::UnrecognizedCommand
    );
    assert_eq!(
        MetaCommand::process("exit".to_string()),
        MetaCommandResult::UnrecognizedCommand
    );
}
