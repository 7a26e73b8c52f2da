//! The splitter for migration files, and the schema that follows them.

use status_monitor::domain::CheckStatus;
use status_monitor::storage::clickhouse::schema::{
    confirm_recorded, expected_rollup_schema, hourly_schema, migration_script, split_statements,
    verify_rollup_schema, view_matches, Column, MigrateAction, Migration, RollupDrift, SplitError,
};

const CHECK_RESULTS: &str = "CREATE TABLE check_results (\
    status Enum8('up' = 1, 'down' = 2, 'degraded' = 3, 'error' = 4), \
    duration_ms UInt32) ENGINE = MergeTree";

fn check_results_enum8() -> Vec<(String, i8)> {
    let sql = CHECK_RESULTS;
    let open = sql.find("Enum8(").expect("Enum8 column") + "Enum8(".len();
    let close = open + sql[open..].find(')').expect("Enum8 close paren");
    sql[open..close]
        .split(',')
        .map(|kv| {
            let (name, val) = kv.split_once('=').expect("Enum8 entry is `name = value`");
            (
                name.trim().trim_matches('\'').to_string(),
                val.trim().parse::<i8>().expect("Enum8 value is an int"),
            )
        })
        .collect()
}

#[test]
fn clickhouse_split_strips_line_comments_before_splitting() {
    // A stray `;` inside a `--` comment must not open a chunk of its own.
    let sql = "-- prelude with a semi; in it\n\
               CREATE TABLE foo (x UInt8) ENGINE = TinyLog;\n\
               -- another; with a semi\n\
               DROP TABLE foo;";
    let stmts = split_statements(sql).expect("test input is well-formed");
    assert_eq!(stmts.len(), 2);
    assert!(stmts[0].contains("CREATE TABLE foo"));
    assert!(stmts[1].contains("DROP TABLE foo"));
}

#[test]
fn clickhouse_split_discards_trailing_blank_chunk() {
    let stmts = split_statements("SELECT 1;\n").expect("test input is well-formed");
    assert_eq!(stmts.len(), 1);
    assert_eq!(stmts[0], "SELECT 1");
}

#[test]
fn clickhouse_split_preserves_inline_comment_after_statement() {
    let stmts =
        split_statements("SELECT 1; -- trailing\nSELECT 2;").expect("test input is well-formed");
    assert_eq!(stmts, vec!["SELECT 1", "SELECT 2"]);
}

#[test]
fn clickhouse_split_keeps_semicolon_inside_single_quoted_string() {
    let sql = "INSERT INTO t VALUES ('a; b', 'c;');";
    let stmts = split_statements(sql).expect("test input is well-formed");
    assert_eq!(stmts.len(), 1);
    assert_eq!(stmts[0], "INSERT INTO t VALUES ('a; b', 'c;')");
}

#[test]
fn clickhouse_split_handles_doubled_quote_escape() {
    let sql = "SELECT 'it''s; not over'; SELECT 2;";
    let stmts = split_statements(sql).expect("test input is well-formed");
    assert_eq!(stmts.len(), 2);
    assert_eq!(stmts[0], "SELECT 'it''s; not over'");
    assert_eq!(stmts[1], "SELECT 2");
}

#[test]
fn clickhouse_split_handles_backslash_escape_inside_string() {
    let sql = "SELECT 'a\\'b;c'; SELECT 2;";
    let stmts = split_statements(sql).expect("test input is well-formed");
    assert_eq!(stmts.len(), 2);
    assert_eq!(stmts[0], "SELECT 'a\\'b;c'");
    assert_eq!(stmts[1], "SELECT 2");
}

#[test]
fn clickhouse_split_keeps_semicolon_inside_double_quoted_identifier() {
    let sql = "SELECT \"a;b\" FROM t; SELECT 2;";
    let stmts = split_statements(sql).expect("test input is well-formed");
    assert_eq!(stmts.len(), 2);
    assert!(stmts[0].contains("\"a;b\""));
}

#[test]
fn clickhouse_split_keeps_semicolon_inside_backtick_identifier() {
    let sql = "SELECT `a;b` FROM t; SELECT 2;";
    let stmts = split_statements(sql).expect("test input is well-formed");
    assert_eq!(stmts.len(), 2);
    assert!(stmts[0].contains("`a;b`"));
}

#[test]
fn clickhouse_split_strips_block_comment_with_semicolon_inside() {
    let sql = "SELECT 1 /* foo; bar */; SELECT 2;";
    let stmts = split_statements(sql).expect("test input is well-formed");
    assert_eq!(stmts.len(), 2);
    assert_eq!(stmts[1], "SELECT 2");
}

#[test]
fn clickhouse_split_comment_only_input_produces_nothing() {
    let stmts = split_statements("-- just a comment\n/* and a block */")
        .expect("test input is well-formed");
    assert!(stmts.is_empty());
}

#[test]
fn clickhouse_split_handles_trailing_statement_without_semicolon() {
    let stmts = split_statements("SELECT 1; SELECT 2").expect("test input is well-formed");
    assert_eq!(stmts, vec!["SELECT 1", "SELECT 2"]);
}

#[test]
fn clickhouse_split_errors_on_unterminated_string_literal() {
    let err = split_statements("INSERT INTO t VALUES ('oops")
        .expect_err("must error on unterminated string");
    let msg = err.message();
    assert!(
        msg.contains("unterminated") && msg.contains("string"),
        "unexpected error: {msg}"
    );
}

#[test]
fn clickhouse_split_errors_on_unterminated_block_comment() {
    let err = split_statements("SELECT 1 /* never closes")
        .expect_err("must error on unterminated block comment");
    let msg = err.message();
    assert!(
        msg.contains("unterminated") && msg.contains("block comment"),
        "unexpected error: {msg}"
    );
}

#[test]
fn clickhouse_check_status_matches_clickhouse_enum8() {
    let all = [CheckStatus::Up, CheckStatus::Down, CheckStatus::Degraded, CheckStatus::Error];
    let pairs = check_results_enum8();
    assert_eq!(pairs.len(), all.len());
    for s in all {
        assert!(
            pairs
                .iter()
                .any(|(name, val)| name == s.as_str() && *val == s.as_enum8()),
            "CheckStatus::{s:?} ({}={}) is not in the check_results Enum8 {pairs:?}",
            s.as_str(),
            s.as_enum8()
        );
        assert_eq!(CheckStatus::from_enum8(s.as_enum8()), s);
    }
}

#[test]
fn schema_split_strips_line_comments_before_splitting() {
    // A stray `;` inside a `--` comment must not open a chunk of its own.
    let sql = "-- prelude with a semi; in it\n\
               CREATE TABLE foo (x UInt8) ENGINE = TinyLog;\n\
               -- another; with a semi\n\
               DROP TABLE foo;";
    let stmts = split_statements(sql).expect("test input is well-formed");
    assert_eq!(stmts.len(), 2);
    assert!(stmts[0].contains("CREATE TABLE foo"));
    assert!(stmts[1].contains("DROP TABLE foo"));
}

#[test]
fn schema_split_discards_trailing_blank_chunk() {
    let stmts = split_statements("SELECT 1;\n").expect("test input is well-formed");
    assert_eq!(stmts.len(), 1);
    assert_eq!(stmts[0], "SELECT 1");
}

#[test]
fn schema_split_preserves_inline_comment_after_statement() {
    let stmts =
        split_statements("SELECT 1; -- trailing\nSELECT 2;").expect("test input is well-formed");
    assert_eq!(stmts, vec!["SELECT 1", "SELECT 2"]);
}

#[test]
fn schema_split_keeps_semicolon_inside_single_quoted_string() {
    let sql = "INSERT INTO t VALUES ('a; b', 'c;');";
    let stmts = split_statements(sql).expect("test input is well-formed");
    assert_eq!(stmts.len(), 1);
    assert_eq!(stmts[0], "INSERT INTO t VALUES ('a; b', 'c;')");
}

#[test]
fn schema_split_handles_doubled_quote_escape() {
    let sql = "SELECT 'it''s; not over'; SELECT 2;";
    let stmts = split_statements(sql).expect("test input is well-formed");
    assert_eq!(stmts.len(), 2);
    assert_eq!(stmts[0], "SELECT 'it''s; not over'");
    assert_eq!(stmts[1], "SELECT 2");
}

#[test]
fn schema_split_handles_backslash_escape_inside_string() {
    let sql = "SELECT 'a\\'b;c'; SELECT 2;";
    let stmts = split_statements(sql).expect("test input is well-formed");
    assert_eq!(stmts.len(), 2);
    assert_eq!(stmts[0], "SELECT 'a\\'b;c'");
    assert_eq!(stmts[1], "SELECT 2");
}

#[test]
fn schema_split_keeps_semicolon_inside_double_quoted_identifier() {
    let sql = "SELECT \"a;b\" FROM t; SELECT 2;";
    let stmts = split_statements(sql).expect("test input is well-formed");
    assert_eq!(stmts.len(), 2);
    assert!(stmts[0].contains("\"a;b\""));
}

#[test]
fn schema_split_keeps_semicolon_inside_backtick_identifier() {
    let sql = "SELECT `a;b` FROM t; SELECT 2;";
    let stmts = split_statements(sql).expect("test input is well-formed");
    assert_eq!(stmts.len(), 2);
    assert!(stmts[0].contains("`a;b`"));
}

#[test]
fn schema_split_strips_block_comment_with_semicolon_inside() {
    let sql = "SELECT 1 /* foo; bar */; SELECT 2;";
    let stmts = split_statements(sql).expect("test input is well-formed");
    assert_eq!(stmts.len(), 2);
    assert_eq!(stmts[1], "SELECT 2");
}

#[test]
fn schema_split_comment_only_input_produces_nothing() {
    let stmts = split_statements("-- just a comment\n/* and a block */")
        .expect("test input is well-formed");
    assert!(stmts.is_empty());
}

#[test]
fn schema_split_handles_trailing_statement_without_semicolon() {
    let stmts = split_statements("SELECT 1; SELECT 2").expect("test input is well-formed");
    assert_eq!(stmts, vec!["SELECT 1", "SELECT 2"]);
}

#[test]
fn schema_split_errors_on_unterminated_string_literal() {
    let err = split_statements("INSERT INTO t VALUES ('oops")
        .expect_err("must error on unterminated string");
    let msg = err.message();
    assert!(
        msg.contains("unterminated") && msg.contains("string"),
        "unexpected error: {msg}"
    );
}

#[test]
fn schema_split_errors_on_unterminated_block_comment() {
    let err = split_statements("SELECT 1 /* never closes")
        .expect_err("must error on unterminated block comment");
    let msg = err.message();
    assert!(
        msg.contains("unterminated") && msg.contains("block comment"),
        "unexpected error: {msg}"
    );
}

#[test]
fn schema_check_status_matches_clickhouse_enum8() {
    let all = [CheckStatus::Up, CheckStatus::Down, CheckStatus::Degraded, CheckStatus::Error];
    let pairs = check_results_enum8();
    assert_eq!(pairs.len(), all.len());
    for s in all {
        assert!(
            pairs
                .iter()
                .any(|(name, val)| name == s.as_str() && *val == s.as_enum8()),
            "CheckStatus::{s:?} ({}={}) is not in the check_results Enum8 {pairs:?}",
            s.as_str(),
            s.as_enum8()
        );
        assert_eq!(CheckStatus::from_enum8(s.as_enum8()), s);
    }
}

#[test]
fn an_unterminated_quote_names_its_quote() {
    assert_eq!(split_statements("SELECT \"x"), Err(SplitError::UnterminatedString('"')));
    assert_eq!(split_statements("SELECT `x"), Err(SplitError::UnterminatedString('`')));
    assert_eq!(split_statements("/* x"), Err(SplitError::UnterminatedBlockComment));
}

#[test]
fn a_script_skips_what_is_applied_and_stops_at_a_broken_file() {
    let all = vec![
        Migration { name: "001_a".to_string(), sql: "SELECT 1; SELECT 2;".to_string() },
        Migration { name: "002_b".to_string(), sql: "SELECT 3".to_string() },
        Migration { name: "003_c".to_string(), sql: "SELECT 'oops".to_string() },
        Migration { name: "004_d".to_string(), sql: "SELECT 4".to_string() },
    ];
    let script = migration_script(&vec!["001_a".to_string()], &all);
    assert_eq!(script.len(), 4);
    assert!(matches!(&script[0], MigrateAction::Execute { migration, statement }
        if migration == "002_b" && statement == "SELECT 3"));
    assert!(matches!(&script[1], MigrateAction::Record { migration } if migration == "002_b"));
    assert!(matches!(&script[2], MigrateAction::Confirm { migration } if migration == "002_b"));
    assert!(matches!(&script[3], MigrateAction::Fail { migration, error }
        if migration == "003_c" && *error == SplitError::UnterminatedString('\'')));
}

#[test]
fn a_whole_script_ends_by_checking_the_rollups() {
    let all = vec![Migration { name: "001_a".to_string(), sql: "SELECT 1; SELECT 2;".to_string() }];
    let script = migration_script(&Vec::new(), &all);
    assert_eq!(script.len(), 5);
    assert!(matches!(&script[1], MigrateAction::Execute { statement, .. } if statement == "SELECT 2"));
    assert!(matches!(script[4], MigrateAction::VerifyRollups));
    let again = migration_script(&vec!["001_a".to_string()], &all);
    assert_eq!(again.len(), 1);
    assert!(matches!(again[0], MigrateAction::VerifyRollups));
}

#[test]
fn a_migration_counts_as_recorded_only_with_a_row() {
    assert!(!confirm_recorded(0));
    assert!(confirm_recorded(1));
    assert!(confirm_recorded(2));
}

#[test]
fn the_rollup_views_are_held_to_their_schema() {
    let minute = expected_rollup_schema();
    let hour = hourly_schema(&minute);
    assert_eq!(verify_rollup_schema(&minute, &hour), Ok(()));
    assert_eq!(minute.len(), hour.len());
    assert!(view_matches(&minute, &minute));
    assert_eq!(verify_rollup_schema(&hour, &hour), Err(RollupDrift::Minute));
    assert_eq!(verify_rollup_schema(&minute, &minute), Err(RollupDrift::Hour));
    let mut short = expected_rollup_schema();
    short.pop();
    assert!(!view_matches(&short, &minute));
    short.push(Column { name: "x".to_string(), ty: "UInt8".to_string() });
    assert!(!view_matches(&short, &minute));
}

#[test]
fn joined_sources_split_into_both() {
    let sources = [
        "",
        "SELECT 1",
        "SELECT 1; SELECT ';' ;",
        "SELECT 1 -- a; b",
        "/* ; */ SELECT `a;b`",
        "SELECT 'it''s' -",
        "-- only a comment",
        "SELECT 2 /",
    ];
    for a in sources {
        for b in sources {
            let mut want = split_statements(a).unwrap();
            want.extend(split_statements(b).unwrap());
            assert_eq!(split_statements(&format!("{a}\n;{b}")).unwrap(), want, "{a:?} {b:?}");
        }
    }
}
