//! The rollback validator: scripts must split into one or more complete
//! statements, with no comment spanning a statement boundary.

use schema_migrations::rollback::validate_rollback_script;

#[test]
fn single_terminated_statement_is_valid() {
    assert!(validate_rollback_script("DROP TABLE t;"));
}

#[test]
fn single_unterminated_statement_is_valid() {
    assert!(validate_rollback_script("DROP TABLE t"));
}

#[test]
fn several_statements_are_valid() {
    assert!(validate_rollback_script(
        "ALTER TABLE t DROP COLUMN foo;\nDROP TABLE u;\nDROP TABLE v;\n"
    ));
}

#[test]
fn trailing_whitespace_after_last_delimiter_is_valid() {
    assert!(validate_rollback_script("DROP TABLE t;   \n\t "));
}

#[test]
fn empty_script_is_invalid() {
    assert!(!validate_rollback_script(""));
}

#[test]
fn whitespace_only_script_is_invalid() {
    assert!(!validate_rollback_script("  \n\t  "));
}

#[test]
fn bare_delimiter_is_invalid() {
    assert!(!validate_rollback_script(";"));
}

#[test]
fn empty_statement_between_delimiters_is_invalid() {
    assert!(!validate_rollback_script("DROP TABLE t;;DROP TABLE u;"));
}

#[test]
fn delimiter_inside_comment_is_invalid() {
    // The splitter would cut the comment in two and hand the store half a
    // comment as the start of the next statement.
    assert!(!validate_rollback_script("DROP TABLE t -- drops t; then u\nDROP TABLE u;"));
}

#[test]
fn comment_closed_by_newline_before_delimiter_is_valid() {
    assert!(validate_rollback_script("DROP TABLE t -- obsolete since v2\n;"));
}

#[test]
fn comment_only_trailing_chunk_is_invalid() {
    // After the split, " -- cleanup" alone would be executed as a query.
    assert!(!validate_rollback_script("DROP TABLE t; -- cleanup\n"));
}

#[test]
fn comment_only_script_is_invalid() {
    assert!(!validate_rollback_script("-- nothing to do\n"));
}

#[test]
fn comment_inside_statement_text_is_valid() {
    assert!(validate_rollback_script("DROP TABLE t -- old events\n  CASCADE;DROP TABLE u;"));
}

#[test]
fn non_ascii_statement_text_is_valid() {
    assert!(validate_rollback_script("DROP TABLE tëst_événements;"));
}

#[test]
fn dash_pair_opens_comment_but_single_dash_does_not() {
    // A lone dash is ordinary statement text.
    assert!(validate_rollback_script("UPDATE t SET x = 1 - 2;"));
    // A dash pair hides everything up to the newline, including a delimiter.
    assert!(!validate_rollback_script("UPDATE t SET x = 1 --2;"));
}
