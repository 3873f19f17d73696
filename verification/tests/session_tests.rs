use diatom_frontend::parser::Parser;
use diatom_frontend::pool::StringPool;

// Re-rendering the diagnostic log twice without re-parsing yields identical
// text, and clearing then re-parsing identical input reproduces identical
// diagnostics.
#[test]
fn test_diagnostics_idempotent() {
    let mut parser = Parser::new();
    parser.parse_str("t.dm", "[1,2,] 0xzz 'open");
    assert!(parser.diagnostic_count() > 0);
    let first = parser.render_diagnoses();
    let again = parser.render_diagnoses();
    assert_eq!(first, again);
    let count = parser.diagnostic_count();

    parser.clear_diagnoses();
    assert_eq!(parser.diagnostic_count(), 0);
    assert_eq!(parser.render_diagnoses(), "");

    parser.parse_str("t.dm", "[1,2,] 0xzz 'open");
    assert_eq!(parser.diagnostic_count(), count);
    assert_eq!(parser.render_diagnoses(), first);
}

// Re-parsing the same path replaces its lexer, so its lexical diagnostics
// are not counted twice; a different path adds its own.
#[test]
fn test_reparse_replaces_lexer() {
    let mut parser = Parser::new();
    parser.parse_str("same.dm", "123y");
    assert_eq!(parser.diagnostic_count(), 1);
    parser.parse_str("same.dm", "123y");
    assert_eq!(parser.diagnostic_count(), 1);
    parser.clear_diagnoses();
    parser.parse_str("same.dm", "123y");
    assert_eq!(parser.diagnostic_count(), 1);
    parser.parse_str("other.dm", "123y");
    assert_eq!(parser.diagnostic_count(), 2);
}

// `input_can_continue` is true exactly when every recorded error is of
// end-of-input type: an interactive caller may prompt for more input.
#[test]
fn test_input_can_continue() {
    let mut parser = Parser::new();
    parser.parse_str("r.dm", "1 +");
    assert!(parser.diagnostic_count() > 0);
    assert!(parser.input_can_continue());

    let mut parser = Parser::new();
    parser.parse_str("r.dm", "'open");
    assert!(parser.diagnostic_count() > 0);
    assert!(parser.input_can_continue());

    let mut parser = Parser::new();
    parser.parse_str("r.dm", "[1,2,]");
    assert!(parser.diagnostic_count() > 0);
    assert!(!parser.input_can_continue());

    let mut parser = Parser::new();
    parser.parse_str("r.dm", "1 + 2");
    assert!(!parser.input_can_continue());
}

// A missing file is reported as a diagnostic, not as a parse error.
#[test]
fn test_no_such_file_report() {
    let mut parser = Parser::new();
    parser.report_no_such_file("/nowhere/x.dm");
    assert_eq!(parser.diagnostic_count(), 1);
    assert!(parser.render_diagnoses().contains("no such file: /nowhere/x.dm"));
    assert!(!parser.input_can_continue());
}

#[test]
fn test_render_summary() {
    let mut parser = Parser::new();
    parser.parse_str("t.dm", "[1,2,]");
    let summary = parser.render_diagnoses_summary();
    assert_eq!(
        summary,
        "Summary: 1 errors and 0 warnings are generated while parsing."
    );
}

// The string pool hands back what was allocated, frees make slots
// unreadable, and the highest freed slot is reused first.
#[test]
fn test_string_pool() {
    let mut pool = StringPool::new();
    let a = pool.allocate("alpha".to_string());
    let b = pool.allocate("beta".to_string());
    let c = pool.allocate("gamma".to_string());
    assert_eq!(pool.get(a), Some("alpha"));
    assert_eq!(pool.get(b), Some("beta"));
    assert_eq!(pool.get(c), Some("gamma"));
    assert_eq!(pool.get(c + 1), None);

    pool._free(b);
    assert_eq!(pool.get(b), None);
    assert_eq!(pool.get(a), Some("alpha"));

    pool._free(a);
    let d = pool.allocate("delta".to_string());
    assert_eq!(d, b);
    assert_eq!(pool.get(d), Some("delta"));
    let e = pool.allocate("epsilon".to_string());
    assert_eq!(e, a);
    let f = pool.allocate("zeta".to_string());
    assert_eq!(f, c + 1);
}
