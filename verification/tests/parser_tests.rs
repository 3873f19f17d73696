use diatom_frontend::ast::{Const, Expr, Expr_, Stat, Stat_};
use diatom_frontend::lexer::Lexer;
use diatom_frontend::parser::Parser;

fn render(e: &Expr) -> String {
    match &e.val {
        Expr_::Id(s) => format!("{:?}", s),
        Expr_::Const(Const::Nil) => "nil".to_string(),
        Expr_::Const(Const::Bool(b)) => format!("{b}"),
        Expr_::Const(Const::Int(i)) => format!("{i}"),
        Expr_::Const(Const::Float(t)) => t.clone(),
        Expr_::Const(Const::Str(s)) => s.clone(),
        Expr_::Const(Const::List(None)) => "[]".to_string(),
        Expr_::Const(Const::List(Some(inner))) => format!("[{}]", render(inner)),
        Expr_::Prefix(op, rhs) => format!("({:?}, {})", op, render(rhs)),
        Expr_::Infix(op, lhs, rhs) => format!("({}, {:?}, {})", render(lhs), op, render(rhs)),
        Expr_::Postfix(op, lhs, None) => format!("({}, {:?}, None)", render(lhs), op),
        Expr_::Postfix(op, lhs, Some(arg)) => {
            format!("({}, {:?}, {})", render(lhs), op, render(arg))
        }
        Expr_::If(exprs) => {
            let parts: Vec<String> = exprs.iter().map(render).collect();
            format!("if({})", parts.join("; "))
        }
        Expr_::Block(exprs) => {
            let parts: Vec<String> = exprs.iter().map(render).collect();
            format!("{{{}}}", parts.join("; "))
        }
        Expr_::Def(name, decl, body) => format!(
            "def({:?}, {}, {})",
            name,
            match decl {
                Some(d) => render(d),
                None => "None".to_string(),
            },
            render(body)
        ),
        Expr_::Error => "Error".to_string(),
    }
}

fn test_str(code: &str, should_fail: bool) {
    let mut parser = Parser::new();
    parser.parse_str("test.dm", code);
    if !should_fail && parser.diagnostic_count() > 0 {
        println!("{}", parser.render_diagnoses());
    }
    if should_fail {
        assert!(parser.diagnostic_count() > 0);
    } else {
        assert!(parser.diagnostic_count() == 0);
    }
}

#[test]
fn test_expr() {
    let code = "a,b, nil = not 32 * 15$()+8.9e13//(12+\"asdf\") or false and -23";
    let lexer = Lexer::new(code.to_string(), "test.dm".to_string());
    let mut parser = Parser::new();
    let mut iter = lexer.iter();
    let expr = parser.consume_expr(&mut iter, 0, None);
    let result = "(((\"a\", Comma, \"b\"), Comma, nil), Assign, ((((Not, 32), Mul, (15, Call, None)), Plus, (8.9e13, DivFloor, (12, Plus, asdf))), Or, (false, And, (Neg, 23))))";
    assert_eq!(render(&expr), result);
}

#[test]
fn test_expr_postfix_ambiguous() {
    let code = "0,a $ (1,2,3) (3,4)$[2-1]+0.333//[0,1,2]$[1][a,v,b]";
    let mut parser = Parser::new();
    parser.parse_str("test.dm", code);
    let stats = parser.get_incremental();
    assert_eq!(stats.len(), 3);
}

#[test]
fn test_valid() {
    test_str("a$()", false);
    test_str("[]", false);
    test_str("", false);
}

#[test]
fn test_invalid() {
    test_str(">> <<", true);
    test_str("a$[]", true);
    test_str("[1,2,]", true);
}

#[test]
fn test_if() {
    test_str(
        "if a then b elsif c then 0.92 a = 0 b$[0,1,2] else end",
        false,
    );
    test_str("if a then else nil end", false);
    test_str("if a then else end", false);
    test_str("if a else end", true);
    test_str("if a elsif b else end", true);
}

#[test]
fn test_def() {
    test_str("def a a+1", true);
    test_str("def a() a+1", false);
    test_str("def a(a) a+1", false);
    test_str("def () 1", false);
    test_str("def (a, b, c) a+b+1", false);
}

// `if a then b elsif c then d else end` is one `If` node holding two
// condition/block pairs plus a trailing empty else-block, with no
// diagnostics.
#[test]
fn test_if_structure() {
    let mut parser = Parser::new();
    parser.parse_str("test.dm", "if a then b elsif c then d else end");
    assert_eq!(parser.diagnostic_count(), 0);
    let stats = parser.get_incremental();
    assert_eq!(stats.len(), 1);
    match &stats[0] {
        Stat {
            val: Stat_::Expr(e),
            ..
        } => match &e.val {
            Expr_::If(parts) => {
                assert_eq!(parts.len(), 5);
                assert!(matches!(parts[0].val, Expr_::Id(_)));
                assert!(matches!(&parts[1].val, Expr_::Block(b) if b.len() == 1));
                assert!(matches!(parts[2].val, Expr_::Id(_)));
                assert!(matches!(&parts[3].val, Expr_::Block(b) if b.len() == 1));
                assert!(matches!(&parts[4].val, Expr_::Block(b) if b.is_empty()));
            }
            other => panic!("expected an If node, got {:?}", other),
        },
    }
}

// Parsing an empty source string succeeds with zero statements and zero
// diagnostics.
#[test]
fn test_empty_source() {
    let mut parser = Parser::new();
    parser.parse_str("empty.dm", "");
    assert_eq!(parser.diagnostic_count(), 0);
    let stats = parser.get_incremental();
    assert_eq!(stats.len(), 0);
}

// The comma binds tighter than assignment: `a, b = c` groups as
// `(a, b) = c`.
#[test]
fn test_comma_groups_before_assign() {
    let code = "a, b = c";
    let lexer = Lexer::new(code.to_string(), "test.dm".to_string());
    let mut parser = Parser::new();
    let mut iter = lexer.iter();
    let expr = parser.consume_expr(&mut iter, 0, None);
    assert_eq!(render(&expr), "((\"a\", Comma, \"b\"), Assign, \"c\")");
}

// Statements accumulate across chunks and each retrieval hands out only
// what the previous one did not.
#[test]
fn test_incremental_retrieval() {
    let mut parser = Parser::new();
    parser.parse_str("a.dm", "1 + 2");
    let first = parser.get_incremental().len();
    assert_eq!(first, 1);
    parser.parse_str("b.dm", "3 4");
    let second = parser.get_incremental().len();
    assert_eq!(second, 2);
    assert_eq!(parser.get_incremental().len(), 0);
}

// A lone literal parses to exactly its constant node.
#[test]
fn test_single_literal_statements() {
    for (src, want) in [
        ("42", Expr_::Const(Const::Int(42))),
        ("nil", Expr_::Const(Const::Nil)),
        ("true", Expr_::Const(Const::Bool(true))),
        ("false", Expr_::Const(Const::Bool(false))),
    ] {
        let mut parser = Parser::new();
        parser.parse_str("t.dm", src);
        assert_eq!(parser.diagnostic_count(), 0);
        let stats = parser.get_incremental();
        assert_eq!(stats.len(), 1);
        match &stats[0].val {
            Stat_::Expr(e) => assert_eq!(e.val, want, "source {src}"),
        }
    }
}
