//! Unit tests for the lexer and the parser.

use scriptlet::ast::{Expr, Stmt};
use scriptlet::evaluator::Evaluator;
use scriptlet::lexer::{tokenize, Lexer};
use scriptlet::parser::Parser;
use scriptlet::tokens::TokenKind;

#[test]
fn eof_is_idempotent() {
    let mut lexer = Lexer::new("x");
    let first = lexer.next_token();
    assert!(matches!(first.kind, TokenKind::Identifier(n) if n == "x"));
    assert!(matches!(lexer.next_token().kind, TokenKind::EOF));
    assert!(matches!(lexer.next_token().kind, TokenKind::EOF));
    assert!(matches!(lexer.next_token().kind, TokenKind::EOF));
}

#[test]
fn keywords_are_exact_matches() {
    let tokens = tokenize("while whilex true null undefined");
    assert!(matches!(tokens[0].kind, TokenKind::While));
    assert!(matches!(&tokens[1].kind, TokenKind::Identifier(n) if n == "whilex"));
    assert!(matches!(tokens[2].kind, TokenKind::BooleanLiteral(true)));
    assert!(matches!(tokens[3].kind, TokenKind::Null));
    assert!(matches!(tokens[4].kind, TokenKind::Undefined));
}

#[test]
fn two_character_symbols() {
    let tokens = tokenize("-> == != >= <= - = > <");
    assert!(matches!(tokens[0].kind, TokenKind::Arrow));
    assert!(matches!(tokens[1].kind, TokenKind::DoubleEqual));
    assert!(matches!(tokens[2].kind, TokenKind::NotEqual));
    assert!(matches!(tokens[3].kind, TokenKind::GreaterEqual));
    assert!(matches!(tokens[4].kind, TokenKind::LessEqual));
    assert!(matches!(tokens[5].kind, TokenKind::Minus));
    assert!(matches!(tokens[6].kind, TokenKind::Equal));
    assert!(matches!(tokens[7].kind, TokenKind::Greater));
    assert!(matches!(tokens[8].kind, TokenKind::Less));
}

#[test]
fn bare_bang_also_lexes_to_not_equal() {
    let tokens = tokenize("!x");
    assert!(matches!(tokens[0].kind, TokenKind::NotEqual));
    assert!(matches!(&tokens[1].kind, TokenKind::Identifier(n) if n == "x"));
}

#[test]
fn number_with_fraction() {
    let tokens = tokenize("12.5 7 3.");
    assert!(matches!(&tokens[0].kind, TokenKind::NumberLiteral(n) if n == "12.5"));
    assert!(matches!(&tokens[1].kind, TokenKind::NumberLiteral(n) if n == "7"));
    assert!(matches!(&tokens[2].kind, TokenKind::NumberLiteral(n) if n == "3."));
}

#[test]
fn string_escapes_resolve() {
    let tokens = tokenize("\"a\\nb\\tc\\\\d\\q\"");
    assert!(matches!(&tokens[0].kind, TokenKind::StringLiteral(s) if s == "a\nb\tc\\dq"));
}

#[test]
fn either_quote_closes_a_string() {
    let tokens = tokenize("\"ab'x");
    assert!(matches!(&tokens[0].kind, TokenKind::StringLiteral(s) if s == "ab"));
    assert!(matches!(&tokens[1].kind, TokenKind::Identifier(n) if n == "x"));
}

#[test]
fn unterminated_string_degrades_to_eof() {
    let tokens = tokenize("\"abc");
    assert!(matches!(tokens[0].kind, TokenKind::EOF));
    assert_eq!(tokens.len(), 1);
    assert_eq!(tokens[0].line, 1);
    assert_eq!(tokens[0].column, 1);
}

#[test]
fn unknown_character_is_tolerated() {
    let tokens = tokenize("@");
    assert!(matches!(tokens[0].kind, TokenKind::Unknown('@')));
}

#[test]
fn newline_advances_line_and_resets_column() {
    let tokens = tokenize("a\n  b");
    assert_eq!((tokens[0].line, tokens[0].column), (1, 1));
    assert_eq!((tokens[1].line, tokens[1].column), (2, 3));
}

#[test]
fn comment_affects_only_column_bookkeeping() {
    let tokens = tokenize("<* c *>log(\"x\")");
    assert!(matches!(tokens[0].kind, TokenKind::Log));
    assert_eq!((tokens[0].line, tokens[0].column), (1, 8));
    let plain = tokenize("log(\"x\")");
    let kinds: Vec<String> = tokens.iter().map(|t| format!("{:?}", t.kind)).collect();
    let plain_kinds: Vec<String> = plain.iter().map(|t| format!("{:?}", t.kind)).collect();
    assert_eq!(kinds, plain_kinds);
}

#[test]
fn unterminated_comment_consumes_everything() {
    let tokens = tokenize("<* never closed log(\"x\")");
    assert!(matches!(tokens[0].kind, TokenKind::EOF));
}

#[test]
fn template_keeps_raw_placeholders() {
    let tokens = tokenize("`a ${x} b`");
    assert!(matches!(&tokens[0].kind, TokenKind::TemplateString(s) if s == "a ${x} b"));
}

#[test]
fn parse_is_deterministic() {
    let source = "init f(a, b):\n    log(`${a}${b}`)\n\nf(\"1\", \"2\")";
    let mut p1 = Parser::new(tokenize(source));
    let mut p2 = Parser::new(tokenize(source));
    let a1 = p1.parse().expect("first parse");
    let a2 = p2.parse().expect("second parse");
    assert_eq!(format!("{:?}", a1), format!("{:?}", a2));
}

#[test]
fn trailing_commas_are_tolerated() {
    let source = "init f(a, b,):\n    log(a)\n\nf(\"x\", \"y\",)";
    let mut parser = Parser::new(tokenize(source));
    assert!(parser.parse().is_ok());
}

#[test]
fn parse_error_carries_offending_token() {
    let mut parser = Parser::new(tokenize("42"));
    let err = parser.parse().expect_err("a number is no statement");
    assert!(matches!(&err.found, TokenKind::NumberLiteral(n) if n == "42"));
    assert_eq!((err.line, err.column), (1, 1));
}

#[test]
fn unclosed_call_is_rejected() {
    let mut parser = Parser::new(tokenize("log(\"x\""));
    let err = parser.parse().expect_err("missing right parenthesis");
    assert!(matches!(err.found, TokenKind::EOF));
}

#[test]
fn reserved_keyword_has_no_statement_rule() {
    let mut parser = Parser::new(tokenize("if"));
    let err = parser.parse().expect_err("if has no parse rule yet");
    assert!(matches!(err.found, TokenKind::If));
}

#[test]
fn init_body_takes_at_most_one_log() {
    let source = "init f():\n    log(\"a\")\n    log(\"b\")\nf()";
    let tokens = tokenize(source);
    let mut parser = Parser::new(tokens);
    let program = parser.parse().expect("second log is a top-level statement");
    assert_eq!(program.len(), 3);
    let mut evaluator = Evaluator::new();
    let (lines, err) = evaluator.evaluate(program);
    assert!(err.is_none());
    assert_eq!(lines, vec!["b".to_string(), "a".to_string()]);
}

#[test]
fn nested_init_stays_in_the_callee_frame() {
    // the grammar cannot write a nested declaration, but the tree can
    let program = vec![
        Stmt::Init {
            name: "f".to_string(),
            params: vec![],
            body: vec![Stmt::Init {
                name: "g".to_string(),
                params: vec![],
                body: vec![Stmt::Log { value: Expr::Literal("inner".to_string()) }],
            }],
        },
        Stmt::ExprStmt(Expr::Call { callee: "f".to_string(), arguments: vec![] }),
        Stmt::ExprStmt(Expr::Call { callee: "g".to_string(), arguments: vec![] }),
    ];
    let mut evaluator = Evaluator::new();
    let (lines, err) = evaluator.evaluate(program);
    assert!(lines.is_empty());
    assert!(matches!(err, Some(scriptlet::evaluator::EvalError::UnboundCallee(n)) if n == "g"));
}
