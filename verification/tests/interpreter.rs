//! End-to-end tests: source text through the lexer, parser and evaluator.

use scriptlet::evaluator::{EvalError, Evaluator};
use scriptlet::lexer::tokenize;
use scriptlet::parser::Parser;

fn run(source: &str) -> (Vec<String>, Option<EvalError>) {
    let tokens = tokenize(source);
    let mut parser = Parser::new(tokens);
    let program = match parser.parse() {
        Ok(p) => p,
        Err(e) => panic!("unexpected parse error: {:?}", e),
    };
    let mut evaluator = Evaluator::new();
    evaluator.evaluate(program)
}

fn run_lines(source: &str) -> Vec<String> {
    let (lines, err) = run(source);
    assert!(err.is_none(), "unexpected evaluation error: {:?}", err);
    lines
}

#[test]
fn greet_two_calls() {
    let lines = run_lines(
        "init greet(name):\n    log(`Hello, ${name}`)\n\ngreet(\"Joe\")\ngreet(\"Ada\")",
    );
    assert_eq!(lines, vec!["Hello, Joe".to_string(), "Hello, Ada".to_string()]);
}

#[test]
fn bare_log_outputs_line() {
    assert_eq!(run_lines("log(\"hi\")"), vec!["hi".to_string()]);
}

#[test]
fn unbound_placeholder_is_empty() {
    assert_eq!(run_lines("log(`Value: ${missing}`)"), vec!["Value: ".to_string()]);
}

#[test]
fn block_comment_is_skipped() {
    assert_eq!(run_lines("<* anything *> log(\"x\")"), vec!["x".to_string()]);
}

#[test]
fn unbound_variable_reads_as_sentinel() {
    assert_eq!(run_lines("log(x)"), vec!["<undefined x>".to_string()]);
}

#[test]
fn unbound_callee_is_fatal() {
    let (lines, err) = run("f()");
    assert!(lines.is_empty());
    assert!(matches!(err, Some(EvalError::UnboundCallee(n)) if n == "f"));
}

#[test]
fn calling_a_string_parameter_is_fatal() {
    let (lines, err) = run("init f(g):\n    log(g())\n\nf(\"s\")");
    assert!(lines.is_empty());
    assert!(matches!(err, Some(EvalError::NotCallable(n)) if n == "g"));
}

#[test]
fn self_application_hits_depth_limit() {
    let (_, err) = run("init f(x):\n    log(x(x))\n\nf(f)");
    assert!(matches!(err, Some(EvalError::CallDepthExceeded)));
}

#[test]
fn output_before_error_is_kept() {
    let (lines, err) = run("log(\"first\")\nf()");
    assert_eq!(lines, vec!["first".to_string()]);
    assert!(matches!(err, Some(EvalError::UnboundCallee(_))));
}

#[test]
fn parameter_not_visible_after_call() {
    let lines = run_lines("init f(a):\n    log(a)\n\nf(\"v\")\nlog(a)");
    assert_eq!(lines, vec!["v".to_string(), "<undefined a>".to_string()]);
}

#[test]
fn call_result_is_null() {
    let lines = run_lines("init f(): log(\"inner\")\nlog(f())");
    assert_eq!(lines, vec!["inner".to_string(), "null".to_string()]);
}

#[test]
fn function_value_prints_opaquely() {
    let lines = run_lines("init f(): log(\"ignored\")\nlog(f)");
    assert_eq!(lines, vec!["<function>".to_string()]);
}

#[test]
fn extra_arguments_are_evaluated_then_discarded() {
    let lines = run_lines("init f(a):\n    log(a)\n\nf(\"x\", \"y\")");
    assert_eq!(lines, vec!["x".to_string()]);
    let (lines2, err) = run("init f(a):\n    log(a)\n\nf(\"x\", g())");
    assert!(lines2.is_empty());
    assert!(matches!(err, Some(EvalError::UnboundCallee(n)) if n == "g"));
}

#[test]
fn missing_argument_leaves_parameter_unbound() {
    let lines = run_lines("init f(a, b):\n    log(`${a}|${b}`)\n\nf(\"x\")");
    assert_eq!(lines, vec!["x|".to_string()]);
}

#[test]
fn later_declaration_wins() {
    let lines = run_lines(
        "init f(): log(\"one\")\ninit f(): log(\"two\")\nf()",
    );
    assert_eq!(lines, vec!["two".to_string()]);
}

#[test]
fn isolated_dollar_is_copied_verbatim() {
    let lines = run_lines("log(`a$b ${`)");
    assert_eq!(lines, vec!["a$b ".to_string()]);
}

#[test]
fn template_placeholder_sees_current_frame() {
    let lines = run_lines("init f(): log(\"x\")\nlog(`${f}`)");
    assert_eq!(lines, vec!["<function>".to_string()]);
}
