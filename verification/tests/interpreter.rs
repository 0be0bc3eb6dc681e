use pascal_interp::ast::AST;
use pascal_interp::lexer::Token;
use pascal_interp::interpreter::{interpret, EvalError, Scope};
use pascal_interp::lexer::Lexer;
use pascal_interp::parser::Parser;

fn run(source: &str) -> (Result<i32, EvalError>, Scope) {
    let lexer = Lexer::new(source);
    let mut parser = Parser::new(lexer).unwrap();
    let ast = parser.parse().unwrap();
    let mut scope = Scope::new();
    let result = interpret(&ast, &mut scope);
    (result, scope)
}

fn eval_expr(expr: &str) -> i32 {
    let source = format!("BEGIN result := {}; END.", expr);
    let (value, scope) = run(&source);
    let stored = scope.get("result").unwrap();
    let value = value.unwrap();
    assert_eq!(value, stored);
    value
}

#[test]
fn precedence_of_multiplication() {
    assert_eq!(eval_expr("2 + 3 * 4"), 14);
}

#[test]
fn parentheses_override_precedence() {
    assert_eq!(eval_expr("(2 + 3) * 4"), 20);
}

#[test]
fn subtraction_is_left_associative() {
    assert_eq!(eval_expr("10 - 2 - 3"), 5);
}

#[test]
fn division_truncates() {
    assert_eq!(eval_expr("7 / 2"), 3);
    assert_eq!(eval_expr("8 / 2 / 2"), 2);
}

#[test]
fn doubled_unary_minus() {
    assert_eq!(eval_expr("- - 5"), 5);
}

#[test]
fn nested_unary_minus() {
    assert_eq!(eval_expr("-(-(3+2))"), 5);
}

#[test]
fn compound_keeps_bindings_in_order() {
    let (value, scope) = run("BEGIN x := 2; y := x * 10 + 5; END.");
    assert_eq!(scope.get("x"), Some(2));
    assert_eq!(scope.get("y"), Some(25));
    assert_eq!(value.unwrap(), 25);
}

#[test]
fn variables_resolve_case_insensitively() {
    let (value, scope) = run("BEGIN A := 1; b := A + 1; END.");
    assert_eq!(scope.get("a"), Some(1));
    assert_eq!(scope.get("b"), Some(2));
    assert_eq!(value.unwrap(), 2);
}

#[test]
fn undefined_variable_is_a_typed_fault() {
    let (value, scope) = run("BEGIN y := z; END.");
    match value.unwrap_err() {
        EvalError::UndefinedVariable { name } => assert_eq!(name, "z"),
        other => panic!("expected an undefined-variable fault, got {:?}", other),
    }
    assert_eq!(scope.get("y"), None);
}

#[test]
fn division_by_zero_is_a_typed_fault() {
    let (value, _) = run("BEGIN x := 1 / 0; END.");
    assert!(matches!(value.unwrap_err(), EvalError::DivisionByZero));
}

#[test]
fn empty_block_evaluates_to_zero() {
    let (value, _) = run("BEGIN END.");
    assert_eq!(value.unwrap(), 0);
}

#[test]
fn assignment_yields_its_value() {
    let (value, _) = run("BEGIN x := 41 + 1; END.");
    assert_eq!(value.unwrap(), 42);
}

#[test]
fn nested_blocks_share_the_scope() {
    let (value, scope) = run("BEGIN BEGIN a := 1; END; b := a + 1; END.");
    assert_eq!(scope.get("a"), Some(1));
    assert_eq!(scope.get("b"), Some(2));
    assert_eq!(value.unwrap(), 2);
}

#[test]
fn repeated_evaluation_is_deterministic() {
    let lexer = Lexer::new("BEGIN x := 2; y := x * 10 + 5; END.");
    let mut parser = Parser::new(lexer).unwrap();
    let ast = parser.parse().unwrap();
    let mut first = Scope::new();
    let mut second = Scope::new();
    let a = interpret(&ast, &mut first);
    let b = interpret(&ast, &mut second);
    assert_eq!(a.unwrap(), b.unwrap());
    assert_eq!(first.get("x"), second.get("x"));
    assert_eq!(first.get("y"), second.get("y"));
}

#[test]
fn addition_wraps_around() {
    assert_eq!(eval_expr("2147483647 + 1"), i32::MIN);
}

#[test]
fn scope_reassignment_replaces() {
    let mut scope = Scope::new();
    assert_eq!(scope.get("v"), None);
    scope.assign("v", 1);
    assert_eq!(scope.get("v"), Some(1));
    scope.assign("v", -7);
    assert_eq!(scope.get("v"), Some(-7));
    assert_eq!(scope.get("w"), None);
}

#[test]
fn variable_constructor_lower_cases() {
    let tok = Token::Identifier {
        value: String::from("XyZ"),
    };
    let node = AST::variable(&tok, "XyZ");
    match node {
        AST::Variable { value, .. } => assert_eq!(value, "xyz"),
        other => panic!("expected a variable node, got {:?}", other),
    }
}
