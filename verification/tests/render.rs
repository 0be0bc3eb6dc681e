use pascal_interp::ast::AST;
use pascal_interp::lexer::Token;
use pascal_interp::render::{decimal_string, to_postfix, to_s_expr, token_to_text};

fn num(n: u32) -> AST {
    AST::number(&Token::IntegerLiteral { value: n }, n)
}

#[test]
fn postfix_of_sum_with_product() {
    // 2 + 3 * 4
    let tree = AST::binary_op(
        num(2),
        &Token::Plus,
        AST::binary_op(num(3), &Token::Multiply, num(4)),
    );
    assert_eq!(to_postfix(&tree), "2 3 4 * +");
}

#[test]
fn s_expr_of_sum_with_product() {
    let tree = AST::binary_op(
        num(2),
        &Token::Plus,
        AST::binary_op(num(3), &Token::Multiply, num(4)),
    );
    assert_eq!(to_s_expr(&tree), "(+ 2 (* 3 4))");
}

#[test]
fn negation_renders_as_neg() {
    let tree = AST::unary_op(&Token::Minus, num(5));
    assert_eq!(to_postfix(&tree), "5 neg");
    assert_eq!(to_s_expr(&tree), "(neg 5)");
}

#[test]
fn unary_plus_is_invisible() {
    let tree = AST::unary_op(&Token::Plus, num(9));
    assert_eq!(to_postfix(&tree), "9");
    assert_eq!(to_s_expr(&tree), "9");
}

#[test]
fn division_renders_with_slash() {
    let tree = AST::binary_op(num(8), &Token::RealDivide, num(2));
    assert_eq!(to_postfix(&tree), "8 2 /");
    assert_eq!(to_s_expr(&tree), "(/ 8 2)");
}

#[test]
fn decimal_spelling() {
    assert_eq!(decimal_string(0), "0");
    assert_eq!(decimal_string(7), "7");
    assert_eq!(decimal_string(123), "123");
    assert_eq!(decimal_string(4294967295), "4294967295");
}

#[test]
fn token_source_text() {
    assert_eq!(token_to_text(&Token::Assign), ":=");
    assert_eq!(token_to_text(&Token::Begin), "BEGIN");
    assert_eq!(token_to_text(&Token::IntegerLiteral { value: 42 }), "42");
    assert_eq!(
        token_to_text(&Token::Identifier {
            value: String::from("foo")
        }),
        "foo"
    );
    assert_eq!(token_to_text(&Token::Eof), "");
}
