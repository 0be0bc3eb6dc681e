use pascal_interp::ast::AST;
use pascal_interp::lexer::{Lexer, Token};
use pascal_interp::parser::{ParseError, Parser};

fn parse(source: &str) -> Result<AST, ParseError> {
    let lexer = Lexer::new(source);
    let mut parser = Parser::new(lexer)?;
    parser.parse()
}

#[test]
fn test_sample_program() {
    let lexer = Lexer::new(
        "
        BEGIN
            BEGIN
                number := 2;
                a := nunber;
                b := 10 * a + 10 * number / 4;
                c := a - - b;
            END;
            x := 11;
        END.
        ",
    );
    let mut parser = Parser::new(lexer).unwrap();
    let result = parser.parse();
    assert!(result.is_ok(), "parser should succeed {:?}", result)
}

#[test]
fn empty_block_parses() {
    assert!(parse("BEGIN END.").is_ok());
}

#[test]
fn statement_separators_are_skipped() {
    assert!(parse("BEGIN ;; x := 1 ;; END.").is_ok());
}

#[test]
fn missing_expression_is_a_syntax_error() {
    let err = parse("BEGIN x := ; END.").unwrap_err();
    assert!(
        matches!(
            err,
            ParseError::ExpectedIdentifier {
                found: Token::EndStatement
            }
        ),
        "unexpected error {:?}",
        err
    );
}

#[test]
fn missing_dot_is_a_syntax_error() {
    let err = parse("BEGIN x := 1 END").unwrap_err();
    assert!(
        matches!(
            err,
            ParseError::Mismatch {
                expected: Token::Dot,
                found: Token::Eof
            }
        ),
        "unexpected error {:?}",
        err
    );
}

#[test]
fn statement_must_start_with_begin_or_identifier() {
    let err = parse("BEGIN 1 := 2; END.").unwrap_err();
    assert!(
        matches!(err, ParseError::ExpectedStatement { .. }),
        "unexpected error {:?}",
        err
    );
}

#[test]
fn unclosed_parenthesis_is_a_syntax_error() {
    let err = parse("BEGIN x := (1 + 2; END.").unwrap_err();
    assert!(
        matches!(
            err,
            ParseError::Mismatch {
                expected: Token::CloseParen,
                found: Token::EndStatement
            }
        ),
        "unexpected error {:?}",
        err
    );
}

#[test]
fn invalid_character_stops_the_parse() {
    let err = parse("BEGIN x := 1 ? 2; END.").unwrap_err();
    assert!(
        matches!(err, ParseError::InvalidCharacter { character: '?' }),
        "unexpected error {:?}",
        err
    );
}

#[test]
fn trailing_input_after_dot_is_rejected() {
    assert!(parse("BEGIN x := 1; END. BEGIN END.").is_err());
}

#[test]
fn variable_name_is_lower_cased_in_the_tree() {
    let ast = parse("BEGIN FooBar := 1; END.").unwrap();
    match ast {
        AST::Compound { children } => {
            assert_eq!(children.len(), 1);
            match &children[0] {
                AST::Assign { left, .. } => assert_eq!(left, "foobar"),
                other => panic!("expected an assignment, got {:?}", other),
            }
        }
        other => panic!("expected a compound, got {:?}", other),
    }
}
