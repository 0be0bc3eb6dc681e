use pascal_interp::lexer::{Lexer, Token};

fn read(s: &str) -> Token {
    let mut lex = Lexer::new(s);
    lex.next_token().unwrap()
}

#[test]
fn dot() {
    assert_eq!(read("."), Token::Dot);
}

#[test]
fn keywords() {
    let table: Vec<(&str, Token)> = vec![
        ("PROGRAM", Token::Program),
        ("VAR", Token::Var),
        ("BEGIN", Token::Begin),
        ("END", Token::End),
        ("INTEGER", Token::Integer),
        ("REAL", Token::Real),
        ("DIV", Token::IntegerDivide),
    ];
    for (string, token) in table {
        assert_eq!(read(string), token.clone());
        assert_eq!(read(&string.to_lowercase()), token.clone());
    }
}

#[test]
fn identifier() {
    assert_eq!(
        read("foo"),
        Token::Identifier {
            value: String::from("foo")
        }
    );
}

#[test]
fn alphanumeric_identifier() {
    assert_eq!(
        read("foo42bar"),
        Token::Identifier {
            value: String::from("foo42bar")
        }
    );
}

#[test]
fn integer() {
    assert_eq!(read("123"), Token::IntegerLiteral { value: 123 });
}

#[test]
fn real_literal() {
    assert_eq!(
        read("123.456"),
        Token::RealLiteral {
            value: String::from("123.456")
        }
    );
}

#[test]
fn assign() {
    assert_eq!(read(":="), Token::Assign);
}

#[test]
fn colon() {
    assert_eq!(read(": foo"), Token::Colon);
}

#[test]
fn mixed_case_keyword() {
    assert_eq!(read("BeGiN"), Token::Begin);
    assert_eq!(read("eNd"), Token::End);
    assert_eq!(read("dIv"), Token::IntegerDivide);
}

#[test]
fn zero_literal() {
    assert_eq!(read("0"), Token::IntegerLiteral { value: 0 });
}

#[test]
fn whitespace_is_skipped() {
    assert_eq!(read("   \t\n  42"), Token::IntegerLiteral { value: 42 });
}

#[test]
fn comment_is_skipped() {
    assert_eq!(read("{ a comment } ."), Token::Dot);
    assert_eq!(read("{ one }{ two }+"), Token::Plus);
}

#[test]
fn unterminated_comment_reaches_end() {
    assert_eq!(read("{ never closed"), Token::Eof);
}

#[test]
fn end_of_input_repeats() {
    let mut lex = Lexer::new(" ");
    assert_eq!(lex.next_token().unwrap(), Token::Eof);
    assert_eq!(lex.next_token().unwrap(), Token::Eof);
}

#[test]
fn invalid_character_is_reported() {
    let mut lex = Lexer::new("  ?");
    let err = lex.next_token().unwrap_err();
    assert_eq!(err.character, '?');
}

#[test]
fn token_sequence_of_assignment() {
    let mut lex = Lexer::new("x := 1 + 2;");
    assert_eq!(
        lex.next_token().unwrap(),
        Token::Identifier {
            value: String::from("x")
        }
    );
    assert_eq!(lex.next_token().unwrap(), Token::Assign);
    assert_eq!(lex.next_token().unwrap(), Token::IntegerLiteral { value: 1 });
    assert_eq!(lex.next_token().unwrap(), Token::Plus);
    assert_eq!(lex.next_token().unwrap(), Token::IntegerLiteral { value: 2 });
    assert_eq!(lex.next_token().unwrap(), Token::EndStatement);
    assert_eq!(lex.next_token().unwrap(), Token::Eof);
}

#[test]
fn large_literal_wraps_around() {
    // 2^32 + 7 accumulated with wrap-around
    assert_eq!(read("4294967303"), Token::IntegerLiteral { value: 7 });
}
