//! Pure tree-to-text renderers: postfix and s-expression forms for
//! expression trees, and the source text of a token.

use vstd::prelude::*;

use crate::ast::{ast_view, AST, AstView, BinaryOp, UnaryOp};
use crate::lexer::{Token, TokenView};
use vstd::string::StringExecFns;

verus! {

/// The character for one decimal digit.
pub open spec fn digit_char_of(d: nat) -> char {
    if d == 0 {
        '0'
    } else if d == 1 {
        '1'
    } else if d == 2 {
        '2'
    } else if d == 3 {
        '3'
    } else if d == 4 {
        '4'
    } else if d == 5 {
        '5'
    } else if d == 6 {
        '6'
    } else if d == 7 {
        '7'
    } else if d == 8 {
        '8'
    } else {
        '9'
    }
}

/// The decimal spelling of a number, most significant digit first.
pub open spec fn dec_str(n: nat) -> Seq<char>
    decreases n,
{
    if n < 10 {
        seq![digit_char_of(n)]
    } else {
        dec_str(n / 10).push(digit_char_of(n % 10))
    }
}

fn digit_str(d: u32) -> (s: String)
    requires
        d < 10,
    ensures
        s@ == seq![digit_char_of(d as nat)],
{
    let s = match d {
        0u32 => "0",
        1u32 => "1",
        2u32 => "2",
        3u32 => "3",
        4u32 => "4",
        5u32 => "5",
        6u32 => "6",
        7u32 => "7",
        8u32 => "8",
        _ => "9",
    };
    proof {
        reveal_strlit("0");
        reveal_strlit("1");
        reveal_strlit("2");
        reveal_strlit("3");
        reveal_strlit("4");
        reveal_strlit("5");
        reveal_strlit("6");
        reveal_strlit("7");
        reveal_strlit("8");
        reveal_strlit("9");
        assert(s@ =~= seq![digit_char_of(d as nat)]);
    }
    s.to_owned()
}

/// The decimal spelling of a 32-bit number.
pub fn decimal_string(n: u32) -> (s: String)
    ensures
        s@ == dec_str(n as nat),
    decreases n,
{
    if n < 10 {
        digit_str(n)
    } else {
        let mut s = decimal_string(n / 10);
        let d = digit_str(n % 10);
        s.append(d.as_str());
        proof {
            assert(s@ =~= dec_str((n / 10) as nat).push(digit_char_of((n % 10) as nat)));
        }
        s
    }
}

/// Whether a tree is a pure expression: numbers, unary and binary nodes
/// only.  Only such trees have a postfix or s-expression form.
pub open spec fn is_expr_tree(a: AstView) -> bool
    decreases a,
{
    match a {
        AstView::Number { .. } => true,
        AstView::UnaryOp { token: _, op: _, expr } => is_expr_tree(*expr),
        AstView::BinaryOp { token: _, lhs, op: _, rhs } => is_expr_tree(*lhs) && is_expr_tree(
            *rhs,
        ),
        _ => false,
    }
}

/// The source spelling of a binary operator.
pub open spec fn binary_op_text(op: BinaryOp) -> Seq<char> {
    match op {
        BinaryOp::Plus => "+"@,
        BinaryOp::Minus => "-"@,
        BinaryOp::Multiply => "*"@,
        BinaryOp::Divide => "/"@,
    }
}

/// The postfix form: operands before their operator, `neg` for unary
/// minus, unary plus invisible.
pub open spec fn postfix_of(a: AstView) -> Seq<char>
    decreases a,
{
    match a {
        AstView::Number { token: _, value } => dec_str(value as nat),
        AstView::UnaryOp { token: _, op, expr } => match op {
            UnaryOp::Plus => postfix_of(*expr),
            UnaryOp::Minus => postfix_of(*expr) + " neg"@,
        },
        AstView::BinaryOp { token: _, lhs, op, rhs } => postfix_of(*lhs) + " "@ + postfix_of(*rhs)
            + " "@ + binary_op_text(op),
        _ => Seq::empty(),
    }
}

/// The s-expression form: `(operator operands...)`, `neg` for unary
/// minus, unary plus invisible.
pub open spec fn s_expr_of(a: AstView) -> Seq<char>
    decreases a,
{
    match a {
        AstView::Number { token: _, value } => dec_str(value as nat),
        AstView::UnaryOp { token: _, op, expr } => match op {
            UnaryOp::Plus => s_expr_of(*expr),
            UnaryOp::Minus => "(neg "@ + s_expr_of(*expr) + ")"@,
        },
        AstView::BinaryOp { token: _, lhs, op, rhs } => "("@ + binary_op_text(op) + " "@
            + s_expr_of(*lhs) + " "@ + s_expr_of(*rhs) + ")"@,
        _ => Seq::empty(),
    }
}

fn binary_op_str(op: &BinaryOp) -> (s: &'static str)
    ensures
        s@ == binary_op_text(*op),
{
    match op {
        BinaryOp::Plus => "+",
        BinaryOp::Minus => "-",
        BinaryOp::Multiply => "*",
        BinaryOp::Divide => "/",
    }
}

/// Renders an expression tree in postfix order.
pub fn to_postfix(ast: &AST) -> (s: String)
    requires
        is_expr_tree(ast_view(*ast)),
    ensures
        s@ == postfix_of(ast_view(*ast)),
    decreases *ast,
{
    match ast {
        AST::Number { token: _, value } => decimal_string(*value),
        AST::UnaryOp { token: _, op, expr } => {
            let sub = to_postfix(expr);
            match op {
                UnaryOp::Plus => sub,
                UnaryOp::Minus => {
                    let mut s = sub;
                    s.append(" neg");
                    s
                },
            }
        },
        AST::BinaryOp { token: _, lhs, op, rhs } => {
            let mut s = to_postfix(lhs);
            let right = to_postfix(rhs);
            s.append(" ");
            s.append(right.as_str());
            s.append(" ");
            s.append(binary_op_str(op));
            s
        },
        _ => {
            proof {
                assert(false);
            }
            String::new()
        },
    }
}

/// Renders an expression tree as an s-expression.
pub fn to_s_expr(ast: &AST) -> (s: String)
    requires
        is_expr_tree(ast_view(*ast)),
    ensures
        s@ == s_expr_of(ast_view(*ast)),
    decreases *ast,
{
    match ast {
        AST::Number { token: _, value } => decimal_string(*value),
        AST::UnaryOp { token: _, op, expr } => {
            let sub = to_s_expr(expr);
            match op {
                UnaryOp::Plus => sub,
                UnaryOp::Minus => {
                    let mut s = "(neg ".to_owned();
                    s.append(sub.as_str());
                    s.append(")");
                    s
                },
            }
        },
        AST::BinaryOp { token: _, lhs, op, rhs } => {
            let left = to_s_expr(lhs);
            let right = to_s_expr(rhs);
            let mut s = "(".to_owned();
            s.append(binary_op_str(op));
            s.append(" ");
            s.append(left.as_str());
            s.append(" ");
            s.append(right.as_str());
            s.append(")");
            s
        },
        _ => {
            proof {
                assert(false);
            }
            String::new()
        },
    }
}

/// The source spelling of a token: keywords in their canonical upper
/// case, literals and identifiers as carried, nothing for the
/// end-of-input marker.
pub open spec fn token_text(t: TokenView) -> Seq<char> {
    match t {
        TokenView::IntegerLiteral { value } => dec_str(value as nat),
        TokenView::RealLiteral { value } => value,
        TokenView::Identifier { value } => value,
        TokenView::Program => "PROGRAM"@,
        TokenView::Var => "VAR"@,
        TokenView::Begin => "BEGIN"@,
        TokenView::End => "END"@,
        TokenView::Dot => "."@,
        TokenView::Colon => ":"@,
        TokenView::Comma => ","@,
        TokenView::Integer => "INTEGER"@,
        TokenView::Real => "REAL"@,
        TokenView::Plus => "+"@,
        TokenView::Minus => "-"@,
        TokenView::Multiply => "*"@,
        TokenView::IntegerDivide => "DIV"@,
        TokenView::RealDivide => "/"@,
        TokenView::OpenParen => "("@,
        TokenView::CloseParen => ")"@,
        TokenView::Assign => ":="@,
        TokenView::EndStatement => ";"@,
        TokenView::Eof => Seq::empty(),
    }
}

/// The source spelling of a token, for diagnostics.
pub fn token_to_text(t: &Token) -> (s: String)
    ensures
        s@ == token_text(t@),
{
    match t {
        Token::IntegerLiteral { value } => decimal_string(*value),
        Token::RealLiteral { value } => value.clone(),
        Token::Identifier { value } => value.clone(),
        Token::Program => "PROGRAM".to_owned(),
        Token::Var => "VAR".to_owned(),
        Token::Begin => "BEGIN".to_owned(),
        Token::End => "END".to_owned(),
        Token::Dot => ".".to_owned(),
        Token::Colon => ":".to_owned(),
        Token::Comma => ",".to_owned(),
        Token::Integer => "INTEGER".to_owned(),
        Token::Real => "REAL".to_owned(),
        Token::Plus => "+".to_owned(),
        Token::Minus => "-".to_owned(),
        Token::Multiply => "*".to_owned(),
        Token::IntegerDivide => "DIV".to_owned(),
        Token::RealDivide => "/".to_owned(),
        Token::OpenParen => "(".to_owned(),
        Token::CloseParen => ")".to_owned(),
        Token::Assign => ":=".to_owned(),
        Token::EndStatement => ";".to_owned(),
        Token::Eof => String::new(),
    }
}

} // verus!
