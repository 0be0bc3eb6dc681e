//! The recursive-descent parser.
//!
//! The parser holds one token of lookahead over a lexer.  Its behaviour is
//! specified by grammar functions over a token stream: the sequence of
//! tokens that repeated lexing yields, ending in either the end-of-input
//! token or the character on which lexing fails.

use vstd::prelude::*;

use crate::ast::{asts_view, lower_of, AST, AstView, BinaryOp, UnaryOp};
use crate::lexer::{lemma_next_token_consumes, spec_next_token, Lexer, Token, TokenView};

verus! {

/// A syntax fault: the typed form of everything that can stop a parse.
#[derive(Debug)]
pub enum ParseError {
    /// A character that begins no token, met while reading ahead.
    InvalidCharacter { character: char },
    /// The current token is not the one a grammar rule demands.
    Mismatch { expected: Token, found: Token },
    /// A statement begins with `BEGIN` or an identifier, and the current
    /// token is neither.
    ExpectedStatement { found: Token },
    /// An identifier was demanded and the current token is none.
    ExpectedIdentifier { found: Token },
}

/// The mathematical shape of a parse fault.
pub enum ParseErrorView {
    InvalidCharacter { character: char },
    Mismatch { expected: TokenView, found: TokenView },
    ExpectedStatement { found: TokenView },
    ExpectedIdentifier { found: TokenView },
}

impl View for ParseError {
    type V = ParseErrorView;

    open spec fn view(&self) -> ParseErrorView {
        match self {
            ParseError::InvalidCharacter { character } => ParseErrorView::InvalidCharacter {
                character: *character,
            },
            ParseError::Mismatch { expected, found } => ParseErrorView::Mismatch {
                expected: expected@,
                found: found@,
            },
            ParseError::ExpectedStatement { found } => ParseErrorView::ExpectedStatement {
                found: found@,
            },
            ParseError::ExpectedIdentifier { found } => ParseErrorView::ExpectedIdentifier {
                found: found@,
            },
        }
    }
}

/// The stream of tokens that repeated lexing yields: every token up to the
/// first terminator, which is either the end-of-input token or the
/// character on which lexing fails.
pub open spec fn spec_token_stream(cs: Seq<char>) -> Seq<Result<TokenView, char>>
    decreases cs.len(),
    via spec_token_stream_decreases
{
    match spec_next_token(cs) {
        Err((c, _)) => seq![Err(c)],
        Ok((t, rest)) => if t is Eof {
            seq![Ok::<TokenView, char>(TokenView::Eof)]
        } else {
            seq![Ok::<TokenView, char>(t)] + spec_token_stream(rest)
        },
    }
}

#[via_fn]
proof fn spec_token_stream_decreases(cs: Seq<char>) {
    lemma_next_token_consumes(cs);
}

/// A well-formed stream: it is never empty, everything before the last
/// element is a good token other than `Eof`, and the last element is
/// either `Eof` or a lexing fault.
pub open spec fn stream_wf(ts: Seq<Result<TokenView, char>>) -> bool {
    &&& ts.len() >= 1
    &&& forall|i: int|
        0 <= i < ts.len() - 1 ==> (#[trigger] ts[i]) is Ok && !(ts[i]->Ok_0 is Eof)
    &&& (ts.last() is Ok ==> ts.last()->Ok_0 is Eof)
}

/// The stream of any input is well formed.
pub proof fn lemma_token_stream_wf(cs: Seq<char>)
    ensures
        stream_wf(spec_token_stream(cs)),
    decreases cs.len(),
{
    lemma_next_token_consumes(cs);
    match spec_next_token(cs) {
        Ok((t, rest)) => {
            if !(t is Eof) {
                lemma_token_stream_wf(rest);
            }
        },
        Err(_) => {},
    }
}

/// One step of lookahead: drops the head of the stream, or reports the
/// character on which lexing fails when that is next.  At the terminator
/// the stream stays as it is, as a drained lexer keeps yielding `Eof`.
pub open spec fn spec_advance(ts: Seq<Result<TokenView, char>>) -> Result<
    Seq<Result<TokenView, char>>,
    char,
> {
    if ts.len() <= 1 {
        Ok(ts)
    } else if ts[1] is Err {
        Err(ts[1]->Err_0)
    } else {
        Ok(ts.drop_first())
    }
}

/// Consumes the head only when it equals the expected token.
pub open spec fn spec_eat(ts: Seq<Result<TokenView, char>>, expected: TokenView) -> Result<
    Seq<Result<TokenView, char>>,
    ParseErrorView,
> {
    if ts[0]->Ok_0 == expected {
        match spec_advance(ts) {
            Ok(ts2) => Ok(ts2),
            Err(c) => Err(ParseErrorView::InvalidCharacter { character: c }),
        }
    } else {
        Err(ParseErrorView::Mismatch { expected, found: ts[0]->Ok_0 })
    }
}

/// `variable := IDENTIFIER`, with the name lower-cased in the node.
pub open spec fn spec_variable(ts: Seq<Result<TokenView, char>>) -> Result<
    (AstView, Seq<Result<TokenView, char>>),
    ParseErrorView,
> {
    match ts[0]->Ok_0 {
        TokenView::Identifier { value } => match spec_advance(ts) {
            Ok(ts2) => Ok(
                (AstView::Variable { token: TokenView::Identifier { value }, name: lower_of(value) }, ts2),
            ),
            Err(c) => Err(ParseErrorView::InvalidCharacter { character: c }),
        },
        t => Err(ParseErrorView::ExpectedIdentifier { found: t }),
    }
}

/// `factor := ('+'|'-') expr | '(' expr ')' | INTEGER | variable`.  A sign
/// wraps the whole following expression, so stacked signs nest to the
/// right.
pub open spec fn spec_factor(ts: Seq<Result<TokenView, char>>) -> Result<
    (AstView, Seq<Result<TokenView, char>>),
    ParseErrorView,
>
    decreases ts.len(), 1int,
{
    let t = ts[0]->Ok_0;
    if t is Plus || t is Minus {
        match spec_advance(ts) {
            Err(c) => Err(ParseErrorView::InvalidCharacter { character: c }),
            Ok(ts2) => if ts2.len() < ts.len() {
                match spec_expr(ts2) {
                    Err(e) => Err(e),
                    Ok((sub, ts3)) => Ok(
                        (
                            AstView::UnaryOp {
                                token: t,
                                op: if t is Plus {
                                    UnaryOp::Plus
                                } else {
                                    UnaryOp::Minus
                                },
                                expr: Box::new(sub),
                            },
                            ts3,
                        ),
                    ),
                }
            } else {
                // never reached on a well-formed stream
                arbitrary()
            },
        }
    } else if t is OpenParen {
        match spec_advance(ts) {
            Err(c) => Err(ParseErrorView::InvalidCharacter { character: c }),
            Ok(ts2) => if ts2.len() < ts.len() {
                match spec_expr(ts2) {
                    Err(e) => Err(e),
                    Ok((sub, ts3)) => match spec_eat(ts3, TokenView::CloseParen) {
                        Err(e) => Err(e),
                        Ok(ts4) => Ok((sub, ts4)),
                    },
                }
            } else {
                // never reached on a well-formed stream
                arbitrary()
            },
        }
    } else if t is IntegerLiteral {
        match spec_advance(ts) {
            Err(c) => Err(ParseErrorView::InvalidCharacter { character: c }),
            Ok(ts2) => Ok((AstView::Number { token: t, value: t->IntegerLiteral_value }, ts2)),
        }
    } else {
        spec_variable(ts)
    }
}

/// The left-folding tail of `term := factor (('*'|'/') factor)*`.
pub open spec fn spec_term_more(acc: AstView, ts: Seq<Result<TokenView, char>>) -> Result<
    (AstView, Seq<Result<TokenView, char>>),
    ParseErrorView,
>
    decreases ts.len(), 0int,
{
    let t = ts[0]->Ok_0;
    if t is Multiply || t is RealDivide {
        match spec_advance(ts) {
            Err(c) => Err(ParseErrorView::InvalidCharacter { character: c }),
            Ok(ts2) => if ts2.len() < ts.len() {
                match spec_factor(ts2) {
                    Err(e) => Err(e),
                    Ok((rhs, ts3)) => {
                        let node = AstView::BinaryOp {
                            token: t,
                            lhs: Box::new(acc),
                            op: if t is Multiply {
                                BinaryOp::Multiply
                            } else {
                                BinaryOp::Divide
                            },
                            rhs: Box::new(rhs),
                        };
                        if ts3.len() < ts.len() {
                            spec_term_more(node, ts3)
                        } else {
                            // never reached on a well-formed stream
                            arbitrary()
                        }
                    },
                }
            } else {
                // never reached on a well-formed stream
                arbitrary()
            },
        }
    } else {
        Ok((acc, ts))
    }
}

/// `term := factor (('*'|'/') factor)*`, left-associative.
pub open spec fn spec_term(ts: Seq<Result<TokenView, char>>) -> Result<
    (AstView, Seq<Result<TokenView, char>>),
    ParseErrorView,
>
    decreases ts.len(), 2int,
{
    match spec_factor(ts) {
        Err(e) => Err(e),
        Ok((node, ts2)) => if ts2.len() <= ts.len() {
            spec_term_more(node, ts2)
        } else {
            // never reached on a well-formed stream
            arbitrary()
        },
    }
}

/// The left-folding tail of `expr := term (('+'|'-') term)*`.
pub open spec fn spec_expr_more(acc: AstView, ts: Seq<Result<TokenView, char>>) -> Result<
    (AstView, Seq<Result<TokenView, char>>),
    ParseErrorView,
>
    decreases ts.len(), 0int,
{
    let t = ts[0]->Ok_0;
    if t is Plus || t is Minus {
        match spec_advance(ts) {
            Err(c) => Err(ParseErrorView::InvalidCharacter { character: c }),
            Ok(ts2) => if ts2.len() < ts.len() {
                match spec_term(ts2) {
                    Err(e) => Err(e),
                    Ok((rhs, ts3)) => {
                        let node = AstView::BinaryOp {
                            token: t,
                            lhs: Box::new(acc),
                            op: if t is Plus {
                                BinaryOp::Plus
                            } else {
                                BinaryOp::Minus
                            },
                            rhs: Box::new(rhs),
                        };
                        if ts3.len() < ts.len() {
                            spec_expr_more(node, ts3)
                        } else {
                            // never reached on a well-formed stream
                            arbitrary()
                        }
                    },
                }
            } else {
                // never reached on a well-formed stream
                arbitrary()
            },
        }
    } else {
        Ok((acc, ts))
    }
}

/// `expr := term (('+'|'-') term)*`, left-associative.
pub open spec fn spec_expr(ts: Seq<Result<TokenView, char>>) -> Result<
    (AstView, Seq<Result<TokenView, char>>),
    ParseErrorView,
>
    decreases ts.len(), 3int,
{
    match spec_term(ts) {
        Err(e) => Err(e),
        Ok((node, ts2)) => if ts2.len() <= ts.len() {
            spec_expr_more(node, ts2)
        } else {
            // never reached on a well-formed stream
            arbitrary()
        },
    }
}

/// `assignment_statement := variable ':=' expr`.  The target name comes
/// from the variable node, so it is already lower-cased; the node keeps
/// the `:=` token as provenance.
pub open spec fn spec_assignment(ts: Seq<Result<TokenView, char>>) -> Result<
    (AstView, Seq<Result<TokenView, char>>),
    ParseErrorView,
> {
    match spec_variable(ts) {
        Err(e) => Err(e),
        Ok((var, ts2)) => match var {
            AstView::Variable { token: _, name } => match spec_eat(ts2, TokenView::Assign) {
                Err(e) => Err(e),
                Ok(ts3) => match spec_expr(ts3) {
                    Err(e) => Err(e),
                    Ok((rhs, ts4)) => Ok(
                        (
                            AstView::Assign {
                                token: TokenView::Assign,
                                left: name,
                                right: Box::new(rhs),
                            },
                            ts4,
                        ),
                    ),
                },
            },
            _ => arbitrary(),  // spec_variable only builds variable nodes
        },
    }
}

/// `statement := compound_statement | assignment_statement`.
pub open spec fn spec_statement(ts: Seq<Result<TokenView, char>>) -> Result<
    (AstView, Seq<Result<TokenView, char>>),
    ParseErrorView,
>
    decreases ts.len(), 5int,
{
    let t = ts[0]->Ok_0;
    if t is Begin {
        spec_compound_statement(ts)
    } else if t is Identifier {
        spec_assignment(ts)
    } else {
        Err(ParseErrorView::ExpectedStatement { found: t })
    }
}

/// `compound_statement := BEGIN statement_list END`.
pub open spec fn spec_compound_statement(ts: Seq<Result<TokenView, char>>) -> Result<
    (AstView, Seq<Result<TokenView, char>>),
    ParseErrorView,
>
    decreases ts.len(), 4int,
{
    match spec_eat(ts, TokenView::Begin) {
        Err(e) => Err(e),
        Ok(ts2) => if ts2.len() < ts.len() {
            match spec_statement_list(ts2) {
                Err(e) => Err(e),
                Ok((nodes, ts3)) => match spec_eat(ts3, TokenView::End) {
                    Err(e) => Err(e),
                    Ok(ts4) => Ok((AstView::Compound { children: nodes }, ts4)),
                },
            }
        } else {
            // never reached on a well-formed stream
            arbitrary()
        },
    }
}

/// The statements before the closing `END`: statement separators are
/// consumed wherever they stand, so empty statements are skipped.
pub open spec fn spec_statement_list(ts: Seq<Result<TokenView, char>>) -> Result<
    (Seq<AstView>, Seq<Result<TokenView, char>>),
    ParseErrorView,
>
    decreases ts.len(), 6int,
{
    let t = ts[0]->Ok_0;
    if t is EndStatement {
        match spec_advance(ts) {
            Err(c) => Err(ParseErrorView::InvalidCharacter { character: c }),
            Ok(ts2) => if ts2.len() < ts.len() {
                spec_statement_list(ts2)
            } else {
                // never reached on a well-formed stream
                arbitrary()
            },
        }
    } else if t is End {
        Ok((Seq::empty(), ts))
    } else {
        match spec_statement(ts) {
            Err(e) => Err(e),
            Ok((node, ts2)) => if ts2.len() < ts.len() {
                match spec_statement_list(ts2) {
                    Err(e) => Err(e),
                    Ok((nodes, ts3)) => Ok((seq![node] + nodes, ts3)),
                }
            } else {
                // never reached on a well-formed stream
                arbitrary()
            },
        }
    }
}

/// `program := compound_statement '.'`.
pub open spec fn spec_program(ts: Seq<Result<TokenView, char>>) -> Result<
    (AstView, Seq<Result<TokenView, char>>),
    ParseErrorView,
> {
    match spec_compound_statement(ts) {
        Err(e) => Err(e),
        Ok((node, ts2)) => match spec_eat(ts2, TokenView::Dot) {
            Err(e) => Err(e),
            Ok(ts3) => Ok((node, ts3)),
        },
    }
}

/// A whole parse: the program followed by the end of the input.
pub open spec fn spec_parse(ts: Seq<Result<TokenView, char>>) -> Result<
    (AstView, Seq<Result<TokenView, char>>),
    ParseErrorView,
> {
    match spec_program(ts) {
        Err(e) => Err(e),
        Ok((node, ts2)) => match spec_eat(ts2, TokenView::Eof) {
            Err(e) => Err(e),
            Ok(ts3) => Ok((node, ts3)),
        },
    }
}

/// The parser: a lexer plus one token of lookahead, read eagerly at
/// construction and replaced by every `advance`.
pub struct Parser<'a> {
    lexer: Lexer<'a>,
    current_token: Token,
}

impl<'a> Parser<'a> {
    /// Well-formedness: once the lookahead is `Eof` the lexer is drained,
    /// so it will keep yielding `Eof`.  `Parser::new` establishes this and
    /// every method keeps it.
    pub closed spec fn wf(&self) -> bool {
        self.current_token@ is Eof ==> self.lexer@.len() == 0
    }

    /// The tokens still to be consumed: the lookahead token, then what the
    /// lexer has yet to produce.
    pub closed spec fn stream(&self) -> Seq<Result<TokenView, char>> {
        if self.current_token@ is Eof {
            seq![Ok::<TokenView, char>(TokenView::Eof)]
        } else {
            seq![Ok::<TokenView, char>(self.current_token@)] + spec_token_stream(self.lexer@)
        }
    }

    /// The stream a parser holds is well formed and starts with the
    /// lookahead token.
    proof fn lemma_stream_wf(self)
        ensures
            stream_wf(self.stream()),
            self.stream()[0] == Ok::<TokenView, char>(self.current_token@),
    {
        lemma_token_stream_wf(self.lexer@);
    }

    /// A parser over the given lexer.  Construction reads the first token
    /// and fails exactly when that first read fails.
    pub fn new(lexer: Lexer<'a>) -> (r: Result<Parser<'a>, ParseError>)
        ensures
            (match spec_next_token(lexer@) {
                Ok(_) => r matches Ok(p) && p.wf() && p.stream() == spec_token_stream(lexer@),
                Err((c, _)) => r matches Err(e) && e@ == (ParseErrorView::InvalidCharacter {
                    character: c,
                }),
            }),
    {
        let mut lexer = lexer;
        let ghost v0 = lexer@;
        proof {
            lemma_next_token_consumes(v0);
        }
        match lexer.next_token() {
            Ok(tok) => {
                let p = Parser { lexer, current_token: tok };
                proof {
                    if !(p.current_token@ is Eof) {
                        assert(p.stream() =~= spec_token_stream(v0));
                    }
                }
                Ok(p)
            },
            Err(e) => Err(ParseError::InvalidCharacter { character: e.character }),
        }
    }

    /// Replaces the lookahead token with the next one from the lexer and
    /// hands the old one back.
    fn advance(&mut self) -> (r: Result<Token, ParseError>)
        requires
            old(self).wf(),
        ensures
            final(self).wf(),
            (match spec_advance(old(self).stream()) {
                Ok(ts2) => r matches Ok(t) && Ok::<TokenView, char>(t@) == old(self).stream()[0]
                    && final(self).stream() == ts2,
                Err(c) => r matches Err(e) && e@ == (ParseErrorView::InvalidCharacter {
                    character: c,
                }),
            }),
    {
        proof {
            lemma_next_token_consumes(self.lexer@);
        }
        let ghost os = self.stream();
        let ghost v = self.lexer@;
        match self.lexer.next_token() {
            Err(e) => Err(ParseError::InvalidCharacter { character: e.character }),
            Ok(tok) => {
                proof {
                    if !(os[0]->Ok_0 is Eof) {
                        assert(os.drop_first() =~= spec_token_stream(v));
                    }
                }
                let mut t = tok;
                core::mem::swap(&mut self.current_token, &mut t);
                Ok(t)
            },
        }
    }

    /// Consumes the current token only when it equals the expected one.
    fn eat(&mut self, token: &Token) -> (r: Result<(), ParseError>)
        requires
            old(self).wf(),
        ensures
            final(self).wf(),
            (match spec_eat(old(self).stream(), token@) {
                Ok(ts2) => r is Ok && final(self).stream() == ts2,
                Err(e) => r matches Err(pe) && pe@ == e,
            }),
    {
        if self.current_token == *token {
            match self.advance() {
                Ok(_) => Ok(()),
                Err(e) => Err(e),
            }
        } else {
            Err(
                ParseError::Mismatch {
                    expected: token.clone(),
                    found: self.current_token.clone(),
                },
            )
        }
    }

    /// `variable := IDENTIFIER`.
    fn variable(&mut self) -> (r: Result<AST, ParseError>)
        requires
            old(self).wf(),
        ensures
            final(self).wf(),
            (match spec_variable(old(self).stream()) {
                Ok((node, ts2)) => r matches Ok(ast) && ast@ == node && final(self).stream()
                    == ts2 && ts2.len() < old(self).stream().len(),
                Err(e) => r matches Err(pe) && pe@ == e,
            }),
    {
        proof {
            self.lemma_stream_wf();
        }
        match &self.current_token {
            Token::Identifier { value } => {
                let name = value.clone();
                let tok = self.current_token.clone();
                match self.advance() {
                    Err(e) => Err(e),
                    Ok(_) => Ok(AST::variable(&tok, name.as_str())),
                }
            },
            _ => Err(ParseError::ExpectedIdentifier { found: self.current_token.clone() }),
        }
    }

    /// `factor := ('+'|'-') expr | '(' expr ')' | INTEGER | variable`.
    fn factor(&mut self) -> (r: Result<AST, ParseError>)
        requires
            old(self).wf(),
        ensures
            final(self).wf(),
            (match spec_factor(old(self).stream()) {
                Ok((node, ts2)) => r matches Ok(ast) && ast@ == node && final(self).stream()
                    == ts2 && ts2.len() < old(self).stream().len(),
                Err(e) => r matches Err(pe) && pe@ == e,
            }),
        decreases self.stream().len(), 1int,
    {
        proof {
            self.lemma_stream_wf();
        }
        match self.current_token {
            Token::Plus | Token::Minus => {
                let tok = match self.advance() {
                    Ok(t) => t,
                    Err(e) => {
                        return Err(e);
                    },
                };
                let sub = match self.expr() {
                    Ok(a) => a,
                    Err(e) => {
                        return Err(e);
                    },
                };
                Ok(AST::unary_op(&tok, sub))
            },
            Token::OpenParen => {
                match self.advance() {
                    Ok(_) => {},
                    Err(e) => {
                        return Err(e);
                    },
                }
                let sub = match self.expr() {
                    Ok(a) => a,
                    Err(e) => {
                        return Err(e);
                    },
                };
                match self.eat(&Token::CloseParen) {
                    Ok(_) => {},
                    Err(e) => {
                        return Err(e);
                    },
                }
                Ok(sub)
            },
            Token::IntegerLiteral { value } => {
                let tok = match self.advance() {
                    Ok(t) => t,
                    Err(e) => {
                        return Err(e);
                    },
                };
                Ok(AST::number(&tok, value))
            },
            _ => self.variable(),
        }
    }

    /// `term := factor (('*'|'/') factor)*`, folded to the left.
    fn term(&mut self) -> (r: Result<AST, ParseError>)
        requires
            old(self).wf(),
        ensures
            final(self).wf(),
            (match spec_term(old(self).stream()) {
                Ok((node, ts2)) => r matches Ok(ast) && ast@ == node && final(self).stream()
                    == ts2 && ts2.len() < old(self).stream().len(),
                Err(e) => r matches Err(pe) && pe@ == e,
            }),
        decreases self.stream().len(), 2int,
    {
        let ghost ts0 = self.stream();
        let mut node = match self.factor() {
            Ok(a) => a,
            Err(e) => {
                return Err(e);
            },
        };
        loop
            invariant
                self.wf(),
                ts0 == old(self).stream(),
                self.stream().len() < ts0.len(),
                spec_term(ts0) == spec_term_more(node@, self.stream()),
            ensures
                self.wf(),
                ts0 == old(self).stream(),
                self.stream().len() < ts0.len(),
                spec_term(ts0) == spec_term_more(node@, self.stream()),
                !(self.stream()[0]->Ok_0 is Multiply || self.stream()[0]->Ok_0 is RealDivide),
            decreases self.stream().len(),
        {
            proof {
                self.lemma_stream_wf();
            }
            match self.current_token {
                Token::Multiply | Token::RealDivide => {
                    let tok = match self.advance() {
                        Ok(t) => t,
                        Err(e) => {
                            return Err(e);
                        },
                    };
                    let rhs = match self.factor() {
                        Ok(a) => a,
                        Err(e) => {
                            return Err(e);
                        },
                    };
                    node = AST::binary_op(node, &tok, rhs);
                },
                _ => {
                    break;
                },
            }
        }
        Ok(node)
    }

    /// `expr := term (('+'|'-') term)*`, folded to the left.
    fn expr(&mut self) -> (r: Result<AST, ParseError>)
        requires
            old(self).wf(),
        ensures
            final(self).wf(),
            (match spec_expr(old(self).stream()) {
                Ok((node, ts2)) => r matches Ok(ast) && ast@ == node && final(self).stream()
                    == ts2 && ts2.len() < old(self).stream().len(),
                Err(e) => r matches Err(pe) && pe@ == e,
            }),
        decreases self.stream().len(), 3int,
    {
        let ghost ts0 = self.stream();
        let mut node = match self.term() {
            Ok(a) => a,
            Err(e) => {
                return Err(e);
            },
        };
        loop
            invariant
                self.wf(),
                ts0 == old(self).stream(),
                self.stream().len() < ts0.len(),
                spec_expr(ts0) == spec_expr_more(node@, self.stream()),
            ensures
                self.wf(),
                ts0 == old(self).stream(),
                self.stream().len() < ts0.len(),
                spec_expr(ts0) == spec_expr_more(node@, self.stream()),
                !(self.stream()[0]->Ok_0 is Plus || self.stream()[0]->Ok_0 is Minus),
            decreases self.stream().len(),
        {
            proof {
                self.lemma_stream_wf();
            }
            match self.current_token {
                Token::Plus | Token::Minus => {
                    let tok = match self.advance() {
                        Ok(t) => t,
                        Err(e) => {
                            return Err(e);
                        },
                    };
                    let rhs = match self.term() {
                        Ok(a) => a,
                        Err(e) => {
                            return Err(e);
                        },
                    };
                    node = AST::binary_op(node, &tok, rhs);
                },
                _ => {
                    break;
                },
            }
        }
        Ok(node)
    }

    /// `assignment_statement := variable ':=' expr`.
    fn assignment_statement(&mut self) -> (r: Result<AST, ParseError>)
        requires
            old(self).wf(),
        ensures
            final(self).wf(),
            (match spec_assignment(old(self).stream()) {
                Ok((node, ts2)) => r matches Ok(ast) && ast@ == node && final(self).stream()
                    == ts2 && ts2.len() < old(self).stream().len(),
                Err(e) => r matches Err(pe) && pe@ == e,
            }),
    {
        let left = match self.variable() {
            Ok(var) => match var {
                AST::Variable { token: _, value } => value,
                _ => {
                    // `variable` only builds variable nodes
                    return Err(ParseError::ExpectedIdentifier {
                        found: self.current_token.clone(),
                    });
                },
            },
            Err(e) => {
                return Err(e);
            },
        };
        proof {
            self.lemma_stream_wf();
        }
        match self.eat(&Token::Assign) {
            Ok(_) => {},
            Err(e) => {
                return Err(e);
            },
        }
        let rhs = match self.expr() {
            Ok(a) => a,
            Err(e) => {
                return Err(e);
            },
        };
        Ok(AST::assign(&Token::Assign, left.as_str(), rhs))
    }

    /// `statement := compound_statement | assignment_statement`.
    fn statement(&mut self) -> (r: Result<AST, ParseError>)
        requires
            old(self).wf(),
        ensures
            final(self).wf(),
            (match spec_statement(old(self).stream()) {
                Ok((node, ts2)) => r matches Ok(ast) && ast@ == node && final(self).stream()
                    == ts2 && ts2.len() < old(self).stream().len(),
                Err(e) => r matches Err(pe) && pe@ == e,
            }),
        decreases self.stream().len(), 5int,
    {
        proof {
            self.lemma_stream_wf();
        }
        match self.current_token {
            Token::Begin => self.compound_statement(),
            Token::Identifier { value: _ } => self.assignment_statement(),
            _ => Err(ParseError::ExpectedStatement { found: self.current_token.clone() }),
        }
    }

    /// `compound_statement := BEGIN statement_list END`.
    fn compound_statement(&mut self) -> (r: Result<AST, ParseError>)
        requires
            old(self).wf(),
        ensures
            final(self).wf(),
            (match spec_compound_statement(old(self).stream()) {
                Ok((node, ts2)) => r matches Ok(ast) && ast@ == node && final(self).stream()
                    == ts2 && ts2.len() < old(self).stream().len(),
                Err(e) => r matches Err(pe) && pe@ == e,
            }),
        decreases self.stream().len(), 4int,
    {
        proof {
            self.lemma_stream_wf();
        }
        match self.eat(&Token::Begin) {
            Ok(_) => {},
            Err(e) => {
                return Err(e);
            },
        }
        let children = match self.statement_list() {
            Ok(v) => v,
            Err(e) => {
                return Err(e);
            },
        };
        proof {
            self.lemma_stream_wf();
        }
        match self.eat(&Token::End) {
            Ok(_) => {},
            Err(e) => {
                return Err(e);
            },
        }
        Ok(AST::compound(children))
    }

    /// The statements before the closing `END`; statement separators are
    /// consumed wherever they stand.
    fn statement_list(&mut self) -> (r: Result<Vec<AST>, ParseError>)
        requires
            old(self).wf(),
        ensures
            final(self).wf(),
            (match spec_statement_list(old(self).stream()) {
                Ok((nodes, ts2)) => r matches Ok(v) && asts_view(v@) == nodes
                    && final(self).stream() == ts2 && ts2.len() <= old(self).stream().len(),
                Err(e) => r matches Err(pe) && pe@ == e,
            }),
        decreases self.stream().len(), 6int,
    {
        broadcast use crate::ast::lemma_asts_view;

        let mut nodes: Vec<AST> = Vec::new();
        proof {
            assert(asts_view(nodes@) =~= Seq::<AstView>::empty());
        }
        loop
            invariant
                self.wf(),
                self.stream().len() <= old(self).stream().len(),
                (match spec_statement_list(self.stream()) {
                    Ok((rest, tsf)) => spec_statement_list(old(self).stream()) == Ok::<
                        (Seq<AstView>, Seq<Result<TokenView, char>>),
                        ParseErrorView,
                    >((asts_view(nodes@) + rest, tsf)),
                    Err(e) => spec_statement_list(old(self).stream()) == Err::<
                        (Seq<AstView>, Seq<Result<TokenView, char>>),
                        ParseErrorView,
                    >(e),
                }),
            ensures
                self.wf(),
                self.stream().len() <= old(self).stream().len(),
                self.stream()[0]->Ok_0 is End,
                (match spec_statement_list(self.stream()) {
                    Ok((rest, tsf)) => spec_statement_list(old(self).stream()) == Ok::<
                        (Seq<AstView>, Seq<Result<TokenView, char>>),
                        ParseErrorView,
                    >((asts_view(nodes@) + rest, tsf)),
                    Err(e) => spec_statement_list(old(self).stream()) == Err::<
                        (Seq<AstView>, Seq<Result<TokenView, char>>),
                        ParseErrorView,
                    >(e),
                }),
            decreases self.stream().len(),
        {
            proof {
                self.lemma_stream_wf();
            }
            let ghost here = self.stream();
            let ghost done = asts_view(nodes@);
            match self.current_token {
                Token::EndStatement => {
                    match self.advance() {
                        Ok(_) => {},
                        Err(e) => {
                            return Err(e);
                        },
                    }
                },
                Token::End => {
                    break;
                },
                _ => {
                    let st = match self.statement() {
                        Ok(a) => a,
                        Err(e) => {
                            return Err(e);
                        },
                    };
                    let ghost stv = st@;
                    let ghost before = nodes@;
                    nodes.push(st);
                    proof {
                        crate::ast::lemma_asts_view(before);
                        crate::ast::lemma_asts_view(nodes@);
                        assert(asts_view(nodes@) =~= done + seq![stv]);
                        match spec_statement_list(self.stream()) {
                            Ok((rest, _)) => {
                                assert((done + seq![stv]) + rest =~= done + (seq![stv] + rest));
                            },
                            Err(_) => {},
                        }
                    }
                },
            }
        }
        proof {
            match spec_statement_list(self.stream()) {
                Ok((rest, _)) => {
                    assert(asts_view(nodes@) + rest =~= asts_view(nodes@));
                },
                Err(_) => {},
            }
        }
        Ok(nodes)
    }

    /// `program := compound_statement '.'`.
    fn program(&mut self) -> (r: Result<AST, ParseError>)
        requires
            old(self).wf(),
        ensures
            final(self).wf(),
            (match spec_program(old(self).stream()) {
                Ok((node, ts2)) => r matches Ok(ast) && ast@ == node && final(self).stream()
                    == ts2,
                Err(e) => r matches Err(pe) && pe@ == e,
            }),
    {
        let node = match self.compound_statement() {
            Ok(a) => a,
            Err(e) => {
                return Err(e);
            },
        };
        match self.eat(&Token::Dot) {
            Ok(_) => {},
            Err(e) => {
                return Err(e);
            },
        }
        Ok(node)
    }

    /// A whole parse: the program, its closing dot, and the end of the
    /// input, with no token after.  The result is exactly what
    /// `spec_parse` yields on the parser's token stream.
    pub fn parse(&mut self) -> (r: Result<AST, ParseError>)
        requires
            old(self).wf(),
        ensures
            final(self).wf(),
            (match spec_parse(old(self).stream()) {
                Ok((node, ts2)) => r matches Ok(ast) && ast@ == node && final(self).stream()
                    == ts2,
                Err(e) => r matches Err(pe) && pe@ == e,
            }),
    {
        let node = match self.program() {
            Ok(a) => a,
            Err(e) => {
                return Err(e);
            },
        };
        match self.eat(&Token::Eof) {
            Ok(_) => {},
            Err(e) => {
                return Err(e);
            },
        }
        Ok(node)
    }
}

} // verus!

