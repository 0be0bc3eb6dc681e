//! The abstract syntax tree and its smart constructors.
//!
//! Every node keeps the token it came from as provenance.  Operator tags
//! are narrow enums, so a unary or binary node can only be built from the
//! operator tokens the grammar allows; the constructors demand this through
//! their `requires` clauses instead of failing at run time.

use vstd::prelude::*;

use crate::lexer::{Token, TokenView};

verus! {

/// What `str::to_lowercase` returns: a function of the characters alone.
pub uninterp spec fn lower_of(s: Seq<char>) -> Seq<char>;

/// Relies on `str::to_lowercase`: the result depends on the characters
/// alone.
#[verifier::external_body]
fn to_lower(s: &str) -> (r: String)
    ensures
        r@ == lower_of(s@),
{
    s.to_lowercase()
}

/// The operators a unary node can carry.
#[derive(Debug, Clone, Copy, PartialEq, Eq, Structural)]
pub enum UnaryOp {
    Plus,
    Minus,
}

/// The operators a binary node can carry.
#[derive(Debug, Clone, Copy, PartialEq, Eq, Structural)]
pub enum BinaryOp {
    Plus,
    Minus,
    Multiply,
    Divide,
}

/// A node of the abstract syntax tree.  The tree owns its children; order
/// of the statements of a `Compound` is significant.
#[derive(Debug)]
pub enum AST {
    UnaryOp { token: Token, op: UnaryOp, expr: Box<AST> },
    BinaryOp { token: Token, lhs: Box<AST>, op: BinaryOp, rhs: Box<AST> },
    Number { token: Token, value: u32 },
    /// The name is lower-cased at construction time, whatever the source
    /// spelling, which makes variable lookup case-insensitive.
    Variable { token: Token, value: String },
    Assign { token: Token, left: String, right: Box<AST> },
    Compound { children: Vec<AST> },
}

/// The mathematical shape of a tree: strings become character sequences
/// and the statement vector becomes a sequence.
pub enum AstView {
    UnaryOp { token: TokenView, op: UnaryOp, expr: Box<AstView> },
    BinaryOp { token: TokenView, lhs: Box<AstView>, op: BinaryOp, rhs: Box<AstView> },
    Number { token: TokenView, value: u32 },
    Variable { token: TokenView, name: Seq<char> },
    Assign { token: TokenView, left: Seq<char>, right: Box<AstView> },
    Compound { children: Seq<AstView> },
}

/// The view of one tree.
pub open spec fn ast_view(a: AST) -> AstView
    decreases a,
    via ast_view_decreases
{
    match a {
        AST::UnaryOp { token, op, expr } => AstView::UnaryOp {
            token: token@,
            op,
            expr: Box::new(ast_view(*expr)),
        },
        AST::BinaryOp { token, lhs, op, rhs } => AstView::BinaryOp {
            token: token@,
            lhs: Box::new(ast_view(*lhs)),
            op,
            rhs: Box::new(ast_view(*rhs)),
        },
        AST::Number { token, value } => AstView::Number { token: token@, value },
        AST::Variable { token, value } => AstView::Variable { token: token@, name: value@ },
        AST::Assign { token, left, right } => AstView::Assign {
            token: token@,
            left: left@,
            right: Box::new(ast_view(*right)),
        },
        AST::Compound { children } => AstView::Compound { children: asts_view(children@) },
    }
}

#[via_fn]
proof fn ast_view_decreases(a: AST) {
    match a {
        AST::Compound { children } => {
            assert(decreases_to!(a => children));
            assert(decreases_to!(children => children@));
        },
        _ => {},
    }
}

/// The views of a sequence of trees, element by element.
pub open spec fn asts_view(s: Seq<AST>) -> Seq<AstView>
    decreases s,
{
    if s.len() == 0 {
        Seq::empty()
    } else {
        seq![ast_view(s[0])] + asts_view(s.drop_first())
    }
}

/// `asts_view` maps the sequence element by element.
pub broadcast proof fn lemma_asts_view(s: Seq<AST>)
    ensures
        (#[trigger] asts_view(s)).len() == s.len(),
        forall|i: int| 0 <= i < s.len() ==> asts_view(s)[i] == ast_view(s[i]),
    decreases s.len(),
{
    if s.len() > 0 {
        lemma_asts_view(s.drop_first());
    }
}

impl View for AST {
    type V = AstView;

    open spec fn view(&self) -> AstView {
        ast_view(*self)
    }
}

impl AST {
    /// A unary node from the `+` or `-` token that introduced it.
    pub fn unary_op(token: &Token, expr: AST) -> (node: Self)
        requires
            token@ is Plus || token@ is Minus,
        ensures
            node@ == (AstView::UnaryOp {
                token: token@,
                op: if token@ is Plus {
                    UnaryOp::Plus
                } else {
                    UnaryOp::Minus
                },
                expr: Box::new(expr@),
            }),
    {
        let op = match token {
            Token::Plus => UnaryOp::Plus,
            _ => UnaryOp::Minus,
        };
        AST::UnaryOp { token: token.clone(), op, expr: Box::new(expr) }
    }

    /// A binary node from the `+`, `-`, `*` or `/` token that introduced
    /// it.
    pub fn binary_op(lhs: AST, token: &Token, rhs: AST) -> (node: Self)
        requires
            token@ is Plus || token@ is Minus || token@ is Multiply || token@ is RealDivide,
        ensures
            node@ == (AstView::BinaryOp {
                token: token@,
                lhs: Box::new(lhs@),
                op: if token@ is Plus {
                    BinaryOp::Plus
                } else if token@ is Minus {
                    BinaryOp::Minus
                } else if token@ is Multiply {
                    BinaryOp::Multiply
                } else {
                    BinaryOp::Divide
                },
                rhs: Box::new(rhs@),
            }),
    {
        let op = match token {
            Token::Plus => BinaryOp::Plus,
            Token::Minus => BinaryOp::Minus,
            Token::Multiply => BinaryOp::Multiply,
            _ => BinaryOp::Divide,
        };
        AST::BinaryOp { token: token.clone(), lhs: Box::new(lhs), op, rhs: Box::new(rhs) }
    }

    /// A number node.
    pub fn number(token: &Token, value: u32) -> (node: Self)
        ensures
            node@ == (AstView::Number { token: token@, value }),
    {
        AST::Number { token: token.clone(), value }
    }

    /// A variable node; the name is stored lower-cased, whatever its
    /// spelling in the source.
    pub fn variable(token: &Token, name: &str) -> (node: Self)
        ensures
            node@ == (AstView::Variable { token: token@, name: lower_of(name@) }),
    {
        AST::Variable { token: token.clone(), value: to_lower(name) }
    }

    /// An assignment node; the target name is taken verbatim, as the
    /// parser always extracts it from a variable node built before.
    pub fn assign(token: &Token, left: &str, right: AST) -> (node: Self)
        ensures
            node@ == (AstView::Assign { token: token@, left: left@, right: Box::new(right@) }),
    {
        AST::Assign { token: token.clone(), left: left.to_owned(), right: Box::new(right) }
    }

    /// A compound node: an ordered block of statements.
    pub fn compound(children: Vec<AST>) -> (node: Self)
        ensures
            node@ == (AstView::Compound { children: asts_view(children@) }),
    {
        AST::Compound { children }
    }
}

} // verus!
