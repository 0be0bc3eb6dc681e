//! The tree-walking evaluator and its variable scope.
//!
//! Arithmetic is 32-bit two's-complement with wrap-around on overflow;
//! division truncates and the one overflowing quotient wraps.  A read of a
//! never-assigned variable and a division by zero are typed faults, not
//! crashes, and leave the scope exactly as it was at the faulting step.

use vstd::prelude::*;

use crate::ast::{ast_view, asts_view, AST, AstView, BinaryOp, UnaryOp};

verus! {

/// An evaluation fault.
#[derive(Debug)]
pub enum EvalError {
    /// A variable was read before any assignment to it.
    UndefinedVariable { name: String },
    /// The right side of a division evaluated to zero.
    DivisionByZero,
}

/// The mathematical shape of an evaluation fault.
pub enum EvalErrorView {
    UndefinedVariable { name: Seq<char> },
    DivisionByZero,
}

impl View for EvalError {
    type V = EvalErrorView;

    open spec fn view(&self) -> EvalErrorView {
        match self {
            EvalError::UndefinedVariable { name } => EvalErrorView::UndefinedVariable {
                name: name@,
            },
            EvalError::DivisionByZero => EvalErrorView::DivisionByZero,
        }
    }
}

/// A number token's unsigned payload reinterpreted as a signed 32-bit
/// value, bit for bit.
pub open spec fn as_signed(v: u32) -> i32 {
    if v >= 0x8000_0000 {
        ((v as int) - 0x1_0000_0000) as i32
    } else {
        v as i32
    }
}

fn to_signed(v: u32) -> (r: i32)
    ensures
        r == as_signed(v),
{
    if v >= 0x8000_0000u32 {
        i32::MIN + ((v - 0x8000_0000u32) as i32)
    } else {
        v as i32
    }
}

/// Truncating division, with the single overflowing quotient
/// (`i32::MIN / -1`) wrapped around to `i32::MIN`.
pub open spec fn spec_div_wrap(a: i32, b: i32) -> i32
    recommends
        b != 0,
{
    match a.checked_div(b) {
        Some(v) => v,
        None => i32::MIN,
    }
}

/// One evaluation step's outcome: on success the value and the scope after
/// it; on a fault the fault and the scope at the faulting step.
pub open spec fn spec_eval(a: AstView, env: Map<Seq<char>, i32>) -> Result<
    (i32, Map<Seq<char>, i32>),
    (EvalErrorView, Map<Seq<char>, i32>),
>
    decreases a,
{
    match a {
        AstView::Number { token: _, value } => Ok((as_signed(value), env)),
        AstView::UnaryOp { token: _, op, expr } => match spec_eval(*expr, env) {
            Err(e) => Err(e),
            Ok((v, env2)) => match op {
                UnaryOp::Plus => Ok((v, env2)),
                UnaryOp::Minus => Ok((vstd::wrapping::i32_specs::wrapping_sub(0, v), env2)),
            },
        },
        AstView::BinaryOp { token: _, lhs, op, rhs } => match spec_eval(*lhs, env) {
            Err(e) => Err(e),
            Ok((v1, env1)) => match spec_eval(*rhs, env1) {
                Err(e) => Err(e),
                Ok((v2, env2)) => match op {
                    BinaryOp::Plus => Ok((vstd::wrapping::i32_specs::wrapping_add(v1, v2), env2)),
                    BinaryOp::Minus => Ok((vstd::wrapping::i32_specs::wrapping_sub(v1, v2), env2)),
                    BinaryOp::Multiply => Ok(
                        (vstd::wrapping::i32_specs::wrapping_mul(v1, v2), env2),
                    ),
                    BinaryOp::Divide => if v2 == 0 {
                        Err((EvalErrorView::DivisionByZero, env2))
                    } else {
                        Ok((spec_div_wrap(v1, v2), env2))
                    },
                },
            },
        },
        AstView::Variable { token: _, name } => if env.contains_key(name) {
            Ok((env[name], env))
        } else {
            Err((EvalErrorView::UndefinedVariable { name }, env))
        },
        AstView::Assign { token: _, left, right } => match spec_eval(*right, env) {
            Err(e) => Err(e),
            Ok((v, env2)) => Ok((v, env2.insert(left, v))),
        },
        AstView::Compound { children } => spec_eval_stmts(children, env),
    }
}

/// Statements of a block, in order, each seeing the scope the one before
/// left behind.  The block's value is the last statement's; an empty block
/// evaluates to zero.
pub open spec fn spec_eval_stmts(stmts: Seq<AstView>, env: Map<Seq<char>, i32>) -> Result<
    (i32, Map<Seq<char>, i32>),
    (EvalErrorView, Map<Seq<char>, i32>),
>
    decreases stmts,
{
    if stmts.len() == 0 {
        Ok((0, env))
    } else {
        match spec_eval(stmts[0], env) {
            Err(e) => Err(e),
            Ok((v, env2)) => if stmts.len() == 1 {
                Ok((v, env2))
            } else {
                spec_eval_stmts(stmts.drop_first(), env2)
            },
        }
    }
}

/// The mapping a key-value sequence denotes: a later entry would win, and
/// the scope keeps its keys distinct anyway.
pub open spec fn scope_map(s: Seq<(String, i32)>) -> Map<Seq<char>, i32>
    decreases s.len(),
{
    if s.len() == 0 {
        Map::empty()
    } else {
        scope_map(s.drop_last()).insert(s.last().0@, s.last().1)
    }
}

/// No two entries share a key.
pub open spec fn distinct_keys(s: Seq<(String, i32)>) -> bool {
    forall|i: int, j: int| 0 <= i < j < s.len() ==> s[i].0@ != s[j].0@
}

proof fn lemma_scope_map_index(s: Seq<(String, i32)>, i: int)
    requires
        distinct_keys(s),
        0 <= i < s.len(),
    ensures
        scope_map(s).contains_key(s[i].0@),
        scope_map(s)[s[i].0@] == s[i].1,
    decreases s.len(),
{
    if i < s.len() - 1 {
        lemma_scope_map_index(s.drop_last(), i);
    }
}

proof fn lemma_scope_map_absent(s: Seq<(String, i32)>, k: Seq<char>)
    requires
        forall|i: int| 0 <= i < s.len() ==> s[i].0@ != k,
    ensures
        !scope_map(s).contains_key(k),
    decreases s.len(),
{
    if s.len() > 0 {
        lemma_scope_map_absent(s.drop_last(), k);
    }
}

proof fn lemma_scope_map_update(s: Seq<(String, i32)>, i: int, p: (String, i32))
    requires
        distinct_keys(s),
        0 <= i < s.len(),
        p.0@ == s[i].0@,
    ensures
        scope_map(s.update(i, p)) == scope_map(s).insert(p.0@, p.1),
        distinct_keys(s.update(i, p)),
    decreases s.len(),
{
    let t = s.update(i, p);
    if i == s.len() - 1 {
        assert(t.drop_last() =~= s.drop_last());
        assert(scope_map(t) =~= scope_map(s).insert(p.0@, p.1));
    } else {
        assert(t.drop_last() =~= s.drop_last().update(i, p));
        lemma_scope_map_update(s.drop_last(), i, p);
        assert(scope_map(t) =~= scope_map(s).insert(p.0@, p.1));
    }
}

/// The run-time variable store: a mapping from lower-cased variable name
/// to a signed 32-bit value.  There is no deletion.
#[derive(Debug)]
pub struct Scope {
    symbols: Vec<(String, i32)>,
}

impl View for Scope {
    type V = Map<Seq<char>, i32>;

    closed spec fn view(&self) -> Map<Seq<char>, i32> {
        scope_map(self.symbols@)
    }
}

impl Scope {
    /// Well-formedness: one entry per name.  `Scope::new` establishes it
    /// and `assign` keeps it.
    pub closed spec fn wf(&self) -> bool {
        distinct_keys(self.symbols@)
    }

    /// An empty scope.
    pub fn new() -> (s: Self)
        ensures
            s.wf(),
            s@ == Map::<Seq<char>, i32>::empty(),
    {
        Scope { symbols: Vec::new() }
    }

    /// Binds `name` to `value`, replacing any earlier binding.
    pub fn assign(&mut self, name: &str, value: i32)
        requires
            old(self).wf(),
        ensures
            final(self).wf(),
            final(self)@ == old(self)@.insert(name@, value),
    {
        let key = name.to_owned();
        let n = self.symbols.len();
        let mut i: usize = 0;
        while i < n
            invariant
                self.wf(),
                n == self.symbols.len(),
                i <= n,
                self == old(self),
                forall|j: int| 0 <= j < i ==> self.symbols@[j].0@ != key@,
                key@ == name@,
            decreases n - i,
        {
            if self.symbols[i].0 == key {
                let ghost s0 = self.symbols@;
                let entry = vstd::std_specs::vec::vec_index_mut(&mut self.symbols, i);
                *entry = (key, value);
                proof {
                    lemma_scope_map_update(s0, i as int, (self.symbols@[i as int].0, value));
                }
                return ;
            }
            i = i + 1;
        }
        let ghost s0 = self.symbols@;
        self.symbols.push((key, value));
        proof {
            assert(self.symbols@.drop_last() =~= s0);
        }
    }

    /// The value bound to `name`, when one is.
    pub fn get(&self, name: &str) -> (r: Option<i32>)
        requires
            self.wf(),
        ensures
            (match r {
                Some(v) => self@.contains_key(name@) && v == self@[name@],
                None => !self@.contains_key(name@),
            }),
    {
        let key = name.to_owned();
        let n = self.symbols.len();
        let mut i: usize = 0;
        while i < n
            invariant
                self.wf(),
                n == self.symbols.len(),
                i <= n,
                forall|j: int| 0 <= j < i ==> self.symbols@[j].0@ != key@,
                key@ == name@,
            decreases n - i,
        {
            if self.symbols[i].0 == key {
                proof {
                    lemma_scope_map_index(self.symbols@, i as int);
                }
                return Some(self.symbols[i].1);
            }
            i = i + 1;
        }
        proof {
            lemma_scope_map_absent(self.symbols@, name@);
        }
        None
    }
}

/// Evaluation is a pure function of the tree and the starting scope: two
/// runs over equal scopes yield equal outcomes, value and final scope
/// alike — no hidden state takes part.
pub proof fn lemma_eval_deterministic(
    a: AstView,
    env1: Map<Seq<char>, i32>,
    env2: Map<Seq<char>, i32>,
)
    requires
        env1 == env2,
    ensures
        spec_eval(a, env1) == spec_eval(a, env2),
{
}

/// Evaluates one tree against the scope, which is mutated in place.  The
/// result, the mutation, and every fault are exactly what `spec_eval`
/// says of the tree's view and the scope's starting map.
pub fn interpret(ast: &AST, scope: &mut Scope) -> (r: Result<i32, EvalError>)
    requires
        old(scope).wf(),
    ensures
        final(scope).wf(),
        (match spec_eval(ast_view(*ast), old(scope)@) {
            Ok((v, env)) => r matches Ok(x) && x == v && final(scope)@ == env,
            Err((e, env)) => r matches Err(err) && err@ == e && final(scope)@ == env,
        }),
    decreases *ast,
{
    match ast {
        AST::Number { token: _, value } => Ok(to_signed(*value)),
        AST::UnaryOp { token: _, op, expr } => {
            let v = match interpret(expr, scope) {
                Ok(v) => v,
                Err(e) => {
                    return Err(e);
                },
            };
            match op {
                UnaryOp::Plus => Ok(v),
                UnaryOp::Minus => Ok(0i32.wrapping_sub(v)),
            }
        },
        AST::BinaryOp { token: _, lhs, op, rhs } => {
            let v1 = match interpret(lhs, scope) {
                Ok(v) => v,
                Err(e) => {
                    return Err(e);
                },
            };
            let v2 = match interpret(rhs, scope) {
                Ok(v) => v,
                Err(e) => {
                    return Err(e);
                },
            };
            match op {
                BinaryOp::Plus => Ok(v1.wrapping_add(v2)),
                BinaryOp::Minus => Ok(v1.wrapping_sub(v2)),
                BinaryOp::Multiply => Ok(v1.wrapping_mul(v2)),
                BinaryOp::Divide => {
                    if v2 == 0 {
                        Err(EvalError::DivisionByZero)
                    } else {
                        match v1.checked_div(v2) {
                            Some(v) => Ok(v),
                            None => Ok(i32::MIN),
                        }
                    }
                },
            }
        },
        AST::Variable { token: _, value } => {
            match scope.get(value.as_str()) {
                Some(v) => Ok(v),
                None => Err(EvalError::UndefinedVariable { name: value.clone() }),
            }
        },
        AST::Assign { token: _, left, right } => {
            let v = match interpret(right, scope) {
                Ok(v) => v,
                Err(e) => {
                    return Err(e);
                },
            };
            scope.assign(left.as_str(), v);
            Ok(v)
        },
        AST::Compound { children } => {
            let ghost cv = asts_view(children@);
            let ghost env0 = scope@;
            let n = children.len();
            let mut result: i32 = 0;
            let mut i: usize = 0;
            proof {
                assert(cv.skip(0) =~= cv);
            }
            while i < n
                invariant
                    scope.wf(),
                    ast matches AST::Compound { children: cs } && cs == children,
                    n == children@.len(),
                    cv == asts_view(children@),
                    env0 == old(scope)@,
                    i <= n,
                    (if i == n {
                        spec_eval_stmts(cv, env0) == Ok::<
                            (i32, Map<Seq<char>, i32>),
                            (EvalErrorView, Map<Seq<char>, i32>),
                        >((result, scope@))
                    } else {
                        spec_eval_stmts(cv, env0) == spec_eval_stmts(cv.skip(i as int), scope@)
                    }),
                decreases n - i,
            {
                proof {
                    crate::ast::lemma_asts_view(children@);
                    assert(cv.skip(i as int)[0] == cv[i as int]);
                    assert(cv.skip(i as int).drop_first() =~= cv.skip(i as int + 1));
                    assert(decreases_to!(*ast => *children));
                    assert(decreases_to!(*children => children@));
                    assert(decreases_to!(children@ => children@[i as int]));
                }
                let v = match interpret(&children[i], scope) {
                    Ok(v) => v,
                    Err(e) => {
                        return Err(e);
                    },
                };
                result = v;
                i = i + 1;
            }
            Ok(result)
        },
    }
}

} // verus!



