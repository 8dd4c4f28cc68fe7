//! The static resolver: one pass over the syntax tree, ahead of execution,
//! that checks the scoping rules and records for each variable reference how
//! many scopes lie between it and its binding.
use crate::ast::{ElifBranch, Expr, Stmt, Token};
use std::collections::HashMap;
use vstd::prelude::*;

verus! {

/// Whether the resolver is inside a function body.
#[derive(Clone, Copy, PartialEq, Eq, Structural, Debug)]
pub enum FunctionType {
    Outside,
    Function,
}

/// Whether the resolver is inside a loop body.
#[derive(Clone, Copy, PartialEq, Eq, Structural, Debug)]
pub enum LoopType {
    Outside,
    Loop,
}

/// Why a program was refused before it ran.
#[derive(Clone, Copy, PartialEq, Eq, Structural, Debug)]
pub enum ResolveError {
    /// A name declared twice in one scope.
    Redeclared,
    /// A local read inside its own initializer.
    ReadInOwnInitializer,
    /// `return` outside any function body.
    ReturnOutsideFunction,
    /// `break` outside any loop body.
    BreakOutsideLoop,
    /// A class member that is not a function declaration.
    NotAMethod,
}

impl ResolveError {
    pub fn message(&self) -> (r: String)
        ensures
            *self == ResolveError::Redeclared ==> r@ == "A variable with this name is already in scope"@,
            *self == ResolveError::ReadInOwnInitializer ==> r@ == "Can't read local variable in its own initializer"@,
            *self == ResolveError::ReturnOutsideFunction ==> r@ == "Return statement is not allowed outside of a function"@,
            *self == ResolveError::BreakOutsideLoop ==> r@ == "Break statement is not allowed outside of a loop"@,
            *self == ResolveError::NotAMethod ==> r@ == "Something that was not a function was in the methods of a class"@,
    {
        proof {
            reveal_strlit("A variable with this name is already in scope");
            reveal_strlit("Can't read local variable in its own initializer");
            reveal_strlit("Return statement is not allowed outside of a function");
            reveal_strlit("Break statement is not allowed outside of a loop");
            reveal_strlit("Something that was not a function was in the methods of a class");
        }
        match self {
            ResolveError::Redeclared => "A variable with this name is already in scope".to_string(),
            ResolveError::ReadInOwnInitializer => "Can't read local variable in its own initializer".to_string(),
            ResolveError::ReturnOutsideFunction => "Return statement is not allowed outside of a function".to_string(),
            ResolveError::BreakOutsideLoop => "Break statement is not allowed outside of a loop".to_string(),
            ResolveError::NotAMethod => "Something that was not a function was in the methods of a class".to_string(),
        }
    }
}

/// The resolver's state as a mathematical value: the scope stack (innermost
/// last), each scope mapping a name to whether its initializer has finished;
/// the enclosing function and loop kinds; the distances found so far.
pub struct ResolveState {
    pub scopes: Seq<Map<Seq<char>, bool>>,
    pub function: FunctionType,
    pub looping: LoopType,
    pub locals: Map<usize, usize>,
}

pub type Outcome = Result<ResolveState, ResolveError>;

/// The state in which a program is resolved: no scope open (globals are
/// found by name at run time), outside any function or loop.
pub open spec fn initial_state() -> ResolveState {
    ResolveState {
        scopes: Seq::empty(),
        function: FunctionType::Outside,
        looping: LoopType::Outside,
        locals: Map::empty(),
    }
}

/// The scope that a list of entries stands for: a later entry for a name
/// overrides an earlier one.
pub open spec fn scope_map(s: Seq<(String, bool)>) -> Map<Seq<char>, bool>
    decreases s.len(),
{
    if s.len() == 0 {
        Map::empty()
    } else {
        scope_map(s.drop_last()).insert(s.last().0@, s.last().1)
    }
}

pub open spec fn push_scope(st: ResolveState) -> ResolveState {
    ResolveState { scopes: st.scopes.push(Map::empty()), ..st }
}

pub open spec fn pop_scope(st: ResolveState) -> ResolveState {
    if st.scopes.len() == 0 {
        st
    } else {
        ResolveState { scopes: st.scopes.drop_last(), ..st }
    }
}

/// Declaring a name: nothing at global level; an error if the innermost scope
/// already holds it; otherwise the name enters it, not yet ready.
pub open spec fn declare_spec(st: ResolveState, name: Seq<char>) -> Outcome {
    if st.scopes.len() == 0 {
        Ok(st)
    } else if st.scopes.last().contains_key(name) {
        Err(ResolveError::Redeclared)
    } else {
        Ok(
            ResolveState {
                scopes: st.scopes.update(st.scopes.len() - 1, st.scopes.last().insert(name, false)),
                ..st
            },
        )
    }
}

/// Defining a name: it becomes ready in the innermost scope.
pub open spec fn define_spec(st: ResolveState, name: Seq<char>) -> ResolveState {
    if st.scopes.len() == 0 {
        st
    } else {
        ResolveState {
            scopes: st.scopes.update(st.scopes.len() - 1, st.scopes.last().insert(name, true)),
            ..st
        }
    }
}

/// How many scopes, counted from the innermost, lie before the first one
/// that holds `name`; none where no open scope holds it.
pub open spec fn scope_distance(scopes: Seq<Map<Seq<char>, bool>>, name: Seq<char>) -> Option<nat>
    decreases scopes.len(),
{
    if scopes.len() == 0 {
        None
    } else if scopes.last().contains_key(name) {
        Some(0)
    } else {
        match scope_distance(scopes.drop_last(), name) {
            Some(d) => Some(d + 1),
            None => None,
        }
    }
}

/// Recording the distance of the reference `id` to `name`, where one exists.
pub open spec fn resolve_local_spec(st: ResolveState, name: Seq<char>, id: usize) -> ResolveState {
    match scope_distance(st.scopes, name) {
        Some(d) => ResolveState { locals: st.locals.insert(id, d as usize), ..st },
        None => st,
    }
}

pub open spec fn declare_params_spec(st: ResolveState, params: Seq<Token>) -> Outcome
    decreases params.len(),
{
    if params.len() == 0 {
        Ok(st)
    } else {
        match declare_spec(st, params[0].lexeme@) {
            Ok(s1) => declare_params_spec(
                define_spec(s1, params[0].lexeme@),
                params.subrange(1, params.len() as int),
            ),
            Err(e) => Err(e),
        }
    }
}

/// A function body: a new scope holding the parameters, the body resolved
/// with the given function kind, then the scope closed and the kind restored.
pub open spec fn resolve_function_spec(
    st: ResolveState,
    params: Seq<Token>,
    body: Seq<Stmt>,
    kind: FunctionType,
) -> Outcome
    decreases body, 2nat,
{
    let inner = push_scope(ResolveState { function: kind, ..st });
    match declare_params_spec(inner, params) {
        Ok(s1) => match resolve_stmts_spec(s1, body) {
            Ok(s2) => Ok(ResolveState { function: st.function, ..pop_scope(s2) }),
            Err(e) => Err(e),
        },
        Err(e) => Err(e),
    }
}

pub open spec fn resolve_expr_spec(st: ResolveState, e: Expr) -> Outcome
    decreases e, 0nat,
{
    match e {
        Expr::Variable { id, name } => {
            if st.scopes.len() > 0 && st.scopes.last().contains_key(name.lexeme@)
                && !st.scopes.last()[name.lexeme@] {
                Err(ResolveError::ReadInOwnInitializer)
            } else {
                Ok(resolve_local_spec(st, name.lexeme@, id))
            }
        },
        Expr::Assign { id, name, value } => match resolve_expr_spec(st, *value) {
            Ok(s1) => Ok(resolve_local_spec(s1, name.lexeme@, id)),
            Err(x) => Err(x),
        },
        Expr::Array { elements, .. } => resolve_exprs_spec(st, elements@),
        Expr::Binary { left, right, .. } => match resolve_expr_spec(st, *left) {
            Ok(s1) => resolve_expr_spec(s1, *right),
            Err(x) => Err(x),
        },
        Expr::Logical { left, right, .. } => match resolve_expr_spec(st, *left) {
            Ok(s1) => resolve_expr_spec(s1, *right),
            Err(x) => Err(x),
        },
        Expr::Call { callee, arguments, .. } => match resolve_expr_spec(st, *callee) {
            Ok(s1) => resolve_exprs_spec(s1, arguments@),
            Err(x) => Err(x),
        },
        Expr::Get { object, .. } => resolve_expr_spec(st, *object),
        Expr::Grouping { expression, .. } => resolve_expr_spec(st, *expression),
        Expr::Literal { .. } => Ok(st),
        Expr::SetField { object, value, .. } => match resolve_expr_spec(st, *value) {
            Ok(s1) => resolve_expr_spec(s1, *object),
            Err(x) => Err(x),
        },
        Expr::Unary { right, .. } => resolve_expr_spec(st, *right),
        Expr::AnonFunction { arguments, body, .. } => resolve_function_spec(
            st,
            arguments@,
            body@,
            FunctionType::Function,
        ),
    }
}

pub open spec fn resolve_exprs_spec(st: ResolveState, es: Seq<Expr>) -> Outcome
    decreases es, 1nat,
{
    if es.len() == 0 {
        Ok(st)
    } else {
        match resolve_expr_spec(st, es[0]) {
            Ok(s1) => resolve_exprs_spec(s1, es.subrange(1, es.len() as int)),
            Err(x) => Err(x),
        }
    }
}

pub open spec fn resolve_elifs_spec(st: ResolveState, bs: Seq<ElifBranch>) -> Outcome
    decreases bs, 1nat,
{
    if bs.len() == 0 {
        Ok(st)
    } else {
        match resolve_expr_spec(st, bs[0].predicate) {
            Ok(s1) => match resolve_stmt_spec(s1, *bs[0].body) {
                Ok(s2) => resolve_elifs_spec(s2, bs.subrange(1, bs.len() as int)),
                Err(x) => Err(x),
            },
            Err(x) => Err(x),
        }
    }
}

/// Class members: each must be a function declaration, whose body is
/// resolved as a function body (the method name itself is not declared).
pub open spec fn resolve_methods_spec(st: ResolveState, ms: Seq<Stmt>) -> Outcome
    decreases ms, 1nat,
{
    if ms.len() == 0 {
        Ok(st)
    } else {
        let first = match ms[0] {
            Stmt::Function { params, body, .. } => resolve_function_spec(
                st,
                params@,
                body@,
                FunctionType::Function,
            ),
            _ => Err(ResolveError::NotAMethod),
        };
        match first {
            Ok(s1) => resolve_methods_spec(s1, ms.subrange(1, ms.len() as int)),
            Err(x) => Err(x),
        }
    }
}

/// Declare and define one name in the innermost scope.
pub open spec fn bind_spec(st: ResolveState, name: Seq<char>) -> Outcome {
    match declare_spec(st, name) {
        Ok(s1) => Ok(define_spec(s1, name)),
        Err(x) => Err(x),
    }
}

pub open spec fn resolve_stmt_spec(st: ResolveState, s: Stmt) -> Outcome
    decreases s, 0nat,
{
    match s {
        Stmt::Block { statements } => match resolve_stmts_spec(push_scope(st), statements@) {
            Ok(s1) => Ok(pop_scope(s1)),
            Err(x) => Err(x),
        },
        Stmt::Var { name, initializer } => match declare_spec(st, name.lexeme@) {
            Ok(s1) => match resolve_expr_spec(s1, initializer) {
                Ok(s2) => Ok(define_spec(s2, name.lexeme@)),
                Err(x) => Err(x),
            },
            Err(x) => Err(x),
        },
        Stmt::Function { name, params, body } => match bind_spec(st, name.lexeme@) {
            Ok(s1) => resolve_function_spec(s1, params@, body@, FunctionType::Function),
            Err(x) => Err(x),
        },
        Stmt::CmdFunction { name, .. } => bind_spec(st, name.lexeme@),
        Stmt::Expression { expression } => resolve_expr_spec(st, expression),
        Stmt::Print { expression } => resolve_expr_spec(st, expression),
        Stmt::Input { expression } => resolve_expr_spec(st, expression),
        Stmt::Errors { expression } => resolve_expr_spec(st, expression),
        Stmt::Import { expression } => resolve_expr_spec(st, expression),
        Stmt::Class { methods, superclass, .. } => {
            let s0 = match superclass {
                Some(sc) => resolve_expr_spec(st, sc),
                None => Ok(st),
            };
            match s0 {
                Ok(s1) => resolve_methods_spec(s1, methods@),
                Err(x) => Err(x),
            }
        },
        Stmt::IfStmt { predicate, then, elif_branches, els } => match resolve_expr_spec(
            st,
            predicate,
        ) {
            Ok(s1) => match resolve_stmt_spec(s1, *then) {
                Ok(s2) => match resolve_elifs_spec(s2, elif_branches@) {
                    Ok(s3) => match els {
                        Some(b) => resolve_stmt_spec(s3, *b),
                        None => Ok(s3),
                    },
                    Err(x) => Err(x),
                },
                Err(x) => Err(x),
            },
            Err(x) => Err(x),
        },
        Stmt::IfShortStmt { predicate, then, els } => match resolve_expr_spec(st, predicate) {
            Ok(s1) => match resolve_stmt_spec(s1, *then) {
                Ok(s2) => match els {
                    Some(b) => resolve_stmt_spec(s2, *b),
                    None => Ok(s2),
                },
                Err(x) => Err(x),
            },
            Err(x) => Err(x),
        },
        Stmt::ReturnStmt { value, .. } => {
            if st.function == FunctionType::Outside {
                Err(ResolveError::ReturnOutsideFunction)
            } else {
                match value {
                    Some(v) => resolve_expr_spec(st, v),
                    None => Ok(st),
                }
            }
        },
        Stmt::WhileStmt { condition, body } => match resolve_expr_spec(st, condition) {
            Ok(s1) => match resolve_stmt_spec(ResolveState { looping: LoopType::Loop, ..s1 }, *body) {
                Ok(s2) => Ok(ResolveState { looping: s1.looping, ..s2 }),
                Err(x) => Err(x),
            },
            Err(x) => Err(x),
        },
        Stmt::WaitStmt { time, body, before } => match resolve_expr_spec(st, time) {
            Ok(s1) => match resolve_stmt_spec(s1, *body) {
                Ok(s2) => match before {
                    Some(bb) => match resolve_expr_spec(s2, bb.time) {
                        Ok(s3) => resolve_stmt_spec(s3, *bb.body),
                        Err(x) => Err(x),
                    },
                    None => Ok(s2),
                },
                Err(x) => Err(x),
            },
            Err(x) => Err(x),
        },
        Stmt::BreakStmt { .. } => {
            if st.looping == LoopType::Outside {
                Err(ResolveError::BreakOutsideLoop)
            } else {
                Ok(st)
            }
        },
        Stmt::BenchStmt { body } => resolve_stmt_spec(st, *body),
        Stmt::Exits => Ok(st),
    }
}

pub open spec fn resolve_stmts_spec(st: ResolveState, ss: Seq<Stmt>) -> Outcome
    decreases ss, 1nat,
{
    if ss.len() == 0 {
        Ok(st)
    } else {
        match resolve_stmt_spec(st, ss[0]) {
            Ok(s1) => resolve_stmts_spec(s1, ss.subrange(1, ss.len() as int)),
            Err(x) => Err(x),
        }
    }
}


/// The scope stacks have the same depth and agree on every scope but the
/// innermost.
pub open spec fn outer_kept(a: Seq<Map<Seq<char>, bool>>, b: Seq<Map<Seq<char>, bool>>) -> bool {
    a.len() == b.len() && (a.len() > 0 ==> a.drop_last() == b.drop_last())
}

proof fn lemma_update_last(s: Seq<Map<Seq<char>, bool>>, m: Map<Seq<char>, bool>)
    requires
        s.len() > 0,
    ensures
        outer_kept(s.update(s.len() - 1, m), s),
{
    assert(s.update(s.len() - 1, m).drop_last() =~= s.drop_last());
}

proof fn lemma_declare_keeps(st: ResolveState, name: Seq<char>)
    ensures
        declare_spec(st, name) is Ok ==> outer_kept(declare_spec(st, name)->Ok_0.scopes, st.scopes),
        outer_kept(define_spec(st, name).scopes, st.scopes),
{
    if st.scopes.len() > 0 {
        lemma_update_last(st.scopes, st.scopes.last().insert(name, false));
        lemma_update_last(st.scopes, st.scopes.last().insert(name, true));
    }
}

proof fn lemma_params_keep(st: ResolveState, params: Seq<Token>)
    ensures
        declare_params_spec(st, params) is Ok ==> outer_kept(declare_params_spec(st, params)->Ok_0.scopes, st.scopes),
    decreases params.len(),
{
    if params.len() > 0 {
        lemma_declare_keeps(st, params[0].lexeme@);
        if let Ok(s1) = declare_spec(st, params[0].lexeme@) {
            lemma_declare_keeps(s1, params[0].lexeme@);
            lemma_params_keep(define_spec(s1, params[0].lexeme@), params.subrange(1, params.len() as int));
        }
    }
}

proof fn lemma_function_keeps(st: ResolveState, params: Seq<Token>, body: Seq<Stmt>, kind: FunctionType)
    ensures
        resolve_function_spec(st, params, body, kind) is Ok ==> resolve_function_spec(st, params, body, kind)->Ok_0.scopes == st.scopes,
    decreases body, 2nat,
{
    let inner = push_scope(ResolveState { function: kind, ..st });
    lemma_params_keep(inner, params);
    if let Ok(s1) = declare_params_spec(inner, params) {
        lemma_stmts_keep(s1, body);
        assert(inner.scopes.drop_last() =~= st.scopes);
    }
}

proof fn lemma_expr_keeps(st: ResolveState, e: Expr)
    ensures
        resolve_expr_spec(st, e) is Ok ==> resolve_expr_spec(st, e)->Ok_0.scopes == st.scopes,
    decreases e, 0nat,
{
    match e {
        Expr::Assign { value, .. } => lemma_expr_keeps(st, *value),
        Expr::Array { elements, .. } => lemma_exprs_keep(st, elements@),
        Expr::Binary { left, right, .. } => {
            lemma_expr_keeps(st, *left);
            if let Ok(s1) = resolve_expr_spec(st, *left) {
                lemma_expr_keeps(s1, *right);
            }
        },
        Expr::Logical { left, right, .. } => {
            lemma_expr_keeps(st, *left);
            if let Ok(s1) = resolve_expr_spec(st, *left) {
                lemma_expr_keeps(s1, *right);
            }
        },
        Expr::Call { callee, arguments, .. } => {
            lemma_expr_keeps(st, *callee);
            if let Ok(s1) = resolve_expr_spec(st, *callee) {
                lemma_exprs_keep(s1, arguments@);
            }
        },
        Expr::Get { object, .. } => lemma_expr_keeps(st, *object),
        Expr::Grouping { expression, .. } => lemma_expr_keeps(st, *expression),
        Expr::SetField { object, value, .. } => {
            lemma_expr_keeps(st, *value);
            if let Ok(s1) = resolve_expr_spec(st, *value) {
                lemma_expr_keeps(s1, *object);
            }
        },
        Expr::Unary { right, .. } => lemma_expr_keeps(st, *right),
        Expr::AnonFunction { arguments, body, .. } => lemma_function_keeps(
            st,
            arguments@,
            body@,
            FunctionType::Function,
        ),
        _ => {},
    }
}

proof fn lemma_exprs_keep(st: ResolveState, es: Seq<Expr>)
    ensures
        resolve_exprs_spec(st, es) is Ok ==> resolve_exprs_spec(st, es)->Ok_0.scopes == st.scopes,
    decreases es, 1nat,
{
    if es.len() > 0 {
        lemma_expr_keeps(st, es[0]);
        if let Ok(s1) = resolve_expr_spec(st, es[0]) {
            lemma_exprs_keep(s1, es.subrange(1, es.len() as int));
        }
    }
}

proof fn lemma_elifs_keep(st: ResolveState, bs: Seq<ElifBranch>)
    ensures
        resolve_elifs_spec(st, bs) is Ok ==> outer_kept(resolve_elifs_spec(st, bs)->Ok_0.scopes, st.scopes),
    decreases bs, 1nat,
{
    if bs.len() > 0 {
        lemma_expr_keeps(st, bs[0].predicate);
        if let Ok(s1) = resolve_expr_spec(st, bs[0].predicate) {
            lemma_stmt_keeps(s1, *bs[0].body);
            if let Ok(s2) = resolve_stmt_spec(s1, *bs[0].body) {
                lemma_elifs_keep(s2, bs.subrange(1, bs.len() as int));
            }
        }
    }
}

proof fn lemma_methods_keep(st: ResolveState, ms: Seq<Stmt>)
    ensures
        resolve_methods_spec(st, ms) is Ok ==> resolve_methods_spec(st, ms)->Ok_0.scopes == st.scopes,
    decreases ms, 1nat,
{
    if ms.len() > 0 {
        if let Stmt::Function { params, body, .. } = ms[0] {
            lemma_function_keeps(st, params@, body@, FunctionType::Function);
            if let Ok(s1) = resolve_function_spec(st, params@, body@, FunctionType::Function) {
                lemma_methods_keep(s1, ms.subrange(1, ms.len() as int));
            }
        }
    }
}

proof fn lemma_stmts_keep(st: ResolveState, ss: Seq<Stmt>)
    ensures
        resolve_stmts_spec(st, ss) is Ok ==> outer_kept(resolve_stmts_spec(st, ss)->Ok_0.scopes, st.scopes),
    decreases ss, 1nat,
{
    if ss.len() > 0 {
        lemma_stmt_keeps(st, ss[0]);
        if let Ok(s1) = resolve_stmt_spec(st, ss[0]) {
            lemma_stmts_keep(s1, ss.subrange(1, ss.len() as int));
        }
    }
}

proof fn lemma_stmt_keeps(st: ResolveState, s: Stmt)
    ensures
        resolve_stmt_spec(st, s) is Ok ==> outer_kept(resolve_stmt_spec(st, s)->Ok_0.scopes, st.scopes),
    decreases s, 0nat,
{
    match s {
        Stmt::Block { statements } => {
            lemma_stmts_keep(push_scope(st), statements@);
            assert(push_scope(st).scopes.drop_last() =~= st.scopes);
        },
        Stmt::Var { name, initializer } => {
            lemma_declare_keeps(st, name.lexeme@);
            if let Ok(s1) = declare_spec(st, name.lexeme@) {
                lemma_expr_keeps(s1, initializer);
                if let Ok(s2) = resolve_expr_spec(s1, initializer) {
                    lemma_declare_keeps(s2, name.lexeme@);
                }
            }
        },
        Stmt::Function { name, params, body } => {
            lemma_declare_keeps(st, name.lexeme@);
            if let Ok(s1) = declare_spec(st, name.lexeme@) {
                lemma_declare_keeps(s1, name.lexeme@);
                lemma_function_keeps(define_spec(s1, name.lexeme@), params@, body@, FunctionType::Function);
            }
        },
        Stmt::CmdFunction { name, .. } => {
            lemma_declare_keeps(st, name.lexeme@);
            if let Ok(s1) = declare_spec(st, name.lexeme@) {
                lemma_declare_keeps(s1, name.lexeme@);
            }
        },
        Stmt::Expression { expression } => lemma_expr_keeps(st, expression),
        Stmt::Print { expression } => lemma_expr_keeps(st, expression),
        Stmt::Input { expression } => lemma_expr_keeps(st, expression),
        Stmt::Errors { expression } => lemma_expr_keeps(st, expression),
        Stmt::Import { expression } => lemma_expr_keeps(st, expression),
        Stmt::Class { methods, superclass, .. } => {
            match superclass {
                Some(sc) => {
                    lemma_expr_keeps(st, sc);
                    if let Ok(s1) = resolve_expr_spec(st, sc) {
                        lemma_methods_keep(s1, methods@);
                    }
                },
                None => lemma_methods_keep(st, methods@),
            }
        },
        Stmt::IfStmt { predicate, then, elif_branches, els } => {
            lemma_expr_keeps(st, predicate);
            if let Ok(s1) = resolve_expr_spec(st, predicate) {
                lemma_stmt_keeps(s1, *then);
                if let Ok(s2) = resolve_stmt_spec(s1, *then) {
                    lemma_elifs_keep(s2, elif_branches@);
                    if let Ok(s3) = resolve_elifs_spec(s2, elif_branches@) {
                        if let Some(b) = els {
                            lemma_stmt_keeps(s3, *b);
                        }
                    }
                }
            }
        },
        Stmt::IfShortStmt { predicate, then, els } => {
            lemma_expr_keeps(st, predicate);
            if let Ok(s1) = resolve_expr_spec(st, predicate) {
                lemma_stmt_keeps(s1, *then);
                if let Ok(s2) = resolve_stmt_spec(s1, *then) {
                    if let Some(b) = els {
                        lemma_stmt_keeps(s2, *b);
                    }
                }
            }
        },
        Stmt::ReturnStmt { value, .. } => {
            if let Some(v) = value {
                lemma_expr_keeps(st, v);
            }
        },
        Stmt::WhileStmt { condition, body } => {
            lemma_expr_keeps(st, condition);
            if let Ok(s1) = resolve_expr_spec(st, condition) {
                lemma_stmt_keeps(ResolveState { looping: LoopType::Loop, ..s1 }, *body);
            }
        },
        Stmt::WaitStmt { time, body, before } => {
            lemma_expr_keeps(st, time);
            if let Ok(s1) = resolve_expr_spec(st, time) {
                lemma_stmt_keeps(s1, *body);
                if let Ok(s2) = resolve_stmt_spec(s1, *body) {
                    if let Some(bb) = before {
                        lemma_expr_keeps(s2, bb.time);
                        if let Ok(s3) = resolve_expr_spec(s2, bb.time) {
                            lemma_stmt_keeps(s3, *bb.body);
                        }
                    }
                }
            }
        },
        Stmt::BenchStmt { body } => lemma_stmt_keeps(st, *body),
        _ => {},
    }
}

/// A reference to a name that no scope opened after its declaration
/// shadows is given, as its distance, the number of scopes opened since the
/// declaring one; a reference to a name that no open scope declares is given
/// none.
pub proof fn law_distance_counts_scopes(st: ResolveState, id: usize, name: Token, k: int)
    requires
        -1 <= k < st.scopes.len(),
        k >= 0 ==> st.scopes[k].contains_key(name.lexeme@),
        forall|j: int| k < j < st.scopes.len() ==> !(#[trigger] st.scopes[j]).contains_key(name.lexeme@),
        k == st.scopes.len() - 1 ==> st.scopes[k][name.lexeme@],
    ensures
        resolve_expr_spec(st, Expr::Variable { id, name }) == Ok::<ResolveState, ResolveError>(
            if k >= 0 {
                ResolveState { locals: st.locals.insert(id, (st.scopes.len() - 1 - k) as usize), ..st }
            } else {
                st
            },
        ),
{
    lemma_scope_distance(st.scopes, name.lexeme@, k);
}

/// The name a statement declares in the scope where it stands.
pub open spec fn declared_name(s: Stmt) -> Option<Seq<char>> {
    match s {
        Stmt::Var { name, .. } => Some(name.lexeme@),
        Stmt::Function { name, .. } => Some(name.lexeme@),
        Stmt::CmdFunction { name, .. } => Some(name.lexeme@),
        _ => None,
    }
}

/// Two declarations of one name (variables, functions or command functions)
/// at the head of a block: resolving the block fails, with the redeclaration
/// unless the first declaration already broke a rule.
pub proof fn law_redeclaration_in_block_fails(st: ResolveState, block: Stmt)
    requires
        block is Block,
        block->Block_statements@.len() >= 2,
        declared_name(block->Block_statements@[0]) is Some,
        declared_name(block->Block_statements@[0]) == declared_name(block->Block_statements@[1]),
    ensures
        resolve_stmt_spec(st, block) is Err,
        resolve_stmt_spec(push_scope(st), block->Block_statements@[0]) is Ok ==> resolve_stmt_spec(
            st,
            block,
        ) == Err::<ResolveState, ResolveError>(ResolveError::Redeclared),
{
    let ss = block->Block_statements@;
    let n = declared_name(ss[0])->Some_0;
    let s0 = push_scope(st);
    assert(s0.scopes.last() == Map::<Seq<char>, bool>::empty());
    match ss[0] {
        Stmt::Var { initializer, .. } => {
            lemma_expr_keeps(declare_spec(s0, n)->Ok_0, initializer);
        },
        Stmt::Function { params, body, .. } => {
            let s2 = define_spec(declare_spec(s0, n)->Ok_0, n);
            lemma_function_keeps(s2, params@, body@, FunctionType::Function);
        },
        _ => {},
    }
    if let Ok(s1) = resolve_stmt_spec(s0, ss[0]) {
        assert(s1.scopes.len() > 0 && s1.scopes.last().contains_key(n));
        let rest = ss.subrange(1, ss.len() as int);
        assert(rest[0] == ss[1]);
        assert(resolve_stmt_spec(s1, rest[0]) == Err::<ResolveState, ResolveError>(ResolveError::Redeclared));
        assert(resolve_stmts_spec(s1, rest) == Err::<ResolveState, ResolveError>(ResolveError::Redeclared));
        assert(resolve_stmts_spec(s0, ss) == Err::<ResolveState, ResolveError>(ResolveError::Redeclared));
    } else {
        assert(resolve_stmts_spec(s0, ss) is Err);
    }
}

/// Whether a step ended as the model says: on success the state is the
/// model's, on failure the error is the model's.
pub open spec fn outcome_matches(o: Outcome, r: Result<(), ResolveError>, after: ResolveState) -> bool {
    match o {
        Ok(s) => r is Ok && after == s,
        Err(e) => r == Err::<(), ResolveError>(e),
    }
}

pub struct Resolver {
    scopes: Vec<Vec<(String, bool)>>,
    current_function: FunctionType,
    current_loop: LoopType,
    locals: HashMap<usize, usize>,
}

impl View for Resolver {
    type V = ResolveState;

    closed spec fn view(&self) -> ResolveState {
        ResolveState {
            scopes: self.scopes@.map_values(|s: Vec<(String, bool)>| scope_map(s@)),
            function: self.current_function,
            looping: self.current_loop,
            locals: self.locals@,
        }
    }
}

proof fn lemma_scope_distance(scopes: Seq<Map<Seq<char>, bool>>, name: Seq<char>, k: int)
    requires
        -1 <= k < scopes.len(),
        forall|j: int| k < j < scopes.len() ==> !(#[trigger] scopes[j]).contains_key(name),
        k >= 0 ==> scopes[k].contains_key(name),
    ensures
        scope_distance(scopes, name) == (if k >= 0 {
            Some((scopes.len() - 1 - k) as nat)
        } else {
            None::<nat>
        }),
    decreases scopes.len(),
{
    if scopes.len() > 0 && k < scopes.len() - 1 {
        let rest = scopes.drop_last();
        assert forall|j: int| k < j < rest.len() implies !(#[trigger] rest[j]).contains_key(name) by {
            assert(rest[j] == scopes[j]);
        }
        lemma_scope_distance(rest, name, k);
    }
}

/// Looks a name up in one scope: whether it is there, and if so whether it
/// is ready.
fn lookup_in_scope(scope: &Vec<(String, bool)>, name: &String) -> (r: Option<bool>)
    ensures
        r == (if scope_map(scope@).contains_key(name@) {
            Some(scope_map(scope@)[name@])
        } else {
            None::<bool>
        }),
{
    let mut r: Option<bool> = None;
    let mut i: usize = 0;
    while i < scope.len()
        invariant
            i <= scope.len(),
            r == (if scope_map(scope@.take(i as int)).contains_key(name@) {
                Some(scope_map(scope@.take(i as int))[name@])
            } else {
                None::<bool>
            }),
        decreases scope.len() - i,
    {
        proof {
            assert(scope@.take(i + 1).drop_last() =~= scope@.take(i as int));
        }
        if scope[i].0 == *name {
            r = Some(scope[i].1);
        }
        i += 1;
    }
    proof {
        assert(scope@.take(scope.len() as int) =~= scope@);
    }
    r
}

impl Resolver {
    pub fn new() -> (r: Self)
        ensures
            r@ == initial_state(),
    {
        let r = Self {
            scopes: Vec::new(),
            current_function: FunctionType::Outside,
            current_loop: LoopType::Outside,
            locals: HashMap::new(),
        };
        proof {
            assert(r@.scopes =~= Seq::<Map<Seq<char>, bool>>::empty());
        }
        r
    }

    /// Resolves a whole program: the distance of every reference bound in a
    /// local scope, or the first scoping rule that the program breaks.
    pub fn resolve(self, stmts: &Vec<Stmt>) -> (r: Result<HashMap<usize, usize>, ResolveError>)
        ensures
            match resolve_stmts_spec(self@, stmts@) {
                Ok(st) => r is Ok && r->Ok_0@ == st.locals,
                Err(e) => r == Err::<HashMap<usize, usize>, ResolveError>(e),
            },
    {
        let mut resolver = self;
        match resolver.resolve_many(stmts) {
            Ok(()) => Ok(resolver.locals),
            Err(e) => Err(e),
        }
    }

    /// Puts `name` with the given readiness into the innermost scope.
    fn push_entry(&mut self, name: String, ready: bool)
        requires
            old(self).scopes.len() > 0,
        ensures
            final(self)@ == (ResolveState {
                scopes: old(self)@.scopes.update(
                    old(self)@.scopes.len() - 1,
                    old(self)@.scopes.last().insert(name@, ready),
                ),
                ..old(self)@
            }),
    {
        let ghost old_top = self.scopes@.last();
        let mut top = self.scopes.pop().unwrap();
        top.push((name, ready));
        proof {
            assert(top@.drop_last() =~= old_top@);
        }
        self.scopes.push(top);
        proof {
            assert(self@.scopes =~= old(self)@.scopes.update(
                old(self)@.scopes.len() - 1,
                old(self)@.scopes.last().insert(name@, ready),
            ));
        }
    }

    fn begin_scope(&mut self)
        ensures
            final(self)@ == push_scope(old(self)@),
    {
        self.scopes.push(Vec::new());
        proof {
            assert(self@.scopes =~= old(self)@.scopes.push(Map::empty()));
        }
    }

    fn end_scope(&mut self)
        requires
            old(self)@.scopes.len() > 0,
        ensures
            final(self)@ == pop_scope(old(self)@),
    {
        let _closed = self.scopes.pop();
        proof {
            if old(self).scopes.len() > 0 {
                assert(self@.scopes =~= old(self)@.scopes.drop_last());
            }
        }
    }

    fn declare(&mut self, name: &Token) -> (r: Result<(), ResolveError>)
        ensures
            outcome_matches(declare_spec(old(self)@, name.lexeme@), r, final(self)@),
    {
        let size = self.scopes.len();
        if size == 0 {
            return Ok(());
        }
        if lookup_in_scope(&self.scopes[size - 1], &name.lexeme).is_some() {
            return Err(ResolveError::Redeclared);
        }
        self.push_entry(name.lexeme.clone(), false);
        Ok(())
    }

    fn define(&mut self, name: &Token)
        ensures
            final(self)@ == define_spec(old(self)@, name.lexeme@),
    {
        if self.scopes.len() == 0 {
            return ;
        }
        self.push_entry(name.lexeme.clone(), true);
    }

    fn resolve_local(&mut self, name: &Token, resolve_id: usize)
        ensures
            final(self)@ == resolve_local_spec(old(self)@, name.lexeme@, resolve_id),
    {
        let size = self.scopes.len();
        let mut i: usize = size;
        while i > 0
            invariant
                i <= size,
                size == self.scopes.len(),
                self@ == old(self)@,
                forall|j: int| i <= j < size ==> !(#[trigger] self@.scopes[j]).contains_key(name.lexeme@),
            decreases i,
        {
            if lookup_in_scope(&self.scopes[i - 1], &name.lexeme).is_some() {
                proof {
                    lemma_scope_distance(self@.scopes, name.lexeme@, i - 1);
                }
                self.locals.insert(resolve_id, size - i);
                return ;
            }
            i -= 1;
        }
        proof {
            lemma_scope_distance(self@.scopes, name.lexeme@, -1);
        }
    }

    fn resolve_many(&mut self, stmts: &Vec<Stmt>) -> (r: Result<(), ResolveError>)
        ensures
            outcome_matches(resolve_stmts_spec(old(self)@, stmts@), r, final(self)@),
        decreases stmts@, 1nat,
    {
        let ghost st0 = self@;
        proof {
            assert(stmts@.subrange(0, stmts@.len() as int) =~= stmts@);
        }
        let mut i: usize = 0;
        while i < stmts.len()
            invariant
                i <= stmts.len(),
                st0 == old(self)@,
                resolve_stmts_spec(st0, stmts@) == resolve_stmts_spec(self@, stmts@.subrange(i as int, stmts@.len() as int)),
            decreases stmts.len() - i,
        {
            proof {
                assert(stmts@.subrange(i as int, stmts@.len() as int).subrange(1, stmts@.len() - i)
                    =~= stmts@.subrange(i + 1, stmts@.len() as int));
                assert(stmts@.subrange(i as int, stmts@.len() as int)[0] == stmts@[i as int]);
            }
            let r = self.resolve_internal(&stmts[i]);
            if r.is_err() {
                return r;
            }
            i += 1;
        }
        proof {
            assert(stmts@.subrange(stmts@.len() as int, stmts@.len() as int) =~= Seq::<Stmt>::empty());
        }
        Ok(())
    }

    fn resolve_exprs(&mut self, exprs: &Vec<Expr>) -> (r: Result<(), ResolveError>)
        ensures
            outcome_matches(resolve_exprs_spec(old(self)@, exprs@), r, final(self)@),
        decreases exprs@, 1nat,
    {
        let ghost st0 = self@;
        proof {
            assert(exprs@.subrange(0, exprs@.len() as int) =~= exprs@);
        }
        let mut i: usize = 0;
        while i < exprs.len()
            invariant
                i <= exprs.len(),
                st0 == old(self)@,
                resolve_exprs_spec(st0, exprs@) == resolve_exprs_spec(self@, exprs@.subrange(i as int, exprs@.len() as int)),
            decreases exprs.len() - i,
        {
            proof {
                assert(exprs@.subrange(i as int, exprs@.len() as int).subrange(1, exprs@.len() - i)
                    =~= exprs@.subrange(i + 1, exprs@.len() as int));
                assert(exprs@.subrange(i as int, exprs@.len() as int)[0] == exprs@[i as int]);
            }
            let r = self.resolve_expr(&exprs[i]);
            if r.is_err() {
                return r;
            }
            i += 1;
        }
        proof {
            assert(exprs@.subrange(exprs@.len() as int, exprs@.len() as int) =~= Seq::<Expr>::empty());
        }
        Ok(())
    }

    fn resolve_methods(&mut self, methods: &Vec<Stmt>) -> (r: Result<(), ResolveError>)
        ensures
            outcome_matches(resolve_methods_spec(old(self)@, methods@), r, final(self)@),
        decreases methods@, 1nat,
    {
        let ghost st0 = self@;
        proof {
            assert(methods@.subrange(0, methods@.len() as int) =~= methods@);
        }
        let mut i: usize = 0;
        while i < methods.len()
            invariant
                i <= methods.len(),
                st0 == old(self)@,
                resolve_methods_spec(st0, methods@) == resolve_methods_spec(self@, methods@.subrange(i as int, methods@.len() as int)),
            decreases methods.len() - i,
        {
            proof {
                assert(methods@.subrange(i as int, methods@.len() as int).subrange(1, methods@.len() - i)
                    =~= methods@.subrange(i + 1, methods@.len() as int));
                assert(methods@.subrange(i as int, methods@.len() as int)[0] == methods@[i as int]);
            }
            match &methods[i] {
                Stmt::Function { params, body, .. } => {
                    let r = self.resolve_function_helper(params, body, FunctionType::Function);
                    if r.is_err() {
                        return r;
                    }
                },
                _ => {
                    return Err(ResolveError::NotAMethod);
                },
            }
            i += 1;
        }
        proof {
            assert(methods@.subrange(methods@.len() as int, methods@.len() as int) =~= Seq::<Stmt>::empty());
        }
        Ok(())
    }

    fn resolve_elifs(&mut self, elif_branches: &Vec<ElifBranch>) -> (r: Result<(), ResolveError>)
        ensures
            outcome_matches(resolve_elifs_spec(old(self)@, elif_branches@), r, final(self)@),
        decreases elif_branches@, 1nat,
    {
        let ghost st0 = self@;
        proof {
            assert(elif_branches@.subrange(0, elif_branches@.len() as int) =~= elif_branches@);
        }
        let mut i: usize = 0;
        while i < elif_branches.len()
            invariant
                i <= elif_branches.len(),
                st0 == old(self)@,
                resolve_elifs_spec(st0, elif_branches@) == resolve_elifs_spec(self@, elif_branches@.subrange(i as int, elif_branches@.len() as int)),
            decreases elif_branches.len() - i,
        {
            proof {
                assert(elif_branches@.subrange(i as int, elif_branches@.len() as int).subrange(1, elif_branches@.len() - i)
                    =~= elif_branches@.subrange(i + 1, elif_branches@.len() as int));
                assert(elif_branches@.subrange(i as int, elif_branches@.len() as int)[0] == elif_branches@[i as int]);
            }
            let r = self.resolve_expr(&elif_branches[i].predicate);
            if r.is_err() {
                return r;
            }
            let r = self.resolve_internal(&elif_branches[i].body);
            if r.is_err() {
                return r;
            }
            i += 1;
        }
        proof {
            assert(elif_branches@.subrange(elif_branches@.len() as int, elif_branches@.len() as int) =~= Seq::<ElifBranch>::empty());
        }
        Ok(())
    }

    fn resolve_internal(&mut self, stmt: &Stmt) -> (r: Result<(), ResolveError>)
        ensures
            outcome_matches(resolve_stmt_spec(old(self)@, *stmt), r, final(self)@),
        decreases *stmt, 3nat,
    {
        match stmt {
            Stmt::Block { .. } => self.resolve_block(stmt),
            Stmt::Var { .. } => self.resolve_var(stmt),
            Stmt::Function { .. } => self.resolve_function(stmt),
            Stmt::CmdFunction { .. } => self.resolve_var(stmt),
            Stmt::Expression { expression } => self.resolve_expr(expression),
            Stmt::Print { expression } => self.resolve_expr(expression),
            Stmt::Input { expression } => self.resolve_expr(expression),
            Stmt::Errors { expression } => self.resolve_expr(expression),
            Stmt::Import { expression } => self.resolve_expr(expression),
            Stmt::Class { .. } => self.resolve_class(stmt),
            Stmt::IfStmt { .. } => self.resolve_if_stmt(stmt),
            Stmt::IfShortStmt { predicate, then, els } => {
                let r = self.resolve_expr(predicate);
                if r.is_err() {
                    return r;
                }
                let r = self.resolve_internal(then);
                if r.is_err() {
                    return r;
                }
                match els {
                    Some(els) => self.resolve_internal(els),
                    None => Ok(()),
                }
            },
            Stmt::ReturnStmt { value, .. } => {
                if self.current_function == FunctionType::Outside {
                    Err(ResolveError::ReturnOutsideFunction)
                } else {
                    match value {
                        Some(value) => self.resolve_expr(value),
                        None => Ok(()),
                    }
                }
            },
            Stmt::WhileStmt { condition, body } => {
                let r = self.resolve_expr(condition);
                if r.is_err() {
                    return r;
                }
                let previous_loop = self.current_loop;
                self.current_loop = LoopType::Loop;
                let r = self.resolve_internal(body);
                if r.is_err() {
                    return r;
                }
                self.current_loop = previous_loop;
                Ok(())
            },
            Stmt::WaitStmt { time, body, before } => {
                let r = self.resolve_expr(time);
                if r.is_err() {
                    return r;
                }
                let r = self.resolve_internal(body);
                if r.is_err() {
                    return r;
                }
                match before {
                    Some(before_block) => {
                        let r = self.resolve_expr(&before_block.time);
                        if r.is_err() {
                            return r;
                        }
                        self.resolve_internal(&before_block.body)
                    },
                    None => Ok(()),
                }
            },
            Stmt::BreakStmt { .. } => {
                if self.current_loop == LoopType::Outside {
                    Err(ResolveError::BreakOutsideLoop)
                } else {
                    Ok(())
                }
            },
            Stmt::BenchStmt { body } => self.resolve_internal(body),
            Stmt::Exits => Ok(()),
        }
    }

    fn resolve_block(&mut self, stmt: &Stmt) -> (r: Result<(), ResolveError>)
        requires
            *stmt is Block,
        ensures
            outcome_matches(resolve_stmt_spec(old(self)@, *stmt), r, final(self)@),
        decreases *stmt, 2nat,
    {
        if let Stmt::Block { statements } = stmt {
            self.begin_scope();
            let ghost pushed = self@;
            let r = self.resolve_many(statements);
            if r.is_err() {
                return r;
            }
            proof {
                lemma_stmts_keep(pushed, statements@);
            }
            self.end_scope();
        }
        Ok(())
    }

    fn resolve_var(&mut self, stmt: &Stmt) -> (r: Result<(), ResolveError>)
        requires
            *stmt is Var || *stmt is CmdFunction,
        ensures
            outcome_matches(resolve_stmt_spec(old(self)@, *stmt), r, final(self)@),
        decreases *stmt, 2nat,
    {
        match stmt {
            Stmt::Var { name, initializer } => {
                let r = self.declare(name);
                if r.is_err() {
                    return r;
                }
                let r = self.resolve_expr(initializer);
                if r.is_err() {
                    return r;
                }
                self.define(name);
            },
            Stmt::CmdFunction { name, .. } => {
                let r = self.declare(name);
                if r.is_err() {
                    return r;
                }
                self.define(name);
            },
            _ => {},
        }
        Ok(())
    }

    fn resolve_function(&mut self, stmt: &Stmt) -> (r: Result<(), ResolveError>)
        requires
            *stmt is Function,
        ensures
            outcome_matches(resolve_stmt_spec(old(self)@, *stmt), r, final(self)@),
        decreases *stmt, 2nat,
    {
        if let Stmt::Function { name, params, body } = stmt {
            let r = self.declare(name);
            if r.is_err() {
                return r;
            }
            self.define(name);
            self.resolve_function_helper(params, body, FunctionType::Function)
        } else {
            Ok(())
        }
    }

    fn resolve_class(&mut self, stmt: &Stmt) -> (r: Result<(), ResolveError>)
        requires
            *stmt is Class,
        ensures
            outcome_matches(resolve_stmt_spec(old(self)@, *stmt), r, final(self)@),
        decreases *stmt, 2nat,
    {
        if let Stmt::Class { methods, superclass, .. } = stmt {
            if let Some(superclass) = superclass {
                let r = self.resolve_expr(superclass);
                if r.is_err() {
                    return r;
                }
            }
            return self.resolve_methods(methods);
        }
        Ok(())
    }

    fn resolve_if_stmt(&mut self, stmt: &Stmt) -> (r: Result<(), ResolveError>)
        requires
            *stmt is IfStmt,
        ensures
            outcome_matches(resolve_stmt_spec(old(self)@, *stmt), r, final(self)@),
        decreases *stmt, 2nat,
    {
        if let Stmt::IfStmt { predicate, then, elif_branches, els } = stmt {
            let r = self.resolve_expr(predicate);
            if r.is_err() {
                return r;
            }
            let r = self.resolve_internal(then);
            if r.is_err() {
                return r;
            }
            let r = self.resolve_elifs(elif_branches);
            if r.is_err() {
                return r;
            }
            if let Some(els) = els {
                return self.resolve_internal(els);
            }
        }
        Ok(())
    }

    fn resolve_function_helper(
        &mut self,
        params: &Vec<Token>,
        body: &Vec<Stmt>,
        resolving_function: FunctionType,
    ) -> (r: Result<(), ResolveError>)
        ensures
            outcome_matches(
                resolve_function_spec(old(self)@, params@, body@, resolving_function),
                r,
                final(self)@,
            ),
        decreases body@, 2nat,
    {
        let enclosing_function = self.current_function;
        self.current_function = resolving_function;
        self.begin_scope();
        let ghost st0 = self@;
        proof {
            assert(params@.subrange(0, params@.len() as int) =~= params@);
        }
        let mut i: usize = 0;
        while i < params.len()
            invariant
                i <= params.len(),
                st0 == push_scope(ResolveState { function: resolving_function, ..old(self)@ }),
                declare_params_spec(st0, params@) == declare_params_spec(self@, params@.subrange(i as int, params@.len() as int)),
            decreases params.len() - i,
        {
            proof {
                assert(params@.subrange(i as int, params@.len() as int).subrange(1, params@.len() - i)
                    =~= params@.subrange(i + 1, params@.len() as int));
                assert(params@.subrange(i as int, params@.len() as int)[0] == params@[i as int]);
            }
            let r = self.declare(&params[i]);
            if r.is_err() {
                return r;
            }
            self.define(&params[i]);
            i += 1;
        }
        proof {
            assert(params@.subrange(params@.len() as int, params@.len() as int) =~= Seq::<Token>::empty());
        }
        proof {
            lemma_params_keep(st0, params@);
        }
        let ghost before_body = self@;
        let r = self.resolve_many(body);
        if r.is_err() {
            return r;
        }
        proof {
            lemma_stmts_keep(before_body, body@);
        }
        self.end_scope();
        self.current_function = enclosing_function;
        Ok(())
    }


    fn resolve_expr(&mut self, expr: &Expr) -> (r: Result<(), ResolveError>)
        ensures
            outcome_matches(resolve_expr_spec(old(self)@, *expr), r, final(self)@),
        decreases *expr, 2nat,
    {
        match expr {
            Expr::Variable { .. } => self.resolve_expr_var(expr, expr.get_id()),
            Expr::Assign { .. } => self.resolve_expr_assign(expr, expr.get_id()),
            Expr::Array { elements, .. } => self.resolve_exprs(elements),
            Expr::Binary { left, right, .. } => {
                let r = self.resolve_expr(left);
                if r.is_err() {
                    return r;
                }
                self.resolve_expr(right)
            },
            Expr::Call { callee, arguments, .. } => {
                let r = self.resolve_expr(callee);
                if r.is_err() {
                    return r;
                }
                self.resolve_exprs(arguments)
            },
            Expr::Get { object, .. } => self.resolve_expr(object),
            Expr::Grouping { expression, .. } => self.resolve_expr(expression),
            Expr::Literal { .. } => Ok(()),
            Expr::Logical { left, right, .. } => {
                let r = self.resolve_expr(left);
                if r.is_err() {
                    return r;
                }
                self.resolve_expr(right)
            },
            Expr::SetField { object, value, .. } => {
                let r = self.resolve_expr(value);
                if r.is_err() {
                    return r;
                }
                self.resolve_expr(object)
            },
            Expr::Unary { right, .. } => self.resolve_expr(right),
            Expr::AnonFunction { arguments, body, .. } => self.resolve_function_helper(
                arguments,
                body,
                FunctionType::Function,
            ),
        }
    }

    fn resolve_expr_var(&mut self, expr: &Expr, resolve_id: usize) -> (r: Result<(), ResolveError>)
        requires
            *expr is Variable || (*expr is Call && *expr->Call_callee is Variable),
            *expr is Variable ==> resolve_id == expr.spec_id(),
        ensures
            *expr is Variable ==> outcome_matches(resolve_expr_spec(old(self)@, *expr), r, final(self)@),
            *expr is Call ==> r is Ok && final(self)@ == resolve_local_spec(
                old(self)@,
                expr->Call_callee->Variable_name.lexeme@,
                resolve_id,
            ),
    {
        match expr {
            Expr::Variable { name, .. } => {
                let size = self.scopes.len();
                if size > 0 {
                    if let Some(false) = lookup_in_scope(&self.scopes[size - 1], &name.lexeme) {
                        return Err(ResolveError::ReadInOwnInitializer);
                    }
                }
                self.resolve_local(name, resolve_id);
            },
            Expr::Call { callee, .. } => {
                if let Expr::Variable { name, .. } = &**callee {
                    self.resolve_local(name, resolve_id);
                }
            },
            _ => {},
        }
        Ok(())
    }

    fn resolve_expr_assign(&mut self, expr: &Expr, resolve_id: usize) -> (r: Result<(), ResolveError>)
        requires
            *expr is Assign,
            resolve_id == expr.spec_id(),
        ensures
            outcome_matches(resolve_expr_spec(old(self)@, *expr), r, final(self)@),
        decreases *expr, 1nat,
    {
        if let Expr::Assign { name, value, .. } = expr {
            let r = self.resolve_expr(value);
            if r.is_err() {
                return r;
            }
            self.resolve_local(name, resolve_id);
        }
        Ok(())
    }
}

} // verus!
