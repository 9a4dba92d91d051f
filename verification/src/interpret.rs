//! The tree-walking evaluator.
//!
//! An `ExecEnv` holds the scope arena, the banned-name set, the injected
//! line-buffered input source and character output sink, and the state of
//! the coin source that resolves `Sometimes` values. Execution is
//! step-indexed: every public entry point takes (or defaults) a step budget,
//! and the whole evaluator is specified by the mathematical model
//! `exec_stmt_m` / `exec_stmts_m` over span-free syntax, so each exec
//! function is proved to produce exactly the state, flow and remaining
//! budget of the model.

use vstd::prelude::*;

use std::hash::Hasher;

use crate::ast::{
    expr_view, stmt_view, stmts_view, Expr, ExprKind, ExprM, Stmt, StmtKind, StmtM,
};
use crate::brian;
use crate::brian::{BfEnd, BfEndE};
use crate::eq::{clone_block, clone_params, clone_value};
use crate::error::{err_view, ErrM, Error, ErrorKind};
use crate::Span;
use crate::variables::{
    binop_m, classify, classify_m, index_m, index_value, not_m, not_value, render_into, render_m,
    resolve_m, uses_coin, val_view, binop, FunctioM, Functio, ValM, Value,
};

verus! {

/// The fixed tape length used when a foreign-function definition omits one.
pub const DEFAULT_TAPE_LEN: usize = 30000;

/// The default step budget of the public evaluation entry point.
pub const DEFAULT_STEPS: u64 = 0xFFFF_FFFF;

/// One scope: the bindings made in it, and the scope it was opened under.
pub struct Scope {
    pub parent: Option<usize>,
    pub vars: Vec<(String, Value)>,
}

/// Span-free model of a scope.
#[verifier::ext_equal]
pub struct ScopeM {
    pub parent: Option<int>,
    pub vars: Seq<(Seq<char>, ValM)>,
}

pub open spec fn binds_view(vs: Seq<(String, Value)>) -> Seq<(Seq<char>, ValM)> {
    Seq::new(vs.len(), |i: int| (vs[i].0@, val_view(vs[i].1)))
}

pub open spec fn scope_view(s: Scope) -> ScopeM {
    ScopeM {
        parent: match s.parent {
            Some(p) => Some(p as int),
            None => None,
        },
        vars: binds_view(s.vars@),
    }
}

pub open spec fn scopes_view(ss: Seq<Scope>) -> Seq<ScopeM> {
    Seq::new(ss.len(), |i: int| scope_view(ss[i]))
}

pub open spec fn banned_view(bs: Seq<String>) -> Seq<Seq<char>> {
    Seq::new(bs.len(), |i: int| bs[i]@)
}

pub open spec fn input_view(ls: Seq<String>) -> Seq<Seq<char>> {
    Seq::new(ls.len(), |i: int| ls[i]@)
}

/// The whole execution context: scope arena, current scope, banned names,
/// input cursor, output sink, and the coin state.
pub struct ExecEnv {
    pub scopes: Vec<Scope>,
    pub cur: usize,
    pub banned: Vec<String>,
    pub input: Vec<String>,
    pub in_pos: usize,
    pub output: Vec<char>,
    pub rng: u64,
}

/// Span-free model of the execution context.
#[verifier::ext_equal]
pub struct EnvM {
    pub scopes: Seq<ScopeM>,
    pub cur: int,
    pub banned: Seq<Seq<char>>,
    pub input: Seq<Seq<char>>,
    pub in_pos: int,
    pub output: Seq<char>,
    pub rng: u64,
}

pub open spec fn env_view(e: ExecEnv) -> EnvM {
    EnvM {
        scopes: scopes_view(e.scopes@),
        cur: e.cur as int,
        banned: banned_view(e.banned@),
        input: input_view(e.input@),
        in_pos: e.in_pos as int,
        output: e.output@,
        rng: e.rng,
    }
}

impl View for ExecEnv {
    type V = EnvM;

    open spec fn view(&self) -> EnvM {
        env_view(*self)
    }
}

/// The little that the evaluator needs of its state to run at all: a
/// current scope that exists and an input cursor inside the source.
pub open spec fn env_wf(e: EnvM) -> bool {
    &&& 0 <= e.cur < e.scopes.len()
    &&& 0 <= e.in_pos <= e.input.len()
}

/// One step of the coin source.
pub open spec fn next_rng(s: u64) -> u64 {
    let a = s ^ (s << 13);
    let b = a ^ (a >> 7);
    b ^ (b << 17)
}

/// The coin a draw at state `s` yields.
pub open spec fn rng_coin(s: u64) -> bool {
    next_rng(s) & 1 == 1
}

pub open spec fn with_rng(e: EnvM, rng: u64) -> EnvM {
    EnvM { rng, ..e }
}

/// The latest binding of a name in one scope, or -1.
pub open spec fn find_last(vars: Seq<(Seq<char>, ValM)>, name: Seq<char>) -> int
    decreases vars.len(),
{
    if vars.len() == 0 {
        -1
    } else if vars.last().0 == name {
        vars.len() - 1
    } else {
        find_last(vars.drop_last(), name)
    }
}

/// Resolve a name from a scope outward through its parents: the scope and
/// binding indices of the nearest binding.
pub open spec fn lookup_at(scopes: Seq<ScopeM>, idx: int, name: Seq<char>) -> Option<(int, int)>
    decreases idx when idx >= 0
{
    if idx < 0 || idx >= scopes.len() {
        None
    } else {
        let j = find_last(scopes[idx].vars, name);
        if j >= 0 {
            Some((idx, j))
        } else {
            match scopes[idx].parent {
                Some(p) => if 0 <= p < idx {
                    lookup_at(scopes, p, name)
                } else {
                    None
                },
                None => None,
            }
        }
    }
}

pub open spec fn lookup_val(e: EnvM, name: Seq<char>) -> Option<ValM> {
    match lookup_at(e.scopes, e.cur, name) {
        Some((si, vi)) => Some(e.scopes[si].vars[vi].1),
        None => None,
    }
}

pub open spec fn is_banned(banned: Seq<Seq<char>>, name: Seq<char>) -> bool {
    exists|i: int| 0 <= i < banned.len() && banned[i] == name
}

/// Bind a name in the current scope; an existing binding is shadowed, not
/// replaced.
pub open spec fn declare_m(e: EnvM, name: Seq<char>, v: ValM) -> EnvM {
    EnvM {
        scopes: e.scopes.update(
            e.cur,
            ScopeM { parent: e.scopes[e.cur].parent, vars: e.scopes[e.cur].vars.push((name, v)) },
        ),
        ..e
    }
}

/// Overwrite the nearest binding of a name; `None` when no scope binds it.
pub open spec fn assign_m(e: EnvM, name: Seq<char>, v: ValM) -> Option<EnvM> {
    match lookup_at(e.scopes, e.cur, name) {
        Some((si, vi)) => Some(
            EnvM {
                scopes: e.scopes.update(
                    si,
                    ScopeM {
                        parent: e.scopes[si].parent,
                        vars: e.scopes[si].vars.update(vi, (name, v)),
                    },
                ),
                ..e
            },
        ),
        None => None,
    }
}

/// Drop every binding of a name from one scope's bindings.
pub open spec fn remove_name(vars: Seq<(Seq<char>, ValM)>, name: Seq<char>) -> Seq<
    (Seq<char>, ValM),
>
    decreases vars.len(),
{
    if vars.len() == 0 {
        Seq::empty()
    } else if vars[0].0 == name {
        remove_name(vars.subrange(1, vars.len() as int), name)
    } else {
        seq![vars[0]] + remove_name(vars.subrange(1, vars.len() as int), name)
    }
}

pub open spec fn scopes_remove(ss: Seq<ScopeM>, name: Seq<char>) -> Seq<ScopeM> {
    Seq::new(ss.len(), |i: int| ScopeM { parent: ss[i].parent, vars: remove_name(ss[i].vars, name) })
}

/// Ban a name: append it to the banned set and drop its bindings everywhere.
pub open spec fn ban_m(e: EnvM, name: Seq<char>) -> EnvM {
    EnvM { banned: e.banned.push(name), scopes: scopes_remove(e.scopes, name), ..e }
}

/// Resolve a value in a boolean context, drawing a coin exactly when the
/// value is the uncertain ternary.
pub open spec fn resolve_rng(rng: u64, v: ValM) -> (u64, Option<bool>) {
    if uses_coin(v) {
        (next_rng(rng), resolve_m(v, rng_coin(rng)))
    } else {
        (rng, resolve_m(v, false))
    }
}

/// Apply logical negation, drawing a coin exactly when the operand is the
/// uncertain ternary.
pub open spec fn not_rng(rng: u64, v: ValM) -> (u64, Result<ValM, ErrM>) {
    if uses_coin(v) {
        (next_rng(rng), not_m(v, rng_coin(rng)))
    } else {
        (rng, not_m(v, false))
    }
}

pub open spec fn is_logical(op: crate::ast::BinOpKind) -> bool {
    op == crate::ast::BinOpKind::And || op == crate::ast::BinOpKind::Or
}

/// Apply a binary operation; the logical operations draw one coin per
/// uncertain operand, left to right.
pub open spec fn binop_rng(op: crate::ast::BinOpKind, a: ValM, b: ValM, rng: u64) -> (
    u64,
    Result<ValM, ErrM>,
) {
    if is_logical(op) {
        let r1 = if uses_coin(a) {
            next_rng(rng)
        } else {
            rng
        };
        let c1 = uses_coin(a) && rng_coin(rng);
        let r2 = if uses_coin(b) {
            next_rng(r1)
        } else {
            r1
        };
        let c2 = uses_coin(b) && rng_coin(r1);
        (r2, binop_m(op, a, b, c1, c2))
    } else {
        (rng, binop_m(op, a, b, false, false))
    }
}

/// Evaluate an expression against the model: the new coin state and the
/// value or error. Expressions read the environment but never change it.
pub open spec fn eval_expr_m(e: ExprM, env: EnvM) -> (u64, Result<ValM, ErrM>)
    decreases e,
{
    match e {
        ExprM::Literal(v) => (env.rng, Ok(v)),
        ExprM::Variable(name) => if is_banned(env.banned, name) {
            (env.rng, Err(ErrM::MeloVariable(name)))
        } else {
            match lookup_val(env, name) {
                Some(v) => (env.rng, Ok(v)),
                None => (env.rng, Err(ErrM::UnknownVariable(name))),
            }
        },
        ExprM::Not(inner) => {
            let (r1, res) = eval_expr_m(*inner, env);
            match res {
                Ok(v) => not_rng(r1, v),
                Err(er) => (r1, Err(er)),
            }
        },
        ExprM::BinOp { lhs, rhs, kind } => {
            let (r1, res1) = eval_expr_m(*lhs, env);
            match res1 {
                Ok(a) => {
                    let (r2, res2) = eval_expr_m(*rhs, with_rng(env, r1));
                    match res2 {
                        Ok(b) => binop_rng(kind, a, b, r2),
                        Err(er) => (r2, Err(er)),
                    }
                },
                Err(er) => (r1, Err(er)),
            }
        },
        ExprM::Index { cart, index } => {
            let (r1, res1) = eval_expr_m(*cart, env);
            match res1 {
                Ok(c) => {
                    let (r2, res2) = eval_expr_m(*index, with_rng(env, r1));
                    match res2 {
                        Ok(k) => (r2, index_m(c, k)),
                        Err(er) => (r2, Err(er)),
                    }
                },
                Err(er) => (r1, Err(er)),
            }
        },
        ExprM::Cart(pairs) => {
            let (r1, res) = eval_pairs_m(pairs, env);
            match res {
                Ok(ps) => (r1, Ok(ValM::Cart(ps))),
                Err(er) => (r1, Err(er)),
            }
        },
    }
}

/// Evaluate the key/value expressions of an associative literal, left to
/// right in written order, stopping at the first error.
pub open spec fn eval_pairs_m(ps: Seq<(ExprM, ExprM)>, env: EnvM) -> (
    u64,
    Result<Seq<(ValM, ValM)>, ErrM>,
)
    decreases ps,
{
    if ps.len() == 0 {
        (env.rng, Ok(Seq::empty()))
    } else {
        let (r1, kres) = eval_expr_m(ps[0].0, env);
        match kres {
            Ok(k) => {
                let (r2, vres) = eval_expr_m(ps[0].1, with_rng(env, r1));
                match vres {
                    Ok(v) => {
                        let (r3, rest) = eval_pairs_m(
                            ps.subrange(1, ps.len() as int),
                            with_rng(env, r2),
                        );
                        match rest {
                            Ok(tail) => (r3, Ok(seq![(k, v)] + tail)),
                            Err(er) => (r3, Err(er)),
                        }
                    },
                    Err(er) => (r2, Err(er)),
                }
            },
            Err(er) => (r1, Err(er)),
        }
    }
}

/// Evaluate call arguments left to right, stopping at the first error.
pub open spec fn eval_args_m(es: Seq<ExprM>, env: EnvM) -> (u64, Result<Seq<ValM>, ErrM>)
    decreases es,
{
    if es.len() == 0 {
        (env.rng, Ok(Seq::empty()))
    } else {
        let (r1, res) = eval_expr_m(es[0], env);
        match res {
            Ok(v) => {
                let (r2, rest) = eval_args_m(es.subrange(1, es.len() as int), with_rng(env, r1));
                match rest {
                    Ok(tail) => (r2, Ok(seq![v] + tail)),
                    Err(er) => (r2, Err(er)),
                }
            },
            Err(er) => (r1, Err(er)),
        }
    }
}

/// How the execution of a statement ended: completion, a loop signal, a
/// fatal error, or an exhausted step budget.
pub enum FlowM {
    Done,
    Broke,
    Hopped,
    Fail(ErrM),
    Spent,
}

/// Execute the statements of a block in order from the model state.
pub open spec fn exec_stmts_m(b: Seq<StmtM>, env: EnvM, fuel: nat) -> (EnvM, FlowM, nat)
    decreases fuel,
{
    if b.len() == 0 {
        (env, FlowM::Done, fuel)
    } else if fuel == 0 {
        (env, FlowM::Spent, 0)
    } else {
        let (env1, fl, rem0) = exec_stmt_m(b[0], env, (fuel - 1) as nat);
        let rem: nat = if rem0 <= fuel - 1 {
            rem0
        } else {
            (fuel - 1) as nat
        };
        match fl {
            FlowM::Done => exec_stmts_m(b.subrange(1, b.len() as int), env1, rem),
            _ => (env1, fl, rem),
        }
    }
}

/// Run a loop body again and again: a break signal ends the loop, a restart
/// signal (like completion) runs the body afresh.
pub open spec fn loop_m(body: Seq<StmtM>, env: EnvM, fuel: nat) -> (EnvM, FlowM, nat)
    decreases fuel,
{
    if fuel == 0 {
        (env, FlowM::Spent, 0)
    } else {
        let (env1, fl, rem0) = exec_stmts_m(body, env, (fuel - 1) as nat);
        let rem: nat = if rem0 <= fuel - 1 {
            rem0
        } else {
            (fuel - 1) as nat
        };
        match fl {
            FlowM::Broke => (env1, FlowM::Done, rem),
            FlowM::Done => loop_m(body, env1, rem),
            FlowM::Hopped => loop_m(body, env1, rem),
            _ => (env1, fl, rem),
        }
    }
}

/// Execute one statement from the model state. A foreign callable
/// declares no parameters, so a call of one takes no arguments: the count
/// is checked and anything else about the arguments is ignored.
pub open spec fn exec_stmt_m(s: StmtM, env: EnvM, fuel: nat) -> (EnvM, FlowM, nat)
    decreases fuel,
{
    if fuel == 0 {
        (env, FlowM::Spent, 0)
    } else {
        let f1 = (fuel - 1) as nat;
        match s {
            StmtM::Rlyeh => (env, FlowM::Done, f1),
            StmtM::Rickroll => (env, FlowM::Done, f1),
            StmtM::Break => (env, FlowM::Broke, f1),
            StmtM::HopBack => (env, FlowM::Hopped, f1),
            StmtM::Var { iden, init } => if is_banned(env.banned, iden) {
                (env, FlowM::Fail(ErrM::MeloVariable(iden)), f1)
            } else {
                let (r1, res) = match init {
                    Some(e) => eval_expr_m(e, env),
                    None => (env.rng, Ok(ValM::Nul)),
                };
                match res {
                    Ok(v) => (declare_m(with_rng(env, r1), iden, v), FlowM::Done, f1),
                    Err(er) => (with_rng(env, r1), FlowM::Fail(er), f1),
                }
            },
            StmtM::Assign { iden, value } => if is_banned(env.banned, iden) {
                (env, FlowM::Fail(ErrM::MeloVariable(iden)), f1)
            } else {
                let (r1, res) = eval_expr_m(value, env);
                match res {
                    Ok(v) => match assign_m(with_rng(env, r1), iden, v) {
                        Some(env2) => (env2, FlowM::Done, f1),
                        None => (with_rng(env, r1), FlowM::Fail(ErrM::UnknownVariable(iden)), f1),
                    },
                    Err(er) => (with_rng(env, r1), FlowM::Fail(er), f1),
                }
            },
            StmtM::If { cond, body } => {
                let (r1, res) = eval_expr_m(cond, env);
                match res {
                    Ok(v) => {
                        let (r2, t) = resolve_rng(r1, v);
                        match t {
                            Some(true) => exec_stmts_m(body, with_rng(env, r2), f1),
                            Some(false) => (with_rng(env, r2), FlowM::Done, f1),
                            None => (with_rng(env, r2), FlowM::Fail(ErrM::TypeError), f1),
                        }
                    },
                    Err(er) => (with_rng(env, r1), FlowM::Fail(er), f1),
                }
            },
            StmtM::Loop { body } => loop_m(body, env, f1),
            StmtM::Print(e) => {
                let (r1, res) = eval_expr_m(e, env);
                match res {
                    Ok(v) => (
                        EnvM {
                            output: env.output + render_m(v) + seq!['\n'],
                            rng: r1,
                            ..env
                        },
                        FlowM::Done,
                        f1,
                    ),
                    Err(er) => (with_rng(env, r1), FlowM::Fail(er), f1),
                }
            },
            StmtM::Read(iden) => if is_banned(env.banned, iden) {
                (env, FlowM::Fail(ErrM::MeloVariable(iden)), f1)
            } else {
                let (env1, v) = if env.in_pos < env.input.len() {
                    (
                        EnvM { in_pos: env.in_pos + 1, ..env },
                        classify_m(env.input[env.in_pos]),
                    )
                } else {
                    (env, ValM::Nul)
                };
                let env2 = match assign_m(env1, iden, v) {
                    Some(e2) => e2,
                    None => declare_m(env1, iden, v),
                };
                (env2, FlowM::Done, f1)
            },
            StmtM::Melo(iden) => if is_banned(env.banned, iden) {
                (env, FlowM::Fail(ErrM::MeloVariable(iden)), f1)
            } else {
                (ban_m(env, iden), FlowM::Done, f1)
            },
            StmtM::Functio { iden, params, body } => if is_banned(env.banned, iden) {
                (env, FlowM::Fail(ErrM::MeloVariable(iden)), f1)
            } else {
                (
                    declare_m(
                        env,
                        iden,
                        ValM::Functio(FunctioM::Able { params, body, scope: env.cur }),
                    ),
                    FlowM::Done,
                    f1,
                )
            },
            StmtM::BfFunctio { iden, tape_len, code } => if is_banned(env.banned, iden) {
                (env, FlowM::Fail(ErrM::MeloVariable(iden)), f1)
            } else {
                let (r1, lres) = match tape_len {
                    Some(e) => eval_expr_m(e, env),
                    None => (env.rng, Ok(ValM::Int(DEFAULT_TAPE_LEN as i32))),
                };
                match lres {
                    Ok(lv) => match lv {
                        ValM::Int(k) => if k >= 1 {
                            match brian::match_brackets_m(code) {
                                Some(jumps) => (
                                    declare_m(
                                        with_rng(env, r1),
                                        iden,
                                        ValM::Functio(
                                            FunctioM::Bf { code, tape_len: k as int, jumps },
                                        ),
                                    ),
                                    FlowM::Done,
                                    f1,
                                ),
                                None => (
                                    with_rng(env, r1),
                                    FlowM::Fail(ErrM::MismatchedBracket),
                                    f1,
                                ),
                            }
                        } else {
                            (with_rng(env, r1), FlowM::Fail(ErrM::TypeError), f1)
                        },
                        _ => (with_rng(env, r1), FlowM::Fail(ErrM::TypeError), f1),
                    },
                    Err(er) => (with_rng(env, r1), FlowM::Fail(er), f1),
                }
            },
            StmtM::Call { expr, args } => {
                let (r1, cres) = eval_expr_m(expr, env);
                match cres {
                    Ok(cv) => match cv {
                        ValM::Functio(FunctioM::Able { params, body, scope }) => {
                            let (r2, ares) = eval_args_m(args, with_rng(env, r1));
                            match ares {
                                Ok(vals) => if vals.len() != params.len() {
                                    (with_rng(env, r2), FlowM::Fail(ErrM::ArityError), f1)
                                } else {
                                    let envc = with_rng(env, r2);
                                    let child = ScopeM {
                                        parent: Some(scope),
                                        vars: Seq::new(
                                            params.len(),
                                            |i: int| (params[i], vals[i]),
                                        ),
                                    };
                                    let env2 = EnvM {
                                        scopes: envc.scopes.push(child),
                                        cur: envc.scopes.len() as int,
                                        ..envc
                                    };
                                    let (env3, fl, rem) = exec_stmts_m(body, env2, f1);
                                    let env4 = EnvM { cur: env.cur, ..env3 };
                                    match fl {
                                        FlowM::Done => (env4, FlowM::Done, rem),
                                        FlowM::Broke => (
                                            env4,
                                            FlowM::Fail(ErrM::TopLevelBreak),
                                            rem,
                                        ),
                                        FlowM::Hopped => (
                                            env4,
                                            FlowM::Fail(ErrM::TopLevelHopBack),
                                            rem,
                                        ),
                                        _ => (env4, fl, rem),
                                    }
                                },
                                Err(er) => (with_rng(env, r2), FlowM::Fail(er), f1),
                            }
                        },
                        ValM::Functio(FunctioM::Bf { code, tape_len, jumps }) => {
                            let (r2, ares) = eval_args_m(args, with_rng(env, r1));
                            match ares {
                                Ok(vals) => if vals.len() != 0 {
                                    (with_rng(env, r2), FlowM::Fail(ErrM::ArityError), f1)
                                } else {
                                    let (stf, endf, remf) = brian::bf_run_fresh(
                                        code,
                                        jumps,
                                        tape_len,
                                        env.input,
                                        env.in_pos,
                                        env.output,
                                        f1,
                                    );
                                    let env2 = EnvM {
                                        in_pos: stf.in_pos,
                                        output: stf.output,
                                        rng: r2,
                                        ..env
                                    };
                                    let rem: nat = if remf <= f1 {
                                        remf
                                    } else {
                                        f1
                                    };
                                    match endf {
                                        BfEnd::Done => (env2, FlowM::Done, rem),
                                        BfEnd::Fail(er) => (env2, FlowM::Fail(er), rem),
                                        BfEnd::Spent => (env2, FlowM::Spent, rem),
                                    }
                                },
                                Err(er) => (with_rng(env, r2), FlowM::Fail(er), f1),
                            }
                        },
                        _ => (with_rng(env, r1), FlowM::Fail(ErrM::TypeError), f1),
                    },
                    Err(er) => (with_rng(env, r1), FlowM::Fail(er), f1),
                }
            },
        }
    }
}


fn rng_step(s: u64) -> (r: u64)
    ensures
        r == next_rng(s),
{
    let a = s ^ (s << 13u64);
    let b = a ^ (a >> 7u64);
    b ^ (b << 17u64)
}

/// The exec counterpart of `FlowM`; errors carry their span.
pub enum Flow {
    Done,
    Broke(Span),
    Hopped(Span),
    Fail(Error),
    Spent,
}

pub open spec fn flow_matches(f: Flow, m: FlowM) -> bool {
    match f {
        Flow::Done => m == FlowM::Done,
        Flow::Broke(sp) => m == FlowM::Broke,
        Flow::Hopped(sp) => m == FlowM::Hopped,
        Flow::Fail(e) => m matches FlowM::Fail(em) && err_view(e.kind) == em,
        Flow::Spent => m == FlowM::Spent,
    }
}

pub open spec fn val_err_matches(r: Result<Value, Error>, m: Result<ValM, ErrM>) -> bool {
    match r {
        Ok(v) => m matches Ok(vm) && val_view(v) == vm,
        Err(e) => m matches Err(em) && err_view(e.kind) == em,
    }
}

pub open spec fn vals_view(vs: Seq<Value>) -> Seq<ValM> {
    Seq::new(vs.len(), |i: int| val_view(vs[i]))
}

pub open spec fn outcome_matches(r: Result<(), Error>, m: FlowM) -> bool {
    match r {
        Ok(u) => m == FlowM::Done,
        Err(e) => match m {
            FlowM::Broke => e.kind == ErrorKind::TopLevelBreak,
            FlowM::Hopped => e.kind == ErrorKind::TopLevelHopBack,
            FlowM::Fail(em) => err_view(e.kind) == em,
            FlowM::Spent => e.kind == ErrorKind::StepLimit,
            FlowM::Done => false,
        },
    }
}

fn is_sometimes(v: &Value) -> (r: bool)
    ensures
        r == uses_coin(val_view(*v)),
{
    match v {
        Value::Abool(crate::variables::Abool::Sometimes) => true,
        _ => false,
    }
}

fn find_last_in(vars: &Vec<(String, Value)>, name: &String) -> (r: Option<usize>)
    ensures
        match r {
            Some(j) => find_last(binds_view(vars@), name@) == j as int && j < vars@.len(),
            None => find_last(binds_view(vars@), name@) == -1,
        },
{
    let mut j = vars.len();
    proof {
        assert(binds_view(vars@).take(j as int) =~= binds_view(vars@));
    }
    while j > 0
        invariant
            j <= vars@.len(),
            find_last(binds_view(vars@), name@) == find_last(
                binds_view(vars@).take(j as int),
                name@,
            ),
        decreases j,
    {
        j = j - 1;
        let ghost pre = binds_view(vars@).take(j + 1);
        proof {
            assert(pre.last() == binds_view(vars@)[j as int]);
        }
        if vars[j].0 == *name {
            return Some(j);
        }
        proof {
            assert(pre.drop_last() =~= binds_view(vars@).take(j as int));
        }
    }
    proof {
        assert(binds_view(vars@).take(0).len() == 0);
    }
    None
}

impl ExecEnv {
    fn check_banned(&self, name: &String) -> (r: bool)
        ensures
            r == is_banned(banned_view(self.banned@), name@),
    {
        let n = self.banned.len();
        for i in 0..n
            invariant
                n == self.banned@.len(),
                forall|j: int| 0 <= j < i ==> banned_view(self.banned@)[j] != name@,
        {
            if self.banned[i] == *name {
                proof {
                    assert(banned_view(self.banned@)[i as int] == name@);
                }
                return true;
            }
            proof {
                assert(banned_view(self.banned@)[i as int] == self.banned@[i as int]@);
            }
        }
        false
    }

    fn draw_coin(&mut self) -> (r: bool)
        ensures
            final(self)@ == with_rng(old(self)@, next_rng(old(self)@.rng)),
            r == rng_coin(old(self)@.rng),
    {
        self.rng = rng_step(self.rng);
        proof {
            assert(self@ =~= with_rng(old(self)@, next_rng(old(self)@.rng)));
        }
        (self.rng & 1u64) == 1
    }

    fn lookup_idx(&self, idx: usize, name: &String) -> (r: Option<(usize, usize)>)
        requires
            idx < self.scopes@.len(),
        ensures
            match r {
                Some(p) => lookup_at(scopes_view(self.scopes@), idx as int, name@) == Some(
                    (p.0 as int, p.1 as int),
                ) && p.0 < self.scopes@.len() && p.1 < self.scopes@[p.0 as int].vars@.len(),
                None => lookup_at(scopes_view(self.scopes@), idx as int, name@) is None,
            },
        decreases idx,
    {
        proof {
            assert(scopes_view(self.scopes@)[idx as int] == scope_view(self.scopes@[idx as int]));
        }
        match find_last_in(&self.scopes[idx].vars, name) {
            Some(j) => Some((idx, j)),
            None => {
                match self.scopes[idx].parent {
                    Some(p) => {
                        if p < idx {
                            self.lookup_idx(p, name)
                        } else {
                            None
                        }
                    },
                    None => None,
                }
            },
        }
    }

    fn lookup(&self, name: &String) -> (r: Option<Value>)
        requires
            env_wf(self@),
        ensures
            match r {
                Some(v) => lookup_val(self@, name@) == Some(val_view(v)),
                None => lookup_val(self@, name@) is None,
            },
    {
        match self.lookup_idx(self.cur, name) {
            Some((si, vi)) => {
                proof {
                    assert(scopes_view(self.scopes@)[si as int] == scope_view(
                        self.scopes@[si as int],
                    ));
                    assert(binds_view(self.scopes@[si as int].vars@)[vi as int]
                        == (self.scopes@[si as int].vars@[vi as int].0@, val_view(
                        self.scopes@[si as int].vars@[vi as int].1,
                    )));
                }
                Some(clone_value(&self.scopes[si].vars[vi].1))
            },
            None => None,
        }
    }

    fn declare(&mut self, name: &String, v: Value)
        requires
            env_wf(old(self)@),
        ensures
            final(self)@ == declare_m(old(self)@, name@, val_view(v)),
            env_wf(final(self)@),
            final(self)@.scopes.len() == old(self)@.scopes.len(),
            final(self)@.cur == old(self)@.cur,
    {
        let ghost target = declare_m(old(self)@, name@, val_view(v));
        let cur = self.cur;
        let ghost vm = val_view(v);
        self.scopes[cur].vars.push((name.clone(), v));
        proof {
            assert(binds_view(self.scopes@[cur as int].vars@) =~= old(
                self,
            )@.scopes[cur as int].vars.push((name@, vm)));
            assert(scopes_view(self.scopes@) =~= target.scopes);
            assert(self@ =~= target);
        }
    }

    fn assign(&mut self, name: &String, v: Value) -> (r: bool)
        requires
            env_wf(old(self)@),
        ensures
            match assign_m(old(self)@, name@, val_view(v)) {
                Some(env2) => r && final(self)@ == env2,
                None => !r && final(self)@ == old(self)@,
            },
            env_wf(final(self)@),
            final(self)@.scopes.len() == old(self)@.scopes.len(),
            final(self)@.cur == old(self)@.cur,
    {
        let ghost vm = val_view(v);
        match self.lookup_idx(self.cur, name) {
            Some((si, vi)) => {
                self.scopes[si].vars[vi] = (name.clone(), v);
                proof {
                    let env2 = assign_m(old(self)@, name@, vm).unwrap();
                    assert(binds_view(self.scopes@[si as int].vars@) =~= old(
                        self,
                    )@.scopes[si as int].vars.update(vi as int, (name@, vm)));
                    assert(scopes_view(self.scopes@) =~= env2.scopes);
                    assert(self@ =~= env2);
                }
                true
            },
            None => false,
        }
    }

    fn ban(&mut self, name: &String)
        requires
            env_wf(old(self)@),
        ensures
            final(self)@ == ban_m(old(self)@, name@),
            env_wf(final(self)@),
            final(self)@.scopes.len() == old(self)@.scopes.len(),
            final(self)@.cur == old(self)@.cur,
    {
        let ghost target = ban_m(old(self)@, name@);
        self.banned.push(name.clone());
        proof {
            assert(banned_view(self.banned@) =~= target.banned);
        }
        let n = self.scopes.len();
        for i in 0..n
            invariant
                n == self.scopes@.len(),
                n == old(self)@.scopes.len(),
                banned_view(self.banned@) == target.banned,
                target == ban_m(old(self)@, name@),
                self.cur == old(self).cur,
                self.input@ == old(self).input@,
                self.in_pos == old(self).in_pos,
                self.output@ == old(self).output@,
                self.rng == old(self).rng,
                forall|j: int| 0 <= j < i ==> scopes_view(self.scopes@)[j] == target.scopes[j],
                forall|j: int|
                    i <= j < n ==> scopes_view(self.scopes@)[j] == old(self)@.scopes[j],
        {
            let mut kept: Vec<(String, Value)> = Vec::new();
            proof {
                assert(scopes_view(self.scopes@)[i as int] == old(self)@.scopes[i as int]);
                assert(binds_view(self.scopes@[i as int].vars@).subrange(
                    0,
                    binds_view(self.scopes@[i as int].vars@).len() as int,
                ) =~= binds_view(self.scopes@[i as int].vars@));
            }
            push_kept(&self.scopes[i].vars, 0, name, &mut kept);
            let ghost oldvars = binds_view(self.scopes@[i as int].vars@);
            self.scopes[i].vars = kept;
            proof {
                assert(binds_view(self.scopes@[i as int].vars@) == remove_name(
                    oldvars,
                    name@,
                ));
                assert(scopes_view(self.scopes@)[i as int] == target.scopes[i as int]);
                assert(forall|j: int|
                    0 <= j < n && j != i ==> scopes_view(self.scopes@)[j] == scope_view(
                        self.scopes@[j],
                    ));
            }
        }
        proof {
            assert(scopes_view(self.scopes@) =~= target.scopes);
            assert(self@ =~= target);
        }
    }
}

/// Copy the bindings of one scope, dropping every binding of a name.
fn push_kept(
    vars: &Vec<(String, Value)>,
    start: usize,
    name: &String,
    out: &mut Vec<(String, Value)>,
)
    requires
        start <= vars@.len(),
    ensures
        binds_view(final(out)@) == binds_view(old(out)@) + remove_name(
            binds_view(vars@).subrange(start as int, vars@.len() as int),
            name@,
        ),
    decreases vars@.len() - start,
{
    let ghost sub = binds_view(vars@).subrange(start as int, vars@.len() as int);
    if start == vars.len() {
        proof {
            assert(binds_view(out@) =~= binds_view(old(out)@) + remove_name(sub, name@));
        }
        return ;
    }
    proof {
        assert(sub[0] == binds_view(vars@)[start as int]);
        assert(sub.subrange(1, sub.len() as int) =~= binds_view(vars@).subrange(
            start + 1,
            vars@.len() as int,
        ));
    }
    if vars[start].0 == *name {
        push_kept(vars, start + 1, name, out);
        proof {
            assert(binds_view(out@) =~= binds_view(old(out)@) + remove_name(sub, name@));
        }
    } else {
        let ghost mid = out@;
        out.push((vars[start].0.clone(), clone_value(&vars[start].1)));
        proof {
            assert(binds_view(out@) =~= binds_view(mid) + seq![sub[0]]);
        }
        push_kept(vars, start + 1, name, out);
        proof {
            assert(binds_view(out@) =~= binds_view(old(out)@) + remove_name(sub, name@));
        }
    }
}


fn logical_op(k: &crate::ast::BinOpKind) -> (r: bool)
    ensures
        r == is_logical(*k),
{
    match k {
        crate::ast::BinOpKind::And => true,
        crate::ast::BinOpKind::Or => true,
        _ => false,
    }
}

impl ExecEnv {
    fn eval_expr(&mut self, e: &Expr) -> (r: Result<Value, Error>)
        requires
            env_wf(old(self)@),
        ensures
            ({
                let (r2, res) = eval_expr_m(expr_view(*e), old(self)@);
                &&& final(self)@ == with_rng(old(self)@, r2)
                &&& val_err_matches(r, res)
                &&& env_wf(final(self)@)
            }),
        decreases *e,
    {
        match &e.kind {
            ExprKind::Literal(v) => Ok(clone_value(v)),
            ExprKind::Variable(name) => {
                if self.check_banned(name) {
                    Err(Error { kind: ErrorKind::MeloVariable(name.clone()), span: e.span })
                } else {
                    match self.lookup(name) {
                        Some(v) => Ok(v),
                        None => Err(
                            Error { kind: ErrorKind::UnknownVariable(name.clone()), span: e.span },
                        ),
                    }
                }
            },
            ExprKind::Not(inner) => {
                match self.eval_expr(inner) {
                    Ok(v) => {
                        let c = if is_sometimes(&v) {
                            self.draw_coin()
                        } else {
                            false
                        };
                        match not_value(&v, c) {
                            Ok(nv) => Ok(nv),
                            Err(k) => Err(Error { kind: k, span: e.span }),
                        }
                    },
                    Err(er) => Err(er),
                }
            },
            ExprKind::BinOp { lhs, rhs, kind } => {
                let a = match self.eval_expr(lhs) {
                    Ok(v) => v,
                    Err(er) => {
                        return Err(er);
                    },
                };
                let b = match self.eval_expr(rhs) {
                    Ok(v) => v,
                    Err(er) => {
                        return Err(er);
                    },
                };
                let mut c1 = false;
                let mut c2 = false;
                if logical_op(kind) {
                    if is_sometimes(&a) {
                        c1 = self.draw_coin();
                    }
                    if is_sometimes(&b) {
                        c2 = self.draw_coin();
                    }
                }
                match binop(*kind, &a, &b, c1, c2) {
                    Ok(v) => Ok(v),
                    Err(k) => Err(Error { kind: k, span: e.span }),
                }
            },
            ExprKind::Index { cart, index } => {
                let c = match self.eval_expr(cart) {
                    Ok(v) => v,
                    Err(er) => {
                        return Err(er);
                    },
                };
                let k = match self.eval_expr(index) {
                    Ok(v) => v,
                    Err(er) => {
                        return Err(er);
                    },
                };
                match index_value(&c, &k) {
                    Ok(v) => Ok(v),
                    Err(kk) => Err(Error { kind: kk, span: e.span }),
                }
            },
            ExprKind::Cart(pairs) => {
                let mut out: Vec<(Value, Value)> = Vec::new();
                proof {
                    assert(pairs@.subrange(0, pairs@.len() as int) =~= pairs@);
                    assert(decreases_to!(*e => pairs@));
                    crate::ast::expr_pairs_view_len(pairs@);
                    assert(crate::ast::expr_pairs_view(pairs@).subrange(
                        0,
                        pairs@.len() as int,
                    ) =~= crate::ast::expr_pairs_view(pairs@));
                }
                match self.eval_cart_pairs(pairs, 0, &mut out) {
                    Ok(u) => {
                        proof {
                            assert(crate::variables::val_pairs_view(Seq::<
                                (Value, Value),
                            >::empty()).len() == 0);
                        }
                        Ok(Value::Cart(out))
                    },
                    Err(er) => Err(er),
                }
            },
        }
    }

    fn eval_cart_pairs(
        &mut self,
        ps: &Vec<(Expr, Expr)>,
        start: usize,
        out: &mut Vec<(Value, Value)>,
    ) -> (r: Result<(), Error>)
        requires
            env_wf(old(self)@),
            start <= ps@.len(),
        ensures
            ({
                let (r2, res) = eval_pairs_m(
                    crate::ast::expr_pairs_view(ps@).subrange(start as int, ps@.len() as int),
                    old(self)@,
                );
                &&& final(self)@ == with_rng(old(self)@, r2)
                &&& env_wf(final(self)@)
                &&& match r {
                    Ok(u) => res matches Ok(tail) && crate::variables::val_pairs_view(
                        final(out)@,
                    ) == crate::variables::val_pairs_view(old(out)@) + tail,
                    Err(e2) => res matches Err(em) && err_view(e2.kind) == em,
                }
            }),
        decreases ps@.subrange(start as int, ps@.len() as int),
    {
        let ghost sub = crate::ast::expr_pairs_view(ps@).subrange(start as int, ps@.len() as int);
        proof {
            crate::ast::expr_pairs_view_len(ps@);
        }
        if start == ps.len() {
            proof {
                assert(sub.len() == 0);
                assert(crate::variables::val_pairs_view(out@) =~= crate::variables::val_pairs_view(
                    out@,
                ) + Seq::<(ValM, ValM)>::empty());
            }
            return Ok(());
        }
        proof {
            crate::ast::expr_pairs_view_index(ps@, start as int);
            assert(sub[0] == crate::ast::expr_pairs_view(ps@)[start as int]);
            assert(sub.subrange(1, sub.len() as int) =~= crate::ast::expr_pairs_view(
                ps@,
            ).subrange(start + 1, ps@.len() as int));
            let esub = ps@.subrange(start as int, ps@.len() as int);
            assert(esub[0] == ps@[start as int]);
            assert(decreases_to!(esub => esub[0]));
            assert(esub.subrange(1, esub.len() as int) =~= ps@.subrange(
                start + 1,
                ps@.len() as int,
            ));
            assert(decreases_to!(esub => esub.subrange(1, esub.len() as int)));
        }
        let k = match self.eval_expr(&ps[start].0) {
            Ok(v) => v,
            Err(er) => {
                return Err(er);
            },
        };
        let v = match self.eval_expr(&ps[start].1) {
            Ok(v) => v,
            Err(er) => {
                return Err(er);
            },
        };
        let ghost mid_out = out@;
        let ghost km = val_view(k);
        let ghost vm = val_view(v);
        out.push((k, v));
        proof {
            assert(out@.subrange(0, mid_out.len() as int) =~= mid_out);
            crate::variables::val_pairs_view_push(mid_out, out@, km, vm);
        }
        let ghost pushed = crate::variables::val_pairs_view(out@);
        let res = self.eval_cart_pairs(ps, start + 1, out);
        match res {
            Ok(u) => {
                proof {
                    let (r1, kres) = eval_expr_m(sub[0].0, old(self)@);
                    let (r2, vres) = eval_expr_m(sub[0].1, with_rng(old(self)@, r1));
                    let (r3, rest) = eval_pairs_m(
                        sub.subrange(1, sub.len() as int),
                        with_rng(old(self)@, r2),
                    );
                    let tail = rest->Ok_0;
                    assert(crate::variables::val_pairs_view(mid_out).push((km, vm)) + tail
                        =~= crate::variables::val_pairs_view(mid_out) + (seq![(km, vm)] + tail));
                }
                Ok(())
            },
            Err(er) => Err(er),
        }
    }

    fn eval_args(&mut self, args: &Vec<Expr>, start: usize, out: &mut Vec<Value>) -> (r: Result<
        (),
        Error,
    >)
        requires
            env_wf(old(self)@),
            start <= args@.len(),
        ensures
            ({
                let (r2, res) = eval_args_m(
                    crate::ast::exprs_view(args@).subrange(start as int, args@.len() as int),
                    old(self)@,
                );
                &&& final(self)@ == with_rng(old(self)@, r2)
                &&& env_wf(final(self)@)
                &&& match r {
                    Ok(u) => res matches Ok(tail) && vals_view(final(out)@) == vals_view(
                        old(out)@,
                    ) + tail,
                    Err(e2) => res matches Err(em) && err_view(e2.kind) == em,
                }
            }),
        decreases args@.len() - start,
    {
        let ghost sub = crate::ast::exprs_view(args@).subrange(start as int, args@.len() as int);
        proof {
            crate::ast::exprs_view_len(args@);
        }
        if start == args.len() {
            proof {
                assert(sub.len() == 0);
                assert(vals_view(out@) =~= vals_view(out@) + Seq::<ValM>::empty());
            }
            return Ok(());
        }
        proof {
            crate::ast::exprs_view_index(args@, start as int);
            assert(sub[0] == crate::ast::exprs_view(args@)[start as int]);
            assert(sub.subrange(1, sub.len() as int) =~= crate::ast::exprs_view(args@).subrange(
                start + 1,
                args@.len() as int,
            ));
        }
        let v = match self.eval_expr(&args[start]) {
            Ok(v) => v,
            Err(er) => {
                return Err(er);
            },
        };
        let ghost mid_out = out@;
        let ghost vm = val_view(v);
        out.push(v);
        proof {
            assert(vals_view(out@) =~= vals_view(mid_out).push(vm));
        }
        let res = self.eval_args(args, start + 1, out);
        match res {
            Ok(u) => {
                proof {
                    let (r1, kres) = eval_expr_m(sub[0], old(self)@);
                    let (r2, rest) = eval_args_m(
                        sub.subrange(1, sub.len() as int),
                        with_rng(old(self)@, r1),
                    );
                    assert(vals_view(mid_out).push(vm) + rest->Ok_0 =~= vals_view(old(out)@)
                        + (seq![vm] + rest->Ok_0));
                }
                Ok(())
            },
            Err(er) => Err(er),
        }
    }
}


/// Relies on std's RandomState: a fresh instance carries a randomly chosen
/// per-process key, so finishing an empty hash yields an arbitrary number.
/// Nothing is assumed about the value.
#[verifier::external_body]
fn random_seed() -> u64 {
    std::hash::BuildHasher::build_hasher(&std::collections::hash_map::RandomState::new()).finish()
}

impl ExecEnv {
    /// A fresh context with one empty global scope and a chosen coin seed;
    /// a zero seed is replaced, since the coin source would stay stuck at
    /// zero forever.
    pub fn with_seed(seed: u64) -> (r: ExecEnv)
        ensures
            r@ == (EnvM {
                scopes: seq![ScopeM { parent: None, vars: Seq::empty() }],
                cur: 0,
                banned: Seq::empty(),
                input: Seq::empty(),
                in_pos: 0,
                output: Seq::empty(),
                rng: if seed == 0 {
                    0x9E37_79B9_7F4A_7C15u64
                } else {
                    seed
                },
            }),
            env_wf(r@),
    {
        let rng: u64 = if seed == 0 {
            0x9E37_79B9_7F4A_7C15u64
        } else {
            seed
        };
        let mut scopes: Vec<Scope> = Vec::new();
        scopes.push(Scope { parent: None, vars: Vec::new() });
        let r = ExecEnv {
            scopes,
            cur: 0,
            banned: Vec::new(),
            input: Vec::new(),
            in_pos: 0,
            output: Vec::new(),
            rng,
        };
        proof {
            assert(binds_view(r.scopes@[0].vars@) =~= Seq::<(Seq<char>, ValM)>::empty());
            assert(scopes_view(r.scopes@) =~= seq![
                ScopeM { parent: None, vars: Seq::<(Seq<char>, ValM)>::empty() },
            ]);
            assert(banned_view(r.banned@) =~= Seq::<Seq<char>>::empty());
            assert(input_view(r.input@) =~= Seq::<Seq<char>>::empty());
            assert(r@ =~= (EnvM {
                scopes: seq![ScopeM { parent: None, vars: Seq::empty() }],
                cur: 0,
                banned: Seq::empty(),
                input: Seq::empty(),
                in_pos: 0,
                output: Seq::empty(),
                rng,
            }));
        }
        r
    }

    /// A fresh context seeded from the process's random hasher state.
    pub fn new() -> (r: ExecEnv)
        ensures
            r@.scopes == seq![ScopeM { parent: None, vars: Seq::<(Seq<char>, ValM)>::empty() }],
            r@.cur == 0,
            r@.banned == Seq::<Seq<char>>::empty(),
            r@.input == Seq::<Seq<char>>::empty(),
            r@.in_pos == 0,
            r@.output == Seq::<char>::empty(),
            env_wf(r@),
    {
        ExecEnv::with_seed(random_seed())
    }

    /// Hand one more line to the input source that `read` consumes.
    pub fn feed_line(&mut self, line: String)
        requires
            env_wf(old(self)@),
        ensures
            final(self)@ == (EnvM { input: old(self)@.input.push(line@), ..old(self)@ }),
            env_wf(final(self)@),
    {
        self.input.push(line);
        proof {
            assert(input_view(self.input@) =~= old(self)@.input.push(self.input@.last()@));
            assert(self@ =~= (EnvM { input: old(self)@.input.push(self.input@.last()@), ..old(
                self,
            )@ }));
        }
    }

    fn exec_stmt(&mut self, s: &Stmt, fuel: u64) -> (r: (Flow, u64))
        requires
            env_wf(old(self)@),
        ensures
            ({
                let (envm, fl, rem) = exec_stmt_m(stmt_view(*s), old(self)@, fuel as nat);
                &&& final(self)@ == envm
                &&& flow_matches(r.0, fl)
                &&& r.1 as nat == rem
                &&& env_wf(final(self)@)
                &&& final(self)@.cur == old(self)@.cur
                &&& final(self)@.scopes.len() >= old(self)@.scopes.len()
            }),
        decreases fuel,
    {
        if fuel == 0 {
            return (Flow::Spent, 0);
        }
        let f1 = fuel - 1;
        match &s.kind {
            StmtKind::Rlyeh => (Flow::Done, f1),
            StmtKind::Rickroll => (Flow::Done, f1),
            StmtKind::Break => (Flow::Broke(s.span), f1),
            StmtKind::HopBack => (Flow::Hopped(s.span), f1),
            StmtKind::Var { iden, init } => {
                if self.check_banned(&iden.iden) {
                    return (
                        Flow::Fail(
                            Error {
                                kind: ErrorKind::MeloVariable(iden.iden.clone()),
                                span: iden.span,
                            },
                        ),
                        f1,
                    );
                }
                let v = match init {
                    Some(e) => match self.eval_expr(e) {
                        Ok(v) => v,
                        Err(er) => {
                            return (Flow::Fail(er), f1);
                        },
                    },
                    None => Value::Nul,
                };
                self.declare(&iden.iden, v);
                (Flow::Done, f1)
            },
            StmtKind::Assign { iden, value } => {
                if self.check_banned(&iden.iden) {
                    return (
                        Flow::Fail(
                            Error {
                                kind: ErrorKind::MeloVariable(iden.iden.clone()),
                                span: iden.span,
                            },
                        ),
                        f1,
                    );
                }
                let v = match self.eval_expr(value) {
                    Ok(v) => v,
                    Err(er) => {
                        return (Flow::Fail(er), f1);
                    },
                };
                if self.assign(&iden.iden, v) {
                    (Flow::Done, f1)
                } else {
                    (
                        Flow::Fail(
                            Error {
                                kind: ErrorKind::UnknownVariable(iden.iden.clone()),
                                span: iden.span,
                            },
                        ),
                        f1,
                    )
                }
            },
            StmtKind::If { cond, body } => {
                let v = match self.eval_expr(cond) {
                    Ok(v) => v,
                    Err(er) => {
                        return (Flow::Fail(er), f1);
                    },
                };
                let c = if is_sometimes(&v) {
                    self.draw_coin()
                } else {
                    false
                };
                match crate::variables::resolve(&v, c) {
                    Some(true) => {
                        proof {
                            crate::ast::stmts_view_len(body.block@);
                            assert(stmts_view(body.block@).subrange(
                                0,
                                body.block@.len() as int,
                            ) =~= stmts_view(body.block@));
                        }
                        self.exec_stmts_from(&body.block, 0, f1)
                    },
                    Some(false) => (Flow::Done, f1),
                    None => (Flow::Fail(Error { kind: ErrorKind::TypeError, span: s.span }), f1),
                }
            },
            StmtKind::Loop { body } => self.run_loop(&body.block, f1),
            StmtKind::Print(e) => {
                let v = match self.eval_expr(e) {
                    Ok(v) => v,
                    Err(er) => {
                        return (Flow::Fail(er), f1);
                    },
                };
                let ghost mid = self@;
                render_into(&v, &mut self.output);
                self.output.push('\n');
                proof {
                    assert(self@.output =~= mid.output + render_m(val_view(v)) + seq!['\n']);
                    assert(self@ =~= (EnvM {
                        output: mid.output + render_m(val_view(v)) + seq!['\n'],
                        ..mid
                    }));
                }
                (Flow::Done, f1)
            },
            StmtKind::Read(iden) => {
                if self.check_banned(&iden.iden) {
                    return (
                        Flow::Fail(
                            Error {
                                kind: ErrorKind::MeloVariable(iden.iden.clone()),
                                span: iden.span,
                            },
                        ),
                        f1,
                    );
                }
                let v: Value;
                if self.in_pos < self.input.len() {
                    proof {
                        assert(old(self)@.input[self.in_pos as int] == self.input@[
                            self.in_pos as int]@);
                    }
                    v = classify(&self.input[self.in_pos]);
                    self.in_pos = self.in_pos + 1;
                    proof {
                        assert(self@ =~= (EnvM { in_pos: old(self)@.in_pos + 1, ..old(self)@ }));
                    }
                } else {
                    v = Value::Nul;
                }
                match self.lookup_idx(self.cur, &iden.iden) {
                    Some(p) => {
                        let did = self.assign(&iden.iden, v);
                    },
                    None => {
                        self.declare(&iden.iden, v);
                    },
                }
                (Flow::Done, f1)
            },
            StmtKind::Melo(iden) => {
                if self.check_banned(&iden.iden) {
                    return (
                        Flow::Fail(
                            Error {
                                kind: ErrorKind::MeloVariable(iden.iden.clone()),
                                span: iden.span,
                            },
                        ),
                        f1,
                    );
                }
                self.ban(&iden.iden);
                proof {
                    assert(self@.scopes.len() == scopes_remove(
                        old(self)@.scopes,
                        iden.iden@,
                    ).len());
                    assert(self@.scopes.len() == old(self)@.scopes.len());
                }
                (Flow::Done, f1)
            },
            StmtKind::Functio { iden, params, body } => {
                if self.check_banned(&iden.iden) {
                    return (
                        Flow::Fail(
                            Error {
                                kind: ErrorKind::MeloVariable(iden.iden.clone()),
                                span: iden.span,
                            },
                        ),
                        f1,
                    );
                }
                let f = Value::Functio(
                    Functio::Able {
                        params: clone_params(params),
                        body: clone_block(body),
                        scope: self.cur,
                    },
                );
                self.declare(&iden.iden, f);
                (Flow::Done, f1)
            },
            StmtKind::BfFunctio { iden, tape_len, code } => {
                if self.check_banned(&iden.iden) {
                    return (
                        Flow::Fail(
                            Error {
                                kind: ErrorKind::MeloVariable(iden.iden.clone()),
                                span: iden.span,
                            },
                        ),
                        f1,
                    );
                }
                let tl: i32 = match tape_len {
                    Some(e) => match self.eval_expr(e) {
                        Ok(v) => match v {
                            Value::Int(k) => k,
                            _ => {
                                return (
                                    Flow::Fail(
                                        Error { kind: ErrorKind::TypeError, span: s.span },
                                    ),
                                    f1,
                                );
                            },
                        },
                        Err(er) => {
                            return (Flow::Fail(er), f1);
                        },
                    },
                    None => DEFAULT_TAPE_LEN as i32,
                };
                if tl < 1 {
                    return (Flow::Fail(Error { kind: ErrorKind::TypeError, span: s.span }), f1);
                }
                match brian::match_brackets(code) {
                    Some(jumps) => {
                        let ghost jm = brian::jumps_view(jumps@);
                        let f = Value::Functio(
                            Functio::Bf {
                                code: crate::eq::clone_bytes(code),
                                tape_len: tl as usize,
                                jumps,
                            },
                        );
                        proof {
                            assert(val_view(f) matches ValM::Functio(FunctioM::Bf {
                                code: cm,
                                tape_len: tm,
                                jumps: jmm,
                            }) && cm == code@ && tm == tl as int && jmm =~= jm);
                        }
                        self.declare(&iden.iden, f);
                        (Flow::Done, f1)
                    },
                    None => (
                        Flow::Fail(Error { kind: ErrorKind::MismatchedBracket, span: s.span }),
                        f1,
                    ),
                }
            },
            StmtKind::Call { expr, args } => {
                let cv = match self.eval_expr(expr) {
                    Ok(v) => v,
                    Err(er) => {
                        return (Flow::Fail(er), f1);
                    },
                };
                proof {
                    crate::ast::exprs_view_len(args@);
                    assert(crate::ast::exprs_view(args@).subrange(0, args@.len() as int)
                        =~= crate::ast::exprs_view(args@));
                }
                match cv {
                    Value::Functio(Functio::Able { params, body, scope }) => {
                        let mut argv: Vec<Value> = Vec::new();
                        match self.eval_args(args, 0, &mut argv) {
                            Ok(u) => {},
                            Err(er) => {
                                return (Flow::Fail(er), f1);
                            },
                        }
                        if argv.len() != params.len() {
                            proof {
                                assert(vals_view(argv@).len() == argv@.len());
                                assert(crate::variables::params_view(params@).len()
                                    == params@.len());
                            }
                            return (
                                Flow::Fail(Error { kind: ErrorKind::ArityError, span: s.span }),
                                f1,
                            );
                        }
                        let ghost pm = crate::variables::params_view(params@);
                        let ghost vm = vals_view(argv@);
                        let ghost childvars = Seq::new(pm.len(), |k: int| (pm[k], vm[k]));
                        let ghost envc = self@;
                        let n = params.len();
                        let mut vars: Vec<(String, Value)> = Vec::new();
                        proof {
                            assert(vals_view(argv@).subrange(0, n as int) =~= vals_view(argv@));
                            assert(binds_view(vars@) =~= childvars.take(0));
                        }
                        for i in 0..n
                            invariant
                                n == params@.len(),
                                pm == crate::variables::params_view(params@),
                                vm.len() == n,
                                childvars == Seq::new(pm.len(), |k: int| (pm[k], vm[k])),
                                vals_view(argv@) == vm.subrange(i as int, n as int),
                                argv@.len() == n - i,
                                binds_view(vars@) == childvars.take(i as int),
                        {
                            let ghost argv_pre = argv@;
                            let ghost vars_pre = vars@;
                            let a = argv.remove(0);
                            proof {
                                assert(argv_pre.len() == n - i);
                                assert(a == argv_pre[0]);
                                assert(vals_view(argv_pre)[0] == val_view(argv_pre[0]));
                                assert(vals_view(argv_pre) == vm.subrange(i as int, n as int));
                                assert(vm.subrange(i as int, n as int)[0] == vm[i as int]);
                                assert(val_view(a) == vm[i as int]);
                                assert(argv@ == argv_pre.remove(0));
                                assert forall|j: int| 0 <= j < argv@.len() implies vals_view(
                                    argv@,
                                )[j] == vm.subrange(i + 1, n as int)[j] by {
                                    assert(argv@[j] == argv_pre[j + 1]);
                                    assert(vals_view(argv_pre)[j + 1] == val_view(
                                        argv_pre[j + 1],
                                    ));
                                    assert(vm.subrange(i as int, n as int)[j + 1] == vm[i + 1
                                        + j]);
                                }
                                assert(vals_view(argv@) =~= vm.subrange(i + 1, n as int));
                            }
                            let pname = params[i].iden.clone();
                            let ghost pnm = pname@;
                            proof {
                                assert(pnm == params@[i as int].iden@);
                                assert(binds_view(vars@).len() == vars@.len());
                                assert(childvars.take(i as int).len() == i);
                                assert(vars@.len() == i);
                            }
                            vars.push((pname, a));
                            proof {
                                assert(vars@[i as int] == (vars@[i as int].0, vars@[i as int].1));
                                assert(vars@[i as int].0@ == pnm);
                                assert(vars@[i as int].0@ == params@[i as int].iden@);
                                assert(binds_view(vars@)[i as int] == (
                                    params@[i as int].iden@,
                                    vm[i as int],
                                ));
                                assert(pm[i as int] == params@[i as int].iden@);
                                assert(childvars[i as int] == (pm[i as int], vm[i as int]));
                                assert(binds_view(vars@) =~= childvars.take(i + 1));
                            }
                        }
                        proof {
                            assert(childvars.take(n as int) =~= childvars);
                        }
                        self.scopes.push(Scope { parent: Some(scope), vars });
                        let saved = self.cur;
                        self.cur = self.scopes.len() - 1;
                        let ghost env2 = EnvM {
                            scopes: envc.scopes.push(
                                ScopeM { parent: Some(scope as int), vars: childvars },
                            ),
                            cur: envc.scopes.len() as int,
                            ..envc
                        };
                        proof {
                            assert(scopes_view(self.scopes@) =~= envc.scopes.push(
                                ScopeM { parent: Some(scope as int), vars: childvars },
                            ));
                            assert(self@ =~= env2);
                            crate::ast::stmts_view_len(body.block@);
                            assert(stmts_view(body.block@).subrange(
                                0,
                                body.block@.len() as int,
                            ) =~= stmts_view(body.block@));
                        }
                        let rbody = self.exec_stmts_from(&body.block, 0, f1);
                        let fl2 = rbody.0;
                        let rem = rbody.1;
                        self.cur = saved;
                        proof {
                            let trip = exec_stmts_m(
                                stmts_view(body.block@),
                                env2,
                                f1 as nat,
                            );
                            assert(self@ =~= (EnvM { cur: old(self)@.cur, ..trip.0 }));
                        }
                        match fl2 {
                            Flow::Done => (Flow::Done, rem),
                            Flow::Broke(sp) => (
                                Flow::Fail(Error { kind: ErrorKind::TopLevelBreak, span: sp }),
                                rem,
                            ),
                            Flow::Hopped(sp) => (
                                Flow::Fail(Error { kind: ErrorKind::TopLevelHopBack, span: sp }),
                                rem,
                            ),
                            Flow::Fail(er) => (Flow::Fail(er), rem),
                            Flow::Spent => (Flow::Spent, rem),
                        }
                    },
                    Value::Functio(Functio::Bf { code, tape_len, jumps }) => {
                        let mut argv: Vec<Value> = Vec::new();
                        match self.eval_args(args, 0, &mut argv) {
                            Ok(u) => {},
                            Err(er) => {
                                return (Flow::Fail(er), f1);
                            },
                        }
                        if argv.len() != 0 {
                            proof {
                                assert(vals_view(argv@).len() == argv@.len());
                            }
                            return (
                                Flow::Fail(Error { kind: ErrorKind::ArityError, span: s.span }),
                                f1,
                            );
                        }
                        proof {
                            assert(vals_view(argv@).len() == 0);
                        }
                        let ghost envr = self@;
                        let rr = brian::run(
                            &code,
                            &jumps,
                            tape_len,
                            &self.input,
                            self.in_pos,
                            &mut self.output,
                            f1,
                        );
                        self.in_pos = rr.0;
                        proof {
                            assert(self@ =~= (EnvM {
                                in_pos: rr.0 as int,
                                output: self@.output,
                                rng: envr.rng,
                                ..envr
                            }));
                        }
                        let rem = if rr.2 <= f1 {
                            rr.2
                        } else {
                            f1
                        };
                        match rr.1 {
                            BfEndE::Done => (Flow::Done, rem),
                            BfEndE::Bounds => (
                                Flow::Fail(Error { kind: ErrorKind::BfBounds, span: s.span }),
                                rem,
                            ),
                            BfEndE::Mismatched => (
                                Flow::Fail(
                                    Error { kind: ErrorKind::MismatchedBracket, span: s.span },
                                ),
                                rem,
                            ),
                            BfEndE::Spent => (Flow::Spent, rem),
                        }
                    },
                    _ => (Flow::Fail(Error { kind: ErrorKind::TypeError, span: s.span }), f1),
                }
            },
        }
    }

    fn exec_stmts_from(&mut self, b: &Vec<Stmt>, start: usize, fuel: u64) -> (r: (Flow, u64))
        requires
            env_wf(old(self)@),
            start <= b@.len(),
        ensures
            ({
                let (envm, fl, rem) = exec_stmts_m(
                    stmts_view(b@).subrange(start as int, b@.len() as int),
                    old(self)@,
                    fuel as nat,
                );
                &&& final(self)@ == envm
                &&& flow_matches(r.0, fl)
                &&& r.1 as nat == rem
                &&& env_wf(final(self)@)
                &&& final(self)@.cur == old(self)@.cur
                &&& final(self)@.scopes.len() >= old(self)@.scopes.len()
            }),
        decreases fuel,
    {
        let ghost sub = stmts_view(b@).subrange(start as int, b@.len() as int);
        proof {
            crate::ast::stmts_view_len(b@);
        }
        if start == b.len() {
            proof {
                assert(sub.len() == 0);
            }
            return (Flow::Done, fuel);
        }
        if fuel == 0 {
            return (Flow::Spent, 0);
        }
        proof {
            crate::ast::stmts_view_index(b@, start as int);
            assert(sub[0] == stmt_view(b@[start as int]));
            assert(sub.subrange(1, sub.len() as int) =~= stmts_view(b@).subrange(
                start + 1,
                b@.len() as int,
            ));
        }
        let (fl, rem0) = self.exec_stmt(&b[start], fuel - 1);
        let rem = if rem0 <= fuel - 1 {
            rem0
        } else {
            fuel - 1
        };
        match fl {
            Flow::Done => self.exec_stmts_from(b, start + 1, rem),
            _ => (fl, rem),
        }
    }

    fn run_loop(&mut self, body: &Vec<Stmt>, fuel: u64) -> (r: (Flow, u64))
        requires
            env_wf(old(self)@),
        ensures
            ({
                let (envm, fl, rem) = loop_m(stmts_view(body@), old(self)@, fuel as nat);
                &&& final(self)@ == envm
                &&& flow_matches(r.0, fl)
                &&& r.1 as nat == rem
                &&& env_wf(final(self)@)
                &&& final(self)@.cur == old(self)@.cur
                &&& final(self)@.scopes.len() >= old(self)@.scopes.len()
            }),
        decreases fuel,
    {
        if fuel == 0 {
            return (Flow::Spent, 0);
        }
        proof {
            crate::ast::stmts_view_len(body@);
            assert(stmts_view(body@).subrange(0, body@.len() as int) =~= stmts_view(body@));
        }
        let (fl, rem0) = self.exec_stmts_from(body, 0, fuel - 1);
        let rem = if rem0 <= fuel - 1 {
            rem0
        } else {
            fuel - 1
        };
        match fl {
            Flow::Broke(sp) => (Flow::Done, rem),
            Flow::Done => self.run_loop(body, rem),
            Flow::Hopped(sp) => self.run_loop(body, rem),
            _ => (fl, rem),
        }
    }

    /// Run one parsed block to completion under an explicit step budget.
    pub fn eval_stmts_with_steps(&mut self, stmts: &Vec<Stmt>, steps: u64) -> (r: Result<
        (),
        Error,
    >)
        requires
            env_wf(old(self)@),
        ensures
            ({
                let (envm, fl, rem) = exec_stmts_m(stmts_view(stmts@), old(self)@, steps as nat);
                &&& final(self)@ == envm
                &&& outcome_matches(r, fl)
                &&& env_wf(final(self)@)
            }),
    {
        proof {
            crate::ast::stmts_view_len(stmts@);
            assert(stmts_view(stmts@).subrange(0, stmts@.len() as int) =~= stmts_view(stmts@));
        }
        let (fl, rem) = self.exec_stmts_from(stmts, 0, steps);
        match fl {
            Flow::Done => Ok(()),
            Flow::Broke(sp) => Err(Error { kind: ErrorKind::TopLevelBreak, span: sp }),
            Flow::Hopped(sp) => Err(Error { kind: ErrorKind::TopLevelHopBack, span: sp }),
            Flow::Fail(er) => Err(er),
            Flow::Spent => Err(Error { kind: ErrorKind::StepLimit, span: Span::new(0, 0) }),
        }
    }

    /// Run one parsed block to completion, with the default step budget.
    pub fn eval_stmts(&mut self, stmts: &Vec<Stmt>) -> (r: Result<(), Error>)
        requires
            env_wf(old(self)@),
        ensures
            ({
                let (envm, fl, rem) = exec_stmts_m(
                    stmts_view(stmts@),
                    old(self)@,
                    DEFAULT_STEPS as nat,
                );
                &&& final(self)@ == envm
                &&& outcome_matches(r, fl)
                &&& env_wf(final(self)@)
            }),
    {
        self.eval_stmts_with_steps(stmts, DEFAULT_STEPS)
    }
}


/// Law: executing the statements of one block and then another is the same
/// as executing their concatenation.
pub proof fn lemma_stmts_append(a: Seq<StmtM>, b: Seq<StmtM>, env: EnvM, fuel: nat)
    ensures
        exec_stmts_m(a + b, env, fuel) == ({
            let (e2, fl, rem) = exec_stmts_m(a, env, fuel);
            if fl == FlowM::Done {
                exec_stmts_m(b, e2, rem)
            } else {
                (e2, fl, rem)
            }
        }),
    decreases a.len(),
{
    if a.len() == 0 {
        assert(a + b =~= b);
    } else {
        assert((a + b)[0] == a[0]);
        assert((a + b).len() == a.len() + b.len());
        if fuel == 0 {
        } else {
            let (env1, fl, rem0) = exec_stmt_m(a[0], env, (fuel - 1) as nat);
            let rem: nat = if rem0 <= fuel - 1 {
                rem0
            } else {
                (fuel - 1) as nat
            };
            assert((a + b).subrange(1, (a + b).len() as int) =~= a.subrange(1, a.len() as int)
                + b);
            if fl == FlowM::Done {
                lemma_stmts_append(a.subrange(1, a.len() as int), b, env1, rem);
            }
        }
    }
}

/// The executor never returns more budget than it was given.
pub proof fn lemma_stmts_fuel(b: Seq<StmtM>, env: EnvM, fuel: nat)
    ensures
        exec_stmts_m(b, env, fuel).2 <= fuel,
    decreases b.len(),
{
    if b.len() == 0 || fuel == 0 {
    } else {
        let (env1, fl, rem0) = exec_stmt_m(b[0], env, (fuel - 1) as nat);
        let rem: nat = if rem0 <= fuel - 1 {
            rem0
        } else {
            (fuel - 1) as nat
        };
        if fl == FlowM::Done {
            lemma_stmts_fuel(b.subrange(1, b.len() as int), env1, rem);
        }
    }
}

/// Law: a loop whose body is some break-free completed prefix, then a
/// break, then anything else, runs the prefix exactly once and ends the
/// loop: the state after the loop is exactly the state after one pass of
/// the prefix. Because execution is step-indexed, the law asks for two
/// steps of margin beyond the prefix's own run: one for the break itself
/// and one for the block step that reaches it; with less, the run ends as
/// `Spent`, not as a completed loop.
pub proof fn lemma_loop_one_break(prefix: Seq<StmtM>, suffix: Seq<StmtM>, env: EnvM, fuel: nat)
    requires
        fuel > 0,
        exec_stmts_m(prefix, env, (fuel - 1) as nat).1 == FlowM::Done,
        exec_stmts_m(prefix, env, (fuel - 1) as nat).2 >= 2,
    ensures
        ({
            let (env2, fl, rem) = exec_stmts_m(prefix, env, (fuel - 1) as nat);
            loop_m(prefix + seq![StmtM::Break] + suffix, env, fuel) == (
                env2,
                FlowM::Done,
                (rem - 2) as nat,
            )
        }),
{
    let body = prefix + seq![StmtM::Break] + suffix;
    let (env2, fl, rem) = exec_stmts_m(prefix, env, (fuel - 1) as nat);
    lemma_stmts_fuel(prefix, env, (fuel - 1) as nat);
    lemma_stmts_append(prefix, seq![StmtM::Break] + suffix, env, (fuel - 1) as nat);
    assert(prefix + (seq![StmtM::Break] + suffix) =~= body);
    let tail2 = seq![StmtM::Break] + suffix;
    assert(tail2[0] == StmtM::Break);
    assert(exec_stmt_m(StmtM::Break, env2, (rem - 1) as nat) == (
        env2,
        FlowM::Broke,
        (rem - 2) as nat,
    ));
    assert(exec_stmts_m(tail2, env2, rem) == (env2, FlowM::Broke, (rem - 2) as nat));
    assert(exec_stmts_m(body, env, (fuel - 1) as nat) == (env2, FlowM::Broke, (rem - 2) as nat));
}

/// Law: the banned set only grows: a name banned before any statement runs
/// is still banned afterwards, whatever the statement did.
pub proof fn lemma_ban_permanent_stmt(s: StmtM, env: EnvM, fuel: nat, name: Seq<char>)
    requires
        is_banned(env.banned, name),
    ensures
        is_banned(exec_stmt_m(s, env, fuel).0.banned, name),
    decreases fuel,
{
    if fuel == 0 {
    } else {
        let f1 = (fuel - 1) as nat;
        match s {
            StmtM::If { cond, body } => {
                let (r1, res) = eval_expr_m(cond, env);
                match res {
                    Ok(v) => {
                        let (r2, t) = resolve_rng(r1, v);
                        if t == Some(true) {
                            lemma_ban_permanent_stmts(body, with_rng(env, r2), f1, name);
                        }
                    },
                    Err(er) => {},
                }
            },
            StmtM::Loop { body } => {
                lemma_ban_permanent_loop(body, env, f1, name);
            },
            StmtM::Melo(iden) => {
                if !is_banned(env.banned, iden) {
                    let i0 = choose|i: int| 0 <= i < env.banned.len() && env.banned[i] == name;
                    assert(env.banned.push(iden)[i0] == name);
                }
            },
            StmtM::Call { expr, args } => {
                let (r1, cres) = eval_expr_m(expr, env);
                match cres {
                    Ok(cv) => match cv {
                        ValM::Functio(FunctioM::Able { params, body, scope }) => {
                            let (r2, ares) = eval_args_m(args, with_rng(env, r1));
                            match ares {
                                Ok(vals) => {
                                    if vals.len() == params.len() {
                                        let envc = with_rng(env, r2);
                                        let child = ScopeM {
                                            parent: Some(scope),
                                            vars: Seq::new(
                                                params.len(),
                                                |i: int| (params[i], vals[i]),
                                            ),
                                        };
                                        let env2 = EnvM {
                                            scopes: envc.scopes.push(child),
                                            cur: envc.scopes.len() as int,
                                            ..envc
                                        };
                                        lemma_ban_permanent_stmts(body, env2, f1, name);
                                    }
                                },
                                Err(er) => {},
                            }
                        },
                        _ => {},
                    },
                    Err(er) => {},
                }
            },
            _ => {},
        }
    }
}

pub proof fn lemma_ban_permanent_stmts(b: Seq<StmtM>, env: EnvM, fuel: nat, name: Seq<char>)
    requires
        is_banned(env.banned, name),
    ensures
        is_banned(exec_stmts_m(b, env, fuel).0.banned, name),
    decreases fuel,
{
    if b.len() == 0 || fuel == 0 {
    } else {
        let (env1, fl, rem0) = exec_stmt_m(b[0], env, (fuel - 1) as nat);
        lemma_ban_permanent_stmt(b[0], env, (fuel - 1) as nat, name);
        let rem: nat = if rem0 <= fuel - 1 {
            rem0
        } else {
            (fuel - 1) as nat
        };
        if fl == FlowM::Done {
            lemma_ban_permanent_stmts(b.subrange(1, b.len() as int), env1, rem, name);
        }
    }
}

pub proof fn lemma_ban_permanent_loop(body: Seq<StmtM>, env: EnvM, fuel: nat, name: Seq<char>)
    requires
        is_banned(env.banned, name),
    ensures
        is_banned(loop_m(body, env, fuel).0.banned, name),
    decreases fuel,
{
    if fuel == 0 {
    } else {
        let (env1, fl, rem0) = exec_stmts_m(body, env, (fuel - 1) as nat);
        lemma_ban_permanent_stmts(body, env, (fuel - 1) as nat, name);
        let rem: nat = if rem0 <= fuel - 1 {
            rem0
        } else {
            (fuel - 1) as nat
        };
        match fl {
            FlowM::Done => lemma_ban_permanent_loop(body, env1, rem, name),
            FlowM::Hopped => lemma_ban_permanent_loop(body, env1, rem, name),
            _ => {},
        }
    }
}

/// Law: banning a name bans it: after a `melo` of a fresh name, the name
/// is in the banned set.
pub proof fn lemma_melo_bans(env: EnvM, name: Seq<char>, fuel: nat)
    requires
        fuel > 0,
        !is_banned(env.banned, name),
    ensures
        exec_stmt_m(StmtM::Melo(name), env, fuel).1 == FlowM::Done,
        is_banned(exec_stmt_m(StmtM::Melo(name), env, fuel).0.banned, name),
{
    let e2 = exec_stmt_m(StmtM::Melo(name), env, fuel).0;
    assert(e2.banned[env.banned.len() as int] == name);
}

/// Law: while a name is banned, every statement that targets it — a fresh
/// declaration included — fails at once with the banned-name error and
/// changes nothing.
pub proof fn lemma_banned_name_fails(s: StmtM, env: EnvM, fuel: nat, name: Seq<char>)
    requires
        fuel > 0,
        is_banned(env.banned, name),
        ({
            ||| (s matches StmtM::Var { iden, init } && iden == name)
            ||| (s matches StmtM::Assign { iden, value } && iden == name)
            ||| s == StmtM::Read(name)
            ||| s == StmtM::Melo(name)
            ||| (s matches StmtM::Functio { iden, params, body } && iden == name)
            ||| (s matches StmtM::BfFunctio { iden, tape_len, code } && iden == name)
        }),
    ensures
        exec_stmt_m(s, env, fuel) == (env, FlowM::Fail(ErrM::MeloVariable(name)), (fuel
            - 1) as nat),
{
}

/// Law: while a name is banned, reading it as an expression — and so any
/// call through it — fails with the banned-name error.
pub proof fn lemma_banned_reference_fails(env: EnvM, name: Seq<char>)
    ensures
        is_banned(env.banned, name) ==> eval_expr_m(ExprM::Variable(name), env) == (
            env.rng,
            Err::<ValM, ErrM>(ErrM::MeloVariable(name)),
        ),
{
}

} // verus!
