//! Span-transparent structural equality, and deep copies.
//!
//! Each function returns (or preserves) exactly the equality of the span-free
//! models, so spans are provably never part of identity.

use vstd::prelude::*;

use crate::ast::{
    expr_pairs_view, expr_view, exprs_view, stmt_view, stmts_view, Block, Expr, ExprKind, Iden,
    Stmt, StmtKind,
};
use crate::variables::{
    functio_view, params_view, val_pairs_view, val_view, Functio, Value,
};

verus! {

broadcast use
    crate::ast::stmts_view_len,
    crate::ast::stmts_view_index,
    crate::ast::exprs_view_len,
    crate::ast::exprs_view_index,
    crate::ast::expr_pairs_view_len,
    crate::ast::expr_pairs_view_index,
    crate::variables::val_pairs_view_len,
    crate::variables::val_pairs_view_index;

pub fn bytes_eq(a: &Vec<u8>, b: &Vec<u8>) -> (r: bool)
    ensures
        r == (a@ == b@),
{
    if a.len() != b.len() {
        return false;
    }
    for i in 0..a.len()
        invariant
            a@.len() == b@.len(),
            forall|j: int| 0 <= j < i ==> a@[j] == b@[j],
    {
        if a[i] != b[i] {
            return false;
        }
    }
    proof {
        assert(a@ =~= b@);
    }
    true
}

pub fn params_eq(a: &Vec<Iden>, b: &Vec<Iden>) -> (r: bool)
    ensures
        r == (params_view(a@) == params_view(b@)),
{
    if a.len() != b.len() {
        proof {
            assert(params_view(a@).len() != params_view(b@).len());
        }
        return false;
    }
    for i in 0..a.len()
        invariant
            a@.len() == b@.len(),
            forall|j: int| 0 <= j < i ==> params_view(a@)[j] == params_view(b@)[j],
    {
        if !(a[i] == b[i]) {
            proof {
                assert(params_view(a@)[i as int] != params_view(b@)[i as int]);
            }
            return false;
        }
        proof {
            assert(params_view(a@)[i as int] == params_view(b@)[i as int]);
        }
    }
    proof {
        assert(params_view(a@) =~= params_view(b@));
    }
    true
}

pub fn expr_eq(a: &Expr, b: &Expr) -> (r: bool)
    ensures
        r == (expr_view(*a) == expr_view(*b)),
    decreases *a,
{
    match (&a.kind, &b.kind) {
        (
            ExprKind::BinOp { lhs: l1, rhs: r1, kind: k1 },
            ExprKind::BinOp { lhs: l2, rhs: r2, kind: k2 },
        ) => {
            let same_kind = *k1 == *k2;
            let same_lhs = expr_eq(l1, l2);
            let same_rhs = expr_eq(r1, r2);
            same_kind && same_lhs && same_rhs
        },
        (ExprKind::Not(i1), ExprKind::Not(i2)) => expr_eq(i1, i2),
        (ExprKind::Literal(v1), ExprKind::Literal(v2)) => value_eq(v1, v2),
        (ExprKind::Cart(p1), ExprKind::Cart(p2)) => expr_pairs_eq(p1, p2),
        (ExprKind::Index { cart: c1, index: i1 }, ExprKind::Index { cart: c2, index: i2 }) => {
            let same_cart = expr_eq(c1, c2);
            let same_index = expr_eq(i1, i2);
            same_cart && same_index
        },
        (ExprKind::Variable(n1), ExprKind::Variable(n2)) => *n1 == *n2,
        _ => false,
    }
}

pub fn expr_pairs_eq(a: &Vec<(Expr, Expr)>, b: &Vec<(Expr, Expr)>) -> (r: bool)
    ensures
        r == (expr_pairs_view(a@) == expr_pairs_view(b@)),
    decreases a@,
{
    if a.len() != b.len() {
        proof {
            assert(expr_pairs_view(a@).len() != expr_pairs_view(b@).len());
        }
        return false;
    }
    for i in 0..a.len()
        invariant
            a@.len() == b@.len(),
            forall|j: int| 0 <= j < i ==> expr_pairs_view(a@)[j] == expr_pairs_view(b@)[j],
        decreases a@.len() - i,
    {
        let keys = expr_eq(&a[i].0, &b[i].0);
        let vals = expr_eq(&a[i].1, &b[i].1);
        if !(keys && vals) {
            proof {
                assert(expr_pairs_view(a@)[i as int] != expr_pairs_view(b@)[i as int]);
            }
            return false;
        }
        proof {
            assert(expr_pairs_view(a@)[i as int] == expr_pairs_view(b@)[i as int]);
        }
    }
    proof {
        assert(expr_pairs_view(a@) =~= expr_pairs_view(b@));
    }
    true
}

pub fn exprs_eq(a: &Vec<Expr>, b: &Vec<Expr>) -> (r: bool)
    ensures
        r == (exprs_view(a@) == exprs_view(b@)),
    decreases a@,
{
    if a.len() != b.len() {
        proof {
            assert(exprs_view(a@).len() != exprs_view(b@).len());
        }
        return false;
    }
    for i in 0..a.len()
        invariant
            a@.len() == b@.len(),
            forall|j: int| 0 <= j < i ==> exprs_view(a@)[j] == exprs_view(b@)[j],
        decreases a@.len() - i,
    {
        if !expr_eq(&a[i], &b[i]) {
            proof {
                assert(exprs_view(a@)[i as int] != exprs_view(b@)[i as int]);
            }
            return false;
        }
        proof {
            assert(exprs_view(a@)[i as int] == exprs_view(b@)[i as int]);
        }
    }
    proof {
        assert(exprs_view(a@) =~= exprs_view(b@));
    }
    true
}

pub fn value_eq(a: &Value, b: &Value) -> (r: bool)
    ensures
        r == (val_view(*a) == val_view(*b)),
    decreases *a,
{
    match (a, b) {
        (Value::Nul, Value::Nul) => true,
        (Value::Str(s1), Value::Str(s2)) => *s1 == *s2,
        (Value::Int(n1), Value::Int(n2)) => *n1 == *n2,
        (Value::Bool(b1), Value::Bool(b2)) => *b1 == *b2,
        (Value::Abool(a1), Value::Abool(a2)) => *a1 == *a2,
        (Value::Functio(f1), Value::Functio(f2)) => functio_eq(f1, f2),
        (Value::Cart(p1), Value::Cart(p2)) => value_pairs_eq(p1, p2),
        _ => false,
    }
}

pub fn value_pairs_eq(a: &Vec<(Value, Value)>, b: &Vec<(Value, Value)>) -> (r: bool)
    ensures
        r == (val_pairs_view(a@) == val_pairs_view(b@)),
    decreases a@,
{
    if a.len() != b.len() {
        proof {
            assert(val_pairs_view(a@).len() != val_pairs_view(b@).len());
        }
        return false;
    }
    for i in 0..a.len()
        invariant
            a@.len() == b@.len(),
            forall|j: int| 0 <= j < i ==> val_pairs_view(a@)[j] == val_pairs_view(b@)[j],
        decreases a@.len() - i,
    {
        let keys = value_eq(&a[i].0, &b[i].0);
        let vals = value_eq(&a[i].1, &b[i].1);
        if !(keys && vals) {
            proof {
                assert(val_pairs_view(a@)[i as int] != val_pairs_view(b@)[i as int]);
            }
            return false;
        }
        proof {
            assert(val_pairs_view(a@)[i as int] == val_pairs_view(b@)[i as int]);
        }
    }
    proof {
        assert(val_pairs_view(a@) =~= val_pairs_view(b@));
    }
    true
}

pub fn functio_eq(a: &Functio, b: &Functio) -> (r: bool)
    ensures
        r == (functio_view(*a) == functio_view(*b)),
    decreases *a,
{
    match (a, b) {
        (
            Functio::Able { params: p1, body: b1, scope: s1 },
            Functio::Able { params: p2, body: b2, scope: s2 },
        ) => {
            let same_params = params_eq(p1, p2);
            let same_body = block_eq(b1, b2);
            same_params && same_body && *s1 == *s2
        },
        (
            Functio::Bf { code: c1, tape_len: t1, jumps: j1 },
            Functio::Bf { code: c2, tape_len: t2, jumps: j2 },
        ) => {
            let code_same = bytes_eq(c1, c2);
            let jumps_same = jumps_eq(j1, j2);
            code_same && *t1 == *t2 && jumps_same
        },
        _ => false,
    }
}

pub fn jumps_eq(a: &Vec<usize>, b: &Vec<usize>) -> (r: bool)
    ensures
        r == (Seq::new(a@.len(), |i: int| a@[i] as int) == Seq::new(
            b@.len(),
            |i: int| b@[i] as int,
        )),
{
    let ghost va = Seq::new(a@.len(), |i: int| a@[i] as int);
    let ghost vb = Seq::new(b@.len(), |i: int| b@[i] as int);
    if a.len() != b.len() {
        return false;
    }
    for i in 0..a.len()
        invariant
            a@.len() == b@.len(),
            va == Seq::new(a@.len(), |i: int| a@[i] as int),
            vb == Seq::new(b@.len(), |i: int| b@[i] as int),
            forall|j: int| 0 <= j < i ==> va[j] == vb[j],
    {
        if a[i] != b[i] {
            proof {
                assert(va[i as int] != vb[i as int]);
            }
            return false;
        }
        proof {
            assert(va[i as int] == vb[i as int]);
        }
    }
    proof {
        assert(va =~= vb);
    }
    true
}

pub fn block_eq(a: &Block, b: &Block) -> (r: bool)
    ensures
        r == (stmts_view(a.block@) == stmts_view(b.block@)),
    decreases *a,
{
    stmt_seq_eq(&a.block, &b.block)
}

pub fn stmt_seq_eq(a: &Vec<Stmt>, b: &Vec<Stmt>) -> (r: bool)
    ensures
        r == (stmts_view(a@) == stmts_view(b@)),
    decreases a@,
{
    if a.len() != b.len() {
        proof {
            assert(stmts_view(a@).len() != stmts_view(b@).len());
        }
        return false;
    }
    for i in 0..a.len()
        invariant
            a@.len() == b@.len(),
            forall|j: int| 0 <= j < i ==> stmts_view(a@)[j] == stmts_view(b@)[j],
        decreases a@.len() - i,
    {
        if !stmt_eq(&a[i], &b[i]) {
            proof {
                assert(stmts_view(a@)[i as int] != stmts_view(b@)[i as int]);
            }
            return false;
        }
        proof {
            assert(stmts_view(a@)[i as int] == stmts_view(b@)[i as int]);
        }
    }
    proof {
        assert(stmts_view(a@) =~= stmts_view(b@));
    }
    true
}

pub fn stmt_eq(a: &Stmt, b: &Stmt) -> (r: bool)
    ensures
        r == (stmt_view(*a) == stmt_view(*b)),
    decreases *a,
{
    match (&a.kind, &b.kind) {
        (StmtKind::If { cond: c1, body: b1 }, StmtKind::If { cond: c2, body: b2 }) => {
            let same_cond = expr_eq(c1, c2);
            let same_body = block_eq(b1, b2);
            same_cond && same_body
        },
        (StmtKind::Loop { body: b1 }, StmtKind::Loop { body: b2 }) => block_eq(b1, b2),
        (StmtKind::Break, StmtKind::Break) => true,
        (StmtKind::HopBack, StmtKind::HopBack) => true,
        (StmtKind::Var { iden: i1, init: n1 }, StmtKind::Var { iden: i2, init: n2 }) => {
            let same_iden = *i1 == *i2;
            let same_init = match (n1, n2) {
                (Some(e1), Some(e2)) => expr_eq(e1, e2),
                (None, None) => true,
                _ => false,
            };
            same_iden && same_init
        },
        (StmtKind::Assign { iden: i1, value: v1 }, StmtKind::Assign { iden: i2, value: v2 }) => {
            let same_iden = *i1 == *i2;
            let same_value = expr_eq(v1, v2);
            same_iden && same_value
        },
        (
            StmtKind::Functio { iden: i1, params: p1, body: b1 },
            StmtKind::Functio { iden: i2, params: p2, body: b2 },
        ) => {
            let same_iden = *i1 == *i2;
            let same_params = params_eq(p1, p2);
            let same_body = block_eq(b1, b2);
            same_iden && same_params && same_body
        },
        (
            StmtKind::BfFunctio { iden: i1, tape_len: t1, code: c1 },
            StmtKind::BfFunctio { iden: i2, tape_len: t2, code: c2 },
        ) => {
            let same_iden = *i1 == *i2;
            let same_len = match (t1, t2) {
                (Some(e1), Some(e2)) => expr_eq(e1, e2),
                (None, None) => true,
                _ => false,
            };
            let same_code = bytes_eq(c1, c2);
            same_iden && same_len && same_code
        },
        (StmtKind::Call { expr: e1, args: a1 }, StmtKind::Call { expr: e2, args: a2 }) => {
            let same_expr = expr_eq(e1, e2);
            let same_args = exprs_eq(a1, a2);
            same_expr && same_args
        },
        (StmtKind::Print(e1), StmtKind::Print(e2)) => expr_eq(e1, e2),
        (StmtKind::Read(i1), StmtKind::Read(i2)) => *i1 == *i2,
        (StmtKind::Melo(i1), StmtKind::Melo(i2)) => *i1 == *i2,
        (StmtKind::Rlyeh, StmtKind::Rlyeh) => true,
        (StmtKind::Rickroll, StmtKind::Rickroll) => true,
        _ => false,
    }
}


pub fn clone_bytes(v: &Vec<u8>) -> (r: Vec<u8>)
    ensures
        r@ == v@,
{
    let mut out: Vec<u8> = Vec::new();
    for i in 0..v.len()
        invariant
            out@ == v@.take(i as int),
    {
        out.push(v[i]);
        proof {
            assert(out@ =~= v@.take(i + 1));
        }
    }
    proof {
        assert(v@.take(v@.len() as int) =~= v@);
    }
    out
}

pub fn clone_jumps(v: &Vec<usize>) -> (r: Vec<usize>)
    ensures
        r@ == v@,
{
    let mut out: Vec<usize> = Vec::new();
    for i in 0..v.len()
        invariant
            out@ == v@.take(i as int),
    {
        out.push(v[i]);
        proof {
            assert(out@ =~= v@.take(i + 1));
        }
    }
    proof {
        assert(v@.take(v@.len() as int) =~= v@);
    }
    out
}

pub fn clone_iden(i: &Iden) -> (r: Iden)
    ensures
        r.iden@ == i.iden@,
        r.span == i.span,
{
    Iden { iden: i.iden.clone(), span: i.span }
}

pub fn clone_params(v: &Vec<Iden>) -> (r: Vec<Iden>)
    ensures
        params_view(r@) == params_view(v@),
{
    let mut out: Vec<Iden> = Vec::new();
    for i in 0..v.len()
        invariant
            out@.len() == i,
            forall|j: int| 0 <= j < i ==> params_view(out@)[j] == params_view(v@)[j],
    {
        out.push(clone_iden(&v[i]));
        proof {
            assert(forall|j: int|
                0 <= j < i + 1 ==> params_view(out@)[j] == params_view(v@)[j]);
        }
    }
    proof {
        assert(params_view(out@) =~= params_view(v@));
    }
    out
}

pub fn clone_expr(e: &Expr) -> (r: Expr)
    ensures
        expr_view(r) == expr_view(*e),
        r.span == e.span,
    decreases *e,
{
    let kind = match &e.kind {
        ExprKind::BinOp { lhs, rhs, kind } => ExprKind::BinOp {
            lhs: Box::new(clone_expr(lhs)),
            rhs: Box::new(clone_expr(rhs)),
            kind: *kind,
        },
        ExprKind::Not(inner) => ExprKind::Not(Box::new(clone_expr(inner))),
        ExprKind::Literal(v) => ExprKind::Literal(clone_value(v)),
        ExprKind::Cart(ps) => ExprKind::Cart(clone_expr_pairs(ps)),
        ExprKind::Index { cart, index } => ExprKind::Index {
            cart: Box::new(clone_expr(cart)),
            index: Box::new(clone_expr(index)),
        },
        ExprKind::Variable(n) => ExprKind::Variable(n.clone()),
    };
    Expr { kind, span: e.span }
}

pub fn clone_expr_pairs(v: &Vec<(Expr, Expr)>) -> (r: Vec<(Expr, Expr)>)
    ensures
        expr_pairs_view(r@) == expr_pairs_view(v@),
    decreases v@,
{
    let mut out: Vec<(Expr, Expr)> = Vec::new();
    for i in 0..v.len()
        invariant
            out@.len() == i,
            forall|j: int| 0 <= j < i ==> expr_pairs_view(out@)[j] == expr_pairs_view(v@)[j],
        decreases v@.len() - i,
    {
        let k = clone_expr(&v[i].0);
        let val = clone_expr(&v[i].1);
        out.push((k, val));
        proof {
            assert(forall|j: int|
                0 <= j < i + 1 ==> expr_pairs_view(out@)[j] == expr_pairs_view(v@)[j]);
        }
    }
    proof {
        assert(expr_pairs_view(out@) =~= expr_pairs_view(v@));
    }
    out
}

pub fn clone_exprs(v: &Vec<Expr>) -> (r: Vec<Expr>)
    ensures
        exprs_view(r@) == exprs_view(v@),
    decreases v@,
{
    let mut out: Vec<Expr> = Vec::new();
    for i in 0..v.len()
        invariant
            out@.len() == i,
            forall|j: int| 0 <= j < i ==> exprs_view(out@)[j] == exprs_view(v@)[j],
        decreases v@.len() - i,
    {
        out.push(clone_expr(&v[i]));
        proof {
            assert(forall|j: int| 0 <= j < i + 1 ==> exprs_view(out@)[j] == exprs_view(v@)[j]);
        }
    }
    proof {
        assert(exprs_view(out@) =~= exprs_view(v@));
    }
    out
}

pub fn clone_value(v: &Value) -> (r: Value)
    ensures
        val_view(r) == val_view(*v),
    decreases *v,
{
    match v {
        Value::Nul => Value::Nul,
        Value::Str(s) => Value::Str(s.clone()),
        Value::Int(n) => Value::Int(*n),
        Value::Bool(b) => Value::Bool(*b),
        Value::Abool(a) => Value::Abool(*a),
        Value::Functio(f) => Value::Functio(clone_functio(f)),
        Value::Cart(ps) => Value::Cart(clone_value_pairs(ps)),
    }
}

pub fn clone_value_pairs(v: &Vec<(Value, Value)>) -> (r: Vec<(Value, Value)>)
    ensures
        val_pairs_view(r@) == val_pairs_view(v@),
    decreases v@,
{
    let mut out: Vec<(Value, Value)> = Vec::new();
    for i in 0..v.len()
        invariant
            out@.len() == i,
            forall|j: int| 0 <= j < i ==> val_pairs_view(out@)[j] == val_pairs_view(v@)[j],
        decreases v@.len() - i,
    {
        let k = clone_value(&v[i].0);
        let val = clone_value(&v[i].1);
        out.push((k, val));
        proof {
            assert(forall|j: int|
                0 <= j < i + 1 ==> val_pairs_view(out@)[j] == val_pairs_view(v@)[j]);
        }
    }
    proof {
        assert(val_pairs_view(out@) =~= val_pairs_view(v@));
    }
    out
}

pub fn clone_functio(f: &Functio) -> (r: Functio)
    ensures
        functio_view(r) == functio_view(*f),
    decreases *f,
{
    match f {
        Functio::Able { params, body, scope } => Functio::Able {
            params: clone_params(params),
            body: clone_block(body),
            scope: *scope,
        },
        Functio::Bf { code, tape_len, jumps } => {
            let code2 = clone_bytes(code);
            let jumps2 = clone_jumps(jumps);
            proof {
                assert(Seq::new(jumps2@.len(), |i: int| jumps2@[i] as int) =~= Seq::new(
                    jumps@.len(),
                    |i: int| jumps@[i] as int,
                ));
            }
            Functio::Bf { code: code2, tape_len: *tape_len, jumps: jumps2 }
        },
    }
}

pub fn clone_block(b: &Block) -> (r: Block)
    ensures
        stmts_view(r.block@) == stmts_view(b.block@),
    decreases *b,
{
    Block { block: clone_stmts(&b.block) }
}

pub fn clone_stmts(v: &Vec<Stmt>) -> (r: Vec<Stmt>)
    ensures
        stmts_view(r@) == stmts_view(v@),
    decreases v@,
{
    let mut out: Vec<Stmt> = Vec::new();
    for i in 0..v.len()
        invariant
            out@.len() == i,
            forall|j: int| 0 <= j < i ==> stmts_view(out@)[j] == stmts_view(v@)[j],
        decreases v@.len() - i,
    {
        out.push(clone_stmt(&v[i]));
        proof {
            assert(forall|j: int| 0 <= j < i + 1 ==> stmts_view(out@)[j] == stmts_view(v@)[j]);
        }
    }
    proof {
        assert(stmts_view(out@) =~= stmts_view(v@));
    }
    out
}

pub fn clone_stmt(s: &Stmt) -> (r: Stmt)
    ensures
        stmt_view(r) == stmt_view(*s),
        r.span == s.span,
    decreases *s,
{
    let kind = match &s.kind {
        StmtKind::If { cond, body } => StmtKind::If {
            cond: clone_expr(cond),
            body: clone_block(body),
        },
        StmtKind::Loop { body } => StmtKind::Loop { body: clone_block(body) },
        StmtKind::Break => StmtKind::Break,
        StmtKind::HopBack => StmtKind::HopBack,
        StmtKind::Var { iden, init } => StmtKind::Var {
            iden: clone_iden(iden),
            init: match init {
                Some(e) => Some(clone_expr(e)),
                None => None,
            },
        },
        StmtKind::Assign { iden, value } => StmtKind::Assign {
            iden: clone_iden(iden),
            value: clone_expr(value),
        },
        StmtKind::Functio { iden, params, body } => StmtKind::Functio {
            iden: clone_iden(iden),
            params: clone_params(params),
            body: clone_block(body),
        },
        StmtKind::BfFunctio { iden, tape_len, code } => StmtKind::BfFunctio {
            iden: clone_iden(iden),
            tape_len: match tape_len {
                Some(e) => Some(clone_expr(e)),
                None => None,
            },
            code: clone_bytes(code),
        },
        StmtKind::Call { expr, args } => StmtKind::Call {
            expr: clone_expr(expr),
            args: clone_exprs(args),
        },
        StmtKind::Print(e) => StmtKind::Print(clone_expr(e)),
        StmtKind::Read(i) => StmtKind::Read(clone_iden(i)),
        StmtKind::Melo(i) => StmtKind::Melo(clone_iden(i)),
        StmtKind::Rlyeh => StmtKind::Rlyeh,
        StmtKind::Rickroll => StmtKind::Rickroll,
    };
    Stmt { kind, span: s.span }
}

} // verus!
