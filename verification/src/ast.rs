//! The abstract syntax tree.
//!
//! Statements are the units the tree is made of: they express an effect.
//! Expressions only combine values and cannot stand alone; subroutines
//! return nothing, so a call is a statement, not an expression.
//!
//! Every node carries a source span as provenance. Spans never take part in
//! equality: each node type has a span-free model (`StmtM`, `ExprM`, a bare
//! name for `Iden`), and `==` on nodes is proved to agree with equality of
//! those models.

use vstd::prelude::*;

use crate::error::ErrorKind;
use crate::tokens::Token;
use crate::variables::{val_view, ValM, Value};
use crate::Span;

verus! {

/// An identifier with the span it was written at. Equality is by name only.
#[derive(Debug)]
pub struct Iden {
    pub iden: String,
    pub span: Span,
}

impl Iden {
    pub fn new(iden: String, span: Span) -> (r: Self)
        ensures
            r.iden == iden,
            r.span == span,
    {
        Self { iden, span }
    }
}

impl PartialEq for Iden {
    fn eq(&self, other: &Self) -> (r: bool) {
        self.iden == other.iden
    }
}

impl vstd::std_specs::cmp::PartialEqSpecImpl for Iden {
    open spec fn obeys_eq_spec() -> bool {
        true
    }

    open spec fn eq_spec(&self, other: &Self) -> bool {
        self.iden@ == other.iden@
    }
}

/// An ordered sequence of statements.
#[derive(Debug)]
pub struct Block {
    pub block: Vec<Stmt>,
}

/// A syntactic unit expressing an effect.
#[derive(Debug)]
pub struct Stmt {
    pub kind: StmtKind,
    pub span: Span,
}

#[derive(Debug)]
pub enum StmtKind {
    If { cond: Expr, body: Block },
    Loop { body: Block },
    Break,
    HopBack,
    Var { iden: Iden, init: Option<Expr> },
    Assign { iden: Iden, value: Expr },
    Functio { iden: Iden, params: Vec<Iden>, body: Block },
    BfFunctio { iden: Iden, tape_len: Option<Expr>, code: Vec<u8> },
    Call { expr: Expr, args: Vec<Expr> },
    Print(Expr),
    Read(Iden),
    Melo(Iden),
    Rlyeh,
    Rickroll,
}

impl Stmt {
    pub fn new(kind: StmtKind, span: Span) -> (r: Self)
        ensures
            r.kind == kind,
            r.span == span,
    {
        Self { kind, span }
    }
}

/// A parse unit that produces a value and causes no effect by itself.
#[derive(Debug)]
pub struct Expr {
    pub kind: ExprKind,
    pub span: Span,
}

#[derive(Debug)]
pub enum ExprKind {
    BinOp { lhs: Box<Expr>, rhs: Box<Expr>, kind: BinOpKind },
    Not(Box<Expr>),
    Literal(Value),
    Cart(Vec<(Expr, Expr)>),
    Index { cart: Box<Expr>, index: Box<Expr> },
    Variable(String),
}

impl Expr {
    pub fn new(kind: ExprKind, span: Span) -> (r: Self)
        ensures
            r.kind == kind,
            r.span == span,
    {
        Self { kind, span }
    }
}

#[derive(Debug, Clone, Copy, PartialEq, Eq, Structural)]
pub enum BinOpKind {
    Add,
    Subtract,
    Multiply,
    Divide,
    Greater,
    Less,
    Equal,
    NotEqual,
    And,
    Or,
}

impl BinOpKind {
    /// The binary operator a given operator token stands for; any other
    /// token is a syntax error.
    pub fn from_token(t: Token) -> (r: Result<Self, ErrorKind>)
        ensures
            match t {
                Token::Addition => r == Ok::<BinOpKind, ErrorKind>(BinOpKind::Add),
                Token::Subtract => r == Ok::<BinOpKind, ErrorKind>(BinOpKind::Subtract),
                Token::Multiply => r == Ok::<BinOpKind, ErrorKind>(BinOpKind::Multiply),
                Token::Divide => r == Ok::<BinOpKind, ErrorKind>(BinOpKind::Divide),
                Token::OpGt => r == Ok::<BinOpKind, ErrorKind>(BinOpKind::Greater),
                Token::OpLt => r == Ok::<BinOpKind, ErrorKind>(BinOpKind::Less),
                Token::OpEq => r == Ok::<BinOpKind, ErrorKind>(BinOpKind::Equal),
                Token::OpNeq => r == Ok::<BinOpKind, ErrorKind>(BinOpKind::NotEqual),
                Token::And => r == Ok::<BinOpKind, ErrorKind>(BinOpKind::And),
                Token::Or => r == Ok::<BinOpKind, ErrorKind>(BinOpKind::Or),
                _ => r matches Err(e) && e matches ErrorKind::UnexpectedToken(u) && u == t,
            },
    {
        match t {
            Token::Addition => Ok(Self::Add),
            Token::Subtract => Ok(Self::Subtract),
            Token::Multiply => Ok(Self::Multiply),
            Token::Divide => Ok(Self::Divide),
            Token::OpGt => Ok(Self::Greater),
            Token::OpLt => Ok(Self::Less),
            Token::OpEq => Ok(Self::Equal),
            Token::OpNeq => Ok(Self::NotEqual),
            Token::And => Ok(Self::And),
            Token::Or => Ok(Self::Or),
            t => Err(ErrorKind::UnexpectedToken(t)),
        }
    }
}

/// Span-free model of a statement.
pub enum StmtM {
    If { cond: ExprM, body: Seq<StmtM> },
    Loop { body: Seq<StmtM> },
    Break,
    HopBack,
    Var { iden: Seq<char>, init: Option<ExprM> },
    Assign { iden: Seq<char>, value: ExprM },
    Functio { iden: Seq<char>, params: Seq<Seq<char>>, body: Seq<StmtM> },
    BfFunctio { iden: Seq<char>, tape_len: Option<ExprM>, code: Seq<u8> },
    Call { expr: ExprM, args: Seq<ExprM> },
    Print(ExprM),
    Read(Seq<char>),
    Melo(Seq<char>),
    Rlyeh,
    Rickroll,
}

/// Span-free model of an expression.
pub enum ExprM {
    BinOp { lhs: Box<ExprM>, rhs: Box<ExprM>, kind: BinOpKind },
    Not(Box<ExprM>),
    Literal(ValM),
    Cart(Seq<(ExprM, ExprM)>),
    Index { cart: Box<ExprM>, index: Box<ExprM> },
    Variable(Seq<char>),
}

pub open spec fn expr_view(e: Expr) -> ExprM
    decreases e,
{
    match e.kind {
        ExprKind::BinOp { lhs, rhs, kind } => ExprM::BinOp {
            lhs: Box::new(expr_view(*lhs)),
            rhs: Box::new(expr_view(*rhs)),
            kind,
        },
        ExprKind::Not(inner) => ExprM::Not(Box::new(expr_view(*inner))),
        ExprKind::Literal(v) => ExprM::Literal(val_view(v)),
        ExprKind::Cart(pairs) => ExprM::Cart(expr_pairs_view(pairs@)),
        ExprKind::Index { cart, index } => ExprM::Index {
            cart: Box::new(expr_view(*cart)),
            index: Box::new(expr_view(*index)),
        },
        ExprKind::Variable(name) => ExprM::Variable(name@),
    }
}

pub open spec fn stmt_view(s: Stmt) -> StmtM
    decreases s,
{
    match s.kind {
        StmtKind::If { cond, body } => StmtM::If {
            cond: expr_view(cond),
            body: stmts_view(body.block@),
        },
        StmtKind::Loop { body } => StmtM::Loop { body: stmts_view(body.block@) },
        StmtKind::Break => StmtM::Break,
        StmtKind::HopBack => StmtM::HopBack,
        StmtKind::Var { iden, init } => StmtM::Var {
            iden: iden.iden@,
            init: match init {
                Some(e) => Some(expr_view(e)),
                None => None,
            },
        },
        StmtKind::Assign { iden, value } => StmtM::Assign {
            iden: iden.iden@,
            value: expr_view(value),
        },
        StmtKind::Functio { iden, params, body } => StmtM::Functio {
            iden: iden.iden@,
            params: crate::variables::params_view(params@),
            body: stmts_view(body.block@),
        },
        StmtKind::BfFunctio { iden, tape_len, code } => StmtM::BfFunctio {
            iden: iden.iden@,
            tape_len: match tape_len {
                Some(e) => Some(expr_view(e)),
                None => None,
            },
            code: code@,
        },
        StmtKind::Call { expr, args } => StmtM::Call {
            expr: expr_view(expr),
            args: exprs_view(args@),
        },
        StmtKind::Print(e) => StmtM::Print(expr_view(e)),
        StmtKind::Read(i) => StmtM::Read(i.iden@),
        StmtKind::Melo(i) => StmtM::Melo(i.iden@),
        StmtKind::Rlyeh => StmtM::Rlyeh,
        StmtKind::Rickroll => StmtM::Rickroll,
    }
}

pub open spec fn stmts_view(b: Seq<Stmt>) -> Seq<StmtM>
    decreases b,
{
    if b.len() == 0 {
        Seq::empty()
    } else {
        seq![stmt_view(b[0])] + stmts_view(b.subrange(1, b.len() as int))
    }
}

pub open spec fn exprs_view(es: Seq<Expr>) -> Seq<ExprM>
    decreases es,
{
    if es.len() == 0 {
        Seq::empty()
    } else {
        seq![expr_view(es[0])] + exprs_view(es.subrange(1, es.len() as int))
    }
}

pub open spec fn expr_pairs_view(ps: Seq<(Expr, Expr)>) -> Seq<(ExprM, ExprM)>
    decreases ps,
{
    if ps.len() == 0 {
        Seq::empty()
    } else {
        seq![(expr_view(ps[0].0), expr_view(ps[0].1))] + expr_pairs_view(
            ps.subrange(1, ps.len() as int),
        )
    }
}

pub open spec fn block_view(b: Block) -> Seq<StmtM> {
    stmts_view(b.block@)
}

pub broadcast proof fn stmts_view_len(b: Seq<Stmt>)
    ensures
        (#[trigger] stmts_view(b)).len() == b.len(),
    decreases b.len(),
{
    if b.len() > 0 {
        stmts_view_len(b.subrange(1, b.len() as int));
    }
}

pub broadcast proof fn stmts_view_index(b: Seq<Stmt>, i: int)
    requires
        0 <= i < b.len(),
    ensures
        #[trigger] stmts_view(b)[i] == stmt_view(b[i]),
    decreases b.len(),
{
    stmts_view_len(b);
    if i > 0 {
        stmts_view_index(b.subrange(1, b.len() as int), i - 1);
    }
}

pub broadcast proof fn exprs_view_len(es: Seq<Expr>)
    ensures
        (#[trigger] exprs_view(es)).len() == es.len(),
    decreases es.len(),
{
    if es.len() > 0 {
        exprs_view_len(es.subrange(1, es.len() as int));
    }
}

pub broadcast proof fn exprs_view_index(es: Seq<Expr>, i: int)
    requires
        0 <= i < es.len(),
    ensures
        #[trigger] exprs_view(es)[i] == expr_view(es[i]),
    decreases es.len(),
{
    exprs_view_len(es);
    if i > 0 {
        exprs_view_index(es.subrange(1, es.len() as int), i - 1);
    }
}

pub broadcast proof fn expr_pairs_view_len(ps: Seq<(Expr, Expr)>)
    ensures
        (#[trigger] expr_pairs_view(ps)).len() == ps.len(),
    decreases ps.len(),
{
    if ps.len() > 0 {
        expr_pairs_view_len(ps.subrange(1, ps.len() as int));
    }
}

pub broadcast proof fn expr_pairs_view_index(ps: Seq<(Expr, Expr)>, i: int)
    requires
        0 <= i < ps.len(),
    ensures
        #[trigger] expr_pairs_view(ps)[i] == (expr_view(ps[i].0), expr_view(ps[i].1)),
    decreases ps.len(),
{
    expr_pairs_view_len(ps);
    if i > 0 {
        expr_pairs_view_index(ps.subrange(1, ps.len() as int), i - 1);
    }
}

impl PartialEq for Stmt {
    fn eq(&self, other: &Self) -> (r: bool) {
        crate::eq::stmt_eq(self, other)
    }
}

impl vstd::std_specs::cmp::PartialEqSpecImpl for Stmt {
    open spec fn obeys_eq_spec() -> bool {
        true
    }

    open spec fn eq_spec(&self, other: &Self) -> bool {
        stmt_view(*self) == stmt_view(*other)
    }
}

impl PartialEq for Expr {
    fn eq(&self, other: &Self) -> (r: bool) {
        crate::eq::expr_eq(self, other)
    }
}

impl vstd::std_specs::cmp::PartialEqSpecImpl for Expr {
    open spec fn obeys_eq_spec() -> bool {
        true
    }

    open spec fn eq_spec(&self, other: &Self) -> bool {
        expr_view(*self) == expr_view(*other)
    }
}

} // verus!
