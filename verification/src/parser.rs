//! The parser: recursive descent with precedence climbing.
//!
//! It consumes a stream of classified tokens with source spans, produced by
//! an external tokeniser, plus the raw source bytes, which serve two ends:
//! slicing the verbatim instruction body of a foreign-function definition,
//! and anchoring diagnostics. Binary operators bind, loosest to tightest:
//! logical or, logical and, equality, ordering, additive, multiplicative;
//! logical negation binds tighter than all of them. Parsing stops at the
//! first malformed construct with a syntax error carrying the offending
//! span.
//!
//! Like the evaluator, the parser is specified by a mathematical model: the
//! `p_*` spec functions below parse the token stream into span-free syntax
//! models, and every exec function is proved to return exactly the model's
//! tree and cursor on success, and to fail exactly when the model rejects.
//! (Which error kind and span a rejection carries stays unmodelled.) The
//! models guard their recursion with `bump`, a floor on cursor positions
//! that the exec parser, whose cursor provably only advances, never hits.

use vstd::prelude::*;

use crate::ast::{
    expr_pairs_view, expr_view, exprs_view, stmts_view, BinOpKind, Block, Expr, ExprKind, ExprM,
    Iden, Stmt, StmtKind, StmtM,
};
use crate::error::{Error, ErrorKind};
use crate::tokens::{
    clone_token, level_op, level_op_m, op_of_m, same_fieldless, token_kind_eq, Token,
};
use crate::variables::{params_view, val_view, ValM, Value};
use crate::Span;

verus! {

pub struct Parser {
    pub src: Vec<u8>,
    pub tokens: Vec<(Token, Span)>,
    pub pos: usize,
}

pub open spec fn parser_wf(p: Parser) -> bool {
    p.pos <= p.tokens@.len()
}

/// What every parsing step preserves: the token stream and source are
/// untouched and the cursor only moves forward, staying in bounds.
pub open spec fn advances(pre: Parser, post: Parser) -> bool {
    &&& post.src == pre.src
    &&& post.tokens == pre.tokens
    &&& pre.pos <= post.pos <= post.tokens@.len()
}

/// The floor that keeps the model's recursion well-founded: a continuation
/// position is taken as given when it strictly advanced and stayed in
/// bounds, else pushed one past the current token. The exec parser always
/// advances, so the floor is never what it returns.
pub open spec fn bump(ts: Seq<(Token, Span)>, pos: int, p: int) -> int {
    if pos < p <= ts.len() {
        p
    } else if pos + 1 <= ts.len() {
        pos + 1
    } else {
        ts.len() as int
    }
}

/// The token stream with comment tokens dropped, in order.
pub open spec fn drop_comments(ts: Seq<(Token, Span)>) -> Seq<(Token, Span)>
    decreases ts.len(),
{
    if ts.len() == 0 {
        Seq::empty()
    } else if ts[0].0 is Comment {
        drop_comments(ts.subrange(1, ts.len() as int))
    } else {
        seq![ts[0]] + drop_comments(ts.subrange(1, ts.len() as int))
    }
}

/// A string literal with its surrounding quotes stripped.
pub open spec fn unquote_m(s: Seq<char>) -> Seq<char> {
    if s.len() >= 2 && s[0] == '"' && s[s.len() - 1] == '"' {
        s.subrange(1, s.len() - 1)
    } else {
        s
    }
}

/// A primary expression at `pos`: a literal, a variable, a negation, a
/// parenthesised expression, or an associative literal.
pub open spec fn p_primary(src: Seq<u8>, ts: Seq<(Token, Span)>, pos: int) -> Option<(ExprM, int)>
    decreases ts.len() - pos, 1int,
{
    if !(0 <= pos < ts.len()) {
        None
    } else {
        match ts[pos].0 {
            Token::Boolean(b) => Some((ExprM::Literal(ValM::Bool(b)), pos + 1)),
            Token::Aboolean(a) => Some((ExprM::Literal(ValM::Abool(a)), pos + 1)),
            Token::Integer(n) => Some((ExprM::Literal(ValM::Int(n)), pos + 1)),
            Token::String(raw) => Some((ExprM::Literal(ValM::Str(unquote_m(raw@))), pos + 1)),
            Token::Identifier(name) => Some((ExprM::Variable(name@), pos + 1)),
            Token::Not => match p_postfix(src, ts, pos + 1) {
                Some(t) => Some((ExprM::Not(Box::new(t.0)), t.1)),
                None => None,
            },
            Token::LeftParenthesis => match p_expr(src, ts, pos + 1) {
                Some(t) => {
                    let p = bump(ts, pos + 1, t.1);
                    if p < ts.len() && ts[p].0 is RightParenthesis {
                        Some((t.0, p + 1))
                    } else {
                        None
                    }
                },
                None => None,
            },
            Token::LeftBracket => {
                if pos + 1 < ts.len() && ts[pos + 1].0 is RightBracket {
                    Some((ExprM::Cart(Seq::empty()), pos + 2))
                } else {
                    match p_cart_items(src, ts, pos + 1) {
                        Some(t) => {
                            let p = bump(ts, pos + 1, t.1);
                            if p < ts.len() && ts[p].0 is RightBracket {
                                Some((ExprM::Cart(t.0), p + 1))
                            } else {
                                None
                            }
                        },
                        None => None,
                    }
                }
            },
            _ => None,
        }
    }
}

/// The `key: value` items of an associative literal, comma-separated, one
/// at least, stopping before the token after the last item.
pub open spec fn p_cart_items(src: Seq<u8>, ts: Seq<(Token, Span)>, pos: int) -> Option<
    (Seq<(ExprM, ExprM)>, int),
>
    decreases ts.len() - pos, 10int,
{
    if !(0 <= pos < ts.len()) {
        None
    } else {
        match p_expr(src, ts, pos) {
            Some(kt) => {
                let p1 = bump(ts, pos, kt.1);
                if p1 < ts.len() && ts[p1].0 is Colon {
                    match p_expr(src, ts, p1 + 1) {
                        Some(vt) => {
                            let p2 = bump(ts, p1 + 1, vt.1);
                            if p2 < ts.len() && ts[p2].0 is Comma {
                                match p_cart_items(src, ts, p2 + 1) {
                                    Some(rt) => Some((seq![(kt.0, vt.0)] + rt.0, rt.1)),
                                    None => None,
                                }
                            } else {
                                Some((seq![(kt.0, vt.0)], p2))
                            }
                        },
                        None => None,
                    }
                } else {
                    None
                }
            },
            None => None,
        }
    }
}

/// A primary expression followed by any number of postfix indexings.
pub open spec fn p_postfix(src: Seq<u8>, ts: Seq<(Token, Span)>, pos: int) -> Option<(ExprM, int)>
    decreases ts.len() - pos, 2int,
{
    if !(0 <= pos < ts.len()) {
        None
    } else {
        match p_primary(src, ts, pos) {
            Some(t) => p_index_chain(src, ts, t.0, bump(ts, pos, t.1)),
            None => None,
        }
    }
}

pub open spec fn p_index_chain(src: Seq<u8>, ts: Seq<(Token, Span)>, e: ExprM, pos: int) -> Option<
    (ExprM, int),
>
    decreases ts.len() - pos, 2int,
{
    if !(0 <= pos <= ts.len()) {
        None
    } else if pos < ts.len() && ts[pos].0 is LeftBracket {
        match p_expr(src, ts, pos + 1) {
            Some(t) => {
                let p = bump(ts, pos + 1, t.1);
                if p < ts.len() && ts[p].0 is RightBracket {
                    p_index_chain(
                        src,
                        ts,
                        ExprM::Index { cart: Box::new(e), index: Box::new(t.0) },
                        p + 1,
                    )
                } else {
                    None
                }
            },
            None => None,
        }
    } else {
        Some((e, pos))
    }
}

/// One left-associative precedence level.
pub open spec fn p_level(src: Seq<u8>, ts: Seq<(Token, Span)>, level: u8, pos: int) -> Option<
    (ExprM, int),
>
    decreases ts.len() - pos, 3int + level,
{
    if !(0 <= pos < ts.len()) {
        None
    } else {
        let first = if level == 0 {
            p_postfix(src, ts, pos)
        } else {
            p_level(src, ts, (level - 1) as u8, pos)
        };
        match first {
            Some(t) => p_level_chain(src, ts, level, t.0, bump(ts, pos, t.1)),
            None => None,
        }
    }
}

pub open spec fn p_level_chain(
    src: Seq<u8>,
    ts: Seq<(Token, Span)>,
    level: u8,
    e: ExprM,
    pos: int,
) -> Option<(ExprM, int)>
    decreases ts.len() - pos, 3int + level,
{
    if !(0 <= pos <= ts.len()) {
        None
    } else if pos < ts.len() && level_op_m(ts[pos].0, level) {
        match op_of_m(ts[pos].0) {
            Some(op) => {
                let sub = if level == 0 {
                    p_postfix(src, ts, pos + 1)
                } else {
                    p_level(src, ts, (level - 1) as u8, pos + 1)
                };
                match sub {
                    Some(t) => p_level_chain(
                        src,
                        ts,
                        level,
                        ExprM::BinOp { lhs: Box::new(e), rhs: Box::new(t.0), kind: op },
                        bump(ts, pos + 1, t.1),
                    ),
                    None => None,
                }
            },
            None => None,
        }
    } else {
        Some((e, pos))
    }
}

/// A whole expression: the loosest precedence level.
pub open spec fn p_expr(src: Seq<u8>, ts: Seq<(Token, Span)>, pos: int) -> Option<(ExprM, int)>
    decreases ts.len() - pos, 9int,
{
    p_level(src, ts, 5, pos)
}

/// Comma-separated parameter names, one at least.
pub open spec fn p_params(ts: Seq<(Token, Span)>, pos: int) -> Option<(Seq<Seq<char>>, int)>
    decreases ts.len() - pos, 10int,
{
    if !(0 <= pos < ts.len()) {
        None
    } else {
        match ts[pos].0 {
            Token::Identifier(name) => {
                if pos + 1 < ts.len() && ts[pos + 1].0 is Comma {
                    match p_params(ts, pos + 2) {
                        Some(t) => Some((seq![name@] + t.0, t.1)),
                        None => None,
                    }
                } else {
                    Some((seq![name@], pos + 1))
                }
            },
            _ => None,
        }
    }
}

/// Comma-separated argument expressions, one at least.
pub open spec fn p_args(src: Seq<u8>, ts: Seq<(Token, Span)>, pos: int) -> Option<
    (Seq<ExprM>, int),
>
    decreases ts.len() - pos, 10int,
{
    if !(0 <= pos < ts.len()) {
        None
    } else {
        match p_expr(src, ts, pos) {
            Some(t) => {
                let p = bump(ts, pos, t.1);
                if p < ts.len() && ts[p].0 is Comma {
                    match p_args(src, ts, p + 1) {
                        Some(rt) => Some((seq![t.0] + rt.0, rt.1)),
                        None => None,
                    }
                } else {
                    Some((seq![t.0], p))
                }
            },
            None => None,
        }
    }
}

/// A brace-delimited block of statements.
pub open spec fn p_block(src: Seq<u8>, ts: Seq<(Token, Span)>, pos: int) -> Option<
    (Seq<StmtM>, int),
>
    decreases ts.len() - pos, 12int,
{
    if !(0 <= pos < ts.len()) {
        None
    } else if ts[pos].0 is LeftBrace {
        p_block_items(src, ts, pos + 1)
    } else {
        None
    }
}

pub open spec fn p_block_items(src: Seq<u8>, ts: Seq<(Token, Span)>, pos: int) -> Option<
    (Seq<StmtM>, int),
>
    decreases ts.len() - pos, 12int,
{
    if !(0 <= pos < ts.len()) {
        None
    } else if ts[pos].0 is RightBrace {
        Some((Seq::empty(), pos + 1))
    } else {
        match p_stmt(src, ts, pos) {
            Some(t) => match p_block_items(src, ts, bump(ts, pos, t.1)) {
                Some(rt) => Some((seq![t.0] + rt.0, rt.1)),
                None => None,
            },
            None => None,
        }
    }
}

/// The verbatim byte body of a foreign-function definition: the source
/// bytes between the opening brace and the next closing-brace token.
pub open spec fn p_bf_body(src: Seq<u8>, ts: Seq<(Token, Span)>, pos: int) -> Option<
    (Seq<u8>, int),
>
    decreases ts.len() - pos, 12int,
{
    if !(0 <= pos < ts.len()) {
        None
    } else if ts[pos].0 is LeftBrace {
        p_bf_scan(src, ts, ts[pos].1, pos + 1)
    } else {
        None
    }
}

pub open spec fn p_bf_scan(src: Seq<u8>, ts: Seq<(Token, Span)>, open: Span, pos: int) -> Option<
    (Seq<u8>, int),
>
    decreases ts.len() - pos, 12int,
{
    if !(0 <= pos < ts.len()) {
        None
    } else if ts[pos].0 is RightBrace {
        let close = ts[pos].1;
        let code = if open.end <= close.start && close.start <= src.len() {
            src.subrange(open.end as int, close.start as int)
        } else {
            Seq::empty()
        };
        Some((code, pos + 1))
    } else {
        p_bf_scan(src, ts, open, pos + 1)
    }
}

/// One statement, keyed by its leading token, per the statement grammar:
/// conditional, loop, the loop signals and the two markers, declaration,
/// print, read, ban, the two function definitions, and, led by an
/// expression, assignment or call.
pub open spec fn p_stmt(src: Seq<u8>, ts: Seq<(Token, Span)>, pos: int) -> Option<(StmtM, int)>
    decreases ts.len() - pos, 11int,
{
    if !(0 <= pos < ts.len()) {
        None
    } else {
        match ts[pos].0 {
            Token::If => match p_expr(src, ts, pos + 1) {
                Some(ct) => match p_block(src, ts, bump(ts, pos + 1, ct.1)) {
                    Some(bt) => Some((StmtM::If { cond: ct.0, body: bt.0 }, bt.1)),
                    None => None,
                },
                None => None,
            },
            Token::Loop => match p_block(src, ts, pos + 1) {
                Some(bt) => Some((StmtM::Loop { body: bt.0 }, bt.1)),
                None => None,
            },
            Token::Break => if pos + 1 < ts.len() && ts[pos + 1].0 is Semicolon {
                Some((StmtM::Break, pos + 2))
            } else {
                None
            },
            Token::HopBack => if pos + 1 < ts.len() && ts[pos + 1].0 is Semicolon {
                Some((StmtM::HopBack, pos + 2))
            } else {
                None
            },
            Token::Rlyeh => if pos + 1 < ts.len() && ts[pos + 1].0 is Semicolon {
                Some((StmtM::Rlyeh, pos + 2))
            } else {
                None
            },
            Token::Rickroll => if pos + 1 < ts.len() && ts[pos + 1].0 is Semicolon {
                Some((StmtM::Rickroll, pos + 2))
            } else {
                None
            },
            Token::Variable => if pos + 1 < ts.len() {
                match ts[pos + 1].0 {
                    Token::Identifier(name) => {
                        if pos + 2 < ts.len() && ts[pos + 2].0 is Assignment {
                            match p_expr(src, ts, pos + 3) {
                                Some(et) => {
                                    let p = bump(ts, pos + 3, et.1);
                                    if p < ts.len() && ts[p].0 is Semicolon {
                                        Some(
                                            (
                                                StmtM::Var { iden: name@, init: Some(et.0) },
                                                p + 1,
                                            ),
                                        )
                                    } else {
                                        None
                                    }
                                },
                                None => None,
                            }
                        } else if pos + 2 < ts.len() && ts[pos + 2].0 is Semicolon {
                            Some((StmtM::Var { iden: name@, init: None }, pos + 3))
                        } else {
                            None
                        }
                    },
                    _ => None,
                }
            } else {
                None
            },
            Token::Print => match p_expr(src, ts, pos + 1) {
                Some(et) => {
                    let p = bump(ts, pos + 1, et.1);
                    if p < ts.len() && ts[p].0 is Semicolon {
                        Some((StmtM::Print(et.0), p + 1))
                    } else {
                        None
                    }
                },
                None => None,
            },
            Token::Read => if pos + 1 < ts.len() {
                match ts[pos + 1].0 {
                    Token::Identifier(name) => if pos + 2 < ts.len() && ts[pos + 2].0
                        is Semicolon {
                        Some((StmtM::Read(name@), pos + 3))
                    } else {
                        None
                    },
                    _ => None,
                }
            } else {
                None
            },
            Token::Melo => if pos + 1 < ts.len() {
                match ts[pos + 1].0 {
                    Token::Identifier(name) => if pos + 2 < ts.len() && ts[pos + 2].0
                        is Semicolon {
                        Some((StmtM::Melo(name@), pos + 3))
                    } else {
                        None
                    },
                    _ => None,
                }
            } else {
                None
            },
            Token::Function => if pos + 1 < ts.len() {
                match ts[pos + 1].0 {
                    Token::Identifier(name) => {
                        if pos + 2 < ts.len() && ts[pos + 2].0 is LeftParenthesis {
                            let after: Option<(Seq<Seq<char>>, int)> = if pos + 3 < ts.len()
                                && ts[pos + 3].0 is RightParenthesis {
                                Some((Seq::empty(), pos + 4))
                            } else {
                                match p_params(ts, pos + 3) {
                                    Some(pt) => {
                                        let p = bump(ts, pos + 3, pt.1);
                                        if p < ts.len() && ts[p].0 is RightParenthesis {
                                            Some((pt.0, p + 1))
                                        } else {
                                            None
                                        }
                                    },
                                    None => None,
                                }
                            };
                            match after {
                                Some(pt) => match p_block(src, ts, bump(ts, pos + 3, pt.1)) {
                                    Some(bt) => Some(
                                        (
                                            StmtM::Functio {
                                                iden: name@,
                                                params: pt.0,
                                                body: bt.0,
                                            },
                                            bt.1,
                                        ),
                                    ),
                                    None => None,
                                },
                                None => None,
                            }
                        } else {
                            None
                        }
                    },
                    _ => None,
                }
            } else {
                None
            },
            Token::BfFunction => if pos + 1 < ts.len() {
                match ts[pos + 1].0 {
                    Token::Identifier(name) => {
                        let after: Option<(Option<ExprM>, int)> = if pos + 2 < ts.len() && ts[pos
                            + 2].0 is LeftBracket {
                            match p_expr(src, ts, pos + 3) {
                                Some(et) => {
                                    let p = bump(ts, pos + 3, et.1);
                                    if p < ts.len() && ts[p].0 is RightBracket {
                                        Some((Some(et.0), p + 1))
                                    } else {
                                        None
                                    }
                                },
                                None => None,
                            }
                        } else {
                            Some((None, pos + 2))
                        };
                        match after {
                            Some(tt) => match p_bf_body(src, ts, bump(ts, pos + 1, tt.1)) {
                                Some(ct) => Some(
                                    (
                                        StmtM::BfFunctio {
                                            iden: name@,
                                            tape_len: tt.0,
                                            code: ct.0,
                                        },
                                        ct.1,
                                    ),
                                ),
                                None => None,
                            },
                            None => None,
                        }
                    },
                    _ => None,
                }
            } else {
                None
            },
            _ => match p_expr(src, ts, pos) {
                Some(et) => {
                    let p = bump(ts, pos, et.1);
                    if p < ts.len() && ts[p].0 is Assignment {
                        match et.0 {
                            ExprM::Variable(name) => match p_expr(src, ts, p + 1) {
                                Some(vt) => {
                                    let p2 = bump(ts, p + 1, vt.1);
                                    if p2 < ts.len() && ts[p2].0 is Semicolon {
                                        Some(
                                            (
                                                StmtM::Assign { iden: name, value: vt.0 },
                                                p2 + 1,
                                            ),
                                        )
                                    } else {
                                        None
                                    }
                                },
                                None => None,
                            },
                            _ => None,
                        }
                    } else if p < ts.len() && ts[p].0 is LeftParenthesis {
                        let after: Option<(Seq<ExprM>, int)> = if p + 1 < ts.len() && ts[p
                            + 1].0 is RightParenthesis {
                            Some((Seq::empty(), p + 2))
                        } else {
                            match p_args(src, ts, p + 1) {
                                Some(at) => {
                                    let p2 = bump(ts, p + 1, at.1);
                                    if p2 < ts.len() && ts[p2].0 is RightParenthesis {
                                        Some((at.0, p2 + 1))
                                    } else {
                                        None
                                    }
                                },
                                None => None,
                            }
                        };
                        match after {
                            Some(at) => if at.1 < ts.len() && ts[at.1].0 is Semicolon {
                                Some((StmtM::Call { expr: et.0, args: at.0 }, at.1 + 1))
                            } else {
                                None
                            },
                            None => None,
                        }
                    } else {
                        None
                    }
                },
                None => None,
            },
        }
    }
}

/// The whole token stream as an ordered statement sequence; the stream
/// must be consumed exactly.
pub open spec fn p_stmts(src: Seq<u8>, ts: Seq<(Token, Span)>, pos: int) -> Option<
    (Seq<StmtM>, int),
>
    decreases ts.len() - pos, 13int,
{
    if !(0 <= pos <= ts.len()) {
        None
    } else if pos == ts.len() {
        Some((Seq::empty(), pos))
    } else {
        match p_stmt(src, ts, pos) {
            Some(t) => match p_stmts(src, ts, bump(ts, pos, t.1)) {
                Some(rt) => Some((seq![t.0] + rt.0, rt.1)),
                None => None,
            },
            None => None,
        }
    }
}

/// Whether an exec expression result stands for the model's.
pub open spec fn expr_out(pre: Parser, post: Parser, r: Result<Expr, Error>, m: Option<
    (ExprM, int),
>) -> bool {
    match r {
        Ok(e) => m matches Some(t) && (expr_view(e) == t.0 && post.pos as int == t.1),
        Err(er) => m is None,
    }
}

pub open spec fn stmt_out(pre: Parser, post: Parser, r: Result<Stmt, Error>, m: Option<
    (StmtM, int),
>) -> bool {
    match r {
        Ok(s) => m matches Some(t) && (crate::ast::stmt_view(s) == t.0 && post.pos as int == t.1),
        Err(er) => m is None,
    }
}


pub open spec fn pairs_out(post: Parser, r: Result<Vec<(Expr, Expr)>, Error>, m: Option<
    (Seq<(ExprM, ExprM)>, int),
>) -> bool {
    match r {
        Ok(v) => m matches Some(t) && (expr_pairs_view(v@) == t.0 && post.pos as int == t.1),
        Err(er) => m is None,
    }
}

pub open spec fn params_out(post: Parser, r: Result<Vec<Iden>, Error>, m: Option<
    (Seq<Seq<char>>, int),
>) -> bool {
    match r {
        Ok(v) => m matches Some(t) && (params_view(v@) == t.0 && post.pos as int == t.1),
        Err(er) => m is None,
    }
}

pub open spec fn args_out(post: Parser, r: Result<Vec<Expr>, Error>, m: Option<
    (Seq<ExprM>, int),
>) -> bool {
    match r {
        Ok(v) => m matches Some(t) && (exprs_view(v@) == t.0 && post.pos as int == t.1),
        Err(er) => m is None,
    }
}

pub open spec fn block_out(post: Parser, r: Result<Block, Error>, m: Option<
    (Seq<StmtM>, int),
>) -> bool {
    match r {
        Ok(b) => m matches Some(t) && (stmts_view(b.block@) == t.0 && post.pos as int == t.1),
        Err(er) => m is None,
    }
}

pub open spec fn stmts_out(post: Parser, r: Result<Vec<Stmt>, Error>, m: Option<
    (Seq<StmtM>, int),
>) -> bool {
    match r {
        Ok(v) => m matches Some(t) && (stmts_view(v@) == t.0 && post.pos as int == t.1),
        Err(er) => m is None,
    }
}

pub open spec fn bytes_out(post: Parser, r: Result<Vec<u8>, Error>, m: Option<
    (Seq<u8>, int),
>) -> bool {
    match r {
        Ok(code) => m matches Some(t) && (code@ == t.0 && post.pos as int == t.1),
        Err(er) => m is None,
    }
}

impl Parser {
    /// A parser over a token stream and the source text it was cut from.
    /// Comment tokens are dropped up front; they take no part in parsing.
    pub fn new(src: Vec<u8>, tokens: Vec<(Token, Span)>) -> (r: Parser)
        ensures
            parser_wf(r),
            r.pos == 0,
            r.src == src,
            r.tokens@ == drop_comments(tokens@),
    {
        let ghost orig = tokens@;
        let mut tokens = tokens;
        let mut kept: Vec<(Token, Span)> = Vec::new();
        while tokens.len() > 0
            invariant
                drop_comments(orig) == kept@ + drop_comments(tokens@),
            decreases tokens@.len(),
        {
            let ghost pre = tokens@;
            let (t, sp) = tokens.remove(0);
            proof {
                assert(tokens@ =~= pre.subrange(1, pre.len() as int));
                assert((t, sp) == pre[0]);
            }
            match t {
                Token::Comment => {},
                other => {
                    let ghost kept_pre = kept@;
                    kept.push((other, sp));
                    proof {
                        assert(kept@ =~= kept_pre + seq![pre[0]]);
                        assert(kept_pre + (seq![pre[0]] + drop_comments(tokens@)) =~= kept@
                            + drop_comments(tokens@));
                    }
                },
            }
        }
        proof {
            assert(kept@ + drop_comments(tokens@) =~= kept@);
        }
        Parser { src, tokens: kept, pos: 0 }
    }

    fn at_end(&self) -> (r: bool)
        requires
            parser_wf(*self),
        ensures
            r == (self.pos == self.tokens@.len()),
    {
        self.pos == self.tokens.len()
    }

    fn err_here(&self) -> (r: Error)
        requires
            parser_wf(*self),
    {
        if self.pos < self.tokens.len() {
            Error {
                kind: ErrorKind::UnexpectedToken(clone_token(&self.tokens[self.pos].0)),
                span: self.tokens[self.pos].1,
            }
        } else {
            Error { kind: ErrorKind::UnexpectedEof, span: Span::new(0, 0) }
        }
    }

    /// Demand one exact punctuation or keyword token.
    fn expect(&mut self, t: &Token) -> (r: Result<Span, Error>)
        requires
            parser_wf(*old(self)),
        ensures
            parser_wf(*final(self)),
            advances(*old(self), *final(self)),
            match r {
                Ok(sp) => old(self).pos < old(self).tokens@.len() && same_fieldless(
                    old(self).tokens@[old(self).pos as int].0,
                    *t,
                ) && final(self).pos == old(self).pos + 1 && sp == old(self).tokens@[old(
                    self,
                ).pos as int].1,
                Err(er) => *final(self) == *old(self) && (old(self).pos >= old(self).tokens@.len()
                    || !same_fieldless(old(self).tokens@[old(self).pos as int].0, *t)),
            },
    {
        if self.pos < self.tokens.len() {
            if token_kind_eq(&self.tokens[self.pos].0, t) {
                let sp = self.tokens[self.pos].1;
                self.pos = self.pos + 1;
                return Ok(sp);
            }
        }
        Err(self.err_here())
    }

    fn expect_iden(&mut self) -> (r: Result<Iden, Error>)
        requires
            parser_wf(*old(self)),
        ensures
            parser_wf(*final(self)),
            advances(*old(self), *final(self)),
            match r {
                Ok(iden) => ({
                    &&& old(self).pos < old(self).tokens@.len()
                    &&& old(self).tokens@[old(self).pos as int].0 matches Token::Identifier(nm)
                        && iden.iden@ == nm@
                    &&& final(self).pos == old(self).pos + 1
                }),
                Err(er) => *final(self) == *old(self) && (old(self).pos >= old(self).tokens@.len()
                    || !(old(self).tokens@[old(self).pos as int].0 is Identifier)),
            },
    {
        if self.pos < self.tokens.len() {
            match &self.tokens[self.pos].0 {
                Token::Identifier(name) => {
                    let iden = Iden { iden: name.clone(), span: self.tokens[self.pos].1 };
                    self.pos = self.pos + 1;
                    return Ok(iden);
                },
                _ => {},
            }
        }
        Err(self.err_here())
    }

    /// Strip the surrounding quotes a raw string-literal slice carries.
    fn unquote(raw: &String) -> (r: String)
        ensures
            r@ == unquote_m(raw@),
    {
        let s = raw.as_str();
        let n = s.unicode_len();
        if n >= 2 && s.get_char(0) == '"' && s.get_char(n - 1) == '"' {
            s.substring_char(1, n - 1).to_owned()
        } else {
            raw.clone()
        }
    }

    #[verifier::rlimit(100)]
    fn parse_primary(&mut self) -> (r: Result<Expr, Error>)
        requires
            parser_wf(*old(self)),
        ensures
            parser_wf(*final(self)),
            advances(*old(self), *final(self)),
            r is Ok ==> final(self).pos > old(self).pos,
            expr_out(
                *old(self),
                *final(self),
                r,
                p_primary(old(self).src@, old(self).tokens@, old(self).pos as int),
            ),
        decreases self.tokens@.len() - self.pos, 1int,
    {
        if self.pos >= self.tokens.len() {
            return Err(self.err_here());
        }
        let sp = self.tokens[self.pos].1;
        match &self.tokens[self.pos].0 {
            Token::Boolean(b) => {
                proof {
                    assert(old(self).tokens@[old(self).pos as int].0 matches Token::Boolean(x)
                        && x == *b);
                }
                let e = Expr::new(ExprKind::Literal(Value::Bool(*b)), sp);
                self.pos = self.pos + 1;
                proof {
                    assert(e.kind matches ExprKind::Literal(vv) && val_view(vv) == ValM::Bool(
                        *b,
                    ));
                }
                Ok(e)
            },
            Token::Aboolean(a) => {
                proof {
                    assert(old(self).tokens@[old(self).pos as int].0 matches Token::Aboolean(x)
                        && x == *a);
                }
                let e = Expr::new(ExprKind::Literal(Value::Abool(*a)), sp);
                self.pos = self.pos + 1;
                proof {
                    assert(e.kind matches ExprKind::Literal(vv) && val_view(vv) == ValM::Abool(
                        *a,
                    ));
                }
                Ok(e)
            },
            Token::Integer(n) => {
                proof {
                    assert(old(self).tokens@[old(self).pos as int].0 matches Token::Integer(x)
                        && x == *n);
                }
                let e = Expr::new(ExprKind::Literal(Value::Int(*n)), sp);
                self.pos = self.pos + 1;
                proof {
                    assert(e.kind matches ExprKind::Literal(vv) && val_view(vv) == ValM::Int(
                        *n,
                    ));
                }
                Ok(e)
            },
            Token::String(raw) => {
                let ghost rawm = raw@;
                let uq = Parser::unquote(raw);
                let ghost uqm = uq@;
                proof {
                    assert(uqm == unquote_m(rawm));
                }
                let v = Value::Str(uq);
                proof {
                    assert(val_view(v) == ValM::Str(uqm));
                }
                let e = Expr::new(ExprKind::Literal(v), sp);
                self.pos = self.pos + 1;
                proof {
                    assert(expr_view(e) == ExprM::Literal(ValM::Str(unquote_m(rawm))));
                }
                Ok(e)
            },
            Token::Identifier(name) => {
                proof {
                    assert(old(self).tokens@[old(self).pos as int].0 matches Token::Identifier(
                        x,
                    ) && x@ == name@);
                }
                let e = Expr::new(ExprKind::Variable(name.clone()), sp);
                self.pos = self.pos + 1;
                Ok(e)
            },
            Token::Not => {
                self.pos = self.pos + 1;
                let inner = match self.parse_postfix() {
                    Ok(e) => e,
                    Err(er) => {
                        return Err(er);
                    },
                };
                Ok(Expr::new(ExprKind::Not(Box::new(inner)), sp))
            },
            Token::LeftParenthesis => {
                self.pos = self.pos + 1;
                let inner = match self.parse_expr() {
                    Ok(e) => e,
                    Err(er) => {
                        return Err(er);
                    },
                };
                match self.expect(&Token::RightParenthesis) {
                    Ok(u) => Ok(inner),
                    Err(er) => Err(er),
                }
            },
            Token::LeftBracket => {
                self.pos = self.pos + 1;
                if self.pos < self.tokens.len() && token_kind_eq(
                    &self.tokens[self.pos].0,
                    &Token::RightBracket,
                ) {
                    self.pos = self.pos + 1;
                    let pairs: Vec<(Expr, Expr)> = Vec::new();
                    proof {
                        crate::ast::expr_pairs_view_len(pairs@);
                        assert(expr_pairs_view(pairs@) =~= Seq::<(ExprM, ExprM)>::empty());
                    }
                    return Ok(Expr::new(ExprKind::Cart(pairs), sp));
                }
                let pairs = match self.cart_items() {
                    Ok(v) => v,
                    Err(er) => {
                        return Err(er);
                    },
                };
                match self.expect(&Token::RightBracket) {
                    Ok(u) => Ok(Expr::new(ExprKind::Cart(pairs), sp)),
                    Err(er) => Err(er),
                }
            },
            _ => Err(self.err_here()),
        }
    }

    fn cart_items(&mut self) -> (r: Result<Vec<(Expr, Expr)>, Error>)
        requires
            parser_wf(*old(self)),
        ensures
            parser_wf(*final(self)),
            advances(*old(self), *final(self)),
            r is Ok ==> final(self).pos > old(self).pos,
            pairs_out(
                *final(self),
                r,
                p_cart_items(old(self).src@, old(self).tokens@, old(self).pos as int),
            ),
        decreases self.tokens@.len() - self.pos, 10int,
    {
        if self.pos >= self.tokens.len() {
            return Err(self.err_here());
        }
        let k = match self.parse_expr() {
            Ok(e) => e,
            Err(er) => {
                return Err(er);
            },
        };
        match self.expect(&Token::Colon) {
            Ok(u) => {},
            Err(er) => {
                return Err(er);
            },
        }
        let v = match self.parse_expr() {
            Ok(e) => e,
            Err(er) => {
                return Err(er);
            },
        };
        let ghost km = expr_view(k);
        let ghost vm = expr_view(v);
        if self.pos < self.tokens.len() && token_kind_eq(&self.tokens[self.pos].0, &Token::Comma)
        {
            self.pos = self.pos + 1;
            let mut rest = match self.cart_items() {
                Ok(v2) => v2,
                Err(er) => {
                    return Err(er);
                },
            };
            let ghost rm = expr_pairs_view(rest@);
            let ghost pre = rest@;
            rest.insert(0, (k, v));
            proof {
                assert(rest@ =~= seq![(k, v)] + pre);
                crate::ast::expr_pairs_view_len(rest@);
                crate::ast::expr_pairs_view_len(pre);
                assert forall|i: int| 0 <= i < rest@.len() implies #[trigger] expr_pairs_view(
                    rest@,
                )[i] == (seq![(km, vm)] + rm)[i] by {
                    crate::ast::expr_pairs_view_index(rest@, i);
                    if i > 0 {
                        crate::ast::expr_pairs_view_index(pre, i - 1);
                    }
                }
                assert(expr_pairs_view(rest@) =~= seq![(km, vm)] + rm);
            }
            Ok(rest)
        } else {
            let mut out: Vec<(Expr, Expr)> = Vec::new();
            out.push((k, v));
            proof {
                assert(out@ =~= seq![(k, v)]);
                crate::ast::expr_pairs_view_len(out@);
                crate::ast::expr_pairs_view_index(out@, 0);
                assert(expr_pairs_view(out@) =~= seq![(km, vm)]);
            }
            Ok(out)
        }
    }

    /// A primary expression followed by any number of postfix indexings.
    fn parse_postfix(&mut self) -> (r: Result<Expr, Error>)
        requires
            parser_wf(*old(self)),
        ensures
            parser_wf(*final(self)),
            advances(*old(self), *final(self)),
            r is Ok ==> final(self).pos > old(self).pos,
            expr_out(
                *old(self),
                *final(self),
                r,
                p_postfix(old(self).src@, old(self).tokens@, old(self).pos as int),
            ),
        decreases self.tokens@.len() - self.pos, 2int,
    {
        if self.pos >= self.tokens.len() {
            return Err(self.err_here());
        }
        let e = match self.parse_primary() {
            Ok(e) => e,
            Err(er) => {
                return Err(er);
            },
        };
        self.index_chain(e)
    }

    fn index_chain(&mut self, e: Expr) -> (r: Result<Expr, Error>)
        requires
            parser_wf(*old(self)),
        ensures
            parser_wf(*final(self)),
            advances(*old(self), *final(self)),
            expr_out(
                *old(self),
                *final(self),
                r,
                p_index_chain(
                    old(self).src@,
                    old(self).tokens@,
                    expr_view(e),
                    old(self).pos as int,
                ),
            ),
        decreases self.tokens@.len() - self.pos, 2int,
    {
        if self.pos < self.tokens.len() && token_kind_eq(
            &self.tokens[self.pos].0,
            &Token::LeftBracket,
        ) {
            let sp = self.tokens[self.pos].1;
            self.pos = self.pos + 1;
            let idx = match self.parse_expr() {
                Ok(e2) => e2,
                Err(er) => {
                    return Err(er);
                },
            };
            match self.expect(&Token::RightBracket) {
                Ok(u) => {},
                Err(er) => {
                    return Err(er);
                },
            }
            self.index_chain(
                Expr::new(ExprKind::Index { cart: Box::new(e), index: Box::new(idx) }, sp),
            )
        } else {
            Ok(e)
        }
    }

    /// One level of left-associative binary operators.
    fn parse_level(&mut self, level: u8) -> (r: Result<Expr, Error>)
        requires
            parser_wf(*old(self)),
            level <= 5,
        ensures
            parser_wf(*final(self)),
            advances(*old(self), *final(self)),
            r is Ok ==> final(self).pos > old(self).pos,
            expr_out(
                *old(self),
                *final(self),
                r,
                p_level(old(self).src@, old(self).tokens@, level, old(self).pos as int),
            ),
        decreases self.tokens@.len() - self.pos, 3int + level,
    {
        if self.pos >= self.tokens.len() {
            return Err(self.err_here());
        }
        let e = match if level == 0 {
            self.parse_postfix()
        } else {
            self.parse_level(level - 1)
        } {
            Ok(e) => e,
            Err(er) => {
                return Err(er);
            },
        };
        self.level_chain(level, e)
    }

    fn level_chain(&mut self, level: u8, e: Expr) -> (r: Result<Expr, Error>)
        requires
            parser_wf(*old(self)),
            level <= 5,
        ensures
            parser_wf(*final(self)),
            advances(*old(self), *final(self)),
            expr_out(
                *old(self),
                *final(self),
                r,
                p_level_chain(
                    old(self).src@,
                    old(self).tokens@,
                    level,
                    expr_view(e),
                    old(self).pos as int,
                ),
            ),
        decreases self.tokens@.len() - self.pos, 3int + level,
    {
        if self.pos >= self.tokens.len() {
            return Ok(e);
        }
        if !level_op(&self.tokens[self.pos].0, level) {
            return Ok(e);
        }
        let sp = self.tokens[self.pos].1;
        let op = match BinOpKind::from_token(clone_token(&self.tokens[self.pos].0)) {
            Ok(op) => op,
            Err(k) => {
                proof {
                    assert(false);
                }
                return Err(Error { kind: k, span: sp });
            },
        };
        proof {
            assert(op_of_m(self.tokens@[self.pos as int].0) == Some(op));
        }
        self.pos = self.pos + 1;
        let rhs = match if level == 0 {
            self.parse_postfix()
        } else {
            self.parse_level(level - 1)
        } {
            Ok(e2) => e2,
            Err(er) => {
                return Err(er);
            },
        };
        self.level_chain(
            level,
            Expr::new(ExprKind::BinOp { lhs: Box::new(e), rhs: Box::new(rhs), kind: op }, sp),
        )
    }

    /// A whole expression: the loosest precedence level.
    pub fn parse_expr(&mut self) -> (r: Result<Expr, Error>)
        requires
            parser_wf(*old(self)),
        ensures
            parser_wf(*final(self)),
            advances(*old(self), *final(self)),
            r is Ok ==> final(self).pos > old(self).pos,
            expr_out(
                *old(self),
                *final(self),
                r,
                p_expr(old(self).src@, old(self).tokens@, old(self).pos as int),
            ),
        decreases self.tokens@.len() - self.pos, 9int,
    {
        self.parse_level(5)
    }

    fn params_items(&mut self) -> (r: Result<Vec<Iden>, Error>)
        requires
            parser_wf(*old(self)),
        ensures
            parser_wf(*final(self)),
            advances(*old(self), *final(self)),
            r is Ok ==> final(self).pos > old(self).pos,
            params_out(*final(self), r, p_params(old(self).tokens@, old(self).pos as int)),
        decreases self.tokens@.len() - self.pos, 10int,
    {
        let iden = match self.expect_iden() {
            Ok(i) => i,
            Err(er) => {
                return Err(er);
            },
        };
        let ghost nm = iden.iden@;
        if self.pos < self.tokens.len() && token_kind_eq(&self.tokens[self.pos].0, &Token::Comma)
        {
            self.pos = self.pos + 1;
            let mut rest = match self.params_items() {
                Ok(v) => v,
                Err(er) => {
                    return Err(er);
                },
            };
            let ghost rm = params_view(rest@);
            let ghost pre = rest@;
            rest.insert(0, iden);
            proof {
                assert(rest@ =~= seq![iden] + pre);
                assert(params_view(rest@) =~= seq![nm] + rm);
            }
            Ok(rest)
        } else {
            let mut out: Vec<Iden> = Vec::new();
            out.push(iden);
            proof {
                assert(params_view(out@) =~= seq![nm]);
            }
            Ok(out)
        }
    }

    fn args_items(&mut self) -> (r: Result<Vec<Expr>, Error>)
        requires
            parser_wf(*old(self)),
        ensures
            parser_wf(*final(self)),
            advances(*old(self), *final(self)),
            r is Ok ==> final(self).pos > old(self).pos,
            args_out(
                *final(self),
                r,
                p_args(old(self).src@, old(self).tokens@, old(self).pos as int),
            ),
        decreases self.tokens@.len() - self.pos, 10int,
    {
        if self.pos >= self.tokens.len() {
            return Err(self.err_here());
        }
        let a = match self.parse_expr() {
            Ok(e) => e,
            Err(er) => {
                return Err(er);
            },
        };
        let ghost am = expr_view(a);
        if self.pos < self.tokens.len() && token_kind_eq(&self.tokens[self.pos].0, &Token::Comma)
        {
            self.pos = self.pos + 1;
            let mut rest = match self.args_items() {
                Ok(v) => v,
                Err(er) => {
                    return Err(er);
                },
            };
            let ghost rm = exprs_view(rest@);
            let ghost pre = rest@;
            rest.insert(0, a);
            proof {
                assert(rest@ =~= seq![a] + pre);
                crate::ast::exprs_view_len(rest@);
                crate::ast::exprs_view_len(pre);
                assert forall|i: int| 0 <= i < rest@.len() implies #[trigger] exprs_view(
                    rest@,
                )[i] == (seq![am] + rm)[i] by {
                    crate::ast::exprs_view_index(rest@, i);
                    if i > 0 {
                        crate::ast::exprs_view_index(pre, i - 1);
                    }
                }
                assert(exprs_view(rest@) =~= seq![am] + rm);
            }
            Ok(rest)
        } else {
            let mut out: Vec<Expr> = Vec::new();
            out.push(a);
            proof {
                assert(out@ =~= seq![a]);
                crate::ast::exprs_view_len(out@);
                crate::ast::exprs_view_index(out@, 0);
                assert(exprs_view(out@) =~= seq![am]);
            }
            Ok(out)
        }
    }

    /// A brace-delimited block of statements.
    fn parse_block(&mut self) -> (r: Result<Block, Error>)
        requires
            parser_wf(*old(self)),
        ensures
            parser_wf(*final(self)),
            advances(*old(self), *final(self)),
            r is Ok ==> final(self).pos > old(self).pos,
            block_out(
                *final(self),
                r,
                p_block(old(self).src@, old(self).tokens@, old(self).pos as int),
            ),
        decreases self.tokens@.len() - self.pos, 12int,
    {
        match self.expect(&Token::LeftBrace) {
            Ok(u) => {},
            Err(er) => {
                return Err(er);
            },
        }
        match self.block_items() {
            Ok(items) => Ok(Block { block: items }),
            Err(er) => Err(er),
        }
    }

    fn block_items(&mut self) -> (r: Result<Vec<Stmt>, Error>)
        requires
            parser_wf(*old(self)),
        ensures
            parser_wf(*final(self)),
            advances(*old(self), *final(self)),
            r is Ok ==> final(self).pos > old(self).pos,
            stmts_out(
                *final(self),
                r,
                p_block_items(old(self).src@, old(self).tokens@, old(self).pos as int),
            ),
        decreases self.tokens@.len() - self.pos, 12int,
    {
        if self.pos >= self.tokens.len() {
            return Err(self.err_here());
        }
        if token_kind_eq(&self.tokens[self.pos].0, &Token::RightBrace) {
            self.pos = self.pos + 1;
            let out: Vec<Stmt> = Vec::new();
            proof {
                crate::ast::stmts_view_len(out@);
                assert(stmts_view(out@) =~= Seq::<StmtM>::empty());
            }
            return Ok(out);
        }
        let st = match self.parse_stmt() {
            Ok(s) => s,
            Err(er) => {
                return Err(er);
            },
        };
        let ghost sm = crate::ast::stmt_view(st);
        let mut rest = match self.block_items() {
            Ok(v) => v,
            Err(er) => {
                return Err(er);
            },
        };
        let ghost rm = stmts_view(rest@);
        let ghost pre = rest@;
        rest.insert(0, st);
        proof {
            assert(rest@ =~= seq![st] + pre);
            crate::ast::stmts_view_len(rest@);
            crate::ast::stmts_view_len(pre);
            assert forall|i: int| 0 <= i < rest@.len() implies #[trigger] stmts_view(rest@)[i]
                == (seq![sm] + rm)[i] by {
                crate::ast::stmts_view_index(rest@, i);
                if i > 0 {
                    crate::ast::stmts_view_index(pre, i - 1);
                }
            }
            assert(stmts_view(rest@) =~= seq![sm] + rm);
        }
        Ok(rest)
    }

    /// The raw byte body of a foreign-function definition: everything
    /// between the opening brace and the next closing-brace token, taken
    /// verbatim from the source.
    fn parse_bf_body(&mut self) -> (r: Result<Vec<u8>, Error>)
        requires
            parser_wf(*old(self)),
        ensures
            parser_wf(*final(self)),
            advances(*old(self), *final(self)),
            r is Ok ==> final(self).pos > old(self).pos,
            bytes_out(
                *final(self),
                r,
                p_bf_body(old(self).src@, old(self).tokens@, old(self).pos as int),
            ),
        decreases self.tokens@.len() - self.pos, 12int,
    {
        let open = match self.expect(&Token::LeftBrace) {
            Ok(sp) => sp,
            Err(er) => {
                return Err(er);
            },
        };
        self.bf_scan(open)
    }

    fn bf_scan(&mut self, open: Span) -> (r: Result<Vec<u8>, Error>)
        requires
            parser_wf(*old(self)),
        ensures
            parser_wf(*final(self)),
            advances(*old(self), *final(self)),
            r is Ok ==> final(self).pos > old(self).pos,
            bytes_out(
                *final(self),
                r,
                p_bf_scan(old(self).src@, old(self).tokens@, open, old(self).pos as int),
            ),
        decreases self.tokens@.len() - self.pos, 12int,
    {
        if self.pos >= self.tokens.len() {
            return Err(self.err_here());
        }
        if token_kind_eq(&self.tokens[self.pos].0, &Token::RightBrace) {
            let close = self.tokens[self.pos].1;
            self.pos = self.pos + 1;
            let mut code: Vec<u8> = Vec::new();
            if open.end <= close.start && close.start <= self.src.len() {
                let mut i = open.end;
                while i < close.start
                    invariant
                        open.end <= i <= close.start,
                        close.start <= self.src@.len(),
                        code@ == self.src@.subrange(open.end as int, i as int),
                        self.src == old(self).src,
                    decreases close.start - i,
                {
                    code.push(self.src[i]);
                    proof {
                        assert(code@ =~= self.src@.subrange(open.end as int, i + 1));
                    }
                    i = i + 1;
                }
            } else {
                proof {
                    assert(code@ =~= Seq::<u8>::empty());
                }
            }
            return Ok(code);
        }
        self.pos = self.pos + 1;
        self.bf_scan(open)
    }

    /// One statement, keyed by its leading token.
    #[verifier::rlimit(100)]
    pub fn parse_stmt(&mut self) -> (r: Result<Stmt, Error>)
        requires
            parser_wf(*old(self)),
        ensures
            parser_wf(*final(self)),
            advances(*old(self), *final(self)),
            r is Ok ==> final(self).pos > old(self).pos,
            stmt_out(
                *old(self),
                *final(self),
                r,
                p_stmt(old(self).src@, old(self).tokens@, old(self).pos as int),
            ),
        decreases self.tokens@.len() - self.pos, 11int,
    {
        if self.pos >= self.tokens.len() {
            return Err(self.err_here());
        }
        let sp = self.tokens[self.pos].1;
        match &self.tokens[self.pos].0 {
            Token::If => {
                self.pos = self.pos + 1;
                let cond = match self.parse_expr() {
                    Ok(e) => e,
                    Err(er) => {
                        return Err(er);
                    },
                };
                let body = match self.parse_block() {
                    Ok(b) => b,
                    Err(er) => {
                        return Err(er);
                    },
                };
                Ok(Stmt::new(StmtKind::If { cond, body }, sp))
            },
            Token::Loop => {
                self.pos = self.pos + 1;
                let body = match self.parse_block() {
                    Ok(b) => b,
                    Err(er) => {
                        return Err(er);
                    },
                };
                Ok(Stmt::new(StmtKind::Loop { body }, sp))
            },
            Token::Break => {
                self.pos = self.pos + 1;
                match self.expect(&Token::Semicolon) {
                    Ok(u) => Ok(Stmt::new(StmtKind::Break, sp)),
                    Err(er) => Err(er),
                }
            },
            Token::HopBack => {
                self.pos = self.pos + 1;
                match self.expect(&Token::Semicolon) {
                    Ok(u) => Ok(Stmt::new(StmtKind::HopBack, sp)),
                    Err(er) => Err(er),
                }
            },
            Token::Rlyeh => {
                self.pos = self.pos + 1;
                match self.expect(&Token::Semicolon) {
                    Ok(u) => Ok(Stmt::new(StmtKind::Rlyeh, sp)),
                    Err(er) => Err(er),
                }
            },
            Token::Rickroll => {
                self.pos = self.pos + 1;
                match self.expect(&Token::Semicolon) {
                    Ok(u) => Ok(Stmt::new(StmtKind::Rickroll, sp)),
                    Err(er) => Err(er),
                }
            },
            Token::Variable => {
                self.pos = self.pos + 1;
                let iden = match self.expect_iden() {
                    Ok(i) => i,
                    Err(er) => {
                        return Err(er);
                    },
                };
                let mut init: Option<Expr> = None;
                if self.pos < self.tokens.len() && token_kind_eq(
                    &self.tokens[self.pos].0,
                    &Token::Assignment,
                ) {
                    self.pos = self.pos + 1;
                    match self.parse_expr() {
                        Ok(e) => {
                            init = Some(e);
                        },
                        Err(er) => {
                            return Err(er);
                        },
                    }
                }
                match self.expect(&Token::Semicolon) {
                    Ok(u) => Ok(Stmt::new(StmtKind::Var { iden, init }, sp)),
                    Err(er) => Err(er),
                }
            },
            Token::Print => {
                self.pos = self.pos + 1;
                let e = match self.parse_expr() {
                    Ok(e) => e,
                    Err(er) => {
                        return Err(er);
                    },
                };
                match self.expect(&Token::Semicolon) {
                    Ok(u) => Ok(Stmt::new(StmtKind::Print(e), sp)),
                    Err(er) => Err(er),
                }
            },
            Token::Read => {
                self.pos = self.pos + 1;
                let iden = match self.expect_iden() {
                    Ok(i) => i,
                    Err(er) => {
                        return Err(er);
                    },
                };
                match self.expect(&Token::Semicolon) {
                    Ok(u) => Ok(Stmt::new(StmtKind::Read(iden), sp)),
                    Err(er) => Err(er),
                }
            },
            Token::Melo => {
                self.pos = self.pos + 1;
                let iden = match self.expect_iden() {
                    Ok(i) => i,
                    Err(er) => {
                        return Err(er);
                    },
                };
                match self.expect(&Token::Semicolon) {
                    Ok(u) => Ok(Stmt::new(StmtKind::Melo(iden), sp)),
                    Err(er) => Err(er),
                }
            },
            Token::Function => {
                self.pos = self.pos + 1;
                let iden = match self.expect_iden() {
                    Ok(i) => i,
                    Err(er) => {
                        return Err(er);
                    },
                };
                match self.expect(&Token::LeftParenthesis) {
                    Ok(u) => {},
                    Err(er) => {
                        return Err(er);
                    },
                }
                let params: Vec<Iden>;
                if self.pos < self.tokens.len() && token_kind_eq(
                    &self.tokens[self.pos].0,
                    &Token::RightParenthesis,
                ) {
                    self.pos = self.pos + 1;
                    params = Vec::new();
                    proof {
                        assert(params_view(params@) =~= Seq::<Seq<char>>::empty());
                    }
                } else {
                    params = match self.params_items() {
                        Ok(v) => v,
                        Err(er) => {
                            return Err(er);
                        },
                    };
                    match self.expect(&Token::RightParenthesis) {
                        Ok(u) => {},
                        Err(er) => {
                            return Err(er);
                        },
                    }
                }
                let body = match self.parse_block() {
                    Ok(b) => b,
                    Err(er) => {
                        return Err(er);
                    },
                };
                Ok(Stmt::new(StmtKind::Functio { iden, params, body }, sp))
            },
            Token::BfFunction => {
                self.pos = self.pos + 1;
                let iden = match self.expect_iden() {
                    Ok(i) => i,
                    Err(er) => {
                        return Err(er);
                    },
                };
                let mut tape_len: Option<Expr> = None;
                if self.pos < self.tokens.len() && token_kind_eq(
                    &self.tokens[self.pos].0,
                    &Token::LeftBracket,
                ) {
                    self.pos = self.pos + 1;
                    match self.parse_expr() {
                        Ok(e) => {
                            tape_len = Some(e);
                        },
                        Err(er) => {
                            return Err(er);
                        },
                    }
                    match self.expect(&Token::RightBracket) {
                        Ok(u) => {},
                        Err(er) => {
                            return Err(er);
                        },
                    }
                }
                let code = match self.parse_bf_body() {
                    Ok(c) => c,
                    Err(er) => {
                        return Err(er);
                    },
                };
                Ok(Stmt::new(StmtKind::BfFunctio { iden, tape_len, code }, sp))
            },
            _ => {
                let e = match self.parse_expr() {
                    Ok(e) => e,
                    Err(er) => {
                        return Err(er);
                    },
                };
                if self.pos < self.tokens.len() && token_kind_eq(
                    &self.tokens[self.pos].0,
                    &Token::Assignment,
                ) {
                    let iden = match e.kind {
                        ExprKind::Variable(name) => Iden { iden: name, span: e.span },
                        _ => {
                            return Err(self.err_here());
                        },
                    };
                    self.pos = self.pos + 1;
                    let value = match self.parse_expr() {
                        Ok(v) => v,
                        Err(er) => {
                            return Err(er);
                        },
                    };
                    match self.expect(&Token::Semicolon) {
                        Ok(u) => Ok(Stmt::new(StmtKind::Assign { iden, value }, sp)),
                        Err(er) => Err(er),
                    }
                } else {
                    match self.expect(&Token::LeftParenthesis) {
                        Ok(u) => {},
                        Err(er) => {
                            return Err(er);
                        },
                    }
                    let args: Vec<Expr>;
                    if self.pos < self.tokens.len() && token_kind_eq(
                        &self.tokens[self.pos].0,
                        &Token::RightParenthesis,
                    ) {
                        self.pos = self.pos + 1;
                        args = Vec::new();
                        proof {
                            crate::ast::exprs_view_len(args@);
                            assert(exprs_view(args@) =~= Seq::<ExprM>::empty());
                        }
                    } else {
                        args = match self.args_items() {
                            Ok(v) => v,
                            Err(er) => {
                                return Err(er);
                            },
                        };
                        match self.expect(&Token::RightParenthesis) {
                            Ok(u) => {},
                            Err(er) => {
                                return Err(er);
                            },
                        }
                    }
                    match self.expect(&Token::Semicolon) {
                        Ok(u) => Ok(Stmt::new(StmtKind::Call { expr: e, args }, sp)),
                        Err(er) => Err(er),
                    }
                }
            },
        }
    }

    /// Parse the whole token stream into an ordered statement sequence,
    /// failing at the first malformed construct.
    pub fn init(&mut self) -> (r: Result<Vec<Stmt>, Error>)
        requires
            parser_wf(*old(self)),
        ensures
            parser_wf(*final(self)),
            advances(*old(self), *final(self)),
            r is Ok ==> final(self).pos == final(self).tokens@.len(),
            stmts_out(
                *final(self),
                r,
                p_stmts(old(self).src@, old(self).tokens@, old(self).pos as int),
            ),
        decreases self.tokens@.len() - self.pos, 13int,
    {
        if self.at_end() {
            let out: Vec<Stmt> = Vec::new();
            proof {
                crate::ast::stmts_view_len(out@);
                assert(stmts_view(out@) =~= Seq::<StmtM>::empty());
            }
            return Ok(out);
        }
        let st = match self.parse_stmt() {
            Ok(s) => s,
            Err(er) => {
                return Err(er);
            },
        };
        let ghost sm = crate::ast::stmt_view(st);
        let mut rest = match self.init() {
            Ok(v) => v,
            Err(er) => {
                return Err(er);
            },
        };
        let ghost rm = stmts_view(rest@);
        let ghost pre = rest@;
        rest.insert(0, st);
        proof {
            assert(rest@ =~= seq![st] + pre);
            crate::ast::stmts_view_len(rest@);
            crate::ast::stmts_view_len(pre);
            assert forall|i: int| 0 <= i < rest@.len() implies #[trigger] stmts_view(rest@)[i]
                == (seq![sm] + rm)[i] by {
                crate::ast::stmts_view_index(rest@, i);
                if i > 0 {
                    crate::ast::stmts_view_index(pre, i - 1);
                }
            }
            assert(stmts_view(rest@) =~= seq![sm] + rm);
        }
        Ok(rest)
    }
}

} // verus!
