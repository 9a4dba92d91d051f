//! Runtime values: the associative `Cart` literal type, the three-valued
//! `Abool`, callables, and structural value equality.
//!
//! Every runtime type has a span-free mathematical model (`ValM`); contracts
//! speak of values through `val_view`, so that two values are "the same" for
//! the language exactly when their models are equal.

use vstd::prelude::*;

use crate::ast::{stmts_view, Block, Iden, StmtM};
use crate::ast::BinOpKind;
use crate::error::{ErrM, ErrorKind};

verus! {

/// The three-valued boolean: `Always` and `Never` act like `true` and
/// `false`; `Sometimes` resolves afresh each time it is read in a boolean
/// context.
#[derive(Debug, Clone, Copy, PartialEq, Eq, Structural)]
pub enum Abool {
    Never,
    Sometimes,
    Always,
}

/// A callable: either an ordinary subroutine (parameter names, body and the
/// scope it closed over) or a foreign body of raw tape-machine instructions
/// with its bracket table resolved once at definition time.
#[derive(Debug)]
pub enum Functio {
    Able { params: Vec<Iden>, body: Block, scope: usize },
    Bf { code: Vec<u8>, tape_len: usize, jumps: Vec<usize> },
}

/// A runtime value: the only thing a binding can hold or an argument can
/// carry. `Nul` is the absence marker; `Cart` is an insertion-ordered pair
/// sequence that tolerates duplicate keys.
#[derive(Debug)]
pub enum Value {
    Nul,
    Str(String),
    Int(i32),
    Bool(bool),
    Abool(Abool),
    Functio(Functio),
    Cart(Vec<(Value, Value)>),
}

/// Span-free model of a callable.
pub enum FunctioM {
    Able { params: Seq<Seq<char>>, body: Seq<StmtM>, scope: int },
    Bf { code: Seq<u8>, tape_len: int, jumps: Seq<int> },
}

/// Span-free model of a value. Model equality is the language's structural
/// value equality: same kind, same contents, pairwise and in order for carts.
pub enum ValM {
    Nul,
    Str(Seq<char>),
    Int(i32),
    Bool(bool),
    Abool(Abool),
    Functio(FunctioM),
    Cart(Seq<(ValM, ValM)>),
}

pub open spec fn params_view(params: Seq<Iden>) -> Seq<Seq<char>> {
    Seq::new(params.len(), |i: int| params[i].iden@)
}

pub open spec fn functio_view(f: Functio) -> FunctioM
    decreases f,
{
    match f {
        Functio::Able { params, body, scope } => FunctioM::Able {
            params: params_view(params@),
            body: stmts_view(body.block@),
            scope: scope as int,
        },
        Functio::Bf { code, tape_len, jumps } => FunctioM::Bf {
            code: code@,
            tape_len: tape_len as int,
            jumps: Seq::new(jumps@.len(), |i: int| jumps@[i] as int),
        },
    }
}

pub open spec fn val_view(v: Value) -> ValM
    decreases v,
{
    match v {
        Value::Nul => ValM::Nul,
        Value::Str(s) => ValM::Str(s@),
        Value::Int(n) => ValM::Int(n),
        Value::Bool(b) => ValM::Bool(b),
        Value::Abool(a) => ValM::Abool(a),
        Value::Functio(f) => ValM::Functio(functio_view(f)),
        Value::Cart(pairs) => ValM::Cart(val_pairs_view(pairs@)),
    }
}

pub open spec fn val_pairs_view(ps: Seq<(Value, Value)>) -> Seq<(ValM, ValM)>
    decreases ps,
{
    if ps.len() == 0 {
        Seq::empty()
    } else {
        seq![(val_view(ps[0].0), val_view(ps[0].1))] + val_pairs_view(
            ps.subrange(1, ps.len() as int),
        )
    }
}

pub broadcast proof fn val_pairs_view_len(ps: Seq<(Value, Value)>)
    ensures
        (#[trigger] val_pairs_view(ps)).len() == ps.len(),
    decreases ps.len(),
{
    if ps.len() > 0 {
        val_pairs_view_len(ps.subrange(1, ps.len() as int));
    }
}

pub broadcast proof fn val_pairs_view_index(ps: Seq<(Value, Value)>, i: int)
    requires
        0 <= i < ps.len(),
    ensures
        #[trigger] val_pairs_view(ps)[i] == (val_view(ps[i].0), val_view(ps[i].1)),
    decreases ps.len(),
{
    val_pairs_view_len(ps);
    if i > 0 {
        val_pairs_view_index(ps.subrange(1, ps.len() as int), i - 1);
    }
}


/// How a value resolves in a boolean context: booleans by themselves,
/// `Sometimes` by the fresh coin, integers by being nonzero; anything else
/// has no truth value.
pub open spec fn resolve_m(v: ValM, coin: bool) -> Option<bool> {
    match v {
        ValM::Bool(b) => Some(b),
        ValM::Abool(Abool::Always) => Some(true),
        ValM::Abool(Abool::Never) => Some(false),
        ValM::Abool(Abool::Sometimes) => Some(coin),
        ValM::Int(n) => Some(n != 0),
        _ => None,
    }
}

/// Whether a boolean-context read of this value consumes a fresh coin.
pub open spec fn uses_coin(v: ValM) -> bool {
    v == ValM::Abool(Abool::Sometimes)
}

pub fn resolve(v: &Value, coin: bool) -> (r: Option<bool>)
    ensures
        r == resolve_m(val_view(*v), coin),
{
    match v {
        Value::Bool(b) => Some(*b),
        Value::Abool(Abool::Always) => Some(true),
        Value::Abool(Abool::Never) => Some(false),
        Value::Abool(Abool::Sometimes) => Some(coin),
        Value::Int(n) => Some(*n != 0),
        _ => None,
    }
}

/// Logical negation: booleans flip; `Always` and `Never` swap; `Sometimes`
/// resolves to the coin first and the resolved truth is negated.
pub open spec fn not_m(v: ValM, coin: bool) -> Result<ValM, ErrM> {
    match v {
        ValM::Bool(b) => Ok(ValM::Bool(!b)),
        ValM::Abool(Abool::Always) => Ok(ValM::Abool(Abool::Never)),
        ValM::Abool(Abool::Never) => Ok(ValM::Abool(Abool::Always)),
        ValM::Abool(Abool::Sometimes) => Ok(ValM::Bool(!coin)),
        _ => Err(ErrM::TypeError),
    }
}

/// Division with truncation toward zero, wrapping on the one overflowing
/// quotient; only defined for a nonzero divisor.
pub open spec fn idiv_wrap(a: int, b: int) -> int {
    let abs_a = if a >= 0 { a } else { -a };
    let abs_b = if b >= 0 { b } else { -b };
    let q = abs_a / abs_b;
    let s = if (a >= 0) == (b >= 0) { q } else { -q };
    if s == 0x8000_0000 { -0x8000_0000 } else { s }
}

/// The result of a binary operation. Arithmetic and ordering take integers
/// only; arithmetic wraps; equality is structural and never fails; the
/// logical operations read both operands in a boolean context, each with its
/// own coin.
pub open spec fn binop_m(op: BinOpKind, a: ValM, b: ValM, c1: bool, c2: bool) -> Result<
    ValM,
    ErrM,
> {
    match op {
        BinOpKind::Add => match (a, b) {
            (ValM::Int(x), ValM::Int(y)) => Ok(ValM::Int(x.wrapping_add(y))),
            _ => Err(ErrM::TypeError),
        },
        BinOpKind::Subtract => match (a, b) {
            (ValM::Int(x), ValM::Int(y)) => Ok(ValM::Int(x.wrapping_sub(y))),
            _ => Err(ErrM::TypeError),
        },
        BinOpKind::Multiply => match (a, b) {
            (ValM::Int(x), ValM::Int(y)) => Ok(ValM::Int(x.wrapping_mul(y))),
            _ => Err(ErrM::TypeError),
        },
        BinOpKind::Divide => match (a, b) {
            (ValM::Int(x), ValM::Int(y)) => if y == 0 {
                Err(ErrM::ZeroDivision)
            } else {
                Ok(ValM::Int(idiv_wrap(x as int, y as int) as i32))
            },
            _ => Err(ErrM::TypeError),
        },
        BinOpKind::Greater => match (a, b) {
            (ValM::Int(x), ValM::Int(y)) => Ok(ValM::Bool(x > y)),
            _ => Err(ErrM::TypeError),
        },
        BinOpKind::Less => match (a, b) {
            (ValM::Int(x), ValM::Int(y)) => Ok(ValM::Bool(x < y)),
            _ => Err(ErrM::TypeError),
        },
        BinOpKind::Equal => Ok(ValM::Bool(a == b)),
        BinOpKind::NotEqual => Ok(ValM::Bool(a != b)),
        BinOpKind::And => match (resolve_m(a, c1), resolve_m(b, c2)) {
            (Some(x), Some(y)) => Ok(ValM::Bool(x && y)),
            _ => Err(ErrM::TypeError),
        },
        BinOpKind::Or => match (resolve_m(a, c1), resolve_m(b, c2)) {
            (Some(x), Some(y)) => Ok(ValM::Bool(x || y)),
            _ => Err(ErrM::TypeError),
        },
    }
}

/// Whether an exec result stands for the given model result.
pub open spec fn val_res_matches(r: Result<Value, ErrorKind>, m: Result<ValM, ErrM>) -> bool {
    match r {
        Ok(v) => m matches Ok(vm) && val_view(v) == vm,
        Err(k) => m matches Err(em) && crate::error::err_view(k) == em,
    }
}

pub fn not_value(v: &Value, coin: bool) -> (r: Result<Value, ErrorKind>)
    ensures
        val_res_matches(r, not_m(val_view(*v), coin)),
{
    match v {
        Value::Bool(b) => Ok(Value::Bool(!*b)),
        Value::Abool(Abool::Always) => Ok(Value::Abool(Abool::Never)),
        Value::Abool(Abool::Never) => Ok(Value::Abool(Abool::Always)),
        Value::Abool(Abool::Sometimes) => Ok(Value::Bool(!coin)),
        _ => Err(ErrorKind::TypeError),
    }
}

fn divide(x: i32, y: i32) -> (r: i32)
    requires
        y != 0,
    ensures
        r as int == idiv_wrap(x as int, y as int),
{
    let ax: u32 = if x >= 0 {
        x as u32
    } else {
        (-(x as i64)) as u32
    };
    let ay: u32 = if y >= 0 {
        y as u32
    } else {
        (-(y as i64)) as u32
    };
    let q: u32 = ax / ay;
    if (x >= 0) == (y >= 0) {
        if q <= 0x7fff_ffff {
            q as i32
        } else {
            i32::MIN
        }
    } else {
        if q == 0x8000_0000 {
            i32::MIN
        } else {
            -(q as i32)
        }
    }
}

pub fn binop(op: BinOpKind, a: &Value, b: &Value, c1: bool, c2: bool) -> (r: Result<
    Value,
    ErrorKind,
>)
    ensures
        val_res_matches(r, binop_m(op, val_view(*a), val_view(*b), c1, c2)),
{
    match op {
        BinOpKind::Add => match (a, b) {
            (Value::Int(x), Value::Int(y)) => Ok(Value::Int(x.wrapping_add(*y))),
            _ => Err(ErrorKind::TypeError),
        },
        BinOpKind::Subtract => match (a, b) {
            (Value::Int(x), Value::Int(y)) => Ok(Value::Int(x.wrapping_sub(*y))),
            _ => Err(ErrorKind::TypeError),
        },
        BinOpKind::Multiply => match (a, b) {
            (Value::Int(x), Value::Int(y)) => Ok(Value::Int(x.wrapping_mul(*y))),
            _ => Err(ErrorKind::TypeError),
        },
        BinOpKind::Divide => match (a, b) {
            (Value::Int(x), Value::Int(y)) => {
                if *y == 0 {
                    Err(ErrorKind::ZeroDivision)
                } else {
                    Ok(Value::Int(divide(*x, *y)))
                }
            },
            _ => Err(ErrorKind::TypeError),
        },
        BinOpKind::Greater => match (a, b) {
            (Value::Int(x), Value::Int(y)) => Ok(Value::Bool(*x > *y)),
            _ => Err(ErrorKind::TypeError),
        },
        BinOpKind::Less => match (a, b) {
            (Value::Int(x), Value::Int(y)) => Ok(Value::Bool(*x < *y)),
            _ => Err(ErrorKind::TypeError),
        },
        BinOpKind::Equal => Ok(Value::Bool(crate::eq::value_eq(a, b))),
        BinOpKind::NotEqual => Ok(Value::Bool(!crate::eq::value_eq(a, b))),
        BinOpKind::And => match (resolve(a, c1), resolve(b, c2)) {
            (Some(x), Some(y)) => Ok(Value::Bool(x && y)),
            _ => Err(ErrorKind::TypeError),
        },
        BinOpKind::Or => match (resolve(a, c1), resolve(b, c2)) {
            (Some(x), Some(y)) => Ok(Value::Bool(x || y)),
            _ => Err(ErrorKind::TypeError),
        },
    }
}

/// First-match lookup in a cart, scanning the pairs in insertion order.
pub open spec fn cart_lookup_m(ps: Seq<(ValM, ValM)>, key: ValM) -> Option<ValM>
    decreases ps,
{
    if ps.len() == 0 {
        None
    } else if ps[0].0 == key {
        Some(ps[0].1)
    } else {
        cart_lookup_m(ps.subrange(1, ps.len() as int), key)
    }
}

/// The value an index expression produces: a first-match scan of a cart by
/// structural key equality; a missing key or a non-cart container fails.
pub open spec fn index_m(container: ValM, key: ValM) -> Result<ValM, ErrM> {
    match container {
        ValM::Cart(ps) => match cart_lookup_m(ps, key) {
            Some(v) => Ok(v),
            None => Err(ErrM::KeyNotFound),
        },
        _ => Err(ErrM::TypeError),
    }
}

pub fn index_value(container: &Value, key: &Value) -> (r: Result<Value, ErrorKind>)
    ensures
        val_res_matches(r, index_m(val_view(*container), val_view(*key))),
{
    match container {
        Value::Cart(ps) => {
            let ghost psm = val_pairs_view(ps@);
            let ghost keym = val_view(*key);
            proof {
                val_pairs_view_len(ps@);
                assert(psm.subrange(0, psm.len() as int) =~= psm);
            }
            let n = ps.len();
            for i in 0..n
                invariant
                    n == ps@.len(),
                    psm == val_pairs_view(ps@),
                    keym == val_view(*key),
                    val_view(*container) == ValM::Cart(psm),
                    cart_lookup_m(psm, keym) == cart_lookup_m(
                        psm.subrange(i as int, psm.len() as int),
                        keym,
                    ),
                    psm.len() == ps@.len(),
            {
                proof {
                    val_pairs_view_len(ps@);
                    val_pairs_view_index(ps@, i as int);
                    assert(psm.subrange(i as int, psm.len() as int)[0] == psm[i as int]);
                }
                if crate::eq::value_eq(&ps[i].0, key) {
                    proof {
                        assert(psm[i as int].0 == keym);
                        let sub = psm.subrange(i as int, psm.len() as int);
                        assert(sub.len() > 0);
                        assert(sub[0] == psm[i as int]);
                        assert(cart_lookup_m(sub, keym) == Some(psm[i as int].1));
                        assert(val_view(*container) == ValM::Cart(psm));
                        assert(index_m(val_view(*container), keym) == Ok::<ValM, ErrM>(
                            psm[i as int].1,
                        ));
                    }
                    return Ok(crate::eq::clone_value(&ps[i].1));
                }
                proof {
                    assert(psm.subrange(i as int, psm.len() as int).subrange(
                        1,
                        psm.len() - i,
                    ) =~= psm.subrange(i + 1, psm.len() as int));
                }
            }
            proof {
                assert(psm.subrange(psm.len() as int, psm.len() as int).len() == 0);
            }
            Err(ErrorKind::KeyNotFound)
        },
        _ => Err(ErrorKind::TypeError),
    }
}


/// The decimal digit character for one digit value.
pub open spec fn dec_digit(d: int) -> char {
    ((48 + d) as u8) as char
}

/// The decimal numeral of a natural number, most significant digit first.
pub open spec fn dec_nat(m: nat) -> Seq<char>
    decreases m,
{
    if m < 10 {
        seq![dec_digit(m as int)]
    } else {
        dec_nat(m / 10) + seq![dec_digit((m % 10) as int)]
    }
}

/// The decimal numeral of an integer, with a leading minus when negative.
pub open spec fn dec_int(n: int) -> Seq<char> {
    if n < 0 {
        seq!['-'] + dec_nat((-n) as nat)
    } else {
        dec_nat(n as nat)
    }
}

/// The text a value prints as: strings print bare, integers in decimal,
/// the boolean kinds by their keywords, callables as `functio`, carts as
/// bracketed `key: value` entries separated by commas.
pub open spec fn render_m(v: ValM) -> Seq<char>
    decreases v,
{
    match v {
        ValM::Nul => seq!['n', 'u', 'l'],
        ValM::Str(s) => s,
        ValM::Int(n) => dec_int(n as int),
        ValM::Bool(b) => if b {
            seq!['t', 'r', 'u', 'e']
        } else {
            seq!['f', 'a', 'l', 's', 'e']
        },
        ValM::Abool(Abool::Always) => seq!['a', 'l', 'w', 'a', 'y', 's'],
        ValM::Abool(Abool::Sometimes) => seq!['s', 'o', 'm', 'e', 't', 'i', 'm', 'e', 's'],
        ValM::Abool(Abool::Never) => seq!['n', 'e', 'v', 'e', 'r'],
        ValM::Functio(_) => seq!['f', 'u', 'n', 'c', 't', 'i', 'o'],
        ValM::Cart(ps) => seq!['['] + render_pairs_m(ps) + seq![']'],
    }
}

pub open spec fn render_pairs_m(ps: Seq<(ValM, ValM)>) -> Seq<char>
    decreases ps,
{
    if ps.len() == 0 {
        Seq::empty()
    } else {
        let head = render_m(ps[0].0) + seq![':', ' '] + render_m(ps[0].1);
        if ps.len() == 1 {
            head
        } else {
            head + seq![',', ' '] + render_pairs_m(ps.subrange(1, ps.len() as int))
        }
    }
}

fn push_dec_u32(m: u32, out: &mut Vec<char>)
    ensures
        final(out)@ == old(out)@ + dec_nat(m as nat),
    decreases m,
{
    if m >= 10 {
        push_dec_u32(m / 10, out);
    }
    let d: u8 = (m % 10) as u8;
    out.push((48 + d) as char);
    proof {
        if m < 10 {
            assert(out@ =~= old(out)@ + dec_nat(m as nat));
        } else {
            assert(out@ =~= old(out)@ + (dec_nat((m / 10) as nat) + seq![
                dec_digit((m % 10) as int),
            ]));
        }
    }
}

/// Append the printed form of a value to a character sink.
pub fn render_into(v: &Value, out: &mut Vec<char>)
    ensures
        final(out)@ == old(out)@ + render_m(val_view(*v)),
    decreases *v,
{
    match v {
        Value::Nul => {
            out.push('n');
            out.push('u');
            out.push('l');
            proof {
                assert(out@ =~= old(out)@ + seq!['n', 'u', 'l']);
            }
        },
        Value::Str(s) => {
            let ghost base = out@;
            let len = s.as_str().unicode_len();
            for i in 0..len
                invariant
                    len == s@.len(),
                    out@ == base + s@.take(i as int),
            {
                let c = s.as_str().get_char(i);
                out.push(c);
                proof {
                    assert(out@ =~= base + s@.take(i + 1));
                }
            }
            proof {
                assert(s@.take(len as int) =~= s@);
            }
        },
        Value::Int(n) => {
            if *n < 0 {
                out.push('-');
                let m: u32 = (-(*n as i64)) as u32;
                push_dec_u32(m, out);
                proof {
                    assert(out@ =~= old(out)@ + (seq!['-'] + dec_nat(m as nat)));
                }
            } else {
                push_dec_u32(*n as u32, out);
            }
        },
        Value::Bool(b) => {
            if *b {
                out.push('t');
                out.push('r');
                out.push('u');
                out.push('e');
                proof {
                    assert(out@ =~= old(out)@ + seq!['t', 'r', 'u', 'e']);
                }
            } else {
                out.push('f');
                out.push('a');
                out.push('l');
                out.push('s');
                out.push('e');
                proof {
                    assert(out@ =~= old(out)@ + seq!['f', 'a', 'l', 's', 'e']);
                }
            }
        },
        Value::Abool(Abool::Always) => {
            out.push('a');
            out.push('l');
            out.push('w');
            out.push('a');
            out.push('y');
            out.push('s');
            proof {
                assert(out@ =~= old(out)@ + seq!['a', 'l', 'w', 'a', 'y', 's']);
            }
        },
        Value::Abool(Abool::Sometimes) => {
            out.push('s');
            out.push('o');
            out.push('m');
            out.push('e');
            out.push('t');
            out.push('i');
            out.push('m');
            out.push('e');
            out.push('s');
            proof {
                assert(out@ =~= old(out)@ + seq!['s', 'o', 'm', 'e', 't', 'i', 'm', 'e', 's']);
            }
        },
        Value::Abool(Abool::Never) => {
            out.push('n');
            out.push('e');
            out.push('v');
            out.push('e');
            out.push('r');
            proof {
                assert(out@ =~= old(out)@ + seq!['n', 'e', 'v', 'e', 'r']);
            }
        },
        Value::Functio(_) => {
            out.push('f');
            out.push('u');
            out.push('n');
            out.push('c');
            out.push('t');
            out.push('i');
            out.push('o');
            proof {
                assert(out@ =~= old(out)@ + seq!['f', 'u', 'n', 'c', 't', 'i', 'o']);
            }
        },
        Value::Cart(ps) => {
            out.push('[');
            proof {
                assert(ps@.subrange(0, ps@.len() as int) =~= ps@);
                assert(decreases_to!(*v => ps@));
            }
            render_pairs_into(ps, 0, out);
            out.push(']');
            proof {
                val_pairs_view_len(ps@);
                assert(val_pairs_view(ps@).subrange(0, val_pairs_view(ps@).len() as int)
                    =~= val_pairs_view(ps@));
                assert(out@ =~= old(out)@ + (seq!['['] + render_pairs_m(val_pairs_view(ps@))
                    + seq![']']));
            }
        },
    }
}

fn render_pairs_into(ps: &Vec<(Value, Value)>, start: usize, out: &mut Vec<char>)
    requires
        start <= ps@.len(),
    ensures
        final(out)@ == old(out)@ + render_pairs_m(
            val_pairs_view(ps@).subrange(start as int, ps@.len() as int),
        ),
    decreases ps@.subrange(start as int, ps@.len() as int),
{
    proof {
        val_pairs_view_len(ps@);
    }
    let ghost psm = val_pairs_view(ps@);
    let ghost sub = psm.subrange(start as int, ps@.len() as int);
    if start == ps.len() {
        proof {
            assert(out@ =~= old(out)@ + render_pairs_m(sub));
        }
        return ;
    }
    proof {
        val_pairs_view_index(ps@, start as int);
        assert(sub[0] == psm[start as int]);
    }
    let ghost esub = ps@.subrange(start as int, ps@.len() as int);
    proof {
        assert(esub[0] == ps@[start as int]);
        assert(decreases_to!(esub => esub[0]));
    }
    render_into(&ps[start].0, out);
    out.push(':');
    out.push(' ');
    render_into(&ps[start].1, out);
    if start + 1 < ps.len() {
        out.push(',');
        out.push(' ');
        proof {
            assert(esub.subrange(1, esub.len() as int) =~= ps@.subrange(
                start + 1,
                ps@.len() as int,
            ));
            assert(decreases_to!(esub => esub.subrange(1, esub.len() as int)));
        }
        render_pairs_into(ps, start + 1, out);
        proof {
            assert(sub.subrange(1, sub.len() as int) =~= psm.subrange(
                start + 1,
                ps@.len() as int,
            ));
            assert(out@ =~= old(out)@ + render_pairs_m(sub));
        }
    } else {
        proof {
            assert(sub.len() == 1);
            assert(out@ =~= old(out)@ + render_pairs_m(sub));
        }
    }
}

/// The rendered text of a value, as one fresh character vector.
pub fn render(v: &Value) -> (r: Vec<char>)
    ensures
        r@ == render_m(val_view(*v)),
{
    let mut out: Vec<char> = Vec::new();
    render_into(v, &mut out);
    out
}

pub open spec fn is_digit(c: char) -> bool {
    48 <= c as u32 <= 57
}

pub open spec fn all_digits(s: Seq<char>) -> bool {
    forall|i: int| 0 <= i < s.len() ==> is_digit(s[i])
}

/// The value of a digit string, most significant digit first.
pub open spec fn digits_val(s: Seq<char>) -> int
    decreases s.len(),
{
    if s.len() == 0 {
        0
    } else {
        digits_val(s.drop_last()) * 10 + (s.last() as u32 - 48)
    }
}

/// Whether a line is shaped like an integer: an optional sign, then one or
/// more decimal digits.
pub open spec fn int_form(s: Seq<char>) -> bool {
    if s.len() > 0 && (s[0] == '-' || s[0] == '+') {
        s.len() > 1 && all_digits(s.subrange(1, s.len() as int))
    } else {
        s.len() > 0 && all_digits(s)
    }
}

pub open spec fn int_value_of(s: Seq<char>) -> int {
    if s.len() > 0 && s[0] == '-' {
        -digits_val(s.subrange(1, s.len() as int))
    } else if s.len() > 0 && s[0] == '+' {
        digits_val(s.subrange(1, s.len() as int))
    } else {
        digits_val(s)
    }
}

/// How a line read from the input source is classified: the most specific
/// kind that matches, trying boolean, then the three-valued keywords, then a
/// machine-integer numeral, and finally falling back to bare text.
pub open spec fn classify_m(line: Seq<char>) -> ValM {
    if line == seq!['t', 'r', 'u', 'e'] {
        ValM::Bool(true)
    } else if line == seq!['f', 'a', 'l', 's', 'e'] {
        ValM::Bool(false)
    } else if line == seq!['a', 'l', 'w', 'a', 'y', 's'] {
        ValM::Abool(Abool::Always)
    } else if line == seq!['s', 'o', 'm', 'e', 't', 'i', 'm', 'e', 's'] {
        ValM::Abool(Abool::Sometimes)
    } else if line == seq!['n', 'e', 'v', 'e', 'r'] {
        ValM::Abool(Abool::Never)
    } else if int_form(line) && -0x8000_0000 <= int_value_of(line) <= 0x7fff_ffff {
        ValM::Int(int_value_of(line) as i32)
    } else {
        ValM::Str(line)
    }
}

fn str_matches(a: &str, b: &str) -> (r: bool)
    ensures
        r == (a@ == b@),
{
    let la = a.unicode_len();
    let lb = b.unicode_len();
    if la != lb {
        return false;
    }
    for i in 0..la
        invariant
            la == a@.len(),
            la == b@.len(),
            forall|j: int| 0 <= j < i ==> a@[j] == b@[j],
    {
        if a.get_char(i) != b.get_char(i) {
            return false;
        }
    }
    proof {
        assert(a@ =~= b@);
    }
    true
}

/// Classify one input line into the most specific matching value kind.
pub fn classify(line: &String) -> (r: Value)
    ensures
        val_view(r) == classify_m(line@),
{
    proof {
        reveal_strlit("true");
        reveal_strlit("false");
        reveal_strlit("always");
        reveal_strlit("sometimes");
        reveal_strlit("never");
        assert("true"@ =~= seq!['t', 'r', 'u', 'e']);
        assert("false"@ =~= seq!['f', 'a', 'l', 's', 'e']);
        assert("always"@ =~= seq!['a', 'l', 'w', 'a', 'y', 's']);
        assert("sometimes"@ =~= seq!['s', 'o', 'm', 'e', 't', 'i', 'm', 'e', 's']);
        assert("never"@ =~= seq!['n', 'e', 'v', 'e', 'r']);
    }
    if str_matches(line.as_str(), "true") {
        return Value::Bool(true);
    }
    if str_matches(line.as_str(), "false") {
        return Value::Bool(false);
    }
    if str_matches(line.as_str(), "always") {
        return Value::Abool(Abool::Always);
    }
    if str_matches(line.as_str(), "sometimes") {
        return Value::Abool(Abool::Sometimes);
    }
    if str_matches(line.as_str(), "never") {
        return Value::Abool(Abool::Never);
    }
    match parse_int_line(line) {
        Some(n) => Value::Int(n),
        None => Value::Str(line.clone()),
    }
}

/// Parse a line as a machine integer; `None` when the line is not an
/// integer numeral or does not fit.
fn parse_int_line(line: &String) -> (r: Option<i32>)
    ensures
        match r {
            Some(n) => int_form(line@) && -0x8000_0000 <= int_value_of(line@) <= 0x7fff_ffff
                && n as int == int_value_of(line@),
            None => !(int_form(line@) && -0x8000_0000 <= int_value_of(line@) <= 0x7fff_ffff),
        },
{
    let s = line.as_str();
    let len = s.unicode_len();
    if len == 0 {
        return None;
    }
    let first = s.get_char(0);
    let neg = first == '-';
    let signed = first == '-' || first == '+';
    let start: usize = if signed {
        1
    } else {
        0
    };
    if start == len {
        return None;
    }
    let ghost digits = line@.subrange(start as int, len as int);
    let cap: u64 = 0x1_0000_0000;
    let mut acc: u64 = 0;
    for i in start..len
        invariant
            len == line@.len(),
            s@ == line@,
            start <= i <= len,
            start < len,
            signed == (line@[0] == '-' || line@[0] == '+'),
            digits == line@.subrange(start as int, len as int),
            start == if signed { 1int } else { 0int },
            all_digits(line@.subrange(start as int, i as int)),
            acc <= 0x1_0000_0000,
            digits_val(line@.subrange(start as int, i as int)) <= 0x1_0000_0000 ==> acc
                == digits_val(line@.subrange(start as int, i as int)),
            digits_val(line@.subrange(start as int, i as int)) > 0x1_0000_0000 ==> acc
                == 0x1_0000_0000,
            digits_val(line@.subrange(start as int, i as int)) >= 0,
    {
        let c = s.get_char(i);
        if (c as u32) < 48 || (c as u32) > 57 {
            proof {
                assert(digits[i - start] == line@[i as int]);
                assert(!is_digit(digits[i - start]));
                assert(!all_digits(digits));
                if signed {
                    assert(line@.subrange(1, line@.len() as int) =~= digits);
                } else {
                    assert(line@.subrange(0, line@.len() as int) =~= line@);
                    assert(digits =~= line@);
                }
                assert(!int_form(line@));
            }
            return None;
        }
        let d: u64 = ((c as u32) - 48) as u64;
        let next: u64 = if acc < 0x1_0000_0000 {
            acc * 10 + d
        } else {
            0x1_0000_0001
        };
        acc = if next >= 0x1_0000_0000 {
            0x1_0000_0000
        } else {
            next
        };
        proof {
            let pref = line@.subrange(start as int, i as int);
            let pref2 = line@.subrange(start as int, i + 1);
            assert(pref2.drop_last() =~= pref);
            assert(pref2.last() == line@[i as int]);
            assert(digits_val(pref2) == digits_val(pref) * 10 + (line@[i as int] as u32 - 48));
        }
    }
    proof {
        assert(line@.subrange(start as int, len as int) == digits);
        if signed {
            assert(line@.subrange(1, line@.len() as int) =~= digits);
        } else {
            assert(line@.subrange(0, line@.len() as int) =~= line@);
        }
        assert(int_form(line@));
    }
    if neg {
        if acc <= 0x8000_0000 {
            let n: i32 = (-(acc as i64)) as i32;
            return Some(n);
        }
        return None;
    }
    if acc <= 0x7fff_ffff {
        return Some(acc as i32);
    }
    None
}


/// Appending one pair to a cart appends its model to the model.
pub proof fn val_pairs_view_push(before: Seq<(Value, Value)>, after: Seq<(Value, Value)>, km: ValM, vm: ValM)
    requires
        after.len() == before.len() + 1,
        after.subrange(0, before.len() as int) == before,
        val_view(after.last().0) == km,
        val_view(after.last().1) == vm,
    ensures
        val_pairs_view(after) == val_pairs_view(before).push((km, vm)),
    decreases before.len(),
{
    if before.len() == 0 {
        assert(after.subrange(1, after.len() as int).len() == 0);
        assert(after[0] == after.last());
        assert(val_pairs_view(after) == seq![(val_view(after[0].0), val_view(after[0].1))]
            + val_pairs_view(after.subrange(1, after.len() as int)));
        assert(val_pairs_view(after) =~= val_pairs_view(before).push((km, vm)));
    } else {
        assert(after[0] == after.subrange(0, before.len() as int)[0]);
        assert(after[0] == before[0]);
        let before2 = before.subrange(1, before.len() as int);
        let after2 = after.subrange(1, after.len() as int);
        assert(after2.subrange(0, before2.len() as int) =~= before2);
        assert(after2.last() == after.last());
        val_pairs_view_push(before2, after2, km, vm);
        assert(val_pairs_view(after) =~= val_pairs_view(before).push((km, vm)));
    }
}


/// Law: two associative values are equal exactly when their pair
/// sequences are equal, pairwise and in order.
pub proof fn lemma_cart_eq_pairwise(a: Seq<(ValM, ValM)>, b: Seq<(ValM, ValM)>)
    ensures
        (ValM::Cart(a) == ValM::Cart(b)) <==> a == b,
{
}

/// Law: cart equality is order-sensitive: if the pair sequences differ at
/// any position, the carts are unequal, even when they hold the same pairs
/// in another order.
pub proof fn lemma_cart_order_sensitive(a: Seq<(ValM, ValM)>, b: Seq<(ValM, ValM)>, i: int)
    requires
        0 <= i < a.len(),
        i < b.len(),
        a[i] != b[i],
    ensures
        ValM::Cart(a) != ValM::Cart(b),
{
}

} // verus!
