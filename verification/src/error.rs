//! The two failure channels: syntax errors found while parsing, and the
//! fatal run-time errors that stop evaluation at the failing statement.

use vstd::prelude::*;

use crate::tokens::Token;
use crate::Span;

verus! {

#[derive(Debug, Clone, PartialEq)]
pub enum ErrorKind {
    /// The token source ended inside a construct.
    UnexpectedEof,
    /// A token that no rule allows at this point.
    UnexpectedToken(Token),
    /// An operand of a kind an operation does not take.
    TypeError,
    /// An assignment or reference to a name no scope binds.
    UnknownVariable(String),
    /// Any use of a banned name.
    MeloVariable(String),
    /// A call whose argument count differs from the parameter count.
    ArityError,
    /// Division by zero.
    ZeroDivision,
    /// An index whose key no pair of the cart carries.
    KeyNotFound,
    /// A break with no enclosing loop in the current call frame.
    TopLevelBreak,
    /// A restart with no enclosing loop in the current call frame.
    TopLevelHopBack,
    /// The tape pointer moved past either end of the tape.
    BfBounds,
    /// A foreign body whose loop brackets do not pair up.
    MismatchedBracket,
    /// The executor's step budget ran out before the program finished.
    StepLimit,
}

/// An error kind anchored at the source region it arose from.
#[derive(Debug, Clone, PartialEq)]
pub struct Error {
    pub kind: ErrorKind,
    pub span: Span,
}

/// Span-free model of an error kind. Error contracts throughout the crate
/// pin the kind and the whole machine state; which span an error carries,
/// and the token payload of an unexpected token, are diagnostic provenance
/// outside the span-free model, like the spans on syntax nodes.
pub enum ErrM {
    UnexpectedEof,
    UnexpectedToken,
    TypeError,
    UnknownVariable(Seq<char>),
    MeloVariable(Seq<char>),
    ArityError,
    ZeroDivision,
    KeyNotFound,
    TopLevelBreak,
    TopLevelHopBack,
    BfBounds,
    MismatchedBracket,
    StepLimit,
}

pub open spec fn err_view(k: ErrorKind) -> ErrM {
    match k {
        ErrorKind::UnexpectedEof => ErrM::UnexpectedEof,
        ErrorKind::UnexpectedToken(_) => ErrM::UnexpectedToken,
        ErrorKind::TypeError => ErrM::TypeError,
        ErrorKind::UnknownVariable(n) => ErrM::UnknownVariable(n@),
        ErrorKind::MeloVariable(n) => ErrM::MeloVariable(n@),
        ErrorKind::ArityError => ErrM::ArityError,
        ErrorKind::ZeroDivision => ErrM::ZeroDivision,
        ErrorKind::KeyNotFound => ErrM::KeyNotFound,
        ErrorKind::TopLevelBreak => ErrM::TopLevelBreak,
        ErrorKind::TopLevelHopBack => ErrM::TopLevelHopBack,
        ErrorKind::BfBounds => ErrM::BfBounds,
        ErrorKind::MismatchedBracket => ErrM::MismatchedBracket,
        ErrorKind::StepLimit => ErrM::StepLimit,
    }
}

} // verus!
