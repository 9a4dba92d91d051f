//! The classified lexical tokens the parser consumes.
//!
//! Tokenisation itself is an external collaborator: something else turns
//! source text into a sequence of these tokens, each with its source span.
//! Literal-carrying variants hold the decoded payload; `String` holds the
//! raw slice, still wrapped in its quotes, and the parser strips them.

use vstd::prelude::*;

use crate::variables::Abool;

verus! {

#[derive(Debug, Clone, PartialEq)]
pub enum Token {
    /// `true` or `false`
    Boolean(bool),
    /// `always`, `sometimes` or `never`
    Aboolean(Abool),
    /// A quoted string literal, quotes included
    String(String),
    /// A run of decimal digits
    Integer(i32),
    /// A C-style identifier, carrying its name
    Identifier(String),
    LeftParenthesis,
    RightParenthesis,
    LeftBracket,
    RightBracket,
    LeftBrace,
    RightBrace,
    Semicolon,
    FullStop,
    Comma,
    Colon,
    Comment,
    Subtract,
    Addition,
    Multiply,
    Divide,
    Assignment,
    OpLt,
    OpGt,
    OpEq,
    OpNeq,
    And,
    Or,
    Not,
    Char,
    Function,
    BfFunction,
    Variable,
    Print,
    Melo,
    TDark,
    If,
    Else,
    Loop,
    Break,
    HopBack,
    Read,
    Rlyeh,
    Rickroll,
    Error,
}


/// Whether two tokens are the same, payloads compared by content.
pub open spec fn tok_matches(a: Token, b: Token) -> bool {
    match (a, b) {
        (Token::Boolean(x), Token::Boolean(y)) => x == y,
        (Token::Aboolean(x), Token::Aboolean(y)) => x == y,
        (Token::String(x), Token::String(y)) => x@ == y@,
        (Token::Integer(x), Token::Integer(y)) => x == y,
        (Token::Identifier(x), Token::Identifier(y)) => x@ == y@,
        (Token::LeftParenthesis, Token::LeftParenthesis) => true,
        (Token::RightParenthesis, Token::RightParenthesis) => true,
        (Token::LeftBracket, Token::LeftBracket) => true,
        (Token::RightBracket, Token::RightBracket) => true,
        (Token::LeftBrace, Token::LeftBrace) => true,
        (Token::RightBrace, Token::RightBrace) => true,
        (Token::Semicolon, Token::Semicolon) => true,
        (Token::FullStop, Token::FullStop) => true,
        (Token::Comma, Token::Comma) => true,
        (Token::Colon, Token::Colon) => true,
        (Token::Comment, Token::Comment) => true,
        (Token::Subtract, Token::Subtract) => true,
        (Token::Addition, Token::Addition) => true,
        (Token::Multiply, Token::Multiply) => true,
        (Token::Divide, Token::Divide) => true,
        (Token::Assignment, Token::Assignment) => true,
        (Token::OpLt, Token::OpLt) => true,
        (Token::OpGt, Token::OpGt) => true,
        (Token::OpEq, Token::OpEq) => true,
        (Token::OpNeq, Token::OpNeq) => true,
        (Token::And, Token::And) => true,
        (Token::Or, Token::Or) => true,
        (Token::Not, Token::Not) => true,
        (Token::Char, Token::Char) => true,
        (Token::Function, Token::Function) => true,
        (Token::BfFunction, Token::BfFunction) => true,
        (Token::Variable, Token::Variable) => true,
        (Token::Print, Token::Print) => true,
        (Token::Melo, Token::Melo) => true,
        (Token::TDark, Token::TDark) => true,
        (Token::If, Token::If) => true,
        (Token::Else, Token::Else) => true,
        (Token::Loop, Token::Loop) => true,
        (Token::Break, Token::Break) => true,
        (Token::HopBack, Token::HopBack) => true,
        (Token::Read, Token::Read) => true,
        (Token::Rlyeh, Token::Rlyeh) => true,
        (Token::Rickroll, Token::Rickroll) => true,
        (Token::Error, Token::Error) => true,
        _ => false,
    }
}

/// Whether two tokens are the same fieldless punctuation or keyword; any
/// payload-carrying token counts as unequal here.
pub open spec fn same_fieldless(a: Token, b: Token) -> bool {
    match (a, b) {
        (Token::LeftParenthesis, Token::LeftParenthesis) => true,
        (Token::RightParenthesis, Token::RightParenthesis) => true,
        (Token::LeftBracket, Token::LeftBracket) => true,
        (Token::RightBracket, Token::RightBracket) => true,
        (Token::LeftBrace, Token::LeftBrace) => true,
        (Token::RightBrace, Token::RightBrace) => true,
        (Token::Semicolon, Token::Semicolon) => true,
        (Token::FullStop, Token::FullStop) => true,
        (Token::Comma, Token::Comma) => true,
        (Token::Colon, Token::Colon) => true,
        (Token::Subtract, Token::Subtract) => true,
        (Token::Addition, Token::Addition) => true,
        (Token::Multiply, Token::Multiply) => true,
        (Token::Divide, Token::Divide) => true,
        (Token::Assignment, Token::Assignment) => true,
        (Token::OpLt, Token::OpLt) => true,
        (Token::OpGt, Token::OpGt) => true,
        (Token::OpEq, Token::OpEq) => true,
        (Token::OpNeq, Token::OpNeq) => true,
        (Token::And, Token::And) => true,
        (Token::Or, Token::Or) => true,
        (Token::Not, Token::Not) => true,
        _ => false,
    }
}

/// The precedence table, tightest first: multiplicative, additive,
/// ordering, equality, logical and, logical or.
pub open spec fn level_op_m(t: Token, level: u8) -> bool {
    if level == 0 {
        t == Token::Multiply || t == Token::Divide
    } else if level == 1 {
        t == Token::Addition || t == Token::Subtract
    } else if level == 2 {
        t == Token::OpGt || t == Token::OpLt
    } else if level == 3 {
        t == Token::OpEq || t == Token::OpNeq
    } else if level == 4 {
        t == Token::And
    } else {
        t == Token::Or
    }
}

/// The binary operator a token stands for, if any.
pub open spec fn op_of_m(t: Token) -> Option<crate::ast::BinOpKind> {
    match t {
        Token::Addition => Some(crate::ast::BinOpKind::Add),
        Token::Subtract => Some(crate::ast::BinOpKind::Subtract),
        Token::Multiply => Some(crate::ast::BinOpKind::Multiply),
        Token::Divide => Some(crate::ast::BinOpKind::Divide),
        Token::OpGt => Some(crate::ast::BinOpKind::Greater),
        Token::OpLt => Some(crate::ast::BinOpKind::Less),
        Token::OpEq => Some(crate::ast::BinOpKind::Equal),
        Token::OpNeq => Some(crate::ast::BinOpKind::NotEqual),
        Token::And => Some(crate::ast::BinOpKind::And),
        Token::Or => Some(crate::ast::BinOpKind::Or),
        _ => None,
    }
}

/// An owned copy of a token.
pub fn clone_token(t: &Token) -> (r: Token)
    ensures
        tok_matches(*t, r),
{
    match t {
        Token::Boolean(b) => Token::Boolean(*b),
        Token::Aboolean(a) => Token::Aboolean(*a),
        Token::String(s) => Token::String(s.clone()),
        Token::Integer(n) => Token::Integer(*n),
        Token::Identifier(s) => Token::Identifier(s.clone()),
        Token::LeftParenthesis => Token::LeftParenthesis,
        Token::RightParenthesis => Token::RightParenthesis,
        Token::LeftBracket => Token::LeftBracket,
        Token::RightBracket => Token::RightBracket,
        Token::LeftBrace => Token::LeftBrace,
        Token::RightBrace => Token::RightBrace,
        Token::Semicolon => Token::Semicolon,
        Token::FullStop => Token::FullStop,
        Token::Comma => Token::Comma,
        Token::Colon => Token::Colon,
        Token::Comment => Token::Comment,
        Token::Subtract => Token::Subtract,
        Token::Addition => Token::Addition,
        Token::Multiply => Token::Multiply,
        Token::Divide => Token::Divide,
        Token::Assignment => Token::Assignment,
        Token::OpLt => Token::OpLt,
        Token::OpGt => Token::OpGt,
        Token::OpEq => Token::OpEq,
        Token::OpNeq => Token::OpNeq,
        Token::And => Token::And,
        Token::Or => Token::Or,
        Token::Not => Token::Not,
        Token::Char => Token::Char,
        Token::Function => Token::Function,
        Token::BfFunction => Token::BfFunction,
        Token::Variable => Token::Variable,
        Token::Print => Token::Print,
        Token::Melo => Token::Melo,
        Token::TDark => Token::TDark,
        Token::If => Token::If,
        Token::Else => Token::Else,
        Token::Loop => Token::Loop,
        Token::Break => Token::Break,
        Token::HopBack => Token::HopBack,
        Token::Read => Token::Read,
        Token::Rlyeh => Token::Rlyeh,
        Token::Rickroll => Token::Rickroll,
        Token::Error => Token::Error,
    }
}

/// Whether two tokens are the same fieldless punctuation or keyword; any
/// payload-carrying token compares unequal here.
pub fn token_kind_eq(a: &Token, b: &Token) -> (r: bool)
    ensures
        r == same_fieldless(*a, *b),
{
    match (a, b) {
        (Token::LeftParenthesis, Token::LeftParenthesis) => true,
        (Token::RightParenthesis, Token::RightParenthesis) => true,
        (Token::LeftBracket, Token::LeftBracket) => true,
        (Token::RightBracket, Token::RightBracket) => true,
        (Token::LeftBrace, Token::LeftBrace) => true,
        (Token::RightBrace, Token::RightBrace) => true,
        (Token::Semicolon, Token::Semicolon) => true,
        (Token::FullStop, Token::FullStop) => true,
        (Token::Comma, Token::Comma) => true,
        (Token::Colon, Token::Colon) => true,
        (Token::Subtract, Token::Subtract) => true,
        (Token::Addition, Token::Addition) => true,
        (Token::Multiply, Token::Multiply) => true,
        (Token::Divide, Token::Divide) => true,
        (Token::Assignment, Token::Assignment) => true,
        (Token::OpLt, Token::OpLt) => true,
        (Token::OpGt, Token::OpGt) => true,
        (Token::OpEq, Token::OpEq) => true,
        (Token::OpNeq, Token::OpNeq) => true,
        (Token::And, Token::And) => true,
        (Token::Or, Token::Or) => true,
        (Token::Not, Token::Not) => true,
        _ => false,
    }
}

/// Whether a token is a binary operator of the given precedence level,
/// counted from the tightest: multiplicative, additive, ordering,
/// equality, logical and, logical or.
pub fn level_op(t: &Token, level: u8) -> (r: bool)
    ensures
        r == level_op_m(*t, level),
{
    match level {
        0 => match t {
            Token::Multiply => true,
            Token::Divide => true,
            _ => false,
        },
        1 => match t {
            Token::Addition => true,
            Token::Subtract => true,
            _ => false,
        },
        2 => match t {
            Token::OpGt => true,
            Token::OpLt => true,
            _ => false,
        },
        3 => match t {
            Token::OpEq => true,
            Token::OpNeq => true,
            _ => false,
        },
        4 => match t {
            Token::And => true,
            _ => false,
        },
        _ => match t {
            Token::Or => true,
            _ => false,
        },
    }
}

} // verus!
