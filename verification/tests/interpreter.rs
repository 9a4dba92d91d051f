use ablescript::ast::{BinOpKind, Expr, ExprKind, Iden, Stmt, StmtKind};
use ablescript::error::ErrorKind;
use ablescript::interpret::ExecEnv;
use ablescript::parser::Parser;
use ablescript::tokens::Token;
use ablescript::variables::{Abool, Value};
use ablescript::Span;

fn sp() -> Span {
    Span::new(0, 0)
}

fn toks(ts: Vec<Token>) -> Vec<(Token, Span)> {
    ts.into_iter().map(|t| (t, sp())).collect()
}

fn parse(ts: Vec<Token>) -> Vec<Stmt> {
    let mut p = Parser::new(Vec::new(), toks(ts));
    p.init().expect("program should parse")
}

fn out_text(env: &ExecEnv) -> String {
    env.output.iter().collect()
}

fn lookup_global(env: &ExecEnv, name: &str) -> Option<Value> {
    for (n, v) in env.scopes[0].vars.iter().rev() {
        if n == name {
            return Some(ablescript::eq::clone_value(v));
        }
    }
    None
}

fn assert_global(env: &ExecEnv, name: &str, expected: &Value) {
    let got = lookup_global(env, name).expect("name should be bound");
    assert!(ablescript::eq::value_eq(&got, expected), "{name} bound to {got:?}");
}

fn ident(s: &str) -> Token {
    Token::Identifier(s.to_string())
}

#[test]
fn multiplicative_binds_tighter_than_additive() {
    // var x = 1 + 2 * 3;
    let ast = parse(vec![
        Token::Variable,
        ident("x"),
        Token::Assignment,
        Token::Integer(1),
        Token::Addition,
        Token::Integer(2),
        Token::Multiply,
        Token::Integer(3),
        Token::Semicolon,
    ]);
    let mut env = ExecEnv::with_seed(7);
    env.eval_stmts(&ast).expect("runs");
    assert_global(&env, "x", &Value::Int(7));
}

#[test]
fn parenthesised_addition_multiplies_differently() {
    // var x = (1 + 2) * 3;
    let ast = parse(vec![
        Token::Variable,
        ident("x"),
        Token::Assignment,
        Token::LeftParenthesis,
        Token::Integer(1),
        Token::Addition,
        Token::Integer(2),
        Token::RightParenthesis,
        Token::Multiply,
        Token::Integer(3),
        Token::Semicolon,
    ]);
    let mut env = ExecEnv::with_seed(7);
    env.eval_stmts(&ast).expect("runs");
    assert_global(&env, "x", &Value::Int(9));
}

#[test]
fn loop_with_break_runs_once() {
    // loop { print "a"; break; print "b"; }
    let ast = parse(vec![
        Token::Loop,
        Token::LeftBrace,
        Token::Print,
        Token::String("\"a\"".to_string()),
        Token::Semicolon,
        Token::Break,
        Token::Semicolon,
        Token::Print,
        Token::String("\"b\"".to_string()),
        Token::Semicolon,
        Token::RightBrace,
    ]);
    let mut env = ExecEnv::with_seed(7);
    env.eval_stmts(&ast).expect("runs");
    assert_eq!(out_text(&env), "a\n");
}

#[test]
fn hopback_restarts_loop() {
    // var n = 0; loop { n = n + 1; if n < 3 { hopback; } break; } print n;
    let ast = parse(vec![
        Token::Variable,
        ident("n"),
        Token::Assignment,
        Token::Integer(0),
        Token::Semicolon,
        Token::Loop,
        Token::LeftBrace,
        ident("n"),
        Token::Assignment,
        ident("n"),
        Token::Addition,
        Token::Integer(1),
        Token::Semicolon,
        Token::If,
        ident("n"),
        Token::OpLt,
        Token::Integer(3),
        Token::LeftBrace,
        Token::HopBack,
        Token::Semicolon,
        Token::RightBrace,
        Token::Break,
        Token::Semicolon,
        Token::RightBrace,
        Token::Print,
        ident("n"),
        Token::Semicolon,
    ]);
    let mut env = ExecEnv::with_seed(7);
    env.eval_stmts(&ast).expect("runs");
    assert_eq!(out_text(&env), "3\n");
}

#[test]
fn melo_bans_name_for_good() {
    // var x = 1; melo x; then every later use of x fails, even var x.
    let setup = parse(vec![
        Token::Variable,
        ident("x"),
        Token::Assignment,
        Token::Integer(1),
        Token::Semicolon,
        Token::Melo,
        ident("x"),
        Token::Semicolon,
    ]);
    let mut env = ExecEnv::with_seed(7);
    env.eval_stmts(&setup).expect("setup runs");

    let redeclare = parse(vec![
        Token::Variable,
        ident("x"),
        Token::Semicolon,
    ]);
    let e = env.eval_stmts(&redeclare).unwrap_err();
    assert_eq!(e.kind, ErrorKind::MeloVariable("x".to_string()));

    let assign = parse(vec![ident("x"), Token::Assignment, Token::Integer(2), Token::Semicolon]);
    let e = env.eval_stmts(&assign).unwrap_err();
    assert_eq!(e.kind, ErrorKind::MeloVariable("x".to_string()));

    let read = parse(vec![Token::Read, ident("x"), Token::Semicolon]);
    let e = env.eval_stmts(&read).unwrap_err();
    assert_eq!(e.kind, ErrorKind::MeloVariable("x".to_string()));

    let reference = parse(vec![Token::Print, ident("x"), Token::Semicolon]);
    let e = env.eval_stmts(&reference).unwrap_err();
    assert_eq!(e.kind, ErrorKind::MeloVariable("x".to_string()));

    let call = parse(vec![ident("x"), Token::LeftParenthesis, Token::RightParenthesis, Token::Semicolon]);
    let e = env.eval_stmts(&call).unwrap_err();
    assert_eq!(e.kind, ErrorKind::MeloVariable("x".to_string()));
    assert_eq!(out_text(&env), "");
}

#[test]
fn sometimes_varies() {
    // if sometimes { print "t"; } run many times: both outcomes occur.
    let one = parse(vec![
        Token::If,
        Token::Aboolean(Abool::Sometimes),
        Token::LeftBrace,
        Token::Print,
        Token::String("\"t\"".to_string()),
        Token::Semicolon,
        Token::RightBrace,
    ]);
    let mut env = ExecEnv::with_seed(12345);
    for _ in 0..64 {
        env.eval_stmts(&one).expect("runs");
    }
    let hits = out_text(&env).matches("t\n").count();
    assert!(hits > 0, "sometimes never came up true");
    assert!(hits < 64, "sometimes never came up false");
}

#[test]
fn cart_equality_is_order_sensitive() {
    // print [1:2, 3:4] == [3:4, 1:2];  and  print [1:2, 3:4] == [1:2, 3:4];
    let cart = |a: i32, b: i32, c: i32, d: i32| {
        vec![
            Token::LeftBracket,
            Token::Integer(a),
            Token::Colon,
            Token::Integer(b),
            Token::Comma,
            Token::Integer(c),
            Token::Colon,
            Token::Integer(d),
            Token::RightBracket,
        ]
    };
    let mut ts = vec![Token::Print];
    ts.extend(cart(1, 2, 3, 4));
    ts.push(Token::OpEq);
    ts.extend(cart(3, 4, 1, 2));
    ts.push(Token::Semicolon);
    ts.push(Token::Print);
    ts.extend(cart(1, 2, 3, 4));
    ts.push(Token::OpEq);
    ts.extend(cart(1, 2, 3, 4));
    ts.push(Token::Semicolon);
    let ast = parse(ts);
    let mut env = ExecEnv::with_seed(7);
    env.eval_stmts(&ast).expect("runs");
    assert_eq!(out_text(&env), "false\ntrue\n");
}

#[test]
fn division_by_zero_prints_nothing() {
    // print 4/0;
    let ast = parse(vec![
        Token::Print,
        Token::Integer(4),
        Token::Divide,
        Token::Integer(0),
        Token::Semicolon,
    ]);
    let mut env = ExecEnv::with_seed(7);
    let e = env.eval_stmts(&ast).unwrap_err();
    assert_eq!(e.kind, ErrorKind::ZeroDivision);
    assert_eq!(out_text(&env), "");
}

#[test]
fn conditional_prints_big() {
    // var a = 5; if a > 3 { print "big"; }
    let ast = parse(vec![
        Token::Variable,
        ident("a"),
        Token::Assignment,
        Token::Integer(5),
        Token::Semicolon,
        Token::If,
        ident("a"),
        Token::OpGt,
        Token::Integer(3),
        Token::LeftBrace,
        Token::Print,
        Token::String("\"big\"".to_string()),
        Token::Semicolon,
        Token::RightBrace,
    ]);
    let mut env = ExecEnv::with_seed(7);
    env.eval_stmts(&ast).expect("runs");
    assert_eq!(out_text(&env), "big\n");
}

#[test]
fn tape_vm_outputs_character_code_three() {
    // bff f {+++.} f();   on the default tape
    let src: Vec<u8> = b"bff f {+++.}f();".to_vec();
    let tokens = vec![
        (Token::BfFunction, Span::new(0, 3)),
        (Token::Identifier("f".to_string()), Span::new(4, 5)),
        (Token::LeftBrace, Span::new(6, 7)),
        (Token::Addition, Span::new(7, 8)),
        (Token::Addition, Span::new(8, 9)),
        (Token::Addition, Span::new(9, 10)),
        (Token::FullStop, Span::new(10, 11)),
        (Token::RightBrace, Span::new(11, 12)),
        (Token::Identifier("f".to_string()), Span::new(12, 13)),
        (Token::LeftParenthesis, Span::new(13, 14)),
        (Token::RightParenthesis, Span::new(14, 15)),
        (Token::Semicolon, Span::new(15, 16)),
    ];
    let mut p = Parser::new(src, tokens);
    let ast = p.init().expect("parses");
    let mut env = ExecEnv::with_seed(7);
    env.eval_stmts(&ast).expect("runs");
    assert_eq!(env.output, vec!['\u{3}']);
}

#[test]
fn foreign_calls_take_no_arguments() {
    // bff f {+} f(1);  — a foreign callable declares no parameters
    let src: Vec<u8> = b"bff f {+}f(1);".to_vec();
    let tokens = vec![
        (Token::BfFunction, Span::new(0, 3)),
        (Token::Identifier("f".to_string()), Span::new(4, 5)),
        (Token::LeftBrace, Span::new(6, 7)),
        (Token::Addition, Span::new(7, 8)),
        (Token::RightBrace, Span::new(8, 9)),
        (Token::Identifier("f".to_string()), Span::new(9, 10)),
        (Token::LeftParenthesis, Span::new(10, 11)),
        (Token::Integer(1), Span::new(11, 12)),
        (Token::RightParenthesis, Span::new(12, 13)),
        (Token::Semicolon, Span::new(13, 14)),
    ];
    let mut p = Parser::new(src, tokens);
    let ast = p.init().expect("parses");
    let mut env = ExecEnv::with_seed(7);
    let e = env.eval_stmts(&ast).unwrap_err();
    assert_eq!(e.kind, ErrorKind::ArityError);
}

#[test]
fn comments_take_no_part_in_parsing() {
    let mut p = Parser::new(
        Vec::new(),
        toks(vec![Token::Comment, Token::Break, Token::Comment, Token::Semicolon]),
    );
    let ast = p.init().expect("parses");
    assert_eq!(ast.len(), 1);
}

#[test]
fn mismatched_bracket_fails_at_definition() {
    // bff f {[+}  — raised when the definition executes, before any call
    let src: Vec<u8> = b"bff f {[+}".to_vec();
    let tokens = vec![
        (Token::BfFunction, Span::new(0, 3)),
        (Token::Identifier("f".to_string()), Span::new(4, 5)),
        (Token::LeftBrace, Span::new(6, 7)),
        (Token::LeftBracket, Span::new(7, 8)),
        (Token::Addition, Span::new(8, 9)),
        (Token::RightBrace, Span::new(9, 10)),
    ];
    let mut p = Parser::new(src, tokens);
    let ast = p.init().expect("parses");
    let mut env = ExecEnv::with_seed(7);
    let e = env.eval_stmts(&ast).unwrap_err();
    assert_eq!(e.kind, ErrorKind::MismatchedBracket);
}

#[test]
fn tape_bounds_are_fatal() {
    // bff f [1] {>} f();  — one cell, so one step right falls off
    let src: Vec<u8> = b"bff f [1] {>}f();".to_vec();
    let tokens = vec![
        (Token::BfFunction, Span::new(0, 3)),
        (Token::Identifier("f".to_string()), Span::new(4, 5)),
        (Token::LeftBracket, Span::new(6, 7)),
        (Token::Integer(1), Span::new(7, 8)),
        (Token::RightBracket, Span::new(8, 9)),
        (Token::LeftBrace, Span::new(10, 11)),
        (Token::OpGt, Span::new(11, 12)),
        (Token::RightBrace, Span::new(12, 13)),
        (Token::Identifier("f".to_string()), Span::new(13, 14)),
        (Token::LeftParenthesis, Span::new(14, 15)),
        (Token::RightParenthesis, Span::new(15, 16)),
        (Token::Semicolon, Span::new(16, 17)),
    ];
    let mut p = Parser::new(src, tokens);
    let ast = p.init().expect("parses");
    let mut env = ExecEnv::with_seed(7);
    let e = env.eval_stmts(&ast).unwrap_err();
    assert_eq!(e.kind, ErrorKind::BfBounds);
}

#[test]
fn functions_close_over_outer_variables() {
    // var n = 1; functio f() { print n; } n = 2; f();  -> 2
    let ast = parse(vec![
        Token::Variable,
        ident("n"),
        Token::Assignment,
        Token::Integer(1),
        Token::Semicolon,
        Token::Function,
        ident("f"),
        Token::LeftParenthesis,
        Token::RightParenthesis,
        Token::LeftBrace,
        Token::Print,
        ident("n"),
        Token::Semicolon,
        Token::RightBrace,
        ident("n"),
        Token::Assignment,
        Token::Integer(2),
        Token::Semicolon,
        ident("f"),
        Token::LeftParenthesis,
        Token::RightParenthesis,
        Token::Semicolon,
    ]);
    let mut env = ExecEnv::with_seed(7);
    env.eval_stmts(&ast).expect("runs");
    assert_eq!(out_text(&env), "2\n");
}

#[test]
fn argument_count_must_match() {
    // functio f(a) { print a; } f();
    let ast = parse(vec![
        Token::Function,
        ident("f"),
        Token::LeftParenthesis,
        ident("a"),
        Token::RightParenthesis,
        Token::LeftBrace,
        Token::Print,
        ident("a"),
        Token::Semicolon,
        Token::RightBrace,
        ident("f"),
        Token::LeftParenthesis,
        Token::RightParenthesis,
        Token::Semicolon,
    ]);
    let mut env = ExecEnv::with_seed(7);
    let e = env.eval_stmts(&ast).unwrap_err();
    assert_eq!(e.kind, ErrorKind::ArityError);
}

#[test]
fn break_outside_loop_is_an_error() {
    let ast = parse(vec![Token::Break, Token::Semicolon]);
    let mut env = ExecEnv::with_seed(7);
    let e = env.eval_stmts(&ast).unwrap_err();
    assert_eq!(e.kind, ErrorKind::TopLevelBreak);
}

#[test]
fn break_does_not_cross_a_call_boundary() {
    // loop { functio f() { break; } f(); }
    let ast = parse(vec![
        Token::Loop,
        Token::LeftBrace,
        Token::Function,
        ident("f"),
        Token::LeftParenthesis,
        Token::RightParenthesis,
        Token::LeftBrace,
        Token::Break,
        Token::Semicolon,
        Token::RightBrace,
        ident("f"),
        Token::LeftParenthesis,
        Token::RightParenthesis,
        Token::Semicolon,
        Token::RightBrace,
    ]);
    let mut env = ExecEnv::with_seed(7);
    let e = env.eval_stmts(&ast).unwrap_err();
    assert_eq!(e.kind, ErrorKind::TopLevelBreak);
}

#[test]
fn undefined_assignment_is_an_error() {
    let ast = parse(vec![ident("q"), Token::Assignment, Token::Integer(1), Token::Semicolon]);
    let mut env = ExecEnv::with_seed(7);
    let e = env.eval_stmts(&ast).unwrap_err();
    assert_eq!(e.kind, ErrorKind::UnknownVariable("q".to_string()));
}

#[test]
fn missing_key_is_fatal() {
    // print [1:2][3];
    let ast = parse(vec![
        Token::Print,
        Token::LeftBracket,
        Token::Integer(1),
        Token::Colon,
        Token::Integer(2),
        Token::RightBracket,
        Token::LeftBracket,
        Token::Integer(3),
        Token::RightBracket,
        Token::Semicolon,
    ]);
    let mut env = ExecEnv::with_seed(7);
    let e = env.eval_stmts(&ast).unwrap_err();
    assert_eq!(e.kind, ErrorKind::KeyNotFound);
}

#[test]
fn indexing_finds_first_match() {
    // print [1:2, 1:9][1];
    let ast = parse(vec![
        Token::Print,
        Token::LeftBracket,
        Token::Integer(1),
        Token::Colon,
        Token::Integer(2),
        Token::Comma,
        Token::Integer(1),
        Token::Colon,
        Token::Integer(9),
        Token::RightBracket,
        Token::LeftBracket,
        Token::Integer(1),
        Token::RightBracket,
        Token::Semicolon,
    ]);
    let mut env = ExecEnv::with_seed(7);
    env.eval_stmts(&ast).expect("runs");
    assert_eq!(out_text(&env), "2\n");
}

#[test]
fn arithmetic_needs_integers() {
    // print 1 + "a";
    let ast = parse(vec![
        Token::Print,
        Token::Integer(1),
        Token::Addition,
        Token::String("\"a\"".to_string()),
        Token::Semicolon,
    ]);
    let mut env = ExecEnv::with_seed(7);
    let e = env.eval_stmts(&ast).unwrap_err();
    assert_eq!(e.kind, ErrorKind::TypeError);
}

#[test]
fn values_of_different_kinds_are_unequal_not_errors() {
    // print 1 == "a";
    let ast = parse(vec![
        Token::Print,
        Token::Integer(1),
        Token::OpEq,
        Token::String("\"a\"".to_string()),
        Token::Semicolon,
    ]);
    let mut env = ExecEnv::with_seed(7);
    env.eval_stmts(&ast).expect("runs");
    assert_eq!(out_text(&env), "false\n");
}

#[test]
fn read_classifies_most_specific_kind() {
    let ast = parse(vec![
        Token::Read,
        ident("a"),
        Token::Semicolon,
        Token::Read,
        ident("b"),
        Token::Semicolon,
        Token::Read,
        ident("c"),
        Token::Semicolon,
        Token::Read,
        ident("d"),
        Token::Semicolon,
    ]);
    let mut env = ExecEnv::with_seed(7);
    env.feed_line("true".to_string());
    env.feed_line("sometimes".to_string());
    env.feed_line("-42".to_string());
    env.feed_line("1hello".to_string());
    env.eval_stmts(&ast).expect("runs");
    assert_global(&env, "a", &Value::Bool(true));
    assert_global(&env, "b", &Value::Abool(Abool::Sometimes));
    assert_global(&env, "c", &Value::Int(-42));
    assert_global(&env, "d", &Value::Str("1hello".to_string()));
}

#[test]
fn read_on_exhausted_input_yields_absence() {
    let ast = parse(vec![Token::Read, ident("a"), Token::Semicolon]);
    let mut env = ExecEnv::with_seed(7);
    env.eval_stmts(&ast).expect("runs");
    assert_global(&env, "a", &Value::Nul);
}

#[test]
fn negation_swaps_always_and_never() {
    // var a = !always; var b = !never;
    let ast = parse(vec![
        Token::Variable,
        ident("a"),
        Token::Assignment,
        Token::Not,
        Token::Aboolean(Abool::Always),
        Token::Semicolon,
        Token::Variable,
        ident("b"),
        Token::Assignment,
        Token::Not,
        Token::Aboolean(Abool::Never),
        Token::Semicolon,
    ]);
    let mut env = ExecEnv::with_seed(7);
    env.eval_stmts(&ast).expect("runs");
    assert_global(&env, "a", &Value::Abool(Abool::Never));
    assert_global(&env, "b", &Value::Abool(Abool::Always));
}

#[test]
fn wrapping_arithmetic() {
    // var x = 2147483647 + 1;
    let ast = parse(vec![
        Token::Variable,
        ident("x"),
        Token::Assignment,
        Token::Integer(i32::MAX),
        Token::Addition,
        Token::Integer(1),
        Token::Semicolon,
    ]);
    let mut env = ExecEnv::with_seed(7);
    env.eval_stmts(&ast).expect("runs");
    assert_global(&env, "x", &Value::Int(i32::MIN));
}

#[test]
fn marker_statements_are_observable_no_ops() {
    let ast = parse(vec![
        Token::Rlyeh,
        Token::Semicolon,
        Token::Rickroll,
        Token::Semicolon,
    ]);
    let mut env = ExecEnv::with_seed(7);
    env.eval_stmts(&ast).expect("runs");
    assert_eq!(out_text(&env), "");
    assert!(env.scopes[0].vars.is_empty());
}

#[test]
fn iden_equality_ignores_spans() {
    let a = Iden::new("x".to_string(), Span::new(0, 1));
    let b = Iden::new("x".to_string(), Span::new(7, 8));
    let c = Iden::new("y".to_string(), Span::new(0, 1));
    assert!(a == b);
    assert!(a != c);
}

#[test]
fn stmt_equality_ignores_spans() {
    let mk = |at: usize| {
        Stmt::new(
            StmtKind::Print(Expr::new(
                ExprKind::Literal(Value::Int(1)),
                Span::new(at, at + 1),
            )),
            Span::new(at, at + 2),
        )
    };
    assert!(mk(0) == mk(9));
    let other = Stmt::new(
        StmtKind::Print(Expr::new(ExprKind::Literal(Value::Int(2)), Span::new(0, 1))),
        Span::new(0, 2),
    );
    assert!(mk(0) != other);
}

#[test]
fn binop_from_token() {
    assert_eq!(BinOpKind::from_token(Token::Addition), Ok(BinOpKind::Add));
    assert_eq!(BinOpKind::from_token(Token::Divide), Ok(BinOpKind::Divide));
    assert_eq!(BinOpKind::from_token(Token::OpEq), Ok(BinOpKind::Equal));
    assert!(BinOpKind::from_token(Token::Semicolon).is_err());
}

#[test]
fn parse_error_on_else() {
    let mut p = Parser::new(Vec::new(), toks(vec![Token::Else]));
    assert!(p.init().is_err());
}

#[test]
fn parse_error_on_unterminated_block() {
    let mut p = Parser::new(
        Vec::new(),
        toks(vec![Token::Loop, Token::LeftBrace, Token::Break, Token::Semicolon]),
    );
    let e = p.init().unwrap_err();
    assert_eq!(e.kind, ErrorKind::UnexpectedEof);
}
