//! Parser tests: the buffered hand-off protocol, construct flows, error
//! reporting and whole-program parsing.

use jingo_lib::ast::{
    BoolLit, CharLit, Class, Expr, ExprKind, Function, Id, IntLit, Let, LetCall, Not, Op, OpKind,
    Path, StrLit, While,
};
use jingo_lib::lexer::Lexer;
use jingo_lib::parser::{get_body, launch, next, parse_program, ParseStop};

fn path(fields: &[&str], id: &str) -> Path {
    Path {
        fields: fields.iter().map(|f| Id(f.to_string())).collect(),
        id: Id(id.to_string()),
    }
}

fn expr(kind: ExprKind, start: usize) -> Expr {
    Expr { kind, doc: None, start }
}

fn num(value: i64, start: usize) -> Expr {
    expr(ExprKind::IntLit(IntLit(value)), start)
}

/// Shortcut for parsing next.
fn nparse(input: &str) -> Expr {
    next(&mut Lexer::new(input), &mut None, None, true).unwrap()
}

#[test]
fn while_loops() {
    assert_eq!(
        nparse("while true {}"),
        expr(
            ExprKind::While(While {
                condition: Box::new(expr(ExprKind::BoolLit(BoolLit(true)), 6)),
                body: vec![],
            }),
            0
        )
    );
    assert_eq!(
        nparse("while true { none }"),
        expr(
            ExprKind::While(While {
                condition: Box::new(expr(ExprKind::BoolLit(BoolLit(true)), 6)),
                body: vec![expr(ExprKind::NoneLit, 13)],
            }),
            0
        )
    );
    assert_eq!(
        nparse("while 1+2 { none }"),
        expr(
            ExprKind::While(While {
                condition: Box::new(expr(
                    ExprKind::Op(Op {
                        left: Box::new(num(1, 6)),
                        right: Box::new(num(2, 8)),
                        kind: OpKind::Add,
                    }),
                    7
                )),
                body: vec![expr(ExprKind::NoneLit, 12)],
            }),
            0
        )
    );
    assert_eq!(
        nparse("while true { while true { none none } none }"),
        expr(
            ExprKind::While(While {
                condition: Box::new(expr(ExprKind::BoolLit(BoolLit(true)), 6)),
                body: vec![
                    expr(
                        ExprKind::While(While {
                            condition: Box::new(expr(ExprKind::BoolLit(BoolLit(true)), 19)),
                            body: vec![
                                expr(ExprKind::NoneLit, 26),
                                expr(ExprKind::NoneLit, 31),
                            ],
                        }),
                        13
                    ),
                    expr(ExprKind::NoneLit, 38),
                ],
            }),
            0
        )
    );
}

#[test]
fn none() {
    assert_eq!(nparse("none"), expr(ExprKind::NoneLit, 0));
    assert_eq!(
        nparse("let mynone = none"),
        expr(
            ExprKind::Let(Let {
                mutable: false,
                path: path(&[], "mynone"),
                expr: Box::new(expr(ExprKind::NoneLit, 13)),
            }),
            0
        )
    );
}

#[test]
fn lets() {
    assert_eq!(
        nparse("let x = 5"),
        expr(
            ExprKind::Let(Let {
                mutable: false,
                path: path(&[], "x"),
                expr: Box::new(num(5, 8)),
            }),
            0
        )
    );
    assert_eq!(
        nparse("let mut x = 5"),
        expr(
            ExprKind::Let(Let {
                mutable: true,
                path: path(&[], "x"),
                expr: Box::new(num(5, 12)),
            }),
            0
        )
    );
    assert_eq!(
        nparse(r#"let mut blah = "mut""#),
        expr(
            ExprKind::Let(Let {
                mutable: true,
                path: path(&[], "blah"),
                expr: Box::new(expr(ExprKind::StrLit(StrLit("mut".to_string())), 15)),
            }),
            0
        )
    );
}

#[test]
fn basic_errs() {
    assert_eq!(
        next(&mut Lexer::new("let x + 5"), &mut None, None, true),
        Err(ParseStop::UnexpectedToken("+".to_string()))
    );
    assert_eq!(
        next(&mut Lexer::new("#"), &mut None, None, true),
        Err(ParseStop::UnknownToken("#".to_string()))
    );
    assert_eq!(
        next(&mut Lexer::new("let x = -- 5"), &mut None, None, true),
        Err(ParseStop::UnexpectedEof)
    );
}

#[test]
fn parse_launch() {
    assert_eq!(
        launch(&mut Lexer::new("5 + 3")).unwrap(),
        vec![expr(
            ExprKind::Op(Op {
                left: Box::new(num(5, 0)),
                right: Box::new(num(3, 4)),
                kind: OpKind::Add,
            }),
            2
        )]
    );
    assert_eq!(
        launch(&mut Lexer::new("!5")).unwrap(),
        vec![expr(ExprKind::Not(Not(Box::new(num(5, 1)))), 0)]
    );
    assert_eq!(
        launch(&mut Lexer::new("+ 5")),
        Err(ParseStop::NoLeftExpr)
    );
    assert_eq!(
        launch(&mut Lexer::new("5 +")),
        Err(ParseStop::UnexpectedEof)
    );
    assert_eq!(
        launch(&mut Lexer::new("5 + 5 + 5 +")),
        Err(ParseStop::UnexpectedEof)
    );
}

#[test]
fn parser_pathing() {
    assert_eq!(
        launch(&mut Lexer::new("hello_there.five.ten.fifteen")).unwrap(),
        vec![expr(
            ExprKind::LetCall(LetCall(path(&["hello_there", "five", "ten"], "fifteen"))),
            0
        )]
    );
    assert_ne!(
        launch(&mut Lexer::new("hello1_there")).unwrap(),
        vec![expr(ExprKind::LetCall(LetCall(path(&[], "hello1_there"))), 0)]
    );
}

#[test]
fn bodies() {
    assert_eq!(
        get_body(&mut Lexer::new("\"hello\"}")),
        Ok(vec![expr(ExprKind::StrLit(StrLit("hello".to_string())), 0)])
    );
    assert_eq!(
        get_body(&mut Lexer::new("56    + 3298}")),
        Ok(vec![expr(
            ExprKind::Op(Op {
                left: Box::new(num(56, 0)),
                right: Box::new(num(3298, 8)),
                kind: OpKind::Add,
            }),
            6
        )])
    );
}

#[test]
fn function_basics() {
    assert_eq!(
        launch(&mut Lexer::new("fun main() {}")).unwrap(),
        vec![expr(
            ExprKind::Function(Function {
                path: path(&[], "main"),
                args: vec![],
                body: vec![],
            }),
            0
        )]
    );

    assert_eq!(
        launch(&mut Lexer::new("fun main() { 1 'c' }")).unwrap(),
        vec![expr(
            ExprKind::Function(Function {
                path: path(&[], "main"),
                args: vec![],
                body: vec![
                    num(1, 13),
                    expr(ExprKind::CharLit(CharLit('c' as u32)), 15),
                ],
            }),
            0
        )]
    );

    let sixnine_plus_two = expr(
        ExprKind::Op(Op {
            left: Box::new(num(69, 20)),
            right: Box::new(num(2, 25)),
            kind: OpKind::Add,
        }),
        23,
    );

    assert_eq!(
        launch(&mut Lexer::new("fun hello_there() { 69 + 2 }")).unwrap(),
        vec![expr(
            ExprKind::Function(Function {
                path: path(&[], "hello_there"),
                args: vec![],
                body: vec![sixnine_plus_two],
            }),
            0
        )]
    );
}

#[test]
fn classes() {
    let y = expr(
        ExprKind::Let(Let {
            path: path(&[], "y"),
            mutable: true,
            expr: Box::new(num(4, 62)),
        }),
        50,
    );

    let other_thing = expr(
        ExprKind::Function(Function {
            path: path(&[], "other_thing"),
            args: vec![Id("x".to_string())],
            body: vec![y],
        }),
        29,
    );

    let x = expr(
        ExprKind::Let(Let {
            path: path(&[], "x"),
            mutable: false,
            expr: Box::new(num(2, 27)),
        }),
        19,
    );

    let hello_there = expr(
        ExprKind::Class(Class {
            id: Id("HelloThere".to_string()),
            body: vec![x, other_thing],
        }),
        0,
    );

    assert_eq!(
        nparse("class HelloThere { let x = 2 fun other_thing(x) { let mut y = 4 } }"),
        hello_there
    );
}

#[test]
fn comma_separated_params() {
    // parameters are comma-separated; the separator is optional
    assert_eq!(
        launch(&mut Lexer::new("fun f(a, b) {}")).unwrap(),
        vec![expr(
            ExprKind::Function(Function {
                path: path(&[], "f"),
                args: vec![Id("a".to_string()), Id("b".to_string())],
                body: vec![],
            }),
            0
        )]
    );
    assert_eq!(
        launch(&mut Lexer::new("fun f(a b) {}")).unwrap(),
        vec![expr(
            ExprKind::Function(Function {
                path: path(&[], "f"),
                args: vec![Id("a".to_string()), Id("b".to_string())],
                body: vec![],
            }),
            0
        )]
    );
    assert_eq!(
        launch(&mut Lexer::new("fun f(a,) {}")).unwrap(),
        vec![expr(
            ExprKind::Function(Function {
                path: path(&[], "f"),
                args: vec![Id("a".to_string())],
                body: vec![],
            }),
            0
        )]
    );
    // a comma may only follow a parameter identifier
    assert_eq!(
        launch(&mut Lexer::new("fun f(,) {}")),
        Err(ParseStop::UnexpectedToken(",".to_string()))
    );
    assert_eq!(
        launch(&mut Lexer::new("fun f(a,,b) {}")),
        Err(ParseStop::UnexpectedToken(",".to_string()))
    );
}

#[test]
fn empty_program() {
    assert_eq!(parse_program("").unwrap(), vec![]);
    assert_eq!(parse_program("   \n\t ").unwrap(), vec![]);
    assert_eq!(parse_program("-- only a comment").unwrap(), vec![]);
}

#[test]
fn class_name_must_be_bare() {
    assert_eq!(
        parse_program("class a.b { }"),
        Err(ParseStop::ClassNameIsPath)
    );
    let parsed = parse_program("class Foo { let x = 2 }").unwrap();
    assert_eq!(parsed.len(), 1);
    match &parsed[0].kind {
        ExprKind::Class(c) => {
            assert_eq!(c.id, Id("Foo".to_string()));
            assert_eq!(c.body.len(), 1);
            assert!(matches!(c.body[0].kind, ExprKind::Let(_)));
        }
        _ => panic!("expected a class node"),
    }
}

#[test]
fn condition_takes_one_expression() {
    assert_eq!(
        parse_program("while true false { }"),
        Err(ParseStop::MultipleExpressions)
    );
}

#[test]
fn stray_symbol_is_unexpected() {
    assert_eq!(
        parse_program("*"),
        Err(ParseStop::UnexpectedToken("*".to_string()))
    );
}

#[test]
fn docs_attach_to_next_expression() {
    let parsed = parse_program("--- about five\n5").unwrap();
    assert_eq!(
        parsed,
        vec![Expr {
            kind: ExprKind::IntLit(IntLit(5)),
            doc: Some("about five".to_string()),
            start: 15,
        }]
    );
}

#[test]
fn trailing_doc_is_dropped() {
    assert_eq!(
        parse_program("5\n--- trailing words").unwrap(),
        vec![num(5, 0)]
    );
    assert_eq!(parse_program("--- only docs").unwrap(), vec![]);
}
