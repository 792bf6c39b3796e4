//! Whole-library behaviour: single-literal programs, operator chains, the
//! print/parse cycle, the position locator and the command-line decisions.

use jingo_lib::ast::{ExprKind, Id, OpKind};
use jingo_lib::cli::{CliError, Command, Parsed};
use jingo_lib::file_pos::FilePos;
use jingo_lib::parser::{parse_program, ParseStop};
use jingo_lib::printer::{print_program, to_source};

#[test]
fn single_literal_programs() {
    let cases: Vec<&str> = vec!["5", "1.25", "\"hi there\"", "'a'", "true", "false", "none"];
    for src in cases {
        let parsed = parse_program(src).unwrap();
        assert_eq!(parsed.len(), 1);
        assert_eq!(parsed[0].start, 0);
        assert_eq!(parsed[0].doc, None);
    }
    let parsed = parse_program("5").unwrap();
    assert!(matches!(parsed[0].kind, ExprKind::IntLit(ref v) if v.0 == 5));
    let parsed = parse_program("1.25").unwrap();
    assert!(matches!(parsed[0].kind, ExprKind::FloatLit(ref v) if v.0 == "1.25"));
    let parsed = parse_program("1.25").unwrap();
    match &parsed[0].kind {
        ExprKind::FloatLit(v) => assert_eq!(v.0.parse::<f64>().unwrap(), 1.25),
        _ => panic!("expected a float literal"),
    }
    let parsed = parse_program("\"hi there\"").unwrap();
    assert!(matches!(parsed[0].kind, ExprKind::StrLit(ref v) if v.0 == "hi there"));
    let parsed = parse_program("'a'").unwrap();
    assert!(matches!(parsed[0].kind, ExprKind::CharLit(ref v) if v.0 == 'a' as u32));
    let parsed = parse_program("true").unwrap();
    assert!(matches!(parsed[0].kind, ExprKind::BoolLit(ref v) if v.0));
}

#[test]
fn operator_needs_left_expression() {
    assert_eq!(parse_program("+ 5"), Err(ParseStop::NoLeftExpr));
}

#[test]
fn operator_needs_right_expression() {
    assert_eq!(parse_program("5 +"), Err(ParseStop::UnexpectedEof));
    assert_eq!(parse_program("5 + 5 + 5 +"), Err(ParseStop::UnexpectedEof));
}

#[test]
fn addition_claims_buffered_operand() {
    let parsed = parse_program("5 + 3").unwrap();
    assert_eq!(parsed.len(), 1);
    // the node starts at the operator token, not at the left operand
    assert_eq!(parsed[0].start, 2);
    match &parsed[0].kind {
        ExprKind::Op(o) => {
            assert_eq!(o.kind, OpKind::Add);
            assert!(matches!(o.left.kind, ExprKind::IntLit(ref v) if v.0 == 5));
            assert!(matches!(o.right.kind, ExprKind::IntLit(ref v) if v.0 == 3));
        }
        _ => panic!("expected an operation node"),
    }
}

#[test]
fn let_binds_local_name() {
    let parsed = parse_program("let x = 5").unwrap();
    assert_eq!(parsed.len(), 1);
    match &parsed[0].kind {
        ExprKind::Let(l) => {
            assert!(!l.mutable);
            assert!(l.path.fields.is_empty());
            assert_eq!(l.path.id, Id("x".to_string()));
            assert!(matches!(l.expr.kind, ExprKind::IntLit(ref v) if v.0 == 5));
        }
        _ => panic!("expected a let node"),
    }
}

/// The print/parse cycle on canonically spaced sources: printing the parsed
/// tree gives the source back, and re-parsing gives the same tree.
#[test]
fn round_trip_canonical_sources() {
    let cases: Vec<&str> = vec![
        "5 + 3",
        "!true",
        "let x = 5",
        "let mut blah = \"mut\"",
        "class Foo { let x = 2 }",
        "while true { none }",
        "fun main(a, b) { return 5 }",
        "hello.world",
        "bare_name",
        "\"str lit\"",
        "1.25",
        "none",
        "5 3 1",
        "5 / 3 and true",
    ];
    for src in cases {
        let parsed = parse_program(src).unwrap();
        let printed = print_program(&parsed);
        let reparsed = parse_program(&printed).unwrap();
        assert_eq!(printed, src.to_string());
        assert_eq!(reparsed, parsed);
    }
}

/// The print/parse cycle on arbitrarily spaced sources: one cycle reaches the
/// canonical form, which is then a fixed point.
#[test]
fn round_trip_idempotence() {
    let cases: Vec<&str> = vec![
        "  5   +   3 ",
        "while   1+2 { none }",
        "class HelloThere { let x = 2 fun other_thing(x) { let mut y = 4 } }",
        "let mynone=none",
        "'\\xFF' 'a'",
        "fun f() {} fun g() {}",
        "fun g(a b c) {}",
        "fun h(a ,b, c) {}",
    ];
    for src in cases {
        let first = parse_program(src).unwrap();
        let printed = print_program(&first);
        let second = parse_program(&printed).unwrap();
        let reprinted = print_program(&second);
        assert_eq!(printed, reprinted);
        let third = parse_program(&reprinted).unwrap();
        assert_eq!(second, third);
    }
}

#[test]
fn print_single_nodes() {
    let parsed = parse_program("let mut x = 'a'").unwrap();
    assert_eq!(to_source(&parsed[0]), "let mut x = '\\x61'".to_string());
    let parsed = parse_program("a.b.c").unwrap();
    assert_eq!(to_source(&parsed[0]), "a.b.c".to_string());
}

#[test]
fn file_positions() {
    assert_eq!(FilePos::new("ab\ncd", 0), Some(FilePos { line: 1, col: 1 }));
    assert_eq!(FilePos::new("ab\ncd", 1), Some(FilePos { line: 1, col: 2 }));
    assert_eq!(FilePos::new("ab\ncd", 2), Some(FilePos { line: 1, col: 3 }));
    assert_eq!(FilePos::new("ab\ncd", 3), Some(FilePos { line: 2, col: 1 }));
    assert_eq!(FilePos::new("ab\ncd", 4), Some(FilePos { line: 2, col: 2 }));
    assert_eq!(FilePos::new("ab\ncd", 5), None);
    assert_eq!(FilePos::new("", 0), None);
}

#[test]
fn basic_parse() {
    assert_eq!(
        Parsed::custom(vec!["lex".to_string(), "test".to_string()]).unwrap(),
        Parsed {
            command: Command::Lex,
            data: vec!["test".to_string()],
        }
    );
}

#[test]
fn cli_decisions() {
    assert_eq!(
        Parsed::custom(vec!["run".to_string(), "a".to_string(), "b".to_string()]).unwrap(),
        Parsed {
            command: Command::Run,
            data: vec!["a".to_string(), "b".to_string()],
        }
    );
    assert_eq!(
        Parsed::custom(vec!["compile".to_string()]).unwrap(),
        Parsed {
            command: Command::Compile,
            data: vec![],
        }
    );
    assert_eq!(Parsed::custom(vec![]), Err(CliError::NoArguments));
    assert_eq!(
        Parsed::custom(vec!["--help".to_string()]),
        Err(CliError::ShowHelp)
    );
    assert_eq!(
        Parsed::custom(vec!["frobnicate".to_string()]),
        Err(CliError::Unrecognised("frobnicate".to_string()))
    );
}
