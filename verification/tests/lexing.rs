//! Tokenizer tests: token recognition, literals, documentation blocks,
//! paths, and the hex helper.

use jingo_lib::ast::{Id, OpKind, Path};
use jingo_lib::lexer::{hex_to_u32, Lexer, Token};

fn path(fields: &[&str], id: &str) -> Path {
    Path {
        fields: fields.iter().map(|f| Id(f.to_string())).collect(),
        id: Id(id.to_string()),
    }
}

#[test]
fn chars() {
    let mut lex = Lexer::new("'a' 'b' '\\n'");

    assert_eq!(lex.next_token().unwrap(), Token::Char('a' as u32));
    assert_eq!(lex.next_token().unwrap(), Token::Char('b' as u32));
    assert_eq!(lex.next_token().unwrap(), Token::Char('\n' as u32));
}

#[test]
fn basic() {
    let mut lex = Lexer::new(
        "match true { false 0 1 0.01 }\nmy_id.one.five2 -- comment!\n--- docstring\ntrue",
    );

    assert_eq!(lex.next_token().unwrap(), Token::Match);
    assert_eq!(lex.next_token().unwrap(), Token::True);
    assert_eq!(lex.next_token().unwrap(), Token::BraceLeft);
    assert_eq!(lex.next_token().unwrap(), Token::False);
    assert_eq!(lex.next_token().unwrap(), Token::Int(0));
    assert_eq!(lex.next_token().unwrap(), Token::Int(1));
    let float = lex.next_token().unwrap();
    assert_eq!(float, Token::Float("0.01".to_string()));
    match float {
        Token::Float(text) => assert_eq!(text.parse::<f64>().unwrap(), 0.01),
        _ => unreachable!(),
    }
    assert_eq!(lex.next_token().unwrap(), Token::BraceRight);
    assert_eq!(
        lex.next_token().unwrap(),
        Token::Path(path(&["my_id", "one"], "five2"))
    );
    assert_eq!(lex.next_token().unwrap(), Token::Doc("docstring".to_string()));
    assert_eq!(lex.next_token().unwrap(), Token::True);
    assert_eq!(lex.next_token(), None);
}

#[test]
fn check_get_doc() {
    let mut lex = Lexer::new("--- hello\n---there\n---\n---  woo \n--- singleliner ---\n");

    assert_eq!(
        lex.next_token().unwrap(),
        Token::Doc("hello\nthere\n\nwoo\nsingleliner ---".to_string())
    );
}

#[test]
fn docs() {
    assert_eq!(
        Lexer::new("---hi there").next_token().unwrap(),
        Token::Doc("hi there".to_string())
    );
    assert_eq!(
        Lexer::new("---     hi there     ").next_token().unwrap(),
        Token::Doc("hi there".to_string())
    );
    assert_eq!(
        Lexer::new("---    hi there ---\n---   pretty cool eh?\n")
            .next_token()
            .unwrap(),
        Token::Doc("hi there ---\npretty cool eh?".to_string())
    );
}

#[test]
fn lexer_strings() {
    assert_eq!(
        Lexer::new("\"hello there\"").next_token().unwrap(),
        Token::Str("hello there".to_string())
    );
    assert_eq!(Lexer::new("\"\\\"").next_token().unwrap(), Token::Error);
}

#[test]
fn char_hex() {
    assert_eq!(hex_to_u32("F", 1).unwrap(), 15);
    assert_eq!(hex_to_u32("A", 1).unwrap(), 10);
    assert_eq!(hex_to_u32("0", 1).unwrap(), 0);
    assert_eq!(hex_to_u32("FF", 8).unwrap(), 255);
    assert_eq!(hex_to_u32("A039FBCF", 8).unwrap(), 2688154575);
    assert_eq!(hex_to_u32("fe10ebca", 8).unwrap(), 4262521802);
    assert_eq!(hex_to_u32("FFF", 3), Some(4095));
    assert_eq!(hex_to_u32("FFFF", 3), None);
    assert_eq!(hex_to_u32("0000", 3), None);
    assert_eq!(hex_to_u32("FFFFF", 3), None);
    assert_eq!(hex_to_u32("00000", 3), None);
    assert_eq!(hex_to_u32("000000001", 9), Some(1));

    let mut lex = Lexer::new(r#"'\xF' '\xA' '\0' '\xFF' '\xA0CF' '\xfe10'"#);

    assert_eq!(lex.next_token().unwrap(), Token::Char(15));
    assert_eq!(lex.next_token().unwrap(), Token::Char(10));
    assert_eq!(lex.next_token().unwrap(), Token::Char(0));
    assert_eq!(lex.next_token().unwrap(), Token::Char(255));
    assert_eq!(lex.next_token().unwrap(), Token::Char(41167));
    assert_eq!(lex.next_token().unwrap(), Token::Char(65040));
}

#[test]
fn lexer_pathing() {
    // eq
    assert_eq!(
        Lexer::new("hello_world").next_token().unwrap(),
        Token::Path(path(&[], "hello_world"))
    );
    assert_eq!(
        Lexer::new("c.c").next_token().unwrap(),
        Token::Path(path(&["c"], "c"))
    );
    assert_eq!(
        Lexer::new("c").next_token().unwrap(),
        Token::Path(path(&[], "c"))
    );
    assert_eq!(
        Lexer::new("a.b.c").next_token().unwrap(),
        Token::Path(path(&["a", "b"], "c"))
    );
    assert_eq!(
        Lexer::new(".a.b.c").next_token().unwrap(),
        Token::Path(path(&["a", "b"], "c"))
    );

    // ne
    assert_ne!(
        Lexer::new("c..c").next_token().unwrap(),
        Token::Path(path(&["c"], "c"))
    );
    assert_ne!(
        Lexer::new("..c.c").next_token().unwrap(),
        Token::Path(path(&["c"], "c"))
    );
    assert_ne!(
        Lexer::new("..c..c").next_token().unwrap(),
        Token::Path(path(&["c"], "c"))
    );
}

#[test]
fn operators_and_symbols() {
    let mut lex = Lexer::new("+ / == != < <= > >= and or = => ! * - _ ( ) { } ,");

    assert_eq!(lex.next_token().unwrap(), Token::Op(OpKind::Add));
    assert_eq!(lex.next_token().unwrap(), Token::Op(OpKind::Div));
    assert_eq!(lex.next_token().unwrap(), Token::Op(OpKind::EqEq));
    assert_eq!(lex.next_token().unwrap(), Token::Op(OpKind::NotEq));
    assert_eq!(lex.next_token().unwrap(), Token::Op(OpKind::Less));
    assert_eq!(lex.next_token().unwrap(), Token::Op(OpKind::LessEq));
    assert_eq!(lex.next_token().unwrap(), Token::Op(OpKind::Greater));
    assert_eq!(lex.next_token().unwrap(), Token::Op(OpKind::GreaterEq));
    assert_eq!(lex.next_token().unwrap(), Token::Op(OpKind::And));
    assert_eq!(lex.next_token().unwrap(), Token::Op(OpKind::Or));
    assert_eq!(lex.next_token().unwrap(), Token::Equals);
    assert_eq!(lex.next_token().unwrap(), Token::FatArrow);
    assert_eq!(lex.next_token().unwrap(), Token::Exclaim);
    assert_eq!(lex.next_token().unwrap(), Token::Star);
    assert_eq!(lex.next_token().unwrap(), Token::Minus);
    assert_eq!(lex.next_token().unwrap(), Token::Interpret);
    assert_eq!(lex.next_token().unwrap(), Token::ParenLeft);
    assert_eq!(lex.next_token().unwrap(), Token::ParenRight);
    assert_eq!(lex.next_token().unwrap(), Token::BraceLeft);
    assert_eq!(lex.next_token().unwrap(), Token::BraceRight);
    assert_eq!(lex.next_token().unwrap(), Token::Comma);
    assert_eq!(lex.next_token(), None);
}

#[test]
fn keywords() {
    let mut lex = Lexer::new("match true false none class while return break let mut fun");

    assert_eq!(lex.next_token().unwrap(), Token::Match);
    assert_eq!(lex.next_token().unwrap(), Token::True);
    assert_eq!(lex.next_token().unwrap(), Token::False);
    assert_eq!(lex.next_token().unwrap(), Token::NoneKw);
    assert_eq!(lex.next_token().unwrap(), Token::Class);
    assert_eq!(lex.next_token().unwrap(), Token::While);
    assert_eq!(lex.next_token().unwrap(), Token::Return);
    assert_eq!(lex.next_token().unwrap(), Token::Break);
    assert_eq!(lex.next_token().unwrap(), Token::Let);
    assert_eq!(lex.next_token().unwrap(), Token::Mut);
    assert_eq!(lex.next_token().unwrap(), Token::Fun);
    assert_eq!(lex.next_token(), None);
}

#[test]
fn int_overflow_is_error() {
    // an integer beyond the machine range is a lexical error, not a value
    let mut lex = Lexer::new("99999999999999999999");
    assert_eq!(lex.next_token().unwrap(), Token::Error);
    assert_eq!(lex.slice(), "99999999999999999999".to_string());

    let mut ok = Lexer::new("9223372036854775807 9223372036854775808");
    assert_eq!(ok.next_token().unwrap(), Token::Int(i64::MAX));
    assert_eq!(ok.next_token().unwrap(), Token::Error);
}

#[test]
fn numbers_and_dots() {
    let mut lex = Lexer::new("45. .5 1.2.3");
    assert_eq!(lex.next_token().unwrap(), Token::Int(45));
    assert_eq!(lex.next_token().unwrap(), Token::Error);
    assert_eq!(lex.slice(), ".".to_string());
    assert_eq!(lex.next_token().unwrap(), Token::Float(".5".to_string()));
    assert_eq!(lex.next_token().unwrap(), Token::Float("1.2".to_string()));
    assert_eq!(lex.next_token().unwrap(), Token::Float(".3".to_string()));
    assert_eq!(lex.next_token(), None);
}

#[test]
fn comments_are_skipped() {
    let mut lex = Lexer::new("-- a comment\n5 -- another\n-6");
    assert_eq!(lex.next_token().unwrap(), Token::Int(5));
    assert_eq!(lex.next_token().unwrap(), Token::Minus);
    assert_eq!(lex.next_token().unwrap(), Token::Int(6));
    assert_eq!(lex.next_token(), None);
}

#[test]
fn spans_and_slices() {
    let mut lex = Lexer::new("  let  foo");
    assert_eq!(lex.next_token().unwrap(), Token::Let);
    assert_eq!(lex.span_start(), 2);
    assert_eq!(lex.slice(), "let".to_string());
    assert_eq!(lex.next_token().unwrap(), Token::Path(path(&[], "foo")));
    assert_eq!(lex.span_start(), 7);
    assert_eq!(lex.slice(), "foo".to_string());
}

#[test]
fn char_escapes() {
    let mut lex = Lexer::new(r"'\n' '\r' '\t' '\b' '\f' '\0'");
    assert_eq!(lex.next_token().unwrap(), Token::Char(10));
    assert_eq!(lex.next_token().unwrap(), Token::Char(13));
    assert_eq!(lex.next_token().unwrap(), Token::Char(9));
    assert_eq!(lex.next_token().unwrap(), Token::Char(127));
    assert_eq!(lex.next_token().unwrap(), Token::Char(12));
    assert_eq!(lex.next_token().unwrap(), Token::Char(0));

    // a literal must hold exactly one logical character
    assert_eq!(Lexer::new("''").next_token().unwrap(), Token::Error);
    assert_eq!(Lexer::new("'ab'").next_token().unwrap(), Token::Error);
    // hex escapes are bounded to eight digits
    assert_eq!(
        Lexer::new("'\\x123456789'").next_token().unwrap(),
        Token::Error
    );
}
