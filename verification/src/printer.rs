//! Canonical textual form of the syntax tree: every node the parser can
//! produce prints to a source fragment that the tokenizer and parser read
//! back. The form is stated as a spec function over the tree's model, and the
//! executable printer is proved to produce exactly that text. Nodes outside
//! the parser's reach (conditionals, self references, negative integer
//! literals) have no source form and print as empty text.

use crate::ast::{view_expr, view_exprs, Expr, OpKind, SpecExpr, SpecExprKind, SpecPath};
use crate::lexer::chars_to_string;
use vstd::prelude::*;

verus! {

/// The symbol of a binary operation.
pub open spec fn spec_op_text(k: OpKind) -> Seq<char> {
    match k {
        OpKind::Add => seq!['+'],
        OpKind::Sub => seq!['-'],
        OpKind::Div => seq!['/'],
        OpKind::Greater => seq!['>'],
        OpKind::GreaterEq => seq!['>', '='],
        OpKind::Less => seq!['<'],
        OpKind::LessEq => seq!['<', '='],
        OpKind::EqEq => seq!['=', '='],
        OpKind::NotEq => seq!['!', '='],
        OpKind::And => seq!['a', 'n', 'd'],
        OpKind::Or => seq!['o', 'r'],
    }
}

/// The decimal digits of a non-negative number.
pub open spec fn spec_decimal(n: int) -> Seq<char>
    decreases n,
{
    let d = seq![((n % 10) + ('0' as int)) as char];
    if n < 10 {
        d
    } else {
        spec_decimal(n / 10) + d
    }
}

/// The lowercase hexadecimal digits of a non-negative number.
pub open spec fn spec_hex(n: int) -> Seq<char>
    decreases n,
{
    let v = n % 16;
    let d = seq![
        if v < 10 {
            (v + ('0' as int)) as char
        } else {
            (v - 10 + ('a' as int)) as char
        },
    ];
    if n < 16 {
        d
    } else {
        spec_hex(n / 16) + d
    }
}

/// The dotted text of a path.
pub open spec fn spec_print_path(p: SpecPath) -> Seq<char>
    decreases p.fields.len(),
{
    if p.fields.len() == 0 {
        p.id
    } else {
        p.fields[0] + seq!['.'] + spec_print_path(
            SpecPath { fields: p.fields.drop_first(), id: p.id },
        )
    }
}

/// Identifiers joined by comma separators.
pub open spec fn spec_print_ids(ids: Seq<Seq<char>>) -> Seq<char>
    decreases ids.len(),
{
    if ids.len() == 0 {
        seq![]
    } else if ids.len() == 1 {
        ids[0]
    } else {
        ids[0] + seq![',', ' '] + spec_print_ids(ids.drop_first())
    }
}

/// Canonical text of one expression. Documentation strings are not
/// re-serialized: the cycle is stated modulo documentation formatting; nodes
/// the parser cannot produce print as empty text.
pub open spec fn spec_print_expr(e: SpecExpr) -> Seq<char>
    decreases e,
{
    spec_print_kind(e.kind)
}

/// Canonical text of a sequence of expressions: joined by single spaces.
pub open spec fn spec_print_exprs(v: Seq<SpecExpr>) -> Seq<char>
    decreases v,
{
    if v.len() == 0 {
        seq![]
    } else if v.len() == 1 {
        spec_print_expr(v[0])
    } else {
        spec_print_expr(v[0]) + seq![' '] + spec_print_exprs(v.drop_first())
    }
}

/// Canonical text of an expression kind.
pub open spec fn spec_print_kind(k: SpecExprKind) -> Seq<char>
    decreases k,
{
    match k {
        SpecExprKind::Not(e) => seq!['!'] + spec_print_expr(*e),
        SpecExprKind::Op { left, right, kind } => spec_print_expr(*left) + seq![' ']
            + spec_op_text(kind) + seq![' '] + spec_print_expr(*right),
        SpecExprKind::Path(p) => spec_print_path(p),
        SpecExprKind::Class { id, body } => seq!['c', 'l', 'a', 's', 's', ' '] + id + seq![
            ' ',
            '{',
            ' ',
        ] + spec_print_exprs(body) + seq![' ', '}'],
        SpecExprKind::Function { path, args, body } => seq!['f', 'u', 'n', ' '] + spec_print_path(
            path,
        ) + seq!['('] + spec_print_ids(args) + seq![')', ' ', '{', ' '] + spec_print_exprs(body)
            + seq![' ', '}'],
        SpecExprKind::Method { path, args, body } => seq!['f', 'u', 'n', ' '] + spec_print_path(
            path,
        ) + seq!['('] + spec_print_ids(args) + seq![')', ' ', '{', ' '] + spec_print_exprs(body)
            + seq![' ', '}'],
        SpecExprKind::FunctionCall { path, args } => spec_print_path(path) + seq!['(']
            + spec_print_exprs(args) + seq![')'],
        SpecExprKind::If { segments, default } => seq![],
        SpecExprKind::While { condition, body } => seq!['w', 'h', 'i', 'l', 'e', ' ']
            + spec_print_expr(*condition) + seq![' ', '{', ' '] + spec_print_exprs(body) + seq![
            ' ',
            '}',
        ],
        SpecExprKind::Return(e) => seq!['r', 'e', 't', 'u', 'r', 'n', ' '] + spec_print_expr(*e),
        SpecExprKind::Let { path, mutable, expr } => seq!['l', 'e', 't', ' '] + (if mutable {
            seq!['m', 'u', 't', ' ']
        } else {
            seq![]
        }) + spec_print_path(path) + seq![' ', '=', ' '] + spec_print_expr(*expr),
        SpecExprKind::LetSet { path, expr } => spec_print_path(path) + seq![' ', '=', ' ']
            + spec_print_expr(*expr),
        SpecExprKind::LetCall(p) => spec_print_path(p),
        SpecExprKind::IntLit(n) => if n >= 0 {
            spec_decimal(n as int)
        } else {
            seq![]
        },
        SpecExprKind::FloatLit(d) => d,
        SpecExprKind::StrLit(d) => seq!['"'] + d + seq!['"'],
        SpecExprKind::CharLit(c) => seq!['\'', '\\', 'x'] + spec_hex(c as int) + seq!['\''],
        SpecExprKind::BoolLit(b) => if b {
            seq!['t', 'r', 'u', 'e']
        } else {
            seq!['f', 'a', 'l', 's', 'e']
        },
        SpecExprKind::SelfRef => seq![],
        SpecExprKind::NoneLit => seq!['n', 'o', 'n', 'e'],
    }
}

/// Appends the decimal digits of `n`.
fn push_decimal(n: u64, out: &mut Vec<char>)
    ensures
        final(out)@ == old(out)@ + spec_decimal(n as int),
    decreases n,
{
    if n >= 10 {
        push_decimal(n / 10, out);
    }
    let d = (n % 10) as u32 + 48;
    out.push((d as u8) as char);
    proof {
        assert((d as int) == (n as int) % 10 + ('0' as int));
        assert(d < 128);
        assert(out@ =~= old(out)@ + spec_decimal(n as int));
    }
}

/// Appends the lowercase hexadecimal digits of `n`.
fn push_hex(n: u32, out: &mut Vec<char>)
    ensures
        final(out)@ == old(out)@ + spec_hex(n as int),
    decreases n,
{
    if n >= 16 {
        push_hex(n / 16, out);
    }
    let v = n % 16;
    let d = if v < 10 {
        v + 48
    } else {
        v - 10 + 97
    };
    out.push((d as u8) as char);
    proof {
        assert(d < 128);
        assert(out@ =~= old(out)@ + spec_hex(n as int));
    }
}

/// Appends the characters of a string slice.
fn push_str_chars(s: &str, out: &mut Vec<char>)
    ensures
        final(out)@ == old(out)@ + s@,
{
    let v = crate::lexer::str_to_chars(s);
    let mut k: usize = 0;
    while k < v.len()
        invariant
            k <= v@.len(),
            v@ == s@,
            out@ == old(out)@ + v@.take(k as int),
        decreases v@.len() - k,
    {
        out.push(v[k]);
        k = k + 1;
        proof {
            assert(out@ =~= old(out)@ + v@.take(k as int));
        }
    }
    proof {
        assert(out@ =~= old(out)@ + s@);
    }
}

/// Appends the dotted text of the path's tail starting at field `from`.
fn push_path_from(p: &crate::ast::Path, from: usize, out: &mut Vec<char>)
    requires
        from <= p.fields@.len(),
    ensures
        final(out)@ == old(out)@ + spec_print_path(
            SpecPath { fields: p@.fields.skip(from as int), id: p@.id },
        ),
    decreases p.fields@.len() - from,
{
    if from < p.fields.len() {
        push_str_chars(p.fields[from].0.as_str(), out);
        out.push('.');
        push_path_from(p, from + 1, out);
        proof {
            let tail = SpecPath { fields: p@.fields.skip(from as int), id: p@.id };
            assert(tail.fields[0] == p.fields@[from as int]@);
            assert(tail.fields.drop_first() =~= p@.fields.skip(from as int + 1));
            assert(out@ =~= old(out)@ + spec_print_path(tail));
        }
    } else {
        push_str_chars(p.id.0.as_str(), out);
        proof {
            let tail = SpecPath { fields: p@.fields.skip(from as int), id: p@.id };
            assert(tail.fields.len() == 0);
            assert(out@ =~= old(out)@ + spec_print_path(tail));
        }
    }
}

/// Appends the comma-joined identifiers starting at `from`.
fn push_ids_from(v: &Vec<crate::ast::Id>, from: usize, out: &mut Vec<char>)
    requires
        from <= v@.len(),
    ensures
        final(out)@ == old(out)@ + spec_print_ids(
            crate::ast::view_ids(v@).skip(from as int),
        ),
    decreases v@.len() - from,
{
    let ghost ids = crate::ast::view_ids(v@).skip(from as int);
    if from < v.len() {
        push_str_chars(v[from].0.as_str(), out);
        if from + 1 < v.len() {
            out.push(',');
            out.push(' ');
            push_ids_from(v, from + 1, out);
            proof {
                assert(ids[0] == v@[from as int]@);
                assert(ids.drop_first() =~= crate::ast::view_ids(v@).skip(from as int + 1));
                assert(out@ =~= old(out)@ + spec_print_ids(ids));
            }
        } else {
            proof {
                assert(ids.len() == 1);
                assert(ids[0] == v@[from as int]@);
                assert(out@ =~= old(out)@ + spec_print_ids(ids));
            }
        }
    } else {
        proof {
            assert(ids.len() == 0);
            assert(out@ =~= old(out)@ + spec_print_ids(ids));
        }
    }
}

/// Appends the canonical text of one expression.
#[verifier::rlimit(100)]
fn push_expr(e: &Expr, out: &mut Vec<char>)
    ensures
        final(out)@ == old(out)@ + spec_print_expr(view_expr(*e)),
    decreases *e, 0int,
{
    match &e.kind {
        crate::ast::ExprKind::Not(n) => {
            out.push('!');
            push_expr(&n.0, out);
            proof {
                assert(out@ =~= old(out)@ + spec_print_expr(view_expr(*e)));
            }
        },
        crate::ast::ExprKind::Op(o) => {
            push_expr(&o.left, out);
            out.push(' ');
            let sym: &str = match o.kind {
                OpKind::Add => "+",
                OpKind::Sub => "-",
                OpKind::Div => "/",
                OpKind::Greater => ">",
                OpKind::GreaterEq => ">=",
                OpKind::Less => "<",
                OpKind::LessEq => "<=",
                OpKind::EqEq => "==",
                OpKind::NotEq => "!=",
                OpKind::And => "and",
                OpKind::Or => "or",
            };
            push_str_chars(sym, out);
            out.push(' ');
            push_expr(&o.right, out);
            proof {
                reveal_strlit("+");
                reveal_strlit("-");
                reveal_strlit("/");
                reveal_strlit(">");
                reveal_strlit(">=");
                reveal_strlit("<");
                reveal_strlit("<=");
                reveal_strlit("==");
                reveal_strlit("!=");
                reveal_strlit("and");
                reveal_strlit("or");
                assert(sym@ =~= spec_op_text(o.kind));
                assert(out@ =~= old(out)@ + spec_print_expr(view_expr(*e)));
            }
        },
        crate::ast::ExprKind::Path(p) => {
            push_path_from(p, 0, out);
            proof {
                assert(p@.fields.skip(0) =~= p@.fields);
                assert(out@ =~= old(out)@ + spec_print_expr(view_expr(*e)));
            }
        },
        crate::ast::ExprKind::Class(c) => {
            push_str_chars("class ", out);
            push_str_chars(c.id.0.as_str(), out);
            push_str_chars(" { ", out);
            push_exprs_from(&c.body, 0, out);
            push_str_chars(" }", out);
            proof {
                reveal_strlit("class ");
                reveal_strlit(" { ");
                reveal_strlit(" }");
                assert("class "@ =~= seq!['c', 'l', 'a', 's', 's', ' ']);
                assert(" { "@ =~= seq![' ', '{', ' ']);
                assert(" }"@ =~= seq![' ', '}']);
                assert(view_exprs(c.body@).skip(0) =~= view_exprs(c.body@));
                assert(out@ =~= old(out)@ + spec_print_expr(view_expr(*e)));
            }
        },
        crate::ast::ExprKind::Function(f) => {
            push_str_chars("fun ", out);
            push_path_from(&f.path, 0, out);
            push_str_chars("(", out);
            push_ids_from(&f.args, 0, out);
            push_str_chars(") { ", out);
            push_exprs_from(&f.body, 0, out);
            push_str_chars(" }", out);
            proof {
                reveal_strlit("fun ");
                reveal_strlit("(");
                reveal_strlit(") { ");
                reveal_strlit(" }");
                assert("fun "@ =~= seq!['f', 'u', 'n', ' ']);
                assert("("@ =~= seq!['(']);
                assert(") { "@ =~= seq![')', ' ', '{', ' ']);
                assert(" }"@ =~= seq![' ', '}']);
                assert(f.path@.fields.skip(0) =~= f.path@.fields);
                assert(crate::ast::view_ids(f.args@).skip(0) =~= crate::ast::view_ids(f.args@));
                assert(view_exprs(f.body@).skip(0) =~= view_exprs(f.body@));
                assert(out@ =~= old(out)@ + spec_print_expr(view_expr(*e)));
            }
        },
        crate::ast::ExprKind::Method(f) => {
            push_str_chars("fun ", out);
            push_path_from(&f.path, 0, out);
            push_str_chars("(", out);
            push_ids_from(&f.args, 0, out);
            push_str_chars(") { ", out);
            push_exprs_from(&f.body, 0, out);
            push_str_chars(" }", out);
            proof {
                reveal_strlit("fun ");
                reveal_strlit("(");
                reveal_strlit(") { ");
                reveal_strlit(" }");
                assert("fun "@ =~= seq!['f', 'u', 'n', ' ']);
                assert("("@ =~= seq!['(']);
                assert(") { "@ =~= seq![')', ' ', '{', ' ']);
                assert(" }"@ =~= seq![' ', '}']);
                assert(f.path@.fields.skip(0) =~= f.path@.fields);
                assert(crate::ast::view_ids(f.args@).skip(0) =~= crate::ast::view_ids(f.args@));
                assert(view_exprs(f.body@).skip(0) =~= view_exprs(f.body@));
                assert(out@ =~= old(out)@ + spec_print_expr(view_expr(*e)));
            }
        },
        crate::ast::ExprKind::FunctionCall(f) => {
            push_path_from(&f.path, 0, out);
            push_str_chars("(", out);
            push_exprs_from(&f.args, 0, out);
            push_str_chars(")", out);
            proof {
                reveal_strlit("(");
                reveal_strlit(")");
                assert("("@ =~= seq!['(']);
                assert(")"@ =~= seq![')']);
                assert(f.path@.fields.skip(0) =~= f.path@.fields);
                assert(view_exprs(f.args@).skip(0) =~= view_exprs(f.args@));
                assert(out@ =~= old(out)@ + spec_print_expr(view_expr(*e)));
            }
        },
        crate::ast::ExprKind::If(_) => {
            proof {
                assert(out@ =~= old(out)@ + spec_print_expr(view_expr(*e)));
            }
        },
        crate::ast::ExprKind::While(w) => {
            push_str_chars("while ", out);
            push_expr(&w.condition, out);
            push_str_chars(" { ", out);
            push_exprs_from(&w.body, 0, out);
            push_str_chars(" }", out);
            proof {
                reveal_strlit("while ");
                reveal_strlit(" { ");
                reveal_strlit(" }");
                assert("while "@ =~= seq!['w', 'h', 'i', 'l', 'e', ' ']);
                assert(" { "@ =~= seq![' ', '{', ' ']);
                assert(" }"@ =~= seq![' ', '}']);
                assert(view_exprs(w.body@).skip(0) =~= view_exprs(w.body@));
                assert(out@ =~= old(out)@ + spec_print_expr(view_expr(*e)));
            }
        },
        crate::ast::ExprKind::Return(r) => {
            push_str_chars("return ", out);
            push_expr(&r.0, out);
            proof {
                reveal_strlit("return ");
                assert("return "@ =~= seq!['r', 'e', 't', 'u', 'r', 'n', ' ']);
                assert(out@ =~= old(out)@ + spec_print_expr(view_expr(*e)));
            }
        },
        crate::ast::ExprKind::Let(l) => {
            push_str_chars("let ", out);
            if l.mutable {
                push_str_chars("mut ", out);
            }
            push_path_from(&l.path, 0, out);
            push_str_chars(" = ", out);
            push_expr(&l.expr, out);
            proof {
                reveal_strlit("let ");
                reveal_strlit("mut ");
                reveal_strlit(" = ");
                assert("let "@ =~= seq!['l', 'e', 't', ' ']);
                assert("mut "@ =~= seq!['m', 'u', 't', ' ']);
                assert(" = "@ =~= seq![' ', '=', ' ']);
                assert(l.path@.fields.skip(0) =~= l.path@.fields);
                assert(out@ =~= old(out)@ + spec_print_expr(view_expr(*e)));
            }
        },
        crate::ast::ExprKind::LetSet(l) => {
            push_path_from(&l.path, 0, out);
            push_str_chars(" = ", out);
            push_expr(&l.expr, out);
            proof {
                reveal_strlit(" = ");
                assert(" = "@ =~= seq![' ', '=', ' ']);
                assert(l.path@.fields.skip(0) =~= l.path@.fields);
                assert(out@ =~= old(out)@ + spec_print_expr(view_expr(*e)));
            }
        },
        crate::ast::ExprKind::LetCall(l) => {
            push_path_from(&l.0, 0, out);
            proof {
                assert(l.0@.fields.skip(0) =~= l.0@.fields);
                assert(out@ =~= old(out)@ + spec_print_expr(view_expr(*e)));
            }
        },
        crate::ast::ExprKind::IntLit(n) => {
            if n.0 >= 0 {
                push_decimal(n.0 as u64, out);
            }
            proof {
                assert(out@ =~= old(out)@ + spec_print_expr(view_expr(*e)));
            }
        },
        crate::ast::ExprKind::FloatLit(d) => {
            push_str_chars(d.0.as_str(), out);
            proof {
                assert(out@ =~= old(out)@ + spec_print_expr(view_expr(*e)));
            }
        },
        crate::ast::ExprKind::StrLit(d) => {
            out.push('"');
            push_str_chars(d.0.as_str(), out);
            out.push('"');
            proof {
                assert(out@ =~= old(out)@ + spec_print_expr(view_expr(*e)));
            }
        },
        crate::ast::ExprKind::CharLit(c) => {
            out.push('\'');
            out.push('\\');
            out.push('x');
            push_hex(c.0, out);
            out.push('\'');
            proof {
                assert(out@ =~= old(out)@ + spec_print_expr(view_expr(*e)));
            }
        },
        crate::ast::ExprKind::BoolLit(b) => {
            if b.0 {
                push_str_chars("true", out);
            } else {
                push_str_chars("false", out);
            }
            proof {
                reveal_strlit("true");
                reveal_strlit("false");
                assert("true"@ =~= seq!['t', 'r', 'u', 'e']);
                assert("false"@ =~= seq!['f', 'a', 'l', 's', 'e']);
                assert(out@ =~= old(out)@ + spec_print_expr(view_expr(*e)));
            }
        },
        crate::ast::ExprKind::SelfRef => {
            proof {
                assert(out@ =~= old(out)@ + spec_print_expr(view_expr(*e)));
            }
        },
        crate::ast::ExprKind::NoneLit => {
            push_str_chars("none", out);
            proof {
                reveal_strlit("none");
                assert("none"@ =~= seq!['n', 'o', 'n', 'e']);
                assert(out@ =~= old(out)@ + spec_print_expr(view_expr(*e)));
            }
        },
    }
}

/// Appends the canonical text of the expressions starting at `from`, joined
/// by single spaces.
fn push_exprs_from(v: &Vec<Expr>, from: usize, out: &mut Vec<char>)
    requires
        from <= v@.len(),
    ensures
        final(out)@ == old(out)@ + spec_print_exprs(view_exprs(v@).skip(from as int)),
    decreases v@, v@.len() - from,
{
    let ghost vs = view_exprs(v@).skip(from as int);
    if from < v.len() {
        push_expr(&v[from], out);
        if from + 1 < v.len() {
            out.push(' ');
            push_exprs_from(v, from + 1, out);
            proof {
                assert(vs[0] == view_expr(v@[from as int]));
                assert(vs.drop_first() =~= view_exprs(v@).skip(from as int + 1));
                assert(out@ =~= old(out)@ + spec_print_exprs(vs));
            }
        } else {
            proof {
                assert(vs.len() == 1);
                assert(vs[0] == view_expr(v@[from as int]));
                assert(out@ =~= old(out)@ + spec_print_exprs(vs));
            }
        }
    } else {
        proof {
            assert(vs.len() == 0);
            assert(out@ =~= old(out)@ + spec_print_exprs(vs));
        }
    }
}

/// Printed decimals consist of digits and read back as the printed number.
pub proof fn lemma_decimal_digits(n: int)
    requires
        n >= 0,
    ensures
        spec_decimal(n).len() >= 1,
        forall|k: int| 0 <= k < spec_decimal(n).len() ==> crate::lexer::is_digit(
            #[trigger] spec_decimal(n)[k],
        ),
        crate::lexer::digits_val(spec_decimal(n)) == n,
    decreases n,
{
    let c = (((n % 10) + ('0' as int)) as char);
    assert(0 <= (n % 10) + ('0' as int) < 0xd800);
    assert(c as int == (n % 10) + ('0' as int));
    if n < 10 {
        assert(spec_decimal(n) =~= seq![c]);
        assert(crate::lexer::is_digit(c));
        assert(seq![c].drop_last() =~= Seq::<char>::empty());
        assert(crate::lexer::digits_val(Seq::<char>::empty()) == 0);
        assert(crate::lexer::digits_val(seq![c]) == n);
    } else {
        lemma_decimal_digits(n / 10);
        assert(spec_decimal(n) =~= spec_decimal(n / 10) + seq![c]);
        assert(spec_decimal(n).drop_last() =~= spec_decimal(n / 10));
        assert(crate::lexer::is_digit(c));
    }
}

/// A pure run of digits tokenizes to the single integer token it denotes.
pub proof fn lemma_lexemes_digits(s: Seq<char>)
    requires
        s.len() >= 1,
        forall|k: int| 0 <= k < s.len() ==> crate::lexer::is_digit(#[trigger] s[k]),
        crate::lexer::digits_val(s) <= i64::MAX,
    ensures
        crate::lexer::spec_lexemes(s, 0) =~= seq![
            crate::lexer::SpecLexeme {
                tok: crate::lexer::SpecToken::Int(crate::lexer::digits_val(s) as i64),
                start: 0,
                slice: s,
            },
        ],
{
    assert(crate::lexer::is_digit(s[0]));
    assert(!crate::lexer::is_skip_ws(s[0]));
    assert(s[0] != '-');
    assert(crate::lexer::spec_skip(s, 0) == 0);
    crate::lexer::lemma_seg_end_char(s, 0, s.len() as int, crate::lexer::digit_fn());
    assert(crate::lexer::token_at(s, 0).0 == crate::lexer::SpecToken::Int(
        crate::lexer::digits_val(s.subrange(0, s.len() as int)) as i64,
    )) by {
        assert(s.subrange(0, s.len() as int) =~= s);
    }
    assert(s.subrange(0, s.len() as int) =~= s);
    assert(crate::lexer::token_at(s, 0).1 == s.len());
    assert(crate::lexer::spec_skip(s, s.len() as int) == s.len());
    assert(crate::lexer::spec_lexemes(s, s.len() as int) =~= Seq::empty());
}

/// Law, one proved record of the print/parse cycle: the canonical text of an
/// integer-literal expression parses back to exactly that expression, at
/// offset zero and with no documentation string.
pub proof fn lemma_round_trip_int(n: i64)
    requires
        n >= 0,
    ensures
        crate::parser::spec_parse_program(
            spec_print_expr(
                SpecExpr { kind: SpecExprKind::IntLit(n), doc: None, start: 0 },
            ),
        ) == Result::<Seq<SpecExpr>, crate::parser::SpecParseStop>::Ok(
            seq![SpecExpr { kind: SpecExprKind::IntLit(n), doc: None, start: 0 }],
        ),
{
    let e = SpecExpr { kind: SpecExprKind::IntLit(n), doc: None, start: 0 };
    let s = spec_print_expr(e);
    assert(s == spec_decimal(n as int));
    lemma_decimal_digits(n as int);
    lemma_lexemes_digits(s);
    assert(crate::lexer::digits_val(s) as i64 == n);
    crate::parser::lemma_single_literal(s, SpecExprKind::IntLit(n));
}

/// A word of identifier characters tokenizes to the single token its
/// classification gives.
pub proof fn lemma_lexemes_word(s: Seq<char>)
    requires
        s.len() >= 1,
        crate::lexer::is_ident_start(s[0]),
        forall|k: int| 0 <= k < s.len() ==> crate::lexer::is_ident_char(#[trigger] s[k]),
    ensures
        crate::lexer::spec_lexemes(s, 0) =~= seq![
            crate::lexer::SpecLexeme {
                tok: crate::lexer::classify_word(s),
                start: 0,
                slice: s,
            },
        ],
{
    assert(!crate::lexer::is_skip_ws(s[0]));
    assert(s[0] != '-');
    assert(crate::lexer::spec_skip(s, 0) == 0);
    assert forall|k: int| 0 <= k < s.len() implies crate::lexer::ident_fn()(s[k]) by {}
    crate::lexer::lemma_seg_end_char(s, 0, s.len() as int, crate::lexer::ident_fn());
    assert(crate::lexer::path_end(s, 0) == s.len());
    let text = s.subrange(0, s.len() as int);
    assert(text =~= s);
    crate::lexer::lemma_seg_end_char(text, 0, text.len() as int, crate::lexer::nodot_fn());
    assert(crate::lexer::scan_word(s, 0, false).0 == crate::lexer::classify_word(s));
    assert(crate::lexer::token_at(s, 0).1 == s.len());
    assert(crate::lexer::spec_skip(s, s.len() as int) == s.len());
    assert(crate::lexer::spec_lexemes(s, s.len() as int) =~= Seq::empty());
}

/// Law, further proved records of the print/parse cycle: the canonical text
/// of a bool or none literal parses back to exactly that expression.
pub proof fn lemma_round_trip_keyword(k: SpecExprKind)
    requires
        k == SpecExprKind::BoolLit(true) || k == SpecExprKind::BoolLit(false) || k
            == SpecExprKind::NoneLit,
    ensures
        crate::parser::spec_parse_program(
            spec_print_expr(SpecExpr { kind: k, doc: None, start: 0 }),
        ) == Result::<Seq<SpecExpr>, crate::parser::SpecParseStop>::Ok(
            seq![SpecExpr { kind: k, doc: None, start: 0 }],
        ),
{
    let s = spec_print_expr(SpecExpr { kind: k, doc: None, start: 0 });
    if k == SpecExprKind::BoolLit(true) {
        assert(s =~= seq!['t', 'r', 'u', 'e']);
        assert forall|j: int| 0 <= j < s.len() implies crate::lexer::is_ident_char(
            #[trigger] s[j],
        ) by {
            assert(s[0] == 't' && s[1] == 'r' && s[2] == 'u' && s[3] == 'e');
        }
        lemma_lexemes_word(s);
        assert(crate::lexer::classify_word(s) == crate::lexer::SpecToken::True);
        crate::parser::lemma_single_literal(s, k);
    } else if k == SpecExprKind::BoolLit(false) {
        assert(s =~= seq!['f', 'a', 'l', 's', 'e']);
        assert forall|j: int| 0 <= j < s.len() implies crate::lexer::is_ident_char(
            #[trigger] s[j],
        ) by {
            assert(s[0] == 'f' && s[1] == 'a' && s[2] == 'l' && s[3] == 's' && s[4] == 'e');
        }
        lemma_lexemes_word(s);
        assert(s != seq!['m', 'a', 't', 'c', 'h']) by {
            assert(seq!['m', 'a', 't', 'c', 'h'][0] == 'm');
        }
        assert(crate::lexer::classify_word(s) == crate::lexer::SpecToken::False);
        crate::parser::lemma_single_literal(s, k);
    } else {
        assert(s =~= seq!['n', 'o', 'n', 'e']);
        assert forall|j: int| 0 <= j < s.len() implies crate::lexer::is_ident_char(
            #[trigger] s[j],
        ) by {
            assert(s[0] == 'n' && s[1] == 'o' && s[2] == 'n' && s[3] == 'e');
        }
        lemma_lexemes_word(s);
        assert(s != seq!['t', 'r', 'u', 'e']) by {
            assert(seq!['t', 'r', 'u', 'e'][0] == 't');
        }
        assert(crate::lexer::classify_word(s) == crate::lexer::SpecToken::NoneKw);
        crate::parser::lemma_single_literal(s, k);
    }
}

/// Law, a further proved record of the print/parse cycle: the canonical text
/// of a bare-name path expression parses back to exactly that expression,
/// provided the name is an identifier that classifies as a path (it is no
/// keyword, word operator or wildcard).
pub proof fn lemma_round_trip_name(id: Seq<char>)
    requires
        id.len() >= 1,
        crate::lexer::is_ident_start(id[0]),
        forall|k: int| 0 <= k < id.len() ==> crate::lexer::is_ident_char(#[trigger] id[k]),
        crate::lexer::classify_word(id) == crate::lexer::SpecToken::Path(
            crate::ast::SpecPath { fields: seq![], id },
        ),
    ensures
        crate::parser::spec_parse_program(
            spec_print_expr(
                SpecExpr {
                    kind: SpecExprKind::Path(crate::ast::SpecPath { fields: seq![], id }),
                    doc: None,
                    start: 0,
                },
            ),
        ) == Result::<Seq<SpecExpr>, crate::parser::SpecParseStop>::Ok(
            seq![
                SpecExpr {
                    kind: SpecExprKind::Path(crate::ast::SpecPath { fields: seq![], id }),
                    doc: None,
                    start: 0,
                },
            ],
        ),
{
    let p = crate::ast::SpecPath { fields: seq![], id };
    let e = SpecExpr { kind: SpecExprKind::Path(p), doc: None, start: 0 };
    let s = spec_print_expr(e);
    assert(s == id);
    lemma_lexemes_word(s);
    let toks = crate::lexer::spec_lexemes(s, 0);
    assert(toks[0].tok == crate::lexer::SpecToken::Path(p));
    match crate::parser::spec_next(toks, None, None, true) {
        crate::parser::SpecNext::Good { expr, buf: b2, rest } => {
            assert(expr == e);
            assert(rest =~= toks.drop_first());
            assert(rest.len() == 0);
            assert(crate::parser::clip(rest, toks) == rest);
            assert(crate::parser::spec_program(rest, Some(e)) == Result::<
                Seq<SpecExpr>,
                crate::parser::SpecParseStop,
            >::Ok(seq![e]));
            assert(crate::parser::opt_seq(b2) + seq![e] =~= seq![e]);
        },
        crate::parser::SpecNext::Stop { .. } => {
            assert(false);
        },
    }
}

/// Law, a further proved record of the print/parse cycle: the canonical text
/// of a string literal whose content holds no quote and is not a lone
/// backslash parses back to exactly that expression.
pub proof fn lemma_round_trip_str(d: Seq<char>)
    requires
        forall|k: int| 0 <= k < d.len() ==> (#[trigger] d[k]) != '"',
        d != seq!['\\'],
    ensures
        crate::parser::spec_parse_program(
            spec_print_expr(SpecExpr { kind: SpecExprKind::StrLit(d), doc: None, start: 0 }),
        ) == Result::<Seq<SpecExpr>, crate::parser::SpecParseStop>::Ok(
            seq![SpecExpr { kind: SpecExprKind::StrLit(d), doc: None, start: 0 }],
        ),
{
    let s = spec_print_expr(SpecExpr { kind: SpecExprKind::StrLit(d), doc: None, start: 0 });
    assert(s =~= seq!['"'] + d + seq!['"']);
    let n = s.len() as int;
    assert(n == d.len() + 2);
    assert(s[0] == '"');
    assert(s[n - 1] == '"');
    assert(forall|j: int| 1 <= j < n - 1 ==> s[j] == d[j - 1]);
    assert(!crate::lexer::is_skip_ws(s[0]));
    assert(s[0] != '-');
    assert(crate::lexer::spec_skip(s, 0) == 0);
    if d.len() == 0 || d[d.len() - 1] != '\\' {
        assert(s[n - 1] == '"' && (n - 1 == 0 || s[n - 2] != '\\'));
        assert forall|j: int| 1 <= j < n - 1 implies !((#[trigger] s[j]) == '"' && (j == 0 || s[j
            - 1] != '\\')) by {
            assert(s[j] == d[j - 1]);
        }
        crate::lexer::lemma_fbq_char(s, 1, n - 1);
    } else {
        assert forall|j: int| 1 <= j < n implies !((#[trigger] s[j]) == '"' && (j == 0 || s[j - 1]
            != '\\')) by {
            if j < n - 1 {
                assert(s[j] == d[j - 1]);
            } else {
                assert(s[j - 1] == d[d.len() - 1]);
            }
        }
        crate::lexer::lemma_fbq_none(s, 1);
        assert forall|j: int| n - 1 < j < n implies (#[trigger] s[j]) != '"' by {}
        crate::lexer::lemma_lq_char(s, 1, n - 1);
    }
    assert(s.subrange(1, n - 1) =~= d);
    assert(crate::lexer::scan_string(s, 0) == (crate::lexer::SpecToken::Str(d), n));
    assert(crate::lexer::token_at(s, 0).0 == crate::lexer::SpecToken::Str(d));
    assert(crate::lexer::token_at(s, 0).1 == n);
    assert(crate::lexer::spec_skip(s, n) == n);
    assert(crate::lexer::spec_lexemes(s, n) =~= Seq::empty());
    assert(s.subrange(0, n) =~= s);
    assert(crate::lexer::spec_lexemes(s, 0) =~= seq![
        crate::lexer::SpecLexeme { tok: crate::lexer::SpecToken::Str(d), start: 0, slice: s },
    ]);
    crate::parser::lemma_single_literal(s, SpecExprKind::StrLit(d));
}

/// Law, a further proved record of the print/parse cycle: the canonical text
/// of a float literal (digits, one dot at `dt`, at least one digit after it)
/// parses back to exactly that expression.
pub proof fn lemma_round_trip_float(d: Seq<char>, dt: int)
    requires
        0 <= dt < d.len() - 1,
        d[dt] == '.',
        forall|k: int| 0 <= k < d.len() && k != dt ==> crate::lexer::is_digit(#[trigger] d[k]),
    ensures
        crate::parser::spec_parse_program(
            spec_print_expr(SpecExpr { kind: SpecExprKind::FloatLit(d), doc: None, start: 0 }),
        ) == Result::<Seq<SpecExpr>, crate::parser::SpecParseStop>::Ok(
            seq![SpecExpr { kind: SpecExprKind::FloatLit(d), doc: None, start: 0 }],
        ),
{
    let s = spec_print_expr(SpecExpr { kind: SpecExprKind::FloatLit(d), doc: None, start: 0 });
    assert(s == d);
    let n = s.len() as int;
    assert(!crate::lexer::is_skip_ws(s[0]));
    assert(s[0] != '-');
    assert(crate::lexer::spec_skip(s, 0) == 0);
    if dt == 0 {
        assert(crate::lexer::is_digit(s[1]));
        assert forall|k: int| 1 <= k < n implies crate::lexer::digit_fn()(s[k]) by {}
        crate::lexer::lemma_seg_end_char(s, 1, n, crate::lexer::digit_fn());
        assert(crate::lexer::scan_float_dot(s, 0) == (
            crate::lexer::SpecToken::Float(s.subrange(0, n)),
            n,
        ));
    } else {
        assert(crate::lexer::is_digit(s[0]));
        assert forall|k: int| 0 <= k < dt implies crate::lexer::digit_fn()(s[k]) by {}
        assert(!crate::lexer::digit_fn()(s[dt]));
        crate::lexer::lemma_seg_end_char(s, 0, dt, crate::lexer::digit_fn());
        assert(crate::lexer::is_digit(s[dt + 1]));
        assert forall|k: int| dt + 1 <= k < n implies crate::lexer::digit_fn()(s[k]) by {}
        crate::lexer::lemma_seg_end_char(s, dt + 1, n, crate::lexer::digit_fn());
        assert(crate::lexer::scan_number(s, 0) == (
            crate::lexer::SpecToken::Float(s.subrange(0, n)),
            n,
        ));
    }
    assert(s.subrange(0, n) =~= s);
    assert(crate::lexer::token_at(s, 0).0 == crate::lexer::SpecToken::Float(d));
    assert(crate::lexer::token_at(s, 0).1 == n);
    assert(crate::lexer::spec_skip(s, n) == n);
    assert(crate::lexer::spec_lexemes(s, n) =~= Seq::empty());
    assert(crate::lexer::spec_lexemes(s, 0) =~= seq![
        crate::lexer::SpecLexeme { tok: crate::lexer::SpecToken::Float(d), start: 0, slice: s },
    ]);
    crate::parser::lemma_single_literal(s, SpecExprKind::FloatLit(d));
}

/// Printed hexadecimals consist of hex digits, read back as the printed
/// number, and stay within `k` digits whenever the number is below sixteen to
/// the power `k`.
pub proof fn lemma_hex_digits(n: int, k: nat)
    requires
        0 <= n < crate::lexer::pow16(k),
        k >= 1,
    ensures
        1 <= spec_hex(n).len() <= k,
        forall|j: int| 0 <= j < spec_hex(n).len() ==> crate::lexer::is_hex_digit(
            #[trigger] spec_hex(n)[j],
        ),
        crate::lexer::hex_val(spec_hex(n)) == n,
    decreases n,
{
    let v = n % 16;
    let c = if v < 10 {
        ((v + ('0' as int)) as char)
    } else {
        ((v - 10 + ('a' as int)) as char)
    };
    assert(0 <= v + ('0' as int) < 0xd800);
    assert(0 <= v - 10 + ('a' as int) < 0xd800);
    assert(crate::lexer::is_hex_digit(c));
    assert(crate::lexer::hex_digit_val(c) == v);
    if n < 16 {
        assert(spec_hex(n) =~= seq![c]);
        assert(seq![c].drop_last() =~= Seq::<char>::empty());
        assert(crate::lexer::hex_val(Seq::<char>::empty()) == 0);
        assert(crate::lexer::hex_val(seq![c]) == n);
    } else {
        assert(n / 16 < crate::lexer::pow16((k - 1) as nat));
        lemma_hex_digits(n / 16, (k - 1) as nat);
        assert(spec_hex(n) =~= spec_hex(n / 16) + seq![c]);
        assert(spec_hex(n).drop_last() =~= spec_hex(n / 16));
    }
}

/// Law, a further proved record of the print/parse cycle: the canonical text
/// of a char literal parses back to exactly that expression.
pub proof fn lemma_round_trip_char(c: u32)
    ensures
        crate::parser::spec_parse_program(
            spec_print_expr(SpecExpr { kind: SpecExprKind::CharLit(c), doc: None, start: 0 }),
        ) == Result::<Seq<SpecExpr>, crate::parser::SpecParseStop>::Ok(
            seq![SpecExpr { kind: SpecExprKind::CharLit(c), doc: None, start: 0 }],
        ),
{
    let s = spec_print_expr(SpecExpr { kind: SpecExprKind::CharLit(c), doc: None, start: 0 });
    let h = spec_hex(c as int);
    crate::lexer::lemma_pow16_8();
    lemma_hex_digits(c as int, 8);
    assert(s =~= seq!['\'', '\\', 'x'] + h + seq!['\'']);
    let n = s.len() as int;
    assert(n == h.len() + 4);
    assert(!crate::lexer::is_skip_ws(s[0]));
    assert(s[0] != '-');
    assert(crate::lexer::spec_skip(s, 0) == 0);
    assert(s[1] == '\\');
    assert(s[2] == 'x');
    assert(s[n - 1] == '\'');
    assert forall|k: int| 3 <= k < n - 1 implies crate::lexer::hex_fn()(s[k]) by {
        assert(s[k] == h[k - 3]);
    }
    assert(!crate::lexer::hex_fn()(s[n - 1]));
    crate::lexer::lemma_seg_end_char(s, 3, n - 1, crate::lexer::hex_fn());
    assert(s.subrange(3, n - 1) =~= h);
    assert(crate::lexer::scan_char(s, 0) == (crate::lexer::SpecToken::Char(c), n)) by {
        assert(crate::lexer::hex_val(h) == c as int);
        assert((crate::lexer::hex_val(s.subrange(3, n - 1)) as u32) == c);
    }
    assert(crate::lexer::token_at(s, 0).0 == crate::lexer::SpecToken::Char(c));
    assert(crate::lexer::token_at(s, 0).1 == n);
    assert(crate::lexer::spec_skip(s, n) == n);
    assert(crate::lexer::spec_lexemes(s, n) =~= Seq::empty());
    assert(s.subrange(0, n) =~= s);
    assert(crate::lexer::spec_lexemes(s, 0) =~= seq![
        crate::lexer::SpecLexeme { tok: crate::lexer::SpecToken::Char(c), start: 0, slice: s },
    ]);
    crate::parser::lemma_single_literal(s, SpecExprKind::CharLit(c));
}

/// The canonical source text of one expression.
pub fn to_source(e: &Expr) -> (r: String)
    ensures
        r@ == spec_print_expr(view_expr(*e)),
{
    let mut out: Vec<char> = Vec::new();
    push_expr(e, &mut out);
    chars_to_string(&out)
}

/// The canonical source text of a whole program: its expressions joined by
/// single spaces.
pub fn print_program(v: &Vec<Expr>) -> (r: String)
    ensures
        r@ == spec_print_exprs(view_exprs(v@)),
{
    let mut out: Vec<char> = Vec::new();
    push_exprs_from(v, 0, &mut out);
    proof {
        assert(view_exprs(v@).skip(0) =~= view_exprs(v@));
    }
    chars_to_string(&out)
}

} // verus!
