//! Parser stage: drives the tokenizer on demand and assembles an ordered
//! sequence of expressions. It owns a one-slot lookahead buffer that lets a
//! binary-operator token retroactively claim the most recently parsed
//! expression as its left operand; no operator precedence is applied, a run
//! of operators combines left-to-right from whatever is buffered.
//!
//! The grammar is stated as mutually recursive spec functions over the token
//! stream, and each executable routine is proved to return exactly what its
//! spec function says.

use crate::ast::{
    view_expr, view_expr_kind, view_exprs, view_ids, view_opt_str, Class, Expr, ExprKind, Function,
    Id, Let, LetCall, Op, OpKind, Path, Return, SpecExpr, SpecExprKind, While,
};
use crate::ast::Not;
use crate::lexer::{view_token, Lexer, SpecLexeme, SpecToken, Token};
use vstd::prelude::*;

verus! {

/// Parsing-specific error/stop enumeration, encompassing the possible errors
/// or stops in parsing flow.
#[derive(Debug, PartialEq)]
pub enum ParseStop {
    /// A token was read that no active routine can consume at that position.
    UnexpectedToken(String),
    /// The tokenizer could not classify the current input; carries the slice.
    UnknownToken(String),
    /// An operator was found with no lefthand expression buffered.
    NoLeftExpr,
    /// Input ended while a construct expected more tokens.
    UnexpectedEof,
    /// Multiple expressions were given where a single one should stand.
    MultipleExpressions,
    /// A class name resolved to a scoped path, not a single identifier.
    ClassNameIsPath,
    /// Not a failure: the input ended where a program may end.
    FileEnded,
}

/// Model of a [`ParseStop`].
pub enum SpecParseStop {
    UnexpectedToken(Seq<char>),
    UnknownToken(Seq<char>),
    NoLeftExpr,
    UnexpectedEof,
    MultipleExpressions,
    ClassNameIsPath,
    FileEnded,
}

/// Model of a [`ParseStop`].
pub open spec fn view_stop(p: ParseStop) -> SpecParseStop {
    match p {
        ParseStop::UnexpectedToken(s) => SpecParseStop::UnexpectedToken(s@),
        ParseStop::UnknownToken(s) => SpecParseStop::UnknownToken(s@),
        ParseStop::NoLeftExpr => SpecParseStop::NoLeftExpr,
        ParseStop::UnexpectedEof => SpecParseStop::UnexpectedEof,
        ParseStop::MultipleExpressions => SpecParseStop::MultipleExpressions,
        ParseStop::ClassNameIsPath => SpecParseStop::ClassNameIsPath,
        ParseStop::FileEnded => SpecParseStop::FileEnded,
    }
}

/// Model of the lookahead buffer.
pub open spec fn view_opt_expr(b: Option<Expr>) -> Option<SpecExpr> {
    match b {
        Some(e) => Some(view_expr(e)),
        None => None,
    }
}

/// The buffer contents as the sequence they contribute to the output.
pub open spec fn opt_seq(b: Option<SpecExpr>) -> Seq<SpecExpr> {
    match b {
        Some(e) => seq![e],
        None => seq![],
    }
}

/// Outcome of one request for the next full expression: either a new
/// expression together with the buffer and token stream it leaves behind, or
/// a stop.
pub enum SpecNext {
    Good { expr: SpecExpr, buf: Option<SpecExpr>, rest: Seq<SpecLexeme> },
    Stop { stop: SpecParseStop, buf: Option<SpecExpr>, rest: Seq<SpecLexeme> },
}

/// Outcome of a construct-specific routine: its value, or a stop, either way
/// with the token stream it leaves behind.
pub enum SpecFlow<T> {
    Done { val: T, rest: Seq<SpecLexeme> },
    Stopped { stop: SpecParseStop, rest: Seq<SpecLexeme> },
}

/// Bounds a recursive step of the looping routines so that each visibly
/// consumes tokens; the consumption lemmas below show the bound never bites.
pub open spec fn clip(rest: Seq<SpecLexeme>, toks: Seq<SpecLexeme>) -> Seq<SpecLexeme> {
    if rest.len() < toks.len() {
        rest
    } else {
        Seq::empty()
    }
}

/// Wraps a routine's outcome into an expression carrying the documentation
/// string and start offset of the keyword that selected the routine.
pub open spec fn flow_to_next(
    f: SpecFlow<SpecExprKind>,
    doc: Option<Seq<char>>,
    start: int,
    buf: Option<SpecExpr>,
) -> SpecNext {
    match f {
        SpecFlow::Done { val, rest } => SpecNext::Good {
            expr: SpecExpr { kind: val, doc, start },
            buf,
            rest,
        },
        SpecFlow::Stopped { stop, rest } => SpecNext::Stop { stop, buf, rest },
    }
}

/// Requires the next token to equal `t`.
pub open spec fn spec_ensure(toks: Seq<SpecLexeme>, t: SpecToken) -> SpecFlow<()> {
    if toks.len() == 0 {
        SpecFlow::Stopped { stop: SpecParseStop::UnexpectedEof, rest: toks }
    } else if toks[0].tok == t {
        SpecFlow::Done { val: (), rest: toks.drop_first() }
    } else {
        SpecFlow::Stopped {
            stop: SpecParseStop::UnexpectedToken(toks[0].slice),
            rest: toks.drop_first(),
        }
    }
}

/// The next full expression, starting from the given token stream, lookahead
/// buffer and pending documentation string. A documentation token recurses
/// with its text captured; a binary operator claims the buffer as its left
/// operand; at the top level running out of tokens is the expected end.
pub open spec fn spec_next(
    toks: Seq<SpecLexeme>,
    buf: Option<SpecExpr>,
    doc: Option<Seq<char>>,
    is_topmost: bool,
) -> SpecNext
    decreases toks.len(), 1int,
{
    if toks.len() == 0 {
        SpecNext::Stop {
            stop: if is_topmost {
                SpecParseStop::FileEnded
            } else {
                SpecParseStop::UnexpectedEof
            },
            buf,
            rest: toks,
        }
    } else {
        let lx = toks[0];
        let start = lx.start;
        let rest1 = toks.drop_first();
        match lx.tok {
            SpecToken::Op(kind) => flow_to_next(spec_op_flow(rest1, buf, kind), doc, start, None),
            SpecToken::Exclaim => match spec_next(rest1, None, None, false) {
                SpecNext::Good { expr, buf: _, rest } => SpecNext::Good {
                    expr: SpecExpr {
                        kind: SpecExprKind::Not(Box::new(expr)),
                        doc,
                        start,
                    },
                    buf,
                    rest,
                },
                SpecNext::Stop { stop, buf: _, rest } => SpecNext::Stop { stop, buf, rest },
            },
            SpecToken::True => SpecNext::Good {
                expr: SpecExpr { kind: SpecExprKind::BoolLit(true), doc, start },
                buf,
                rest: rest1,
            },
            SpecToken::False => SpecNext::Good {
                expr: SpecExpr { kind: SpecExprKind::BoolLit(false), doc, start },
                buf,
                rest: rest1,
            },
            SpecToken::NoneKw => SpecNext::Good {
                expr: SpecExpr { kind: SpecExprKind::NoneLit, doc, start },
                buf,
                rest: rest1,
            },
            SpecToken::Class => flow_to_next(spec_class_flow(rest1), doc, start, buf),
            SpecToken::While => flow_to_next(spec_while_flow(rest1), doc, start, buf),
            SpecToken::Return => match spec_next(rest1, None, None, false) {
                SpecNext::Good { expr, buf: _, rest } => SpecNext::Good {
                    expr: SpecExpr {
                        kind: SpecExprKind::Return(Box::new(expr)),
                        doc,
                        start,
                    },
                    buf,
                    rest,
                },
                SpecNext::Stop { stop, buf: _, rest } => SpecNext::Stop { stop, buf, rest },
            },
            SpecToken::Let => flow_to_next(spec_let_flow(rest1), doc, start, buf),
            SpecToken::Str(d) => SpecNext::Good {
                expr: SpecExpr { kind: SpecExprKind::StrLit(d), doc, start },
                buf,
                rest: rest1,
            },
            SpecToken::Char(d) => SpecNext::Good {
                expr: SpecExpr { kind: SpecExprKind::CharLit(d), doc, start },
                buf,
                rest: rest1,
            },
            SpecToken::Float(d) => SpecNext::Good {
                expr: SpecExpr { kind: SpecExprKind::FloatLit(d), doc, start },
                buf,
                rest: rest1,
            },
            SpecToken::Int(d) => SpecNext::Good {
                expr: SpecExpr { kind: SpecExprKind::IntLit(d), doc, start },
                buf,
                rest: rest1,
            },
            SpecToken::Doc(d) => spec_next(rest1, buf, Some(d), is_topmost),
            SpecToken::Fun => flow_to_next(spec_subprogram_flow(rest1), doc, start, buf),
            SpecToken::Path(p) => SpecNext::Good {
                expr: SpecExpr {
                    kind: if p.fields.len() == 0 {
                        SpecExprKind::Path(p)
                    } else {
                        SpecExprKind::LetCall(p)
                    },
                    doc,
                    start,
                },
                buf,
                rest: rest1,
            },
            SpecToken::Error => SpecNext::Stop {
                stop: SpecParseStop::UnknownToken(lx.slice),
                buf,
                rest: rest1,
            },
            _ => SpecNext::Stop {
                stop: SpecParseStop::UnexpectedToken(lx.slice),
                buf,
                rest: rest1,
            },
        }
    }
}

/// Operation grammar: the buffered expression becomes the left operand and
/// one further expression the right one; an empty buffer is a failure.
pub open spec fn spec_op_flow(
    toks: Seq<SpecLexeme>,
    buf: Option<SpecExpr>,
    kind: OpKind,
) -> SpecFlow<SpecExprKind>
    decreases toks.len(), 3int,
{
    match buf {
        None => SpecFlow::Stopped { stop: SpecParseStop::NoLeftExpr, rest: toks },
        Some(left) => match spec_next(toks, None, None, false) {
            SpecNext::Good { expr, buf: _, rest } => SpecFlow::Done {
                val: SpecExprKind::Op { left: Box::new(left), right: Box::new(expr), kind },
                rest,
            },
            SpecNext::Stop { stop, buf: _, rest } => SpecFlow::Stopped { stop, rest },
        },
    }
}

/// Tail of the `let` grammar once name and mutability are known: a required
/// assignment sign, then the initializer expression.
pub open spec fn spec_let_tail(
    toks: Seq<SpecLexeme>,
    path: crate::ast::SpecPath,
    mutable: bool,
) -> SpecFlow<SpecExprKind>
    decreases toks.len(), 2int,
{
    match spec_ensure(toks, SpecToken::Equals) {
        SpecFlow::Done { val: _, rest } => match spec_next(rest, None, None, false) {
            SpecNext::Good { expr, buf: _, rest: r2 } => SpecFlow::Done {
                val: SpecExprKind::Let { path, mutable, expr: Box::new(expr) },
                rest: r2,
            },
            SpecNext::Stop { stop, buf: _, rest: r2 } => SpecFlow::Stopped { stop, rest: r2 },
        },
        SpecFlow::Stopped { stop, rest } => SpecFlow::Stopped { stop, rest },
    }
}

/// The `let` grammar: an optional `mut` keyword, then a path, then the tail.
pub open spec fn spec_let_flow(toks: Seq<SpecLexeme>) -> SpecFlow<SpecExprKind>
    decreases toks.len(), 4int,
{
    if toks.len() == 0 {
        SpecFlow::Stopped { stop: SpecParseStop::UnexpectedEof, rest: toks }
    } else {
        let lx = toks[0];
        let t1 = toks.drop_first();
        match lx.tok {
            SpecToken::Path(p) => spec_let_tail(t1, p, false),
            SpecToken::Mut => if t1.len() == 0 {
                SpecFlow::Stopped { stop: SpecParseStop::UnexpectedEof, rest: t1 }
            } else {
                match t1[0].tok {
                    SpecToken::Path(p) => spec_let_tail(t1.drop_first(), p, true),
                    _ => SpecFlow::Stopped {
                        stop: SpecParseStop::UnexpectedToken(t1[0].slice),
                        rest: t1.drop_first(),
                    },
                }
            },
            _ => SpecFlow::Stopped {
                stop: SpecParseStop::UnexpectedToken(lx.slice),
                rest: t1,
            },
        }
    }
}

/// The `class` grammar: a name that must reduce to a single unqualified
/// identifier, a required opening brace, then a body.
pub open spec fn spec_class_flow(toks: Seq<SpecLexeme>) -> SpecFlow<SpecExprKind>
    decreases toks.len(), 4int,
{
    if toks.len() == 0 {
        SpecFlow::Stopped { stop: SpecParseStop::UnexpectedEof, rest: toks }
    } else {
        let lx = toks[0];
        let t1 = toks.drop_first();
        match lx.tok {
            SpecToken::Path(p) => if p.fields.len() != 0 {
                SpecFlow::Stopped { stop: SpecParseStop::ClassNameIsPath, rest: t1 }
            } else {
                match spec_ensure(t1, SpecToken::BraceLeft) {
                    SpecFlow::Done { val: _, rest } => match spec_get_body(rest, None) {
                        SpecFlow::Done { val: body, rest: r2 } => SpecFlow::Done {
                            val: SpecExprKind::Class { id: p.id, body },
                            rest: r2,
                        },
                        SpecFlow::Stopped { stop, rest: r2 } => SpecFlow::Stopped {
                            stop,
                            rest: r2,
                        },
                    },
                    SpecFlow::Stopped { stop, rest } => SpecFlow::Stopped { stop, rest },
                }
            },
            _ => SpecFlow::Stopped {
                stop: SpecParseStop::UnexpectedToken(lx.slice),
                rest: t1,
            },
        }
    }
}

/// The `while` grammar: a single condition expression, then a body.
pub open spec fn spec_while_flow(toks: Seq<SpecLexeme>) -> SpecFlow<SpecExprKind>
    decreases toks.len(), 4int,
{
    match spec_get_condition(toks, None) {
        SpecFlow::Done { val: cond, rest } => match spec_get_body(clip(rest, toks), None) {
            SpecFlow::Done { val: body, rest: r2 } => SpecFlow::Done {
                val: SpecExprKind::While { condition: Box::new(cond), body },
                rest: r2,
            },
            SpecFlow::Stopped { stop, rest: r2 } => SpecFlow::Stopped { stop, rest: r2 },
        },
        SpecFlow::Stopped { stop, rest } => SpecFlow::Stopped { stop, rest },
    }
}

/// Parameter list of a subprogram: comma-separated identifiers up to a
/// closing parenthesis. The comma after an identifier is a separator, never
/// required: a second comma in a row, or one before the first identifier, is
/// an unexpected token.
pub open spec fn spec_args(toks: Seq<SpecLexeme>) -> SpecFlow<Seq<Seq<char>>>
    decreases toks.len(), 2int,
{
    if toks.len() == 0 {
        SpecFlow::Stopped { stop: SpecParseStop::UnexpectedEof, rest: toks }
    } else {
        let lx = toks[0];
        let t1 = toks.drop_first();
        match lx.tok {
            SpecToken::Path(p) => if p.fields.len() == 0 {
                match spec_args_sep(t1) {
                    SpecFlow::Done { val, rest } => SpecFlow::Done {
                        val: seq![p.id] + val,
                        rest,
                    },
                    SpecFlow::Stopped { stop, rest } => SpecFlow::Stopped { stop, rest },
                }
            } else {
                SpecFlow::Stopped {
                    stop: SpecParseStop::UnexpectedToken(lx.slice),
                    rest: t1,
                }
            },
            SpecToken::ParenRight => SpecFlow::Done { val: seq![], rest: t1 },
            _ => SpecFlow::Stopped {
                stop: SpecParseStop::UnexpectedToken(lx.slice),
                rest: t1,
            },
        }
    }
}

/// The parameter list right after an identifier: an optional comma separator
/// is consumed before the rest of the list.
pub open spec fn spec_args_sep(toks: Seq<SpecLexeme>) -> SpecFlow<Seq<Seq<char>>>
    decreases toks.len(), 3int,
{
    if toks.len() > 0 && toks[0].tok == SpecToken::Comma {
        spec_args(toks.drop_first())
    } else {
        spec_args(toks)
    }
}

/// The subprogram grammar: a path, a parenthesised comma-separated parameter
/// list, a required opening brace, then a body.
pub open spec fn spec_subprogram_flow(toks: Seq<SpecLexeme>) -> SpecFlow<SpecExprKind>
    decreases toks.len(), 4int,
{
    if toks.len() == 0 {
        SpecFlow::Stopped { stop: SpecParseStop::UnexpectedEof, rest: toks }
    } else {
        let lx = toks[0];
        let t1 = toks.drop_first();
        match lx.tok {
            SpecToken::Path(p) => match spec_ensure(t1, SpecToken::ParenLeft) {
                SpecFlow::Done { val: _, rest } => match spec_args(rest) {
                    SpecFlow::Done { val: args, rest: t3 } => match spec_ensure(
                        clip(t3, toks),
                        SpecToken::BraceLeft,
                    ) {
                        SpecFlow::Done { val: _, rest: t4 } => match spec_get_body(
                            clip(t4, toks),
                            None,
                        ) {
                            SpecFlow::Done { val: body, rest: r2 } => SpecFlow::Done {
                                val: SpecExprKind::Function { path: p, args, body },
                                rest: r2,
                            },
                            SpecFlow::Stopped { stop, rest: r2 } => SpecFlow::Stopped {
                                stop,
                                rest: r2,
                            },
                        },
                        SpecFlow::Stopped { stop, rest: t4 } => SpecFlow::Stopped {
                            stop,
                            rest: t4,
                        },
                    },
                    SpecFlow::Stopped { stop, rest: t3 } => SpecFlow::Stopped { stop, rest: t3 },
                },
                SpecFlow::Stopped { stop, rest } => SpecFlow::Stopped { stop, rest },
            },
            _ => SpecFlow::Stopped {
                stop: SpecParseStop::UnexpectedToken(lx.slice),
                rest: t1,
            },
        }
    }
}

/// A block body: expressions under the buffered hand-off protocol until a
/// stray closing brace, which ends the block successfully.
pub open spec fn spec_get_body(toks: Seq<SpecLexeme>, buf: Option<SpecExpr>) -> SpecFlow<
    Seq<SpecExpr>,
>
    decreases toks.len(), 3int,
{
    if toks.len() == 0 {
        SpecFlow::Stopped { stop: SpecParseStop::UnexpectedEof, rest: toks }
    } else {
        match spec_next(toks, buf, None, false) {
        SpecNext::Good { expr, buf: b2, rest } => {
            let emitted = opt_seq(b2);
            match spec_get_body(clip(rest, toks), Some(expr)) {
                SpecFlow::Done { val, rest: r2 } => SpecFlow::Done {
                    val: emitted + val,
                    rest: r2,
                },
                SpecFlow::Stopped { stop, rest: r2 } => SpecFlow::Stopped { stop, rest: r2 },
            }
        },
        SpecNext::Stop { stop, buf: b2, rest } => {
            if stop == SpecParseStop::UnexpectedToken(seq!['}']) {
                SpecFlow::Done { val: opt_seq(b2), rest }
            } else {
                SpecFlow::Stopped { stop, rest }
            }
        },
        }
    }
}

/// A condition: exactly one expression, ended by a stray opening brace; a
/// second complete expression before the brace is a failure.
pub open spec fn spec_get_condition(toks: Seq<SpecLexeme>, buf: Option<SpecExpr>) -> SpecFlow<
    SpecExpr,
>
    decreases toks.len(), 3int,
{
    if toks.len() == 0 {
        SpecFlow::Stopped { stop: SpecParseStop::UnexpectedEof, rest: toks }
    } else {
        match spec_next(toks, buf, None, false) {
            SpecNext::Good { expr, buf: b2, rest } => match b2 {
                None => spec_get_condition(clip(rest, toks), Some(expr)),
                Some(_) => SpecFlow::Stopped { stop: SpecParseStop::MultipleExpressions, rest },
            },
            SpecNext::Stop { stop, buf: b2, rest } => match b2 {
                Some(e) => if stop == SpecParseStop::UnexpectedToken(seq!['{']) {
                    SpecFlow::Done { val: e, rest }
                } else {
                    SpecFlow::Stopped { stop, rest }
                },
                None => SpecFlow::Stopped { stop, rest },
            },
        }
    }
}

/// A whole program: expressions under the buffered hand-off protocol until
/// the input ends expectedly.
pub open spec fn spec_program(toks: Seq<SpecLexeme>, buf: Option<SpecExpr>) -> Result<
    Seq<SpecExpr>,
    SpecParseStop,
>
    decreases toks.len(), 3int,
{
    if toks.len() == 0 {
        Ok(opt_seq(buf))
    } else {
        match spec_next(toks, buf, None, true) {
            SpecNext::Good { expr, buf: b2, rest } => {
                let emitted = opt_seq(b2);
                match spec_program(clip(rest, toks), Some(expr)) {
                    Ok(val) => Ok(emitted + val),
                    Err(e) => Err(e),
                }
            },
            SpecNext::Stop { stop, buf: b2, rest } => {
                if stop == SpecParseStop::FileEnded {
                    Ok(opt_seq(b2))
                } else {
                    Err(stop)
                }
            },
        }
    }
}

/// What parsing a whole source text yields: the program its token stream
/// denotes.
pub open spec fn spec_parse_program(s: Seq<char>) -> Result<Seq<SpecExpr>, SpecParseStop> {
    spec_program(crate::lexer::spec_lexemes(s, 0), None)
}

/// A request for an expression leaves strictly fewer tokens on success, and
/// never more tokens behind; an unexpected-token stop always consumed one.
pub open spec fn next_le(res: SpecNext, n: int) -> bool {
    match res {
        SpecNext::Good { rest, .. } => rest.len() < n,
        SpecNext::Stop { stop, rest, .. } => rest.len() <= n && (stop is UnexpectedToken
            ==> rest.len() < n),
    }
}

/// The same consumption property for a construct routine's outcome.
pub open spec fn flow_le<T>(res: SpecFlow<T>, n: int) -> bool {
    match res {
        SpecFlow::Done { rest, .. } => rest.len() < n,
        SpecFlow::Stopped { stop, rest } => rest.len() <= n && (stop is UnexpectedToken
            ==> rest.len() < n),
    }
}

/// Requiring a token consumes at most that token, and exactly one on success
/// or mismatch.
pub proof fn lemma_ensure_le(toks: Seq<SpecLexeme>, t: SpecToken)
    ensures
        flow_le(spec_ensure(toks, t), toks.len() as int),
{
}

/// Consumption property of [`spec_next`].
pub proof fn lemma_next_le(
    toks: Seq<SpecLexeme>,
    buf: Option<SpecExpr>,
    doc: Option<Seq<char>>,
    is_topmost: bool,
)
    ensures
        next_le(spec_next(toks, buf, doc, is_topmost), toks.len() as int),
    decreases toks.len(), 1int,
{
    if toks.len() > 0 {
        let rest1 = toks.drop_first();
        match toks[0].tok {
            SpecToken::Op(kind) => lemma_op_flow_le(rest1, buf, kind),
            SpecToken::Exclaim => lemma_next_le(rest1, None, None, false),
            SpecToken::Return => lemma_next_le(rest1, None, None, false),
            SpecToken::Class => lemma_class_flow_le(rest1),
            SpecToken::While => lemma_while_flow_le(rest1),
            SpecToken::Let => lemma_let_flow_le(rest1),
            SpecToken::Doc(d) => lemma_next_le(rest1, buf, Some(d), is_topmost),
            SpecToken::Fun => lemma_subprogram_flow_le(rest1),
            _ => {},
        }
    }
}

/// Consumption property of [`spec_op_flow`].
pub proof fn lemma_op_flow_le(toks: Seq<SpecLexeme>, buf: Option<SpecExpr>, kind: OpKind)
    ensures
        flow_le(spec_op_flow(toks, buf, kind), toks.len() as int),
    decreases toks.len(), 3int,
{
    if buf is Some {
        lemma_next_le(toks, None, None, false);
    }
}

/// Consumption property of [`spec_let_tail`].
pub proof fn lemma_let_tail_le(toks: Seq<SpecLexeme>, path: crate::ast::SpecPath, mutable: bool)
    ensures
        flow_le(spec_let_tail(toks, path, mutable), toks.len() as int),
    decreases toks.len(), 2int,
{
    lemma_ensure_le(toks, SpecToken::Equals);
    match spec_ensure(toks, SpecToken::Equals) {
        SpecFlow::Done { val: _, rest } => {
            lemma_next_le(rest, None, None, false);
        },
        SpecFlow::Stopped { .. } => {},
    }
}

/// Consumption property of [`spec_let_flow`].
pub proof fn lemma_let_flow_le(toks: Seq<SpecLexeme>)
    ensures
        flow_le(spec_let_flow(toks), toks.len() as int),
    decreases toks.len(), 4int,
{
    if toks.len() > 0 {
        let t1 = toks.drop_first();
        match toks[0].tok {
            SpecToken::Path(p) => lemma_let_tail_le(t1, p, false),
            SpecToken::Mut => {
                if t1.len() > 0 {
                    match t1[0].tok {
                        SpecToken::Path(p) => lemma_let_tail_le(t1.drop_first(), p, true),
                        _ => {},
                    }
                }
            },
            _ => {},
        }
    }
}

/// Consumption property of [`spec_class_flow`].
pub proof fn lemma_class_flow_le(toks: Seq<SpecLexeme>)
    ensures
        flow_le(spec_class_flow(toks), toks.len() as int),
    decreases toks.len(), 4int,
{
    if toks.len() > 0 {
        let t1 = toks.drop_first();
        match toks[0].tok {
            SpecToken::Path(p) => {
                if p.fields.len() == 0 {
                    lemma_ensure_le(t1, SpecToken::BraceLeft);
                    match spec_ensure(t1, SpecToken::BraceLeft) {
                        SpecFlow::Done { val: _, rest } => {
                            lemma_get_body_le(rest, None);
                        },
                        SpecFlow::Stopped { .. } => {},
                    }
                }
            },
            _ => {},
        }
    }
}

/// Consumption property of [`spec_while_flow`].
pub proof fn lemma_while_flow_le(toks: Seq<SpecLexeme>)
    ensures
        flow_le(spec_while_flow(toks), toks.len() as int),
    decreases toks.len(), 4int,
{
    lemma_get_condition_le(toks, None);
    match spec_get_condition(toks, None) {
        SpecFlow::Done { val: _, rest } => {
            lemma_get_body_le(clip(rest, toks), None);
        },
        SpecFlow::Stopped { .. } => {},
    }
}

/// Consumption property of [`spec_args`].
pub proof fn lemma_args_le(toks: Seq<SpecLexeme>)
    ensures
        flow_le(spec_args(toks), toks.len() as int),
    decreases toks.len(), 2int,
{
    if toks.len() > 0 {
        match toks[0].tok {
            SpecToken::Path(p) => {
                if p.fields.len() == 0 {
                    lemma_args_sep_le(toks.drop_first());
                }
            },
            _ => {},
        }
    }
}

/// Consumption property of [`spec_args_sep`].
pub proof fn lemma_args_sep_le(toks: Seq<SpecLexeme>)
    ensures
        flow_le(spec_args_sep(toks), toks.len() as int),
    decreases toks.len(), 3int,
{
    if toks.len() > 0 && toks[0].tok == SpecToken::Comma {
        lemma_args_le(toks.drop_first());
    } else {
        lemma_args_le(toks);
    }
}

/// Consumption property of [`spec_subprogram_flow`].
pub proof fn lemma_subprogram_flow_le(toks: Seq<SpecLexeme>)
    ensures
        flow_le(spec_subprogram_flow(toks), toks.len() as int),
    decreases toks.len(), 4int,
{
    if toks.len() > 0 {
        let t1 = toks.drop_first();
        match toks[0].tok {
            SpecToken::Path(p) => {
                lemma_ensure_le(t1, SpecToken::ParenLeft);
                match spec_ensure(t1, SpecToken::ParenLeft) {
                    SpecFlow::Done { val: _, rest } => {
                        lemma_args_le(rest);
                        match spec_args(rest) {
                            SpecFlow::Done { val: _, rest: t3 } => {
                                lemma_ensure_le(clip(t3, toks), SpecToken::BraceLeft);
                                match spec_ensure(clip(t3, toks), SpecToken::BraceLeft) {
                                    SpecFlow::Done { val: _, rest: t4 } => {
                                        lemma_get_body_le(clip(t4, toks), None);
                                    },
                                    SpecFlow::Stopped { .. } => {},
                                }
                            },
                            SpecFlow::Stopped { .. } => {},
                        }
                    },
                    SpecFlow::Stopped { .. } => {},
                }
            },
            _ => {},
        }
    }
}

/// Consumption property of [`spec_get_body`].
pub proof fn lemma_get_body_le(toks: Seq<SpecLexeme>, buf: Option<SpecExpr>)
    ensures
        flow_le(spec_get_body(toks, buf), toks.len() as int),
    decreases toks.len(), 3int,
{
    if toks.len() > 0 {
        lemma_next_le(toks, buf, None, false);
        match spec_next(toks, buf, None, false) {
            SpecNext::Good { expr, buf: b2, rest } => {
                lemma_get_body_le(clip(rest, toks), Some(expr));
            },
            SpecNext::Stop { .. } => {},
        }
    }
}

/// Consumption property of [`spec_get_condition`].
pub proof fn lemma_get_condition_le(toks: Seq<SpecLexeme>, buf: Option<SpecExpr>)
    ensures
        flow_le(spec_get_condition(toks, buf), toks.len() as int),
    decreases toks.len(), 3int,
{
    if toks.len() > 0 {
        lemma_next_le(toks, buf, None, false);
        match spec_next(toks, buf, None, false) {
            SpecNext::Good { expr, buf: b2, rest } => {
                if b2 is None {
                    lemma_get_condition_le(clip(rest, toks), Some(expr));
                }
            },
            SpecNext::Stop { .. } => {},
        }
    }
}

/// How an executable result, final buffer and final token stream realise a
/// [`SpecNext`] outcome.
pub open spec fn next_matches(
    res: SpecNext,
    r: Result<Expr, ParseStop>,
    buf2: Option<Expr>,
    toks2: Seq<SpecLexeme>,
) -> bool {
    match res {
        SpecNext::Good { expr, buf, rest } => (r matches Ok(e) && view_expr(e) == expr)
            && view_opt_expr(buf2) == buf && toks2 == rest,
        SpecNext::Stop { stop, buf, rest } => (r matches Err(s) && view_stop(s) == stop)
            && view_opt_expr(buf2) == buf && toks2 == rest,
    }
}

/// Whether two tokens of the structural (data-free) variants are the same.
fn token_eq(a: &Token, b: &Token) -> (r: bool)
    requires
        b is Equals || b is BraceLeft || b is ParenLeft,
    ensures
        r == (view_token(*a) == view_token(*b)),
{
    match b {
        Token::Equals => matches!(a, Token::Equals),
        Token::BraceLeft => matches!(a, Token::BraceLeft),
        _ => matches!(a, Token::ParenLeft),
    }
}

/// Ensures the next lexed token equals the inputted `token` value.
fn ensure(lex: &mut Lexer, token: Token) -> (r: Result<(), ParseStop>)
    requires
        old(lex).wf(),
        token is Equals || token is BraceLeft || token is ParenLeft,
    ensures
        final(lex).wf(),
        final(lex).input() == old(lex).input(),
        match spec_ensure(old(lex).toks(), view_token(token)) {
            SpecFlow::Done { val: _, rest } => r is Ok && final(lex).toks() == rest,
            SpecFlow::Stopped { stop, rest } => (r matches Err(e) && view_stop(e) == stop)
                && final(lex).toks() == rest,
        },
{
    match lex.next_token() {
        Some(found) => {
            if token_eq(&found, &token) {
                Ok(())
            } else {
                Err(ParseStop::UnexpectedToken(lex.slice()))
            }
        },
        None => Err(ParseStop::UnexpectedEof),
    }
}

/// Gets the next expression without passing a previous buffer or
/// documentation string, boxed for sequential parsing.
fn box_next(lex: &mut Lexer) -> (r: Result<Box<Expr>, ParseStop>)
    requires
        old(lex).wf(),
    ensures
        final(lex).wf(),
        final(lex).input() == old(lex).input(),
        match spec_next(old(lex).toks(), Option::None, Option::None, false) {
            SpecNext::Good { expr, buf: _, rest } => (r matches Ok(b) && view_expr(*b) == expr)
                && final(lex).toks() == rest,
            SpecNext::Stop { stop, buf: _, rest } => (r matches Err(e) && view_stop(e) == stop)
                && final(lex).toks() == rest,
        },
    decreases old(lex).toks().len(), 2int,
{
    let mut empty: Option<Expr> = None;
    match next(lex, &mut empty, None, false) {
        Ok(e) => Ok(Box::new(e)),
        Err(e) => Err(e),
    }
}

/// Gets the next full expression: the main parsing hook. A documentation
/// token is captured and forwarded onto whatever real expression follows; a
/// binary operator claims the buffered expression as its left operand.
pub fn next(lex: &mut Lexer, buf: &mut Option<Expr>, doc: Option<String>, is_topmost: bool) -> (r:
    Result<Expr, ParseStop>)
    requires
        old(lex).wf(),
    ensures
        final(lex).wf(),
        final(lex).input() == old(lex).input(),
        next_matches(
            spec_next(old(lex).toks(), view_opt_expr(*old(buf)), view_opt_str(doc), is_topmost),
            r,
            *final(buf),
            final(lex).toks(),
        ),
    decreases old(lex).toks().len(), 1int,
{
    let ghost toks0 = lex.toks();
    let cur = lex.next_token();
    let start = lex.span_start();
    match cur {
        Some(Token::Op(kind)) => {
            let op = match op_flow(lex, buf, kind) {
                Ok(o) => o,
                Err(e) => {
                    return Err(e);
                },
            };
            Ok(Expr { kind: ExprKind::Op(op), doc, start })
        },
        Some(Token::Exclaim) => {
            let inner = match box_next(lex) {
                Ok(b) => b,
                Err(e) => {
                    return Err(e);
                },
            };
            Ok(Expr { kind: ExprKind::Not(Not(inner)), doc, start })
        },
        Some(Token::True) => Ok(
            Expr { kind: ExprKind::BoolLit(crate::ast::BoolLit(true)), doc, start },
        ),
        Some(Token::False) => Ok(
            Expr { kind: ExprKind::BoolLit(crate::ast::BoolLit(false)), doc, start },
        ),
        Some(Token::NoneKw) => Ok(Expr { kind: ExprKind::NoneLit, doc, start }),
        Some(Token::Class) => {
            let c = match class_flow(lex) {
                Ok(c) => c,
                Err(e) => {
                    return Err(e);
                },
            };
            Ok(Expr { kind: ExprKind::Class(c), doc, start })
        },
        Some(Token::While) => {
            let w = match while_flow(lex) {
                Ok(w) => w,
                Err(e) => {
                    return Err(e);
                },
            };
            Ok(Expr { kind: ExprKind::While(w), doc, start })
        },
        Some(Token::Return) => {
            let inner = match box_next(lex) {
                Ok(b) => b,
                Err(e) => {
                    return Err(e);
                },
            };
            Ok(Expr { kind: ExprKind::Return(Return(inner)), doc, start })
        },
        Some(Token::Let) => {
            let l = match let_flow(lex) {
                Ok(l) => l,
                Err(e) => {
                    return Err(e);
                },
            };
            Ok(Expr { kind: ExprKind::Let(l), doc, start })
        },
        Some(Token::Str(d)) => Ok(
            Expr { kind: ExprKind::StrLit(crate::ast::StrLit(d)), doc, start },
        ),
        Some(Token::Char(d)) => Ok(
            Expr { kind: ExprKind::CharLit(crate::ast::CharLit(d)), doc, start },
        ),
        Some(Token::Float(d)) => Ok(
            Expr { kind: ExprKind::FloatLit(crate::ast::FloatLit(d)), doc, start },
        ),
        Some(Token::Int(d)) => Ok(
            Expr { kind: ExprKind::IntLit(crate::ast::IntLit(d)), doc, start },
        ),
        Some(Token::Doc(d)) => next(lex, buf, Some(d), is_topmost),
        Some(Token::Fun) => {
            let f = match subprogram_flow(lex) {
                Ok(f) => f,
                Err(e) => {
                    return Err(e);
                },
            };
            Ok(Expr { kind: ExprKind::Function(f), doc, start })
        },
        Some(Token::Path(p)) => {
            if p.local() {
                Ok(Expr { kind: ExprKind::Path(p), doc, start })
            } else {
                Ok(Expr { kind: ExprKind::LetCall(LetCall(p)), doc, start })
            }
        },
        Some(Token::Error) => Err(ParseStop::UnknownToken(lex.slice())),
        Some(_) => Err(ParseStop::UnexpectedToken(lex.slice())),
        None => Err(
            if is_topmost {
                ParseStop::FileEnded
            } else {
                ParseStop::UnexpectedEof
            },
        ),
    }
}

/// Flow for operation grammar: takes the buffered expression as the left
/// operand and parses the right one.
fn op_flow(lex: &mut Lexer, buf: &mut Option<Expr>, kind: OpKind) -> (r: Result<Op, ParseStop>)
    requires
        old(lex).wf(),
    ensures
        final(lex).wf(),
        final(lex).input() == old(lex).input(),
        *final(buf) is None,
        match spec_op_flow(old(lex).toks(), view_opt_expr(*old(buf)), kind) {
            SpecFlow::Done { val, rest } => (r matches Ok(o) && view_expr_kind(ExprKind::Op(o))
                == val) && final(lex).toks() == rest,
            SpecFlow::Stopped { stop, rest } => (r matches Err(e) && view_stop(e) == stop)
                && final(lex).toks() == rest,
        },
    decreases old(lex).toks().len(), 3int,
{
    let left = match buf.take() {
        Some(l) => l,
        None => {
            return Err(ParseStop::NoLeftExpr);
        },
    };
    let right = match box_next(lex) {
        Ok(b) => b,
        Err(e) => {
            return Err(e);
        },
    };
    Ok(Op { left: Box::new(left), right, kind })
}

/// Flow for `let` grammar: an optional `mut`, a path, a required assignment
/// sign, then the initializer expression.
fn let_flow(lex: &mut Lexer) -> (r: Result<Let, ParseStop>)
    requires
        old(lex).wf(),
    ensures
        final(lex).wf(),
        final(lex).input() == old(lex).input(),
        match spec_let_flow(old(lex).toks()) {
            SpecFlow::Done { val, rest } => (r matches Ok(l) && view_expr_kind(ExprKind::Let(l))
                == val) && final(lex).toks() == rest,
            SpecFlow::Stopped { stop, rest } => (r matches Err(e) && view_stop(e) == stop)
                && final(lex).toks() == rest,
        },
    decreases old(lex).toks().len(), 4int,
{
    let (path, mutable): (Path, bool) = match lex.next_token() {
        Some(Token::Path(path)) => (path, false),
        Some(Token::Mut) => {
            match lex.next_token() {
                Some(Token::Path(path)) => (path, true),
                Some(_) => {
                    return Err(ParseStop::UnexpectedToken(lex.slice()));
                },
                None => {
                    return Err(ParseStop::UnexpectedEof);
                },
            }
        },
        Some(_) => {
            return Err(ParseStop::UnexpectedToken(lex.slice()));
        },
        None => {
            return Err(ParseStop::UnexpectedEof);
        },
    };
    match ensure(lex, Token::Equals) {
        Ok(u) => u,
        Err(e) => {
            return Err(e);
        },
    };
    let expr = match box_next(lex) {
        Ok(b) => b,
        Err(e) => {
            return Err(e);
        },
    };
    Ok(Let { path, mutable, expr })
}

/// Flow for `class` objects: a bare identifier name, a required opening
/// brace, then the class body.
fn class_flow(lex: &mut Lexer) -> (r: Result<Class, ParseStop>)
    requires
        old(lex).wf(),
    ensures
        final(lex).wf(),
        final(lex).input() == old(lex).input(),
        match spec_class_flow(old(lex).toks()) {
            SpecFlow::Done { val, rest } => (r matches Ok(c) && view_expr_kind(ExprKind::Class(c))
                == val) && final(lex).toks() == rest,
            SpecFlow::Stopped { stop, rest } => (r matches Err(e) && view_stop(e) == stop)
                && final(lex).toks() == rest,
        },
    decreases old(lex).toks().len(), 4int,
{
    match lex.next_token() {
        Some(Token::Path(path)) => {
            let id = match path.to_id() {
                Some(id) => id,
                None => {
                    return Err(ParseStop::ClassNameIsPath);
                },
            };
            match ensure(lex, Token::BraceLeft) {
                Ok(u) => u,
                Err(e) => {
                    return Err(e);
                },
            };
            let body = match get_body(lex) {
                Ok(b) => b,
                Err(e) => {
                    return Err(e);
                },
            };
            Ok(Class { id, body })
        },
        Some(_) => Err(ParseStop::UnexpectedToken(lex.slice())),
        None => Err(ParseStop::UnexpectedEof),
    }
}

/// Flow for `while` loops: a single condition expression, then the body.
fn while_flow(lex: &mut Lexer) -> (r: Result<While, ParseStop>)
    requires
        old(lex).wf(),
    ensures
        final(lex).wf(),
        final(lex).input() == old(lex).input(),
        match spec_while_flow(old(lex).toks()) {
            SpecFlow::Done { val, rest } => (r matches Ok(w) && view_expr_kind(ExprKind::While(w))
                == val) && final(lex).toks() == rest,
            SpecFlow::Stopped { stop, rest } => (r matches Err(e) && view_stop(e) == stop)
                && final(lex).toks() == rest,
        },
    decreases old(lex).toks().len(), 4int,
{
    let ghost toks0 = lex.toks();
    proof {
        lemma_get_condition_le(toks0, Option::None);
    }
    let condition = match get_condition(lex) {
        Ok(c) => c,
        Err(e) => {
            return Err(e);
        },
    };
    let body = match get_body(lex) {
        Ok(b) => b,
        Err(e) => {
            return Err(e);
        },
    };
    Ok(While { condition: Box::new(condition), body })
}

/// A request for an expression either leaves the buffer as it was or takes
/// its content; it never fills an empty buffer.
pub proof fn lemma_next_buf(
    toks: Seq<SpecLexeme>,
    buf: Option<SpecExpr>,
    doc: Option<Seq<char>>,
    is_topmost: bool,
)
    ensures
        match spec_next(toks, buf, doc, is_topmost) {
            SpecNext::Good { buf: b2, .. } => b2 == buf || b2 is None,
            SpecNext::Stop { buf: b2, .. } => b2 == buf || b2 is None,
        },
    decreases toks.len(), 1int,
{
    if toks.len() > 0 {
        match toks[0].tok {
            SpecToken::Doc(d) => lemma_next_buf(toks.drop_first(), buf, Some(d), is_topmost),
            _ => {},
        }
    }
}

/// The outcome of a subprogram flow once its parameter list has resolved,
/// phrased over the parameter-list outcome.
pub open spec fn sub_after_args(
    a_res: SpecFlow<Seq<Seq<char>>>,
    toks0: Seq<SpecLexeme>,
    path: crate::ast::SpecPath,
) -> SpecFlow<SpecExprKind> {
    match a_res {
        SpecFlow::Done { val: args, rest: t3 } => match spec_ensure(
            clip(t3, toks0),
            SpecToken::BraceLeft,
        ) {
            SpecFlow::Done { val: _, rest: t4 } => match spec_get_body(
                clip(t4, toks0),
                Option::None,
            ) {
                SpecFlow::Done { val: body, rest: r2 } => SpecFlow::Done {
                    val: SpecExprKind::Function { path, args, body },
                    rest: r2,
                },
                SpecFlow::Stopped { stop, rest: r2 } => SpecFlow::Stopped { stop, rest: r2 },
            },
            SpecFlow::Stopped { stop, rest: t4 } => SpecFlow::Stopped { stop, rest: t4 },
        },
        SpecFlow::Stopped { stop, rest: t3 } => SpecFlow::Stopped { stop, rest: t3 },
    }
}

/// Flow for subprograms: a path, a parenthesised comma-separated parameter
/// list, a required opening brace, then the body.
fn subprogram_flow(lex: &mut Lexer) -> (r: Result<Function, ParseStop>)
    requires
        old(lex).wf(),
    ensures
        final(lex).wf(),
        final(lex).input() == old(lex).input(),
        match spec_subprogram_flow(old(lex).toks()) {
            SpecFlow::Done { val, rest } => (r matches Ok(f) && view_expr_kind(
                ExprKind::Function(f),
            ) == val) && final(lex).toks() == rest,
            SpecFlow::Stopped { stop, rest } => (r matches Err(e) && view_stop(e) == stop)
                && final(lex).toks() == rest,
        },
    decreases old(lex).toks().len(), 4int,
{
    let ghost toks0 = lex.toks();
    let path = match lex.next_token() {
        Some(Token::Path(path)) => path,
        Some(_) => {
            return Err(ParseStop::UnexpectedToken(lex.slice()));
        },
        None => {
            return Err(ParseStop::UnexpectedEof);
        },
    };
    match ensure(lex, Token::ParenLeft) {
        Ok(u) => u,
        Err(e) => {
            return Err(e);
        },
    };
    let ghost t_args = lex.toks();
    proof {
        assert(spec_subprogram_flow(toks0) == sub_after_args(spec_args(t_args), toks0, path@));
    }
    let mut args: Vec<Id> = Vec::new();
    let mut done = false;
    let mut after_ident = false;
    proof {
        assert(view_ids(args@) =~= Seq::<Seq<char>>::empty());
        match spec_args(t_args) {
            SpecFlow::Done { val, rest } => {
                assert(view_ids(args@) + val =~= val);
            },
            SpecFlow::Stopped { .. } => {},
        }
    }
    while !done
        invariant
            lex.wf(),
            lex.input() == old(lex).input(),
            spec_subprogram_flow(toks0) == sub_after_args(spec_args(t_args), toks0, path@),
            toks0 == old(lex).toks(),
            lex.toks().len() <= old(lex).toks().len(),
            !done ==> (match (if after_ident {
                spec_args_sep(lex.toks())
            } else {
                spec_args(lex.toks())
            }) {
                SpecFlow::Done { val, rest } => spec_args(t_args) == (SpecFlow::Done {
                    val: view_ids(args@) + val,
                    rest,
                }),
                SpecFlow::Stopped { stop, rest } => spec_args(t_args) == (SpecFlow::<
                    Seq<Seq<char>>,
                >::Stopped { stop, rest }),
            }),
            done ==> spec_args(t_args) == (SpecFlow::Done {
                val: view_ids(args@),
                rest: lex.toks(),
            }),
        decreases lex.toks().len(), (if done {
            0int
        } else {
            1int
        }),
    {
        let ghost cur = lex.toks();
        let ghost args_pre = args@;
        let ghost was_after = after_ident;
        match lex.next_token() {
            Some(Token::Comma) => {
                if after_ident {
                    // the separator after a parameter identifier
                    proof {
                        assert(spec_args_sep(cur) == spec_args(cur.drop_first()));
                    }
                    after_ident = false;
                } else {
                    return Err(ParseStop::UnexpectedToken(lex.slice()));
                }
            },
            Some(Token::Path(p)) => {
                let ghost pv = p@;
                proof {
                    if was_after {
                        assert(spec_args_sep(cur) == spec_args(cur));
                    }
                }
                match p.to_id() {
                    Some(id) => {
                        args.push(id);
                        after_ident = true;
                        proof {
                            assert(args@.last()@ == pv.id);
                            assert(view_ids(args_pre) + seq![pv.id] =~= view_ids(args@));
                            match spec_args_sep(lex.toks()) {
                                SpecFlow::Done { val, rest } => {
                                    assert((view_ids(args_pre) + seq![pv.id]) + val =~= view_ids(
                                        args_pre,
                                    ) + (seq![pv.id] + val));
                                },
                                SpecFlow::Stopped { .. } => {},
                            }
                        }
                    },
                    None => {
                        return Err(ParseStop::UnexpectedToken(lex.slice()));
                    },
                }
            },
            Some(Token::ParenRight) => {
                proof {
                    if was_after {
                        assert(spec_args_sep(cur) == spec_args(cur));
                    }
                    assert(view_ids(args@) + Seq::<Seq<char>>::empty() =~= view_ids(args@));
                }
                done = true;
            },
            Some(_) => {
                proof {
                    if was_after {
                        assert(spec_args_sep(cur) == spec_args(cur));
                    }
                }
                return Err(ParseStop::UnexpectedToken(lex.slice()));
            },
            None => {
                proof {
                    if was_after {
                        assert(spec_args_sep(cur) == spec_args(cur));
                    }
                }
                return Err(ParseStop::UnexpectedEof);
            },
        }
    }
    proof {
        lemma_args_le(t_args);
        assert(clip(lex.toks(), toks0) == lex.toks());
    }
    match ensure(lex, Token::BraceLeft) {
        Ok(u) => u,
        Err(e) => {
            return Err(e);
        },
    };
    proof {
        assert(clip(lex.toks(), toks0) == lex.toks());
    }
    let body = match get_body(lex) {
        Ok(b) => b,
        Err(e) => {
            return Err(e);
        },
    };
    Ok(Function { path, args, body })
}

/// Gets a block body: expressions under the buffered hand-off protocol until
/// a stray closing brace, which this consumes as the block's normal end.
pub fn get_body(lex: &mut Lexer) -> (r: Result<Vec<Expr>, ParseStop>)
    requires
        old(lex).wf(),
    ensures
        final(lex).wf(),
        final(lex).input() == old(lex).input(),
        match spec_get_body(old(lex).toks(), Option::None) {
            SpecFlow::Done { val, rest } => (r matches Ok(v) && view_exprs(v@) == val) && final(lex).toks() == rest,
            SpecFlow::Stopped { stop, rest } => (r matches Err(e) && view_stop(e) == stop)
                && final(lex).toks() == rest,
        },
    decreases old(lex).toks().len(), 3int,
{
    let ghost toks0 = lex.toks();
    let mut buf: Option<Expr> = None;
    let mut output: Vec<Expr> = Vec::new();
    let mut done = false;
    let mut err: Option<ParseStop> = None;
    proof {
        assert(view_exprs(output@) =~= Seq::<SpecExpr>::empty());
        match spec_get_body(toks0, Option::None) {
            SpecFlow::Done { val, rest } => {
                assert(view_exprs(output@) + val =~= val);
            },
            SpecFlow::Stopped { .. } => {},
        }
    }
    while !done
        invariant
            lex.wf(),
            lex.input() == old(lex).input(),
            lex.toks().len() <= old(lex).toks().len(),
            !done ==> err is None,
            !done ==> (match spec_get_body(lex.toks(), view_opt_expr(buf)) {
                SpecFlow::Done { val, rest } => spec_get_body(toks0, Option::None)
                    == (SpecFlow::Done { val: view_exprs(output@) + val, rest }),
                SpecFlow::Stopped { stop, rest } => spec_get_body(toks0, Option::None) == (
                SpecFlow::<Seq<SpecExpr>>::Stopped { stop, rest }),
            }),
            done ==> (match err {
                Some(e) => spec_get_body(toks0, Option::None) == (SpecFlow::<
                    Seq<SpecExpr>,
                >::Stopped { stop: view_stop(e), rest: lex.toks() }),
                None => spec_get_body(toks0, Option::None) == (SpecFlow::Done {
                    val: view_exprs(output@) + opt_seq(view_opt_expr(buf)),
                    rest: lex.toks(),
                }),
            }),
        decreases lex.toks().len(), (if done {
            0int
        } else {
            1int
        }),
    {
        let ghost cur = lex.toks();
        let ghost bufv = view_opt_expr(buf);
        let ghost out_pre = output@;
        let buf_was_some = buf.is_some();
        proof {
            lemma_next_le(cur, bufv, Option::None, false);
            lemma_next_buf(cur, bufv, Option::None, false);
        }
        match next(lex, &mut buf, None, false) {
            Ok(expr) => {
                if buf_was_some && buf.is_some() {
                    output.push(buf.take().unwrap());
                    proof {
                        assert(view_exprs(output@) =~= view_exprs(out_pre) + seq![
                            view_expr(output@.last()),
                        ]);
                    }
                }
                buf = Some(expr);
                proof {
                    match spec_next(cur, bufv, Option::None, false) {
                        SpecNext::Good { expr: e2, buf: b2, rest } => {
                            assert(clip(rest, cur) == rest);
                            assert(view_exprs(output@) =~= view_exprs(out_pre) + opt_seq(b2));
                            match spec_get_body(rest, Some(e2)) {
                                SpecFlow::Done { val, rest: r2 } => {
                                    assert(view_exprs(out_pre) + (opt_seq(b2) + val)
                                        =~= view_exprs(output@) + val);
                                },
                                SpecFlow::Stopped { .. } => {},
                            }
                        },
                        SpecNext::Stop { .. } => {},
                    }
                }
            },
            Err(e) => {
                proof {
                    reveal_strlit("}");
                    assert("}"@ =~= seq!['}']);
                }
                match e {
                    ParseStop::UnexpectedToken(d) => {
                        if d == "}".to_owned() {
                            done = true;
                        } else {
                            err = Some(ParseStop::UnexpectedToken(d));
                            done = true;
                        }
                    },
                    other => {
                        err = Some(other);
                        done = true;
                    },
                }
            },
        }
    }
    match err {
        Some(e) => Err(e),
        None => {
            let ghost out_pre = output@;
            match buf.take() {
                Some(x) => {
                    output.push(x);
                    proof {
                        assert(view_exprs(output@) =~= view_exprs(out_pre) + seq![
                            view_expr(output@.last()),
                        ]);
                    }
                },
                None => {
                    proof {
                        assert(view_exprs(output@) + Seq::<SpecExpr>::empty() =~= view_exprs(
                            output@,
                        ));
                    }
                },
            }
            Ok(output)
        },
    }
}

/// Gets a condition: a single expression ending with a stray opening brace,
/// which this consumes.
fn get_condition(lex: &mut Lexer) -> (r: Result<Expr, ParseStop>)
    requires
        old(lex).wf(),
    ensures
        final(lex).wf(),
        final(lex).input() == old(lex).input(),
        match spec_get_condition(old(lex).toks(), Option::None) {
            SpecFlow::Done { val, rest } => (r matches Ok(e) && view_expr(e) == val) && final(lex).toks() == rest,
            SpecFlow::Stopped { stop, rest } => (r matches Err(e) && view_stop(e) == stop)
                && final(lex).toks() == rest,
        },
    decreases old(lex).toks().len(), 3int,
{
    let ghost toks0 = lex.toks();
    let mut buf: Option<Expr> = None;
    let mut done = false;
    let mut err: Option<ParseStop> = None;
    while !done
        invariant
            lex.wf(),
            lex.input() == old(lex).input(),
            lex.toks().len() <= old(lex).toks().len(),
            !done ==> err is None,
            !done ==> spec_get_condition(toks0, Option::None) == spec_get_condition(
                lex.toks(),
                view_opt_expr(buf),
            ),
            done ==> (match err {
                Some(e) => spec_get_condition(toks0, Option::None) == (SpecFlow::<
                    SpecExpr,
                >::Stopped { stop: view_stop(e), rest: lex.toks() }),
                None => buf is Some && spec_get_condition(toks0, Option::None) == (SpecFlow::Done {
                    val: view_opt_expr(buf).unwrap(),
                    rest: lex.toks(),
                }),
            }),
        decreases lex.toks().len(), (if done {
            0int
        } else {
            1int
        }),
    {
        let ghost cur = lex.toks();
        let ghost bufv = view_opt_expr(buf);
        proof {
            lemma_next_le(cur, bufv, Option::None, false);
            lemma_next_buf(cur, bufv, Option::None, false);
        }
        match next(lex, &mut buf, None, false) {
            Ok(expr) => {
                if buf.is_none() {
                    buf = Some(expr);
                    proof {
                        match spec_next(cur, bufv, Option::None, false) {
                            SpecNext::Good { expr: e2, buf: b2, rest } => {
                                assert(clip(rest, cur) == rest);
                            },
                            SpecNext::Stop { .. } => {},
                        }
                    }
                } else {
                    err = Some(ParseStop::MultipleExpressions);
                    done = true;
                }
            },
            Err(e) => {
                proof {
                    reveal_strlit("{");
                    assert("{"@ =~= seq!['{']);
                }
                match e {
                    ParseStop::UnexpectedToken(d) => {
                        if buf.is_some() && d == "{".to_owned() {
                            done = true;
                        } else {
                            err = Some(ParseStop::UnexpectedToken(d));
                            done = true;
                        }
                    },
                    other => {
                        err = Some(other);
                        done = true;
                    },
                }
            },
        }
    }
    match err {
        Some(e) => Err(e),
        None => Ok(buf.unwrap()),
    }
}

/// Parses a given scanner's input into the resulting sequence of top-level
/// expressions; at the top level running out of tokens is the expected end.
pub fn launch(lex: &mut Lexer) -> (r: Result<Vec<Expr>, ParseStop>)
    requires
        old(lex).wf(),
    ensures
        final(lex).wf(),
        final(lex).input() == old(lex).input(),
        match spec_program(old(lex).toks(), Option::None) {
            Ok(val) => r matches Ok(v) && view_exprs(v@) == val,
            Err(e) => r matches Err(s) && view_stop(s) == e,
        },
{
    let ghost toks0 = lex.toks();
    let mut buf: Option<Expr> = None;
    let mut output: Vec<Expr> = Vec::new();
    let mut done = false;
    let mut err: Option<ParseStop> = None;
    proof {
        assert(view_exprs(output@) =~= Seq::<SpecExpr>::empty());
        match spec_program(toks0, Option::None) {
            Ok(val) => {
                assert(view_exprs(output@) + val =~= val);
            },
            Err(_) => {},
        }
    }
    while !done
        invariant
            lex.wf(),
            lex.input() == old(lex).input(),
            lex.toks().len() <= old(lex).toks().len(),
            !done ==> err is None,
            !done ==> (match spec_program(lex.toks(), view_opt_expr(buf)) {
                Ok(val) => spec_program(toks0, Option::None) == Result::<
                    Seq<SpecExpr>,
                    SpecParseStop,
                >::Ok(view_exprs(output@) + val),
                Err(e) => spec_program(toks0, Option::None) == Result::<
                    Seq<SpecExpr>,
                    SpecParseStop,
                >::Err(e),
            }),
            done ==> (match err {
                Some(e) => spec_program(toks0, Option::None) == Result::<
                    Seq<SpecExpr>,
                    SpecParseStop,
                >::Err(view_stop(e)),
                None => spec_program(toks0, Option::None) == Result::<
                    Seq<SpecExpr>,
                    SpecParseStop,
                >::Ok(view_exprs(output@) + opt_seq(view_opt_expr(buf))),
            }),
        decreases lex.toks().len(), (if done {
            0int
        } else {
            1int
        }),
    {
        let ghost cur = lex.toks();
        let ghost bufv = view_opt_expr(buf);
        let ghost out_pre = output@;
        let buf_was_some = buf.is_some();
        proof {
            lemma_next_le(cur, bufv, Option::None, true);
            lemma_next_buf(cur, bufv, Option::None, true);
        }
        match next(lex, &mut buf, None, true) {
            Ok(expr) => {
                if buf_was_some && buf.is_some() {
                    output.push(buf.take().unwrap());
                    proof {
                        assert(view_exprs(output@) =~= view_exprs(out_pre) + seq![
                            view_expr(output@.last()),
                        ]);
                    }
                }
                buf = Some(expr);
                proof {
                    match spec_next(cur, bufv, Option::None, true) {
                        SpecNext::Good { expr: e2, buf: b2, rest } => {
                            assert(clip(rest, cur) == rest);
                            assert(view_exprs(output@) =~= view_exprs(out_pre) + opt_seq(b2));
                            match spec_program(rest, Some(e2)) {
                                Ok(val) => {
                                    assert(view_exprs(out_pre) + (opt_seq(b2) + val)
                                        =~= view_exprs(output@) + val);
                                },
                                Err(_) => {},
                            }
                        },
                        SpecNext::Stop { .. } => {},
                    }
                }
            },
            Err(e) => {
                match e {
                    ParseStop::FileEnded => {
                        done = true;
                    },
                    other => {
                        err = Some(other);
                        done = true;
                    },
                }
            },
        }
    }
    match err {
        Some(e) => Err(e),
        None => {
            let ghost out_pre = output@;
            match buf.take() {
                Some(x) => {
                    output.push(x);
                    proof {
                        assert(view_exprs(output@) =~= view_exprs(out_pre) + seq![
                            view_expr(output@.last()),
                        ]);
                    }
                },
                None => {
                    proof {
                        assert(view_exprs(output@) + Seq::<SpecExpr>::empty() =~= view_exprs(
                            output@,
                        ));
                    }
                },
            }
            Ok(output)
        },
    }
}

/// The expression kind a literal token denotes, if the token is a literal.
pub open spec fn literal_kind_of(t: SpecToken) -> Option<SpecExprKind> {
    match t {
        SpecToken::Int(d) => Some(SpecExprKind::IntLit(d)),
        SpecToken::Float(d) => Some(SpecExprKind::FloatLit(d)),
        SpecToken::Str(d) => Some(SpecExprKind::StrLit(d)),
        SpecToken::Char(d) => Some(SpecExprKind::CharLit(d)),
        SpecToken::True => Some(SpecExprKind::BoolLit(true)),
        SpecToken::False => Some(SpecExprKind::BoolLit(false)),
        SpecToken::NoneKw => Some(SpecExprKind::NoneLit),
        _ => None,
    }
}

/// Law: every input consisting of one single literal token (integer, float,
/// string, char or bool) parses to exactly one expression whose start is the
/// token's offset zero and whose kind matches that literal.
pub proof fn lemma_single_literal(s: Seq<char>, k: SpecExprKind)
    requires
        crate::lexer::spec_lexemes(s, 0).len() == 1,
        crate::lexer::spec_lexemes(s, 0)[0].start == 0,
        literal_kind_of(crate::lexer::spec_lexemes(s, 0)[0].tok) == Some(k),
    ensures
        spec_parse_program(s) == Result::<Seq<SpecExpr>, SpecParseStop>::Ok(
            seq![SpecExpr { kind: k, doc: None, start: 0 }],
        ),
{
    let toks = crate::lexer::spec_lexemes(s, 0);
    let expr = SpecExpr { kind: k, doc: None, start: 0 };
    match spec_next(toks, None, None, true) {
        SpecNext::Good { expr: e2, buf: b2, rest } => {
            assert(e2 == expr);
            assert(rest =~= toks.drop_first());
            assert(rest.len() == 0);
            assert(clip(rest, toks) == rest);
            assert(spec_program(rest, Some(expr)) == Result::<Seq<SpecExpr>, SpecParseStop>::Ok(
                seq![expr],
            ));
            assert(opt_seq(b2) + seq![expr] =~= seq![expr]);
        },
        SpecNext::Stop { .. } => {
            assert(false);
        },
    }
}

/// The request for an expression runs through any run of documentation
/// tokens and, finding nothing after them, ends the file expectedly with the
/// buffer untouched.
proof fn lemma_all_doc_next(toks: Seq<SpecLexeme>, buf: Option<SpecExpr>, doc: Option<Seq<char>>)
    requires
        forall|i: int| 0 <= i < toks.len() ==> toks[i].tok is Doc,
    ensures
        spec_next(toks, buf, doc, true) == (SpecNext::Stop {
            stop: SpecParseStop::FileEnded,
            buf,
            rest: toks.skip(toks.len() as int),
        }),
    decreases toks.len(),
{
    if toks.len() > 0 {
        match toks[0].tok {
            SpecToken::Doc(d) => {
                lemma_all_doc_next(toks.drop_first(), buf, Some(d));
                assert(toks.drop_first().skip(toks.drop_first().len() as int) =~= toks.skip(
                    toks.len() as int,
                ));
            },
            _ => {
                assert(false);
            },
        }
    } else {
        assert(toks.skip(0) =~= toks);
    }
}

/// Law: trailing documentation tokens with no expression after them do not
/// appear in the output; the program ends cleanly with what was already
/// buffered.
pub proof fn lemma_trailing_doc(toks: Seq<SpecLexeme>, buf: Option<SpecExpr>)
    requires
        forall|i: int| 0 <= i < toks.len() ==> toks[i].tok is Doc,
    ensures
        spec_program(toks, buf) == Result::<Seq<SpecExpr>, SpecParseStop>::Ok(opt_seq(buf)),
{
    if toks.len() > 0 {
        lemma_all_doc_next(toks, buf, None);
    }
}

/// Law: a program opening with a binary-operator token fails with the
/// missing-left-operand stop, whatever follows the operator.
pub proof fn lemma_leading_operator(toks: Seq<SpecLexeme>, k: OpKind)
    requires
        toks.len() > 0,
        toks[0].tok == SpecToken::Op(k),
    ensures
        spec_program(toks, None) == Result::<Seq<SpecExpr>, SpecParseStop>::Err(
            SpecParseStop::NoLeftExpr,
        ),
{
    let rest1 = toks.drop_first();
    assert(spec_op_flow(rest1, None, k) == (SpecFlow::<SpecExprKind>::Stopped {
        stop: SpecParseStop::NoLeftExpr,
        rest: rest1,
    }));
    assert(spec_next(toks, None, None, true) == (SpecNext::Stop {
        stop: SpecParseStop::NoLeftExpr,
        buf: None,
        rest: rest1,
    }));
}

/// Law: a binary-operator token claims whatever expression is buffered as
/// its left operand. The produced node starts at the operator token's offset
/// (not at the left operand's), carries the pending documentation string,
/// leaves the buffer empty, and takes as its right operand the single
/// expression parsed immediately after; a stop while parsing that right
/// operand propagates, with the buffer likewise taken.
pub proof fn lemma_operator_claims_buffer(
    toks: Seq<SpecLexeme>,
    l: SpecExpr,
    doc: Option<Seq<char>>,
    is_topmost: bool,
    k: OpKind,
)
    requires
        toks.len() > 0,
        toks[0].tok == SpecToken::Op(k),
    ensures
        match spec_next(toks.drop_first(), None, None, false) {
            SpecNext::Good { expr: right, buf: _, rest } => spec_next(toks, Some(l), doc, is_topmost)
                == (SpecNext::Good {
                expr: SpecExpr {
                    kind: SpecExprKind::Op {
                        left: Box::new(l),
                        right: Box::new(right),
                        kind: k,
                    },
                    doc,
                    start: toks[0].start,
                },
                buf: None,
                rest,
            }),
            SpecNext::Stop { stop, buf: _, rest } => spec_next(toks, Some(l), doc, is_topmost) == (
            SpecNext::Stop { stop, buf: None, rest }),
        },
{
    let rest1 = toks.drop_first();
    match spec_next(rest1, None, None, false) {
        SpecNext::Good { expr: right, buf: _, rest } => {
            assert(spec_op_flow(rest1, Some(l), k) == (SpecFlow::Done {
                val: SpecExprKind::Op { left: Box::new(l), right: Box::new(right), kind: k },
                rest,
            }));
        },
        SpecNext::Stop { stop, buf: _, rest } => {
            assert(spec_op_flow(rest1, Some(l), k) == (SpecFlow::<SpecExprKind>::Stopped {
                stop,
                rest,
            }));
        },
    }
}

/// Law: a program of exactly one integer literal, one binary operator and one
/// integer literal parses to a single operation node whose operands are those
/// literals and whose start is the operator token's offset, not the left
/// operand's.
pub proof fn lemma_operator_combines(toks: Seq<SpecLexeme>, a: i64, k: OpKind, b: i64)
    requires
        toks.len() == 3,
        toks[0].tok == SpecToken::Int(a),
        toks[1].tok == SpecToken::Op(k),
        toks[2].tok == SpecToken::Int(b),
    ensures
        spec_program(toks, None) == Result::<Seq<SpecExpr>, SpecParseStop>::Ok(
            seq![
                SpecExpr {
                    kind: SpecExprKind::Op {
                        left: Box::new(
                            SpecExpr {
                                kind: SpecExprKind::IntLit(a),
                                doc: None,
                                start: toks[0].start,
                            },
                        ),
                        right: Box::new(
                            SpecExpr {
                                kind: SpecExprKind::IntLit(b),
                                doc: None,
                                start: toks[2].start,
                            },
                        ),
                        kind: k,
                    },
                    doc: None,
                    start: toks[1].start,
                },
            ],
        ),
{
    let left = SpecExpr { kind: SpecExprKind::IntLit(a), doc: None, start: toks[0].start };
    let right = SpecExpr { kind: SpecExprKind::IntLit(b), doc: None, start: toks[2].start };
    let t1 = toks.drop_first();
    let t2 = t1.drop_first();
    assert(t1[0] == toks[1]);
    assert(t2[0] == toks[2]);
    assert(t2.drop_first() =~= toks.skip(3));
    assert(toks.skip(3).len() == 0);
    let op = SpecExpr {
        kind: SpecExprKind::Op { left: Box::new(left), right: Box::new(right), kind: k },
        doc: None,
        start: toks[1].start,
    };
    assert(spec_next(t2, None, None, false) == (SpecNext::Good {
        expr: right,
        buf: None,
        rest: t2.drop_first(),
    }));
    assert(spec_op_flow(t2, Some(left), k) == (SpecFlow::Done {
        val: SpecExprKind::Op { left: Box::new(left), right: Box::new(right), kind: k },
        rest: t2.drop_first(),
    }));
    assert(spec_next(t1, Some(left), None, true) == (SpecNext::Good {
        expr: op,
        buf: None,
        rest: t2.drop_first(),
    }));
    assert(spec_program(t2.drop_first(), Some(op)) == Result::<Seq<SpecExpr>, SpecParseStop>::Ok(
        seq![op],
    ));
    assert(clip(t1, toks) == t1);
    assert(clip(t2.drop_first(), t1) == t2.drop_first());
    assert(opt_seq(None) + seq![op] =~= seq![op]);
    assert(spec_program(t1, Some(left)) == Result::<Seq<SpecExpr>, SpecParseStop>::Ok(seq![op]));
    assert(spec_next(toks, None, None, true) == (SpecNext::Good {
        expr: left,
        buf: None,
        rest: t1,
    }));
}

/// Law: a program of the `let` keyword, an unqualified name, the assignment
/// sign and an integer literal parses to a single immutable binding of that
/// literal to that name.
pub proof fn lemma_let_binds(toks: Seq<SpecLexeme>, x: Seq<char>, v: i64)
    requires
        toks.len() == 4,
        toks[0].tok == SpecToken::Let,
        toks[1].tok == SpecToken::Path(crate::ast::SpecPath { fields: seq![], id: x }),
        toks[2].tok == SpecToken::Equals,
        toks[3].tok == SpecToken::Int(v),
    ensures
        spec_program(toks, None) == Result::<Seq<SpecExpr>, SpecParseStop>::Ok(
            seq![
                SpecExpr {
                    kind: SpecExprKind::Let {
                        path: crate::ast::SpecPath { fields: seq![], id: x },
                        mutable: false,
                        expr: Box::new(
                            SpecExpr {
                                kind: SpecExprKind::IntLit(v),
                                doc: None,
                                start: toks[3].start,
                            },
                        ),
                    },
                    doc: None,
                    start: toks[0].start,
                },
            ],
        ),
{
    let p = crate::ast::SpecPath { fields: seq![], id: x };
    let init = SpecExpr { kind: SpecExprKind::IntLit(v), doc: None, start: toks[3].start };
    let t1 = toks.drop_first();
    let t2 = t1.drop_first();
    let t3 = t2.drop_first();
    assert(t1[0] == toks[1]);
    assert(t2[0] == toks[2]);
    assert(t3[0] == toks[3]);
    assert(t3.drop_first() =~= toks.skip(4));
    assert(toks.skip(4).len() == 0);
    assert(spec_ensure(t2, SpecToken::Equals) == (SpecFlow::Done { val: (), rest: t3 }));
    assert(spec_next(t3, None, None, false) == (SpecNext::Good {
        expr: init,
        buf: None,
        rest: t3.drop_first(),
    }));
    assert(spec_let_tail(t2, p, false) == (SpecFlow::Done {
        val: SpecExprKind::Let { path: p, mutable: false, expr: Box::new(init) },
        rest: t3.drop_first(),
    }));
    assert(spec_let_flow(t1) == (SpecFlow::Done {
        val: SpecExprKind::Let { path: p, mutable: false, expr: Box::new(init) },
        rest: t3.drop_first(),
    }));
    let node = SpecExpr {
        kind: SpecExprKind::Let { path: p, mutable: false, expr: Box::new(init) },
        doc: None,
        start: toks[0].start,
    };
    assert(spec_next(toks, None, None, true) == (SpecNext::Good {
        expr: node,
        buf: None,
        rest: t3.drop_first(),
    }));
    assert(spec_program(t3.drop_first(), Some(node)) == Result::<Seq<SpecExpr>, SpecParseStop>::Ok(
        seq![node],
    ));
    assert(clip(t3.drop_first(), toks) == t3.drop_first());
    assert(opt_seq(None) + seq![node] =~= seq![node]);
}

/// Law: a class declaration whose name resolves to a scoped path rather than
/// a bare identifier fails with the class-name stop, whatever follows.
pub proof fn lemma_class_name_is_path(toks: Seq<SpecLexeme>, p: crate::ast::SpecPath)
    requires
        toks.len() >= 2,
        toks[0].tok == SpecToken::Class,
        toks[1].tok == SpecToken::Path(p),
        p.fields.len() != 0,
    ensures
        spec_program(toks, None) == Result::<Seq<SpecExpr>, SpecParseStop>::Err(
            SpecParseStop::ClassNameIsPath,
        ),
{
    let t1 = toks.drop_first();
    assert(t1[0] == toks[1]);
    assert(spec_class_flow(t1) == (SpecFlow::<SpecExprKind>::Stopped {
        stop: SpecParseStop::ClassNameIsPath,
        rest: t1.drop_first(),
    }));
}

/// Law: a program without any token parses to the empty sequence.
pub proof fn lemma_empty_program(toks: Seq<SpecLexeme>)
    requires
        toks.len() == 0,
    ensures
        spec_program(toks, None) == Result::<Seq<SpecExpr>, SpecParseStop>::Ok(
            Seq::<SpecExpr>::empty(),
        ),
{
    assert(opt_seq(None) =~= Seq::<SpecExpr>::empty());
}

/// Parses a complete source text into the resulting sequence of top-level
/// expressions, or the stop that ended parsing.
pub fn parse_program(input: &str) -> (r: Result<Vec<Expr>, ParseStop>)
    ensures
        match spec_parse_program(input@) {
            Ok(val) => r matches Ok(v) && view_exprs(v@) == val,
            Err(e) => r matches Err(s) && view_stop(s) == e,
        },
{
    let mut lex = Lexer::new(input);
    launch(&mut lex)
}

} // verus!
