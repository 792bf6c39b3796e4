//! Expression-centric abstract syntax tree, together with its mathematical
//! model: every node type has a ghost counterpart over `Seq` and `int`, and a
//! view function mapping the executable tree onto the model.

use vstd::prelude::*;

verus! {

/// Binary operation variants, defining the allowed kinds of an [`Op`] expression.
#[derive(Debug, Clone, Copy, PartialEq, Eq, Structural)]
pub enum OpKind {
    Add,
    Sub,
    Div,
    Greater,
    GreaterEq,
    Less,
    LessEq,
    EqEq,
    NotEq,
    And,
    Or,
}

/// Pre-validated identifier.
#[derive(Debug, Clone, PartialEq)]
pub struct Id(pub String);

/// Path to a node: scoping fields separated by `.` towards a final identifier.
#[derive(Debug, Clone, PartialEq)]
pub struct Path {
    pub fields: Vec<Id>,
    pub id: Id,
}

/// Model of a [`Path`]: the field names and the final name as char sequences.
pub struct SpecPath {
    pub fields: Seq<Seq<char>>,
    pub id: Seq<char>,
}

/// Central expression structure: a kind, an optional documentation string and
/// the offset of the first token consumed for the expression.
#[derive(Debug, PartialEq)]
pub struct Expr {
    /// Kind/variant of this expression, holding the underlying data.
    pub kind: ExprKind,
    /// Optional documentation string attached to this expression.
    pub doc: Option<String>,
    /// Starting character offset of this expression in the source.
    pub start: usize,
}

/// Expression kind enumeration: the closed set of constructs the tree can hold.
#[derive(Debug, PartialEq)]
pub enum ExprKind {
    Not(Not),
    Op(Op),
    Path(Path),
    Class(Class),
    Function(Function),
    Method(Method),
    FunctionCall(FunctionCall),
    If(If),
    While(While),
    Return(Return),
    Let(Let),
    LetSet(LetSet),
    LetCall(LetCall),
    IntLit(IntLit),
    FloatLit(FloatLit),
    StrLit(StrLit),
    CharLit(CharLit),
    BoolLit(BoolLit),
    SelfRef,
    NoneLit,
}

/// Right-associative not symbol.
#[derive(Debug, PartialEq)]
pub struct Not(pub Box<Expr>);

/// Binary operation combining two expressions by an [`OpKind`].
#[derive(Debug, PartialEq)]
pub struct Op {
    /// Leftmost expression.
    pub left: Box<Expr>,
    /// Rightmost expression.
    pub right: Box<Expr>,
    /// Operation joining [`Op::left`] and [`Op::right`].
    pub kind: OpKind,
}

/// Class definition.
#[derive(Debug, PartialEq)]
pub struct Class {
    /// Name of the class: always a bare identifier, never a scoped path.
    pub id: Id,
    /// Body of the class.
    pub body: Vec<Expr>,
}

/// Subprogram not linked to a class.
#[derive(Debug, PartialEq)]
pub struct Function {
    /// Name of the function.
    pub path: Path,
    /// Parameter identifiers.
    pub args: Vec<Id>,
    /// Body of the function.
    pub body: Vec<Expr>,
}

/// Class-linked subprogram, like [`Function`] but strictly bound to a class.
#[derive(Debug, PartialEq)]
pub struct Method {
    /// Name of the method.
    pub path: Path,
    /// Parameter identifiers.
    pub args: Vec<Id>,
    /// Body of the method.
    pub body: Vec<Expr>,
}

/// Invocation of a function with passed arguments.
#[derive(Debug, PartialEq)]
pub struct FunctionCall {
    /// Name of the called function.
    pub path: Path,
    /// Argument expressions passed to the call.
    pub args: Vec<Expr>,
}

/// Single condition/body pair inside an [`If`].
#[derive(Debug, PartialEq)]
pub struct IfSegment {
    /// Condition needed in order to fire.
    pub condition: Expr,
    /// Body of the segment.
    pub body: Vec<Expr>,
}

/// Default (`else`) body of an [`If`].
#[derive(Debug, PartialEq)]
pub struct IfDefault(pub Vec<Expr>);

/// Conditional with ordered segments and an optional default.
#[derive(Debug, PartialEq)]
pub struct If {
    /// Arranged as `if, else if, else if, ...`.
    pub segments: Vec<IfSegment>,
    /// Optional final `else`.
    pub default: Option<IfDefault>,
}

/// While loop firing its body repeatedly while the condition holds.
#[derive(Debug, PartialEq)]
pub struct While {
    /// Condition needed in order to fire.
    pub condition: Box<Expr>,
    /// Body of the loop.
    pub body: Vec<Expr>,
}

/// Return expression passing a value back from a subprogram.
#[derive(Debug, PartialEq)]
pub struct Return(pub Box<Expr>);

/// Let definition binding an initial expression to a name.
#[derive(Debug, PartialEq)]
pub struct Let {
    /// Name being bound.
    pub path: Path,
    /// Whether the binding may later be overwritten.
    pub mutable: bool,
    /// Expression giving the initial state.
    pub expr: Box<Expr>,
}

/// Reference to an existing binding through a scoped path.
#[derive(Debug, PartialEq)]
pub struct LetCall(pub Path);

/// Overwrite of an existing mutable binding.
#[derive(Debug, PartialEq)]
pub struct LetSet {
    /// Name being overwritten.
    pub path: Path,
    /// Expression giving the new state.
    pub expr: Box<Expr>,
}

/// Integer literal.
#[derive(Debug, Clone, PartialEq)]
pub struct IntLit(pub i64);

/// Float literal, carried as its source lexeme (digits, one dot, digits).
#[derive(Debug, Clone, PartialEq)]
pub struct FloatLit(pub String);

/// String literal.
#[derive(Debug, Clone, PartialEq)]
pub struct StrLit(pub String);

/// Char literal as a numeric codepoint.
#[derive(Debug, Clone, PartialEq)]
pub struct CharLit(pub u32);

/// Bool literal.
#[derive(Debug, Clone, PartialEq)]
pub struct BoolLit(pub bool);

/// Model of an [`Expr`].
pub struct SpecExpr {
    pub kind: SpecExprKind,
    pub doc: Option<Seq<char>>,
    pub start: int,
}

/// Model of an [`ExprKind`].
pub enum SpecExprKind {
    Not(Box<SpecExpr>),
    Op { left: Box<SpecExpr>, right: Box<SpecExpr>, kind: OpKind },
    Path(SpecPath),
    Class { id: Seq<char>, body: Seq<SpecExpr> },
    Function { path: SpecPath, args: Seq<Seq<char>>, body: Seq<SpecExpr> },
    Method { path: SpecPath, args: Seq<Seq<char>>, body: Seq<SpecExpr> },
    FunctionCall { path: SpecPath, args: Seq<SpecExpr> },
    If { segments: Seq<(SpecExpr, Seq<SpecExpr>)>, default: Option<Seq<SpecExpr>> },
    While { condition: Box<SpecExpr>, body: Seq<SpecExpr> },
    Return(Box<SpecExpr>),
    Let { path: SpecPath, mutable: bool, expr: Box<SpecExpr> },
    LetSet { path: SpecPath, expr: Box<SpecExpr> },
    LetCall(SpecPath),
    IntLit(i64),
    FloatLit(Seq<char>),
    StrLit(Seq<char>),
    CharLit(u32),
    BoolLit(bool),
    SelfRef,
    NoneLit,
}

/// Model of an optional documentation string.
pub open spec fn view_opt_str(d: Option<String>) -> Option<Seq<char>> {
    match d {
        Some(s) => Some(s@),
        None => None,
    }
}

/// Model of a parameter identifier list.
pub open spec fn view_ids(v: Seq<Id>) -> Seq<Seq<char>> {
    Seq::new(v.len(), |i: int| v[i]@)
}

/// Model of an expression, mapping every child onto its own model.
pub open spec fn view_expr(e: Expr) -> SpecExpr
    decreases e,
{
    SpecExpr { kind: view_expr_kind(e.kind), doc: view_opt_str(e.doc), start: e.start as int }
}

/// Model of a sequence of expressions.
pub open spec fn view_exprs(v: Seq<Expr>) -> Seq<SpecExpr>
    decreases v,
{
    Seq::new(
        v.len(),
        |i: int|
            if 0 <= i < v.len() {
                view_expr(v[i])
            } else {
                arbitrary()
            },
    )
}

/// Model of an expression kind.
pub open spec fn view_expr_kind(k: ExprKind) -> SpecExprKind
    decreases k,
{
    match k {
        ExprKind::Not(n) => SpecExprKind::Not(Box::new(view_expr(*n.0))),
        ExprKind::Op(o) => SpecExprKind::Op {
            left: Box::new(view_expr(*o.left)),
            right: Box::new(view_expr(*o.right)),
            kind: o.kind,
        },
        ExprKind::Path(p) => SpecExprKind::Path(p@),
        ExprKind::Class(c) => SpecExprKind::Class { id: c.id@, body: view_exprs(c.body@) },
        ExprKind::Function(f) => SpecExprKind::Function {
            path: f.path@,
            args: view_ids(f.args@),
            body: view_exprs(f.body@),
        },
        ExprKind::Method(m) => SpecExprKind::Method {
            path: m.path@,
            args: view_ids(m.args@),
            body: view_exprs(m.body@),
        },
        ExprKind::FunctionCall(f) => SpecExprKind::FunctionCall {
            path: f.path@,
            args: view_exprs(f.args@),
        },
        ExprKind::If(f) => SpecExprKind::If {
            segments: Seq::new(
                f.segments@.len(),
                |i: int|
                    if 0 <= i < f.segments@.len() {
                        (view_expr(f.segments@[i].condition), view_exprs(f.segments@[i].body@))
                    } else {
                        arbitrary()
                    },
            ),
            default: match f.default {
                Some(d) => Some(view_exprs(d.0@)),
                None => None,
            },
        },
        ExprKind::While(w) => SpecExprKind::While {
            condition: Box::new(view_expr(*w.condition)),
            body: view_exprs(w.body@),
        },
        ExprKind::Return(r) => SpecExprKind::Return(Box::new(view_expr(*r.0))),
        ExprKind::Let(l) => SpecExprKind::Let {
            path: l.path@,
            mutable: l.mutable,
            expr: Box::new(view_expr(*l.expr)),
        },
        ExprKind::LetSet(l) => SpecExprKind::LetSet {
            path: l.path@,
            expr: Box::new(view_expr(*l.expr)),
        },
        ExprKind::LetCall(l) => SpecExprKind::LetCall(l.0@),
        ExprKind::IntLit(v) => SpecExprKind::IntLit(v.0),
        ExprKind::FloatLit(v) => SpecExprKind::FloatLit(v.0@),
        ExprKind::StrLit(v) => SpecExprKind::StrLit(v.0@),
        ExprKind::CharLit(v) => SpecExprKind::CharLit(v.0),
        ExprKind::BoolLit(v) => SpecExprKind::BoolLit(v.0),
        ExprKind::SelfRef => SpecExprKind::SelfRef,
        ExprKind::NoneLit => SpecExprKind::NoneLit,
    }
}

impl View for Expr {
    type V = SpecExpr;

    open spec fn view(&self) -> SpecExpr {
        view_expr(*self)
    }
}

impl Id {
    pub open spec fn view(&self) -> Seq<char> {
        self.0@
    }
}

impl Path {
    pub open spec fn view(&self) -> SpecPath {
        SpecPath { fields: Seq::new(self.fields@.len(), |i: int| self.fields@[i]@), id: self.id@ }
    }

    /// Builds an unqualified path holding only a terminal identifier.
    pub fn new(id: String) -> (r: Path)
        ensures
            r@.fields == Seq::<Seq<char>>::empty(),
            r@.id == id@,
    {
        let r = Path { fields: Vec::new(), id: Id(id) };
        proof {
            assert(r@.fields =~= Seq::<Seq<char>>::empty());
        }
        r
    }

    /// Whether the path is an unqualified local name.
    pub fn local(&self) -> (r: bool)
        ensures
            r == (self@.fields.len() == 0),
    {
        self.fields.len() == 0
    }

    /// Converts to the single terminal identifier provided there are no other
    /// fields.
    pub fn to_id(self) -> (r: Option<Id>)
        ensures
            r == if self@.fields.len() == 0 {
                Some(Id(self.id.0))
            } else {
                Option::<Id>::None
            },
    {
        if self.fields.len() != 0 {
            None
        } else {
            Some(self.id)
        }
    }
}

} // verus!
