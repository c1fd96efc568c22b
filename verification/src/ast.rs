//! Syntax trees of Mest programs.
use vstd::prelude::*;

verus! {

/// A range of byte offsets in the source text.
#[derive(Debug, Clone, Copy, PartialEq, Eq, Hash)]
pub struct Span {
    pub start: usize,
    pub end: usize,
}

/// An identifier: an interned name and where it was written.
#[derive(Debug, Clone, Copy, PartialEq, Eq, Hash)]
pub struct Ident {
    pub name: usize,
    pub span: Span,
}

/// The text of a floating-point literal, written as a number: no leading
/// zeros before the point, no trailing zeros after it (see
/// `lexer::float_text`).
#[derive(Debug, Clone, PartialEq, Eq)]
pub struct FloatLit {
    pub text: String,
}

/// A literal value.
#[derive(Debug, Clone, PartialEq, Eq)]
pub enum Literal {
    Int(i64),
    Float(FloatLit),
    Bool(bool),
}

/// A binary operator.
#[derive(Debug, Clone, Copy, PartialEq, Eq, Hash)]
pub enum BinOp {
    Eq,
    NotEq,
    Lt,
    Gt,
    Le,
    Ge,
    And,
    Or,
    Add,
    Sub,
    Mul,
    Div,
    Pow,
}

/// A unary operator.
#[derive(Debug, Clone, Copy, PartialEq, Eq, Hash)]
pub enum UnaryOp {
    Neg,
    Not,
}

/// A pattern of a `match` arm or a lambda parameter.
#[derive(Debug)]
pub struct Pat {
    pub kind: Box<PatKind>,
    pub span: Span,
}

#[derive(Debug)]
pub enum PatKind {
    Wildcard,
    Var(Ident),
    Lit(Literal),
    Or(Pat, Pat),
    Tuple(Vec<Pat>),
    App { func: Pat, arg: Pat },
    Constructor { name: Ident, arg: Option<Pat> },
}

/// A pattern on the left of a `let` binding.
#[derive(Debug)]
pub struct BindPat {
    pub kind: BindPatKind,
    pub span: Span,
}

#[derive(Debug)]
pub enum BindPatKind {
    Var(Ident),
    Tuple(Vec<BindPat>),
}

/// One binding of a `let`: `rec? pattern = value`.
#[derive(Debug)]
pub struct Binding {
    pub rec: bool,
    pub pat: BindPat,
    pub value: Expr,
}

/// A built-in type named in a type definition.
#[derive(Debug, Clone, Copy, PartialEq, Eq)]
pub enum BuiltinType {
    Int,
    Float,
    Bool,
}

/// A type written in a type definition.
#[derive(Debug)]
pub struct TypeExpr {
    pub kind: Box<TypeExprKind>,
    pub span: Span,
}

#[derive(Debug)]
pub enum TypeExprKind {
    Builtin(BuiltinType),
    Named(Ident),
    Var(Ident),
    Tuple(Vec<TypeExpr>),
    Arrow { from: TypeExpr, to: TypeExpr },
}

/// A variant of a union type: a constructor name and an optional argument type.
#[derive(Debug)]
pub struct VariantDef {
    pub name: Ident,
    pub arg: Option<TypeExpr>,
}

/// A type definition of `type ... in`.
#[derive(Debug)]
pub struct TypeDef {
    pub name: Ident,
    pub params: Vec<Ident>,
    pub variants: Vec<VariantDef>,
}

/// An expression with its span.
#[derive(Debug)]
pub struct Expr {
    pub kind: Box<ExprKind>,
    pub span: Span,
}

#[derive(Debug)]
pub enum ExprKind {
    Literal(Literal),
    Var(Ident),
    If { cond: Expr, then_expr: Expr, else_expr: Expr },
    BinOp { op: BinOp, lhs: Expr, rhs: Expr },
    UnaryOp { op: UnaryOp, rhs: Expr },
    Let { bindings: Vec<Binding>, body: Expr },
    Match { scrutinee: Expr, arms: Vec<(Pat, Expr)> },
    Abs { param: Pat, body: Expr },
    App { func: Expr, arg: Expr },
    Tuple(Vec<Expr>),
    Type { definitions: Vec<TypeDef>, body: Expr },
    Constructor { name: Ident, arg: Option<Expr> },
}

impl ExprKind {
    fn node(kind: ExprKind, span: Span) -> (e: Expr)
        ensures
            *e.kind == kind,
            e.span == span,
    {
        Expr { kind: Box::new(kind), span }
    }

    /// A literal expression.
    pub fn literal(span: Span, lit: Literal) -> (e: Expr)
        ensures
            *e.kind == ExprKind::Literal(lit),
            e.span == span,
    {
        Self::node(ExprKind::Literal(lit), span)
    }

    /// A variable.
    pub fn ident(span: Span, name: Ident) -> (e: Expr)
        ensures
            *e.kind == ExprKind::Var(name),
            e.span == span,
    {
        Self::node(ExprKind::Var(name), span)
    }

    /// `if cond then then_expr else else_expr`.
    pub fn if_expr(span: Span, cond: Expr, then_expr: Expr, else_expr: Expr) -> (e: Expr)
        ensures
            *e.kind == (ExprKind::If { cond, then_expr, else_expr }),
            e.span == span,
    {
        Self::node(ExprKind::If { cond, then_expr, else_expr }, span)
    }

    /// `lhs op rhs`.
    pub fn binop(span: Span, op: BinOp, lhs: Expr, rhs: Expr) -> (e: Expr)
        ensures
            *e.kind == (ExprKind::BinOp { op, lhs, rhs }),
            e.span == span,
    {
        Self::node(ExprKind::BinOp { op, lhs, rhs }, span)
    }

    /// `op rhs`.
    pub fn unaryop(span: Span, op: UnaryOp, rhs: Expr) -> (e: Expr)
        ensures
            *e.kind == (ExprKind::UnaryOp { op, rhs }),
            e.span == span,
    {
        Self::node(ExprKind::UnaryOp { op, rhs }, span)
    }

    /// `let rec? name = value in body`: one binding of a plain name.
    pub fn let_expr(span: Span, name: Ident, value: Expr, body: Expr, rec: bool) -> (e: Expr)
        ensures
            *e.kind matches ExprKind::Let { bindings, body: b }
                && b == body
                && bindings@ == seq![Binding { rec, pat: BindPat { kind: BindPatKind::Var(name), span: name.span }, value }],
            e.span == span,
    {
        let binding = Binding { rec, pat: BindPat { kind: BindPatKind::Var(name), span: name.span }, value };
        let bindings = vec![binding];
        Self::node(ExprKind::Let { bindings, body }, span)
    }

    /// `match scrutinee | pat => expr ...`.
    pub fn match_expr(span: Span, scrutinee: Expr, arms: Vec<(Pat, Expr)>) -> (e: Expr)
        ensures
            *e.kind == (ExprKind::Match { scrutinee, arms }),
            e.span == span,
    {
        Self::node(ExprKind::Match { scrutinee, arms }, span)
    }

    /// `|param| body`, with a parameter that is a plain name.
    pub fn lambda(span: Span, param: Ident, body: Expr) -> (e: Expr)
        ensures
            *e.kind matches ExprKind::Abs { param: p, body: b }
                && *p.kind == PatKind::Var(param)
                && p.span == param.span
                && b == body,
            e.span == span,
    {
        let p = Pat { kind: Box::new(PatKind::Var(param)), span: param.span };
        Self::node(ExprKind::Abs { param: p, body }, span)
    }

    /// `func arg`.
    pub fn app(span: Span, func: Expr, arg: Expr) -> (e: Expr)
        ensures
            *e.kind == (ExprKind::App { func, arg }),
            e.span == span,
    {
        Self::node(ExprKind::App { func, arg }, span)
    }
}

} // verus!
