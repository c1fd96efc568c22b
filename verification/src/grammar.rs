//! What the parser reads from a token sequence, stated as functions on the
//! tokens: the tree it builds, where it stops, the names it interns, and
//! the token at which it fails. Trees are compared as values (`SExpr` and
//! the like), with texts in place of strings and sequences in place of
//! vectors.
use vstd::prelude::*;
use std::ops::Range;
use crate::ast::{
    BindPat, BindPatKind, Binding, BinOp, BuiltinType, Expr, ExprKind, Ident, Literal, Pat, PatKind,
    Span, TypeDef, TypeExpr, TypeExprKind, UnaryOp, VariantDef,
};
use crate::token::{token_text, Token};

verus! {

// ---------------------------------------------------------------------------
// Trees as values.
// ---------------------------------------------------------------------------

pub enum SLit {
    Int(i64),
    Float(Seq<char>),
    Bool(bool),
}

pub struct STypeExpr {
    pub kind: Box<STypeExprKind>,
    pub span: Span,
}

pub enum STypeExprKind {
    Builtin(BuiltinType),
    Named(Ident),
    Var(Ident),
    Tuple(Seq<STypeExpr>),
    Arrow { from: STypeExpr, to: STypeExpr },
}

pub struct SVariant {
    pub name: Ident,
    pub arg: Option<STypeExpr>,
}

pub struct STypeDef {
    pub name: Ident,
    pub params: Seq<Ident>,
    pub variants: Seq<SVariant>,
}

pub struct SPat {
    pub kind: Box<SPatKind>,
    pub span: Span,
}

pub enum SPatKind {
    Wildcard,
    Var(Ident),
    Lit(SLit),
    Or(SPat, SPat),
    Tuple(Seq<SPat>),
    App { func: SPat, arg: SPat },
    Constructor { name: Ident, arg: Option<SPat> },
}

pub struct SBindPat {
    pub kind: SBindPatKind,
    pub span: Span,
}

pub enum SBindPatKind {
    Var(Ident),
    Tuple(Seq<SBindPat>),
}

pub struct SBinding {
    pub rec: bool,
    pub pat: SBindPat,
    pub value: SExpr,
}

pub struct SExpr {
    pub kind: Box<SExprKind>,
    pub span: Span,
}

pub enum SExprKind {
    Literal(SLit),
    Var(Ident),
    If { cond: SExpr, then_expr: SExpr, else_expr: SExpr },
    BinOp { op: BinOp, lhs: SExpr, rhs: SExpr },
    UnaryOp { op: UnaryOp, rhs: SExpr },
    Let { bindings: Seq<SBinding>, body: SExpr },
    Match { scrutinee: SExpr, arms: Seq<(SPat, SExpr)> },
    Abs { param: SPat, body: SExpr },
    App { func: SExpr, arg: SExpr },
    Tuple(Seq<SExpr>),
    Type { definitions: Seq<STypeDef>, body: SExpr },
    Constructor { name: Ident, arg: Option<SExpr> },
}

pub open spec fn lit_view(l: Literal) -> SLit {
    match l {
        Literal::Int(n) => SLit::Int(n),
        Literal::Float(f) => SLit::Float(f.text@),
        Literal::Bool(b) => SLit::Bool(b),
    }
}

pub open spec fn texpr_view(t: TypeExpr) -> STypeExpr
    decreases t,
{
    STypeExpr {
        kind: Box::new(match *t.kind {
            TypeExprKind::Builtin(b) => STypeExprKind::Builtin(b),
            TypeExprKind::Named(n) => STypeExprKind::Named(n),
            TypeExprKind::Var(n) => STypeExprKind::Var(n),
            TypeExprKind::Tuple(ts) => STypeExprKind::Tuple(
                Seq::new(ts@.len(), |i: int| if 0 <= i < ts@.len() { texpr_view(ts@[i]) } else { t_dummy() }),
            ),
            TypeExprKind::Arrow { from, to } => STypeExprKind::Arrow { from: texpr_view(from), to: texpr_view(to) },
        }),
        span: t.span,
    }
}

pub open spec fn t_dummy() -> STypeExpr {
    STypeExpr { kind: Box::new(STypeExprKind::Builtin(BuiltinType::Int)), span: Span { start: 0, end: 0 } }
}

pub open spec fn variant_view(v: VariantDef) -> SVariant {
    SVariant {
        name: v.name,
        arg: match v.arg {
            Some(t) => Some(texpr_view(t)),
            None => None,
        },
    }
}

pub open spec fn typedef_view(d: TypeDef) -> STypeDef {
    STypeDef {
        name: d.name,
        params: d.params@,
        variants: Seq::new(d.variants@.len(), |i: int| variant_view(d.variants@[i])),
    }
}

pub open spec fn pat_view(p: Pat) -> SPat
    decreases p,
{
    SPat {
        kind: Box::new(match *p.kind {
            PatKind::Wildcard => SPatKind::Wildcard,
            PatKind::Var(n) => SPatKind::Var(n),
            PatKind::Lit(l) => SPatKind::Lit(lit_view(l)),
            PatKind::Or(a, b) => SPatKind::Or(pat_view(a), pat_view(b)),
            PatKind::Tuple(ps) => SPatKind::Tuple(
                Seq::new(ps@.len(), |i: int| if 0 <= i < ps@.len() { pat_view(ps@[i]) } else { p_dummy() }),
            ),
            PatKind::App { func, arg } => SPatKind::App { func: pat_view(func), arg: pat_view(arg) },
            PatKind::Constructor { name, arg } => SPatKind::Constructor {
                name,
                arg: match arg {
                    Some(a) => Some(pat_view(a)),
                    None => None,
                },
            },
        }),
        span: p.span,
    }
}

pub open spec fn p_dummy() -> SPat {
    SPat { kind: Box::new(SPatKind::Wildcard), span: Span { start: 0, end: 0 } }
}

pub open spec fn bind_pat_view(p: BindPat) -> SBindPat
    decreases p,
{
    SBindPat {
        kind: match p.kind {
            BindPatKind::Var(n) => SBindPatKind::Var(n),
            BindPatKind::Tuple(ps) => SBindPatKind::Tuple(
                Seq::new(ps@.len(), |i: int| if 0 <= i < ps@.len() { bind_pat_view(ps@[i]) } else { bp_dummy() }),
            ),
        },
        span: p.span,
    }
}

pub open spec fn bp_dummy() -> SBindPat {
    SBindPat { kind: SBindPatKind::Tuple(Seq::empty()), span: Span { start: 0, end: 0 } }
}

pub open spec fn expr_view(e: Expr) -> SExpr
    decreases e, 1nat,
{
    SExpr {
        kind: Box::new(match *e.kind {
            ExprKind::Literal(l) => SExprKind::Literal(lit_view(l)),
            ExprKind::Var(n) => SExprKind::Var(n),
            ExprKind::If { cond, then_expr, else_expr } => SExprKind::If {
                cond: expr_view(cond),
                then_expr: expr_view(then_expr),
                else_expr: expr_view(else_expr),
            },
            ExprKind::BinOp { op, lhs, rhs } => SExprKind::BinOp { op, lhs: expr_view(lhs), rhs: expr_view(rhs) },
            ExprKind::UnaryOp { op, rhs } => SExprKind::UnaryOp { op, rhs: expr_view(rhs) },
            ExprKind::Let { bindings, body } => SExprKind::Let {
                bindings: Seq::new(bindings@.len(), |i: int| if 0 <= i < bindings@.len() {
                    binding_view(bindings@[i])
                } else {
                    b_dummy()
                }),
                body: expr_view(body),
            },
            ExprKind::Match { scrutinee, arms } => SExprKind::Match {
                scrutinee: expr_view(scrutinee),
                arms: Seq::new(arms@.len(), |i: int| if 0 <= i < arms@.len() {
                    (pat_view(arms@[i].0), expr_view(arms@[i].1))
                } else {
                    (p_dummy(), e_dummy())
                }),
            },
            ExprKind::Abs { param, body } => SExprKind::Abs { param: pat_view(param), body: expr_view(body) },
            ExprKind::App { func, arg } => SExprKind::App { func: expr_view(func), arg: expr_view(arg) },
            ExprKind::Tuple(items) => SExprKind::Tuple(
                Seq::new(items@.len(), |i: int| if 0 <= i < items@.len() { expr_view(items@[i]) } else { e_dummy() }),
            ),
            ExprKind::Type { definitions, body } => SExprKind::Type {
                definitions: Seq::new(definitions@.len(), |i: int| typedef_view(definitions@[i])),
                body: expr_view(body),
            },
            ExprKind::Constructor { name, arg } => SExprKind::Constructor {
                name,
                arg: match arg {
                    Some(a) => Some(expr_view(a)),
                    None => None,
                },
            },
        }),
        span: e.span,
    }
}

pub open spec fn binding_view(b: Binding) -> SBinding
    decreases b, 0nat,
{
    SBinding { rec: b.rec, pat: bind_pat_view(b.pat), value: expr_view(b.value) }
}

pub open spec fn e_dummy() -> SExpr {
    SExpr { kind: Box::new(SExprKind::Tuple(Seq::empty())), span: Span { start: 0, end: 0 } }
}

pub open spec fn b_dummy() -> SBinding {
    SBinding { rec: false, pat: bp_dummy(), value: e_dummy() }
}

// ---------------------------------------------------------------------------
// Reading tokens.
// ---------------------------------------------------------------------------

/// What a parse from some token gives: the tree, the token after it and the
/// names then interned; or the token at which it fails and the names then
/// interned.
pub enum Parsed<T> {
    Done(T, nat, Seq<Seq<char>>),
    Failed(nat, Seq<Seq<char>>),
}

pub type Toks = Seq<(Token, Range<usize>)>;

/// The span from the start of token `i` to the end of token `j - 1`.
pub open spec fn span(toks: Toks, i: nat, j: nat) -> Span {
    Span { start: toks[i as int].1.start, end: toks[j - 1].1.end }
}

/// Whether token `i` is `kind`.
pub open spec fn at(toks: Toks, i: nat, kind: Token) -> bool {
    i < toks.len() && toks[i as int].0 == kind
}

/// The key of `text` among `names`, interning it when it is new.
pub open spec fn intern(names: Seq<Seq<char>>, text: Seq<char>) -> (usize, Seq<Seq<char>>) {
    if names.contains(text) {
        (names.index_of(text) as usize, names)
    } else {
        (names.len() as usize, names.push(text))
    }
}

/// The identifier of token `i`, whose text is `text`.
pub open spec fn ident(toks: Toks, i: nat, key: usize) -> Ident {
    Ident { name: key, span: span(toks, i, i + 1) }
}

/// The literal of a token, if it is one.
pub open spec fn literal_of(t: Token) -> Option<SLit> {
    match t {
        Token::Int(n) => Some(SLit::Int(n)),
        Token::Float(text) => Some(SLit::Float(text@)),
        Token::True => Some(SLit::Bool(true)),
        Token::False => Some(SLit::Bool(false)),
        _ => None,
    }
}

/// Whether token `i` can start a pattern atom (and an expression atom).
pub open spec fn starts_atom(toks: Toks, i: nat) -> bool {
    i < toks.len() && (toks[i as int].0 is Ident || toks[i as int].0 is Int || toks[i as int].0 is Float
        || toks[i as int].0 is True || toks[i as int].0 is False || toks[i as int].0 is LParen)
}

/// Whether token `i` can start a type atom.
pub open spec fn starts_tatom(toks: Toks, i: nat) -> bool {
    i < toks.len() && (toks[i as int].0 is Ident || toks[i as int].0 is LParen)
}

/// The infix operator of token `i`, with how tightly it binds on its left
/// and on its right.
pub open spec fn infix(toks: Toks, i: nat) -> Option<(BinOp, u32, u32)> {
    if i >= toks.len() {
        None
    } else {
        match toks[i as int].0 {
            Token::Caret => Some((BinOp::Pow, 9, 8)),
            Token::Star => Some((BinOp::Mul, 6, 7)),
            Token::Slash => Some((BinOp::Div, 6, 7)),
            Token::Plus => Some((BinOp::Add, 4, 5)),
            Token::Minus => Some((BinOp::Sub, 4, 5)),
            Token::EqEq => Some((BinOp::Eq, 2, 3)),
            Token::BangEq => Some((BinOp::NotEq, 2, 3)),
            Token::Lt => Some((BinOp::Lt, 2, 3)),
            Token::Gt => Some((BinOp::Gt, 2, 3)),
            Token::LtEq => Some((BinOp::Le, 2, 3)),
            Token::GtEq => Some((BinOp::Ge, 2, 3)),
            Token::AndAnd => Some((BinOp::And, 0, 1)),
            Token::PipePipe => Some((BinOp::Or, 0, 1)),
            _ => None,
        }
    }
}

/// Where the error of failing at token `k` (or at the end) points.
pub open spec fn error_span(toks: Toks, k: nat) -> Span {
    if k < toks.len() {
        Span { start: toks[k as int].1.start, end: toks[k as int].1.end }
    } else {
        let end = if toks.len() > 0 { toks[toks.len() - 1].1.end } else { 0 };
        Span { start: end, end }
    }
}

/// The message of failing at token `k`.
pub open spec fn error_text(toks: Toks, k: nat) -> Seq<char> {
    if k < toks.len() {
        "unexpected token `"@ + token_text(toks[k as int].0@) + "`"@
    } else {
        "unexpected end of input"@
    }
}

/// Whether a parse result agrees with what the grammar gives, where the
/// interner now holds `names`.
pub open spec fn agrees<S>(r: Result<(S, nat), (Span, Seq<char>)>, names: Seq<Seq<char>>, toks: Toks, p: Parsed<S>) -> bool {
    match p {
        Parsed::Done(v, j, n) => r == Ok::<(S, nat), (Span, Seq<char>)>((v, j)) && names == n,
        Parsed::Failed(k, n) => r == Err::<(S, nat), (Span, Seq<char>)>((error_span(toks, k), error_text(toks, k))) && names == n,
    }
}

// ---------------------------------------------------------------------------
// Types.
// ---------------------------------------------------------------------------

/// A type: an atom, or an atom `=>` a type.
pub open spec fn p_texpr(toks: Toks, i: nat, names: Seq<Seq<char>>) -> Parsed<STypeExpr>
    decreases toks.len() - i, 3nat,
{
    match p_tatom(toks, i, names) {
        Parsed::Failed(e, n) => Parsed::Failed(e, n),
        Parsed::Done(from, k, n1) => if at(toks, k, Token::StrongArrow) && k >= i {
            match p_texpr(toks, k + 1, n1) {
                Parsed::Failed(e, n) => Parsed::Failed(e, n),
                Parsed::Done(to, j, n2) => Parsed::Done(
                    STypeExpr { kind: Box::new(STypeExprKind::Arrow { from, to }), span: span(toks, i, j) }, j, n2),
            }
        } else {
            Parsed::Done(from, k, n1)
        },
    }
}

/// A type atom: a built-in type, a named type (capitalised), a type
/// variable, a type in parentheses, or a tuple of types.
pub open spec fn p_tatom(toks: Toks, i: nat, names: Seq<Seq<char>>) -> Parsed<STypeExpr>
    decreases toks.len() - i, 2nat,
{
    if i >= toks.len() {
        Parsed::Failed(i, names)
    } else {
        let sp = span(toks, i, i + 1);
        match toks[i as int].0 {
            Token::Ident(s) => if s@ == "Int"@ {
                Parsed::Done(STypeExpr { kind: Box::new(STypeExprKind::Builtin(BuiltinType::Int)), span: sp }, i + 1, names)
            } else if s@ == "Float"@ {
                Parsed::Done(STypeExpr { kind: Box::new(STypeExprKind::Builtin(BuiltinType::Float)), span: sp }, i + 1, names)
            } else if s@ == "Bool"@ {
                Parsed::Done(STypeExpr { kind: Box::new(STypeExprKind::Builtin(BuiltinType::Bool)), span: sp }, i + 1, names)
            } else {
                let (key, n1) = intern(names, s@);
                let id = ident(toks, i, key);
                if s@.len() > 0 && crate::parser::uppercase(s@[0]) {
                    Parsed::Done(STypeExpr { kind: Box::new(STypeExprKind::Named(id)), span: sp }, i + 1, n1)
                } else {
                    Parsed::Done(STypeExpr { kind: Box::new(STypeExprKind::Var(id)), span: sp }, i + 1, n1)
                }
            },
            Token::LParen => match p_texpr(toks, i + 1, names) {
                Parsed::Failed(e, n) => Parsed::Failed(e, n),
                Parsed::Done(first, k, n1) => if at(toks, k, Token::RParen) {
                    Parsed::Done(first, k + 1, n1)
                } else if k <= i || k > toks.len() {
                    Parsed::Failed(k, n1)
                } else {
                    p_tatom_items(toks, i, k, seq![first], n1)
                },
            },
            _ => Parsed::Failed(i, names),
        }
    }
}

/// The rest of a tuple of types, from token `k`.
pub open spec fn p_tatom_items(toks: Toks, i: nat, k: nat, items: Seq<STypeExpr>, names: Seq<Seq<char>>) -> Parsed<STypeExpr>
    decreases toks.len() - k, 4nat,
{
    if at(toks, k, Token::Comma) {
        match p_texpr(toks, k + 1, names) {
            Parsed::Failed(e, n) => Parsed::Failed(e, n),
            Parsed::Done(t, j, n1) => if j <= k || j > toks.len() {
                Parsed::Failed(j, n1)
            } else {
                p_tatom_items(toks, i, j, items.push(t), n1)
            },
        }
    } else if items.len() >= 2 && at(toks, k, Token::RParen) {
        Parsed::Done(STypeExpr { kind: Box::new(STypeExprKind::Tuple(items)), span: span(toks, i, k + 1) }, k + 1, names)
    } else {
        Parsed::Failed(k, names)
    }
}

// ---------------------------------------------------------------------------
// Patterns.
// ---------------------------------------------------------------------------

/// A pattern: atoms, each after the first applied to the pattern so far.
pub open spec fn p_pat(toks: Toks, i: nat, names: Seq<Seq<char>>) -> Parsed<SPat>
    decreases toks.len() - i, 3nat,
{
    match p_pat_atom(toks, i, names) {
        Parsed::Failed(e, n) => Parsed::Failed(e, n),
        Parsed::Done(p, k, n1) => if k <= i || k > toks.len() {
            Parsed::Failed(k, n1)
        } else {
            p_pat_tail(toks, i, k, p, n1)
        },
    }
}

/// The arguments of a pattern application, from token `k`.
pub open spec fn p_pat_tail(toks: Toks, i: nat, k: nat, p: SPat, names: Seq<Seq<char>>) -> Parsed<SPat>
    decreases toks.len() - k, 4nat,
{
    if starts_atom(toks, k) {
        match p_pat_atom(toks, k, names) {
            Parsed::Failed(e, n) => Parsed::Failed(e, n),
            Parsed::Done(arg, j, n1) => if j <= k || j > toks.len() {
                Parsed::Failed(j, n1)
            } else {
                p_pat_tail(toks, i, j, SPat { kind: Box::new(SPatKind::App { func: p, arg }), span: span(toks, i, j) }, n1)
            },
        }
    } else {
        Parsed::Done(p, k, names)
    }
}

/// A pattern atom: a literal, `_`, a name, or a tuple of patterns.
pub open spec fn p_pat_atom(toks: Toks, i: nat, names: Seq<Seq<char>>) -> Parsed<SPat>
    decreases toks.len() - i, 2nat,
{
    if i >= toks.len() {
        Parsed::Failed(i, names)
    } else {
        let sp = span(toks, i, i + 1);
        match literal_of(toks[i as int].0) {
            Some(l) => Parsed::Done(SPat { kind: Box::new(SPatKind::Lit(l)), span: sp }, i + 1, names),
            None => match toks[i as int].0 {
                Token::Ident(s) => if s@ == "_"@ {
                    Parsed::Done(SPat { kind: Box::new(SPatKind::Wildcard), span: sp }, i + 1, names)
                } else {
                    let (key, n1) = intern(names, s@);
                    Parsed::Done(SPat { kind: Box::new(SPatKind::Var(ident(toks, i, key))), span: sp }, i + 1, n1)
                },
                Token::LParen => match p_pat(toks, i + 1, names) {
                    Parsed::Failed(e, n) => Parsed::Failed(e, n),
                    Parsed::Done(first, k, n1) => if !at(toks, k, Token::Comma) {
                        Parsed::Failed(k, n1)
                    } else if at(toks, k + 1, Token::RParen) {
                        Parsed::Done(SPat { kind: Box::new(SPatKind::Tuple(seq![first])), span: span(toks, i, k + 2) }, k + 2, n1)
                    } else if k <= i || k > toks.len() {
                        Parsed::Failed(k, n1)
                    } else {
                        p_pat_items(toks, i, k, seq![first], n1)
                    },
                },
                _ => Parsed::Failed(i, names),
            },
        }
    }
}

/// The rest of a tuple of patterns, from token `k`.
pub open spec fn p_pat_items(toks: Toks, i: nat, k: nat, items: Seq<SPat>, names: Seq<Seq<char>>) -> Parsed<SPat>
    decreases toks.len() - k, 4nat,
{
    if at(toks, k, Token::Comma) {
        match p_pat(toks, k + 1, names) {
            Parsed::Failed(e, n) => Parsed::Failed(e, n),
            Parsed::Done(p, j, n1) => if j <= k || j > toks.len() {
                Parsed::Failed(j, n1)
            } else {
                p_pat_items(toks, i, j, items.push(p), n1)
            },
        }
    } else if at(toks, k, Token::RParen) {
        Parsed::Done(SPat { kind: Box::new(SPatKind::Tuple(items)), span: span(toks, i, k + 1) }, k + 1, names)
    } else {
        Parsed::Failed(k, names)
    }
}

/// A `let` pattern: a name, or a tuple of `let` patterns.
pub open spec fn p_bind_pat(toks: Toks, i: nat, names: Seq<Seq<char>>) -> Parsed<SBindPat>
    decreases toks.len() - i, 1nat,
{
    if i >= toks.len() {
        Parsed::Failed(i, names)
    } else {
        let sp = span(toks, i, i + 1);
        match toks[i as int].0 {
            Token::Ident(s) => {
                let (key, n1) = intern(names, s@);
                Parsed::Done(SBindPat { kind: SBindPatKind::Var(ident(toks, i, key)), span: sp }, i + 1, n1)
            },
            Token::LParen => match p_bind_pat(toks, i + 1, names) {
                Parsed::Failed(e, n) => Parsed::Failed(e, n),
                Parsed::Done(first, k, n1) => if !at(toks, k, Token::Comma) {
                    Parsed::Failed(k, n1)
                } else if at(toks, k + 1, Token::RParen) {
                    Parsed::Done(SBindPat { kind: SBindPatKind::Tuple(seq![first]), span: span(toks, i, k + 2) }, k + 2, n1)
                } else if k <= i || k > toks.len() {
                    Parsed::Failed(k, n1)
                } else {
                    p_bind_items(toks, i, k, seq![first], n1)
                },
            },
            _ => Parsed::Failed(i, names),
        }
    }
}

/// The rest of a tuple of `let` patterns, from token `k`.
pub open spec fn p_bind_items(toks: Toks, i: nat, k: nat, items: Seq<SBindPat>, names: Seq<Seq<char>>) -> Parsed<SBindPat>
    decreases toks.len() - k, 2nat,
{
    if at(toks, k, Token::Comma) {
        match p_bind_pat(toks, k + 1, names) {
            Parsed::Failed(e, n) => Parsed::Failed(e, n),
            Parsed::Done(p, j, n1) => if j <= k || j > toks.len() {
                Parsed::Failed(j, n1)
            } else {
                p_bind_items(toks, i, j, items.push(p), n1)
            },
        }
    } else if at(toks, k, Token::RParen) {
        Parsed::Done(SBindPat { kind: SBindPatKind::Tuple(items), span: span(toks, i, k + 1) }, k + 1, names)
    } else {
        Parsed::Failed(k, names)
    }
}

// ---------------------------------------------------------------------------
// Type definitions.
// ---------------------------------------------------------------------------

/// A variant: a constructor name and, when a type atom follows, its
/// argument's type.
pub open spec fn p_variant(toks: Toks, i: nat, names: Seq<Seq<char>>) -> Parsed<SVariant> {
    if i >= toks.len() {
        Parsed::Failed(i, names)
    } else {
        match toks[i as int].0 {
            Token::Ident(s) => {
                let (key, n1) = intern(names, s@);
                let name = ident(toks, i, key);
                if starts_tatom(toks, i + 1) {
                    match p_texpr(toks, i + 1, n1) {
                        Parsed::Failed(e, n) => Parsed::Failed(e, n),
                        Parsed::Done(t, j, n2) => Parsed::Done(SVariant { name, arg: Some(t) }, j, n2),
                    }
                } else {
                    Parsed::Done(SVariant { name, arg: None }, i + 1, n1)
                }
            },
            _ => Parsed::Failed(i, names),
        }
    }
}

/// A type definition: a name `=` variants each after `|`, or a type (one
/// constructor named like the type).
pub open spec fn p_type_def(toks: Toks, i: nat, names: Seq<Seq<char>>) -> Parsed<STypeDef> {
    if i >= toks.len() {
        Parsed::Failed(i, names)
    } else {
        match toks[i as int].0 {
            Token::Ident(s) => {
                let (key, n1) = intern(names, s@);
                let name = ident(toks, i, key);
                if !at(toks, i + 1, Token::Eq) {
                    Parsed::Failed(i + 1, n1)
                } else if at(toks, i + 2, Token::Pipe) {
                    p_variants(toks, name, i + 2, Seq::empty(), n1)
                } else {
                    match p_texpr(toks, i + 2, n1) {
                        Parsed::Failed(e, n) => Parsed::Failed(e, n),
                        Parsed::Done(t, j, n2) => Parsed::Done(
                            STypeDef { name, params: Seq::empty(), variants: seq![SVariant { name, arg: Some(t) }] }, j, n2),
                    }
                }
            },
            _ => Parsed::Failed(i, names),
        }
    }
}

/// The variants of a definition, each after `|`, from token `k`.
pub open spec fn p_variants(toks: Toks, name: Ident, k: nat, vs: Seq<SVariant>, names: Seq<Seq<char>>) -> Parsed<STypeDef>
    decreases toks.len() - k,
{
    if at(toks, k, Token::Pipe) {
        match p_variant(toks, k + 1, names) {
            Parsed::Failed(e, n) => Parsed::Failed(e, n),
            Parsed::Done(v, j, n1) => if j <= k || j > toks.len() {
                Parsed::Failed(j, n1)
            } else {
                p_variants(toks, name, j, vs.push(v), n1)
            },
        }
    } else {
        Parsed::Done(STypeDef { name, params: Seq::empty(), variants: vs }, k, names)
    }
}

// ---------------------------------------------------------------------------
// Expressions.
// ---------------------------------------------------------------------------

pub open spec fn mk(kind: SExprKind, sp: Span) -> SExpr {
    SExpr { kind: Box::new(kind), span: sp }
}

/// An expression.
pub open spec fn p_expr(toks: Toks, i: nat, names: Seq<Seq<char>>) -> Parsed<SExpr>
    decreases toks.len() - i, 9nat,
{
    if i < toks.len() {
        match toks[i as int].0 {
            Token::Type => p_type_in(toks, i, names),
            Token::If => p_if(toks, i, names),
            Token::Match => p_match(toks, i, names),
            Token::Let => p_let(toks, i, names),
            Token::Pipe => p_lambda(toks, i, names),
            _ => p_pratt(toks, i, 0, names),
        }
    } else {
        p_pratt(toks, i, 0, names)
    }
}

/// `if` cond `then` expr `else` expr.
pub open spec fn p_if(toks: Toks, i: nat, names: Seq<Seq<char>>) -> Parsed<SExpr>
    decreases toks.len() - i, 8nat,
{
    if i >= toks.len() {
        Parsed::Failed(i, names)
    } else {
        match p_pratt(toks, i + 1, 0, names) {
            Parsed::Failed(e, n) => Parsed::Failed(e, n),
            Parsed::Done(cond, k1, n1) => if !at(toks, k1, Token::Then) || k1 < i {
                Parsed::Failed(k1, n1)
            } else {
                match p_pratt(toks, k1 + 1, 0, n1) {
                    Parsed::Failed(e, n) => Parsed::Failed(e, n),
                    Parsed::Done(then_expr, k2, n2) => if !at(toks, k2, Token::Else) || k2 < i {
                        Parsed::Failed(k2, n2)
                    } else {
                        match p_expr(toks, k2 + 1, n2) {
                            Parsed::Failed(e, n) => Parsed::Failed(e, n),
                            Parsed::Done(else_expr, j, n3) => Parsed::Done(
                                mk(SExprKind::If { cond, then_expr, else_expr }, span(toks, i, j)), j, n3),
                        }
                    },
                }
            },
        }
    }
}

/// `|` pattern `|` body.
pub open spec fn p_lambda(toks: Toks, i: nat, names: Seq<Seq<char>>) -> Parsed<SExpr>
    decreases toks.len() - i, 8nat,
{
    if i >= toks.len() {
        Parsed::Failed(i, names)
    } else {
        match p_pat(toks, i + 1, names) {
            Parsed::Failed(e, n) => Parsed::Failed(e, n),
            Parsed::Done(param, k, n1) => if !at(toks, k, Token::Pipe) || k < i {
                Parsed::Failed(k, n1)
            } else {
                match p_expr(toks, k + 1, n1) {
                    Parsed::Failed(e, n) => Parsed::Failed(e, n),
                    Parsed::Done(body, j, n2) => Parsed::Done(mk(SExprKind::Abs { param, body }, span(toks, i, j)), j, n2),
                }
            },
        }
    }
}

/// `match` scrutinee, then one or more arms.
pub open spec fn p_match(toks: Toks, i: nat, names: Seq<Seq<char>>) -> Parsed<SExpr>
    decreases toks.len() - i, 8nat,
{
    if i >= toks.len() {
        Parsed::Failed(i, names)
    } else {
        match p_pratt(toks, i + 1, 0, names) {
            Parsed::Failed(e, n) => Parsed::Failed(e, n),
            Parsed::Done(scrutinee, k, n1) => if k <= i || k > toks.len() {
                Parsed::Failed(k, n1)
            } else {
                p_arms(toks, i, k, scrutinee, Seq::empty(), n1)
            },
        }
    }
}

/// The arms of a `match`, each `|` pattern `=>` body, from token `k`.
pub open spec fn p_arms(toks: Toks, i: nat, k: nat, scrutinee: SExpr, arms: Seq<(SPat, SExpr)>, names: Seq<Seq<char>>) -> Parsed<SExpr>
    decreases toks.len() - k, 10nat,
{
    if at(toks, k, Token::Pipe) {
        match p_pat(toks, k + 1, names) {
            Parsed::Failed(e, n) => Parsed::Failed(e, n),
            Parsed::Done(pat, k2, n1) => if !at(toks, k2, Token::StrongArrow) || k2 <= k {
                Parsed::Failed(k2, n1)
            } else {
                match p_expr(toks, k2 + 1, n1) {
                    Parsed::Failed(e, n) => Parsed::Failed(e, n),
                    Parsed::Done(body, j, n2) => if j <= k || j > toks.len() {
                        Parsed::Failed(j, n2)
                    } else {
                        p_arms(toks, i, j, scrutinee, arms.push((pat, body)), n2)
                    },
                }
            },
        }
    } else if arms.len() == 0 {
        Parsed::Failed(k, names)
    } else {
        Parsed::Done(mk(SExprKind::Match { scrutinee, arms }, span(toks, i, k)), k, names)
    }
}

/// The parameters of a binding become lambdas around its value, the last
/// innermost, each spanning its parameter.
pub open spec fn wrap_params(params: Seq<SPat>, value: SExpr) -> SExpr
    decreases params.len(),
{
    if params.len() == 0 {
        value
    } else {
        wrap_params(params.drop_last(), mk(SExprKind::Abs { param: params.last(), body: value }, params.last().span))
    }
}

/// A binding: `rec`? pattern parameters `=` value.
pub open spec fn p_binding(toks: Toks, i: nat, names: Seq<Seq<char>>) -> Parsed<SBinding>
    decreases toks.len() - i, 7nat,
{
    let rec = at(toks, i, Token::Rec);
    let start = if rec { i + 1 } else { i };
    match p_bind_pat(toks, start, names) {
        Parsed::Failed(e, n) => Parsed::Failed(e, n),
        Parsed::Done(pat, k, n1) => if k <= i || k > toks.len() {
            Parsed::Failed(k, n1)
        } else {
            p_params(toks, rec, pat, k, Seq::empty(), n1)
        },
    }
}

/// The parameters of a binding from token `k`, then `=` and its value.
pub open spec fn p_params(toks: Toks, rec: bool, pat: SBindPat, k: nat, params: Seq<SPat>, names: Seq<Seq<char>>) -> Parsed<SBinding>
    decreases toks.len() - k, 10nat,
{
    if starts_atom(toks, k) {
        match p_pat_atom(toks, k, names) {
            Parsed::Failed(e, n) => Parsed::Failed(e, n),
            Parsed::Done(p, j, n1) => if j <= k || j > toks.len() {
                Parsed::Failed(j, n1)
            } else {
                p_params(toks, rec, pat, j, params.push(p), n1)
            },
        }
    } else if !at(toks, k, Token::Eq) {
        Parsed::Failed(k, names)
    } else {
        match p_expr(toks, k + 1, names) {
            Parsed::Failed(e, n) => Parsed::Failed(e, n),
            Parsed::Done(value, j, n1) => Parsed::Done(SBinding { rec, pat, value: wrap_params(params, value) }, j, n1),
        }
    }
}

/// `let` binding (`and` binding)* `in` body.
pub open spec fn p_let(toks: Toks, i: nat, names: Seq<Seq<char>>) -> Parsed<SExpr>
    decreases toks.len() - i, 8nat,
{
    if i >= toks.len() {
        Parsed::Failed(i, names)
    } else {
        match p_binding(toks, i + 1, names) {
            Parsed::Failed(e, n) => Parsed::Failed(e, n),
            Parsed::Done(b, j, n1) => if j <= i || j > toks.len() {
                Parsed::Failed(j, n1)
            } else {
                p_let_rest(toks, i, j, seq![b], n1)
            },
        }
    }
}

/// More bindings, each after `and`, from token `k`, then `in` and the body.
pub open spec fn p_let_rest(toks: Toks, i: nat, k: nat, bindings: Seq<SBinding>, names: Seq<Seq<char>>) -> Parsed<SExpr>
    decreases toks.len() - k, 10nat,
{
    if at(toks, k, Token::And) {
        match p_binding(toks, k + 1, names) {
            Parsed::Failed(e, n) => Parsed::Failed(e, n),
            Parsed::Done(b, j, n1) => if j <= k || j > toks.len() {
                Parsed::Failed(j, n1)
            } else {
                p_let_rest(toks, i, j, bindings.push(b), n1)
            },
        }
    } else if !at(toks, k, Token::In) {
        Parsed::Failed(k, names)
    } else {
        match p_expr(toks, k + 1, names) {
            Parsed::Failed(e, n) => Parsed::Failed(e, n),
            Parsed::Done(body, j, n1) => Parsed::Done(mk(SExprKind::Let { bindings, body }, span(toks, i, j)), j, n1),
        }
    }
}

/// `type` definition (`and` definition)* `in` body.
pub open spec fn p_type_in(toks: Toks, i: nat, names: Seq<Seq<char>>) -> Parsed<SExpr>
    decreases toks.len() - i, 8nat,
{
    if i >= toks.len() {
        Parsed::Failed(i, names)
    } else {
        match p_type_def(toks, i + 1, names) {
            Parsed::Failed(e, n) => Parsed::Failed(e, n),
            Parsed::Done(d, j, n1) => if j <= i || j > toks.len() {
                Parsed::Failed(j, n1)
            } else {
                p_type_in_rest(toks, i, j, seq![d], n1)
            },
        }
    }
}

/// More definitions, each after `and`, from token `k`, then `in` and the body.
pub open spec fn p_type_in_rest(toks: Toks, i: nat, k: nat, definitions: Seq<STypeDef>, names: Seq<Seq<char>>) -> Parsed<SExpr>
    decreases toks.len() - k, 10nat,
{
    if at(toks, k, Token::And) {
        match p_type_def(toks, k + 1, names) {
            Parsed::Failed(e, n) => Parsed::Failed(e, n),
            Parsed::Done(d, j, n1) => if j <= k || j > toks.len() {
                Parsed::Failed(j, n1)
            } else {
                p_type_in_rest(toks, i, j, definitions.push(d), n1)
            },
        }
    } else if !at(toks, k, Token::In) {
        Parsed::Failed(k, names)
    } else {
        match p_expr(toks, k + 1, names) {
            Parsed::Failed(e, n) => Parsed::Failed(e, n),
            Parsed::Done(body, j, n1) => Parsed::Done(mk(SExprKind::Type { definitions, body }, span(toks, i, j)), j, n1),
        }
    }
}

/// Operands joined by infix operators, each binding at least `min_power`
/// on its left; an operator's right operand takes operators that bind at
/// least its right power.
pub open spec fn p_pratt(toks: Toks, i: nat, min_power: u32, names: Seq<Seq<char>>) -> Parsed<SExpr>
    decreases toks.len() - i, 7nat,
{
    match p_unary(toks, i, names) {
        Parsed::Failed(e, n) => Parsed::Failed(e, n),
        Parsed::Done(lhs, k, n1) => if k <= i || k > toks.len() {
            Parsed::Failed(k, n1)
        } else {
            p_infix(toks, i, min_power, k, lhs, n1)
        },
    }
}

/// More operators and operands from token `k`, after `lhs`.
pub open spec fn p_infix(toks: Toks, i: nat, min_power: u32, k: nat, lhs: SExpr, names: Seq<Seq<char>>) -> Parsed<SExpr>
    decreases toks.len() - k, 10nat,
{
    match infix(toks, k) {
        Some((op, left, right)) => if left < min_power {
            Parsed::Done(lhs, k, names)
        } else {
            match p_pratt(toks, k + 1, right, names) {
                Parsed::Failed(e, n) => Parsed::Failed(e, n),
                Parsed::Done(rhs, j, n1) => if j <= k || j > toks.len() {
                    Parsed::Failed(j, n1)
                } else {
                    p_infix(toks, i, min_power, j, mk(SExprKind::BinOp { op, lhs, rhs }, span(toks, i, j)), n1)
                },
            }
        },
        None => Parsed::Done(lhs, k, names),
    }
}

/// The first token at or after `i` that is not `kind`.
pub open spec fn run_end(toks: Toks, i: nat, kind: Token) -> nat
    decreases toks.len() - i,
{
    if at(toks, i, kind) {
        run_end(toks, i + 1, kind)
    } else {
        i
    }
}

/// `e` under the operator `op` once for each token `from..to`, the outermost
/// for token `from`; each spans from its token to the end of `e`'s tokens,
/// which end before token `j`.
pub open spec fn wrap_unary(toks: Toks, op: UnaryOp, from: nat, to: nat, e: SExpr, j: nat) -> SExpr
    decreases to - from,
{
    if to <= from {
        e
    } else {
        wrap_unary(toks, op, from, (to - 1) as nat, mk(SExprKind::UnaryOp { op, rhs: e }, span(toks, (to - 1) as nat, j)), j)
    }
}

/// `!`s, then `-`s, then an application; each operator applies to all that
/// follows it.
pub open spec fn p_unary(toks: Toks, i: nat, names: Seq<Seq<char>>) -> Parsed<SExpr>
    decreases toks.len() - i, 6nat,
{
    let nots = run_end(toks, i, Token::Bang);
    let negs = run_end(toks, nots, Token::Minus);
    if negs < i || negs > toks.len() {
        Parsed::Failed(i, names)
    } else {
        match p_call(toks, negs, names) {
            Parsed::Failed(e, n) => Parsed::Failed(e, n),
            Parsed::Done(e, j, n1) => Parsed::Done(
                wrap_unary(toks, UnaryOp::Not, i, nots, wrap_unary(toks, UnaryOp::Neg, nots, negs, e, j), j), j, n1),
        }
    }
}

/// Atoms, each after the first applied to the expression so far.
pub open spec fn p_call(toks: Toks, i: nat, names: Seq<Seq<char>>) -> Parsed<SExpr>
    decreases toks.len() - i, 5nat,
{
    match p_atom(toks, i, names) {
        Parsed::Failed(e, n) => Parsed::Failed(e, n),
        Parsed::Done(func, k, n1) => if k <= i || k > toks.len() {
            Parsed::Failed(k, n1)
        } else {
            p_args(toks, i, k, func, n1)
        },
    }
}

/// More arguments from token `k`.
pub open spec fn p_args(toks: Toks, i: nat, k: nat, func: SExpr, names: Seq<Seq<char>>) -> Parsed<SExpr>
    decreases toks.len() - k, 10nat,
{
    if starts_atom(toks, k) {
        match p_atom(toks, k, names) {
            Parsed::Failed(e, n) => Parsed::Failed(e, n),
            Parsed::Done(arg, j, n1) => if j <= k || j > toks.len() {
                Parsed::Failed(j, n1)
            } else {
                p_args(toks, i, j, mk(SExprKind::App { func, arg }, span(toks, i, j)), n1)
            },
        }
    } else {
        Parsed::Done(func, k, names)
    }
}

/// A literal, a name, an expression in parentheses (`(e)` and `(e,)` alike),
/// or a tuple of two or more.
pub open spec fn p_atom(toks: Toks, i: nat, names: Seq<Seq<char>>) -> Parsed<SExpr>
    decreases toks.len() - i, 4nat,
{
    if i >= toks.len() {
        Parsed::Failed(i, names)
    } else {
        let sp = span(toks, i, i + 1);
        match literal_of(toks[i as int].0) {
            Some(l) => Parsed::Done(mk(SExprKind::Literal(l), sp), i + 1, names),
            None => match toks[i as int].0 {
                Token::Ident(s) => {
                    let (key, n1) = intern(names, s@);
                    Parsed::Done(mk(SExprKind::Var(ident(toks, i, key)), sp), i + 1, n1)
                },
                Token::LParen => match p_expr(toks, i + 1, names) {
                    Parsed::Failed(e, n) => Parsed::Failed(e, n),
                    Parsed::Done(first, k, n1) => if at(toks, k, Token::RParen) {
                        Parsed::Done(first, k + 1, n1)
                    } else if !at(toks, k, Token::Comma) {
                        Parsed::Failed(k, n1)
                    } else if at(toks, k + 1, Token::RParen) {
                        Parsed::Done(first, k + 2, n1)
                    } else if k <= i || k > toks.len() {
                        Parsed::Failed(k, n1)
                    } else {
                        p_items(toks, i, k, seq![first], n1)
                    },
                },
                _ => Parsed::Failed(i, names),
            },
        }
    }
}

/// The rest of a tuple, from token `k`.
pub open spec fn p_items(toks: Toks, i: nat, k: nat, items: Seq<SExpr>, names: Seq<Seq<char>>) -> Parsed<SExpr>
    decreases toks.len() - k, 10nat,
{
    if at(toks, k, Token::Comma) {
        match p_expr(toks, k + 1, names) {
            Parsed::Failed(e, n) => Parsed::Failed(e, n),
            Parsed::Done(e, j, n1) => if j <= k || j > toks.len() {
                Parsed::Failed(j, n1)
            } else {
                p_items(toks, i, j, items.push(e), n1)
            },
        }
    } else if at(toks, k, Token::RParen) {
        Parsed::Done(mk(SExprKind::Tuple(items), span(toks, i, k + 1)), k + 1, names)
    } else {
        Parsed::Failed(k, names)
    }
}

/// All the tokens as one expression.
pub open spec fn p_program(toks: Toks, names: Seq<Seq<char>>) -> Parsed<SExpr> {
    match p_expr(toks, 0, names) {
        Parsed::Failed(e, n) => Parsed::Failed(e, n),
        Parsed::Done(e, j, n1) => if j == toks.len() {
            Parsed::Done(e, j, n1)
        } else {
            Parsed::Failed(j, n1)
        },
    }
}

// ---------------------------------------------------------------------------
// Results as values.
// ---------------------------------------------------------------------------

pub open spec fn err_view(e: crate::parser::ParseError) -> (Span, Seq<char>) {
    (e.span, e.message@)
}

pub open spec fn out_expr(r: Result<(Expr, usize), crate::parser::ParseError>) -> Result<(SExpr, nat), (Span, Seq<char>)> {
    match r {
        Ok((e, j)) => Ok((expr_view(e), j as nat)),
        Err(e) => Err(err_view(e)),
    }
}

pub open spec fn out_pat(r: Result<(Pat, usize), crate::parser::ParseError>) -> Result<(SPat, nat), (Span, Seq<char>)> {
    match r {
        Ok((p, j)) => Ok((pat_view(p), j as nat)),
        Err(e) => Err(err_view(e)),
    }
}

pub open spec fn out_bind_pat(r: Result<(BindPat, usize), crate::parser::ParseError>) -> Result<(SBindPat, nat), (Span, Seq<char>)> {
    match r {
        Ok((p, j)) => Ok((bind_pat_view(p), j as nat)),
        Err(e) => Err(err_view(e)),
    }
}

pub open spec fn out_texpr(r: Result<(TypeExpr, usize), crate::parser::ParseError>) -> Result<(STypeExpr, nat), (Span, Seq<char>)> {
    match r {
        Ok((t, j)) => Ok((texpr_view(t), j as nat)),
        Err(e) => Err(err_view(e)),
    }
}

pub open spec fn out_binding(r: Result<(Binding, usize), crate::parser::ParseError>) -> Result<(SBinding, nat), (Span, Seq<char>)> {
    match r {
        Ok((b, j)) => Ok((binding_view(b), j as nat)),
        Err(e) => Err(err_view(e)),
    }
}

pub open spec fn out_variant(r: Result<(VariantDef, usize), crate::parser::ParseError>) -> Result<(SVariant, nat), (Span, Seq<char>)> {
    match r {
        Ok((v, j)) => Ok((variant_view(v), j as nat)),
        Err(e) => Err(err_view(e)),
    }
}

pub open spec fn out_typedef(r: Result<(TypeDef, usize), crate::parser::ParseError>) -> Result<(STypeDef, nat), (Span, Seq<char>)> {
    match r {
        Ok((d, j)) => Ok((typedef_view(d), j as nat)),
        Err(e) => Err(err_view(e)),
    }
}

pub open spec fn texprs_view(s: Seq<TypeExpr>) -> Seq<STypeExpr> {
    Seq::new(s.len(), |j: int| texpr_view(s[j]))
}

pub open spec fn pats_view(s: Seq<Pat>) -> Seq<SPat> {
    Seq::new(s.len(), |j: int| pat_view(s[j]))
}

pub open spec fn bind_pats_view(s: Seq<BindPat>) -> Seq<SBindPat> {
    Seq::new(s.len(), |j: int| bind_pat_view(s[j]))
}

pub open spec fn exprs_view(s: Seq<Expr>) -> Seq<SExpr> {
    Seq::new(s.len(), |j: int| expr_view(s[j]))
}

pub open spec fn bindings_view(s: Seq<Binding>) -> Seq<SBinding> {
    Seq::new(s.len(), |j: int| binding_view(s[j]))
}

pub open spec fn arms_view(s: Seq<(Pat, Expr)>) -> Seq<(SPat, SExpr)> {
    Seq::new(s.len(), |j: int| (pat_view(s[j].0), expr_view(s[j].1)))
}

pub open spec fn variants_view(s: Seq<VariantDef>) -> Seq<SVariant> {
    Seq::new(s.len(), |j: int| variant_view(s[j]))
}

pub open spec fn typedefs_view(s: Seq<TypeDef>) -> Seq<STypeDef> {
    Seq::new(s.len(), |j: int| typedef_view(s[j]))
}

} // verus!
