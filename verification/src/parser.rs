//! Parsing tokens into expressions, by recursive descent.
//!
//! The grammar, from loosest to tightest:
//!
//! ```text
//! expr     := "type" typedef ("and" typedef)* "in" expr
//!           | "if" pratt "then" pratt "else" expr
//!           | "match" pratt ("|" pat "=>" expr)+
//!           | "let" binding ("and" binding)* "in" expr
//!           | "|" pat "|" expr
//!           | pratt
//! pratt    := unary (infix unary)*     -- && || < <= > >= == != + - * / ^
//! unary    := "!"* "-"* call
//! call     := atom atom*
//! atom     := literal | ident | "(" expr ")" | "(" expr "," expr ("," expr)* ")"
//! binding  := "rec"? bindpat patatom* "=" expr
//! pat      := patatom patatom*
//! patatom  := "_" | literal | ident | "(" pat "," ")" | "(" pat ("," pat)+ ")"
//! bindpat  := ident | "(" bindpat "," ")" | "(" bindpat ("," bindpat)+ ")"
//! typedef  := ident "=" ("|" variant ("|" variant)* | texpr)
//! variant  := ident texpr?
//! texpr    := tatom ("=>" texpr)?
//! tatom    := ident | "(" texpr ")" | "(" texpr ("," texpr)+ ")"
//! ```
//!
//! Infix operators bind, from loosest: `&&` `||`; comparisons; `+` `-`;
//! `*` `/`; `^` (to the right; the others to the left).
use vstd::prelude::*;
use std::ops::Range;
use crate::ast::{
    BindPat, BindPatKind, Binding, BinOp, BuiltinType, Expr, ExprKind, FloatLit, Ident, Literal,
    Pat, PatKind, Span, TypeDef, TypeExpr, TypeExprKind, UnaryOp, VariantDef,
};
use crate::interner::{get_or_intern, interned};
use crate::pretty::str_chars;
use crate::scope::{
    bind_pat_names_below, bind_pats_names_below, bindings_names_below, items_names_below,
    arms_names_below, names_below, pat_names_below, pats_names_below,
};
use crate::token::Token;
use crate::grammar;

verus! {

/// An error found while parsing: where, and what.
#[derive(Debug)]
pub struct ParseError {
    pub span: Span,
    pub message: String,
}

/// The tokens, with their byte spans, that the parser reads.
pub type Tokens = Vec<(Token, Range<usize>)>;

/// Whether the interner has room for the names that the tokens from `i` on
/// can add.
pub open spec fn room(r: lasso::Rodeo, n: int, i: int) -> bool {
    interned(r).len() + (n - i) + 2 < u32::MAX
}

/// Whether `new` holds the names of `old`, in the same order, and at most
/// `k` more after them.
pub open spec fn grew(old: lasso::Rodeo, new: lasso::Rodeo, k: int) -> bool {
    &&& interned(old).len() <= interned(new).len() <= interned(old).len() + k
    &&& interned(new).take(interned(old).len() as int) == interned(old)
}

proof fn lemma_grew_trans(a: lasso::Rodeo, b: lasso::Rodeo, c: lasso::Rodeo, k1: int, k2: int)
    requires
        grew(a, b, k1),
        grew(b, c, k2),
    ensures
        grew(a, c, k1 + k2),
{
    let la = interned(a).len() as int;
    assert(interned(c).take(la) =~= interned(c).take(interned(b).len() as int).take(la));
}

proof fn lemma_grew_refl(a: lasso::Rodeo)
    ensures
        grew(a, a, 0),
{
    assert(interned(a).take(interned(a).len() as int) =~= interned(a));
}

proof fn lemma_grew_weaken(a: lasso::Rodeo, b: lasso::Rodeo, k1: int, k2: int)
    requires
        grew(a, b, k1),
        k1 <= k2,
    ensures
        grew(a, b, k2),
{
}

// ---------------------------------------------------------------------------
// Names stay below a bound as the bound grows.
// ---------------------------------------------------------------------------

pub proof fn lemma_pat_names_mono(p: Pat, n: nat, m: nat)
    requires
        pat_names_below(p, n),
        n <= m,
    ensures
        pat_names_below(p, m),
    decreases p, 0nat,
{
    match *p.kind {
        PatKind::Or(a, b) => {
            lemma_pat_names_mono(a, n, m);
            lemma_pat_names_mono(b, n, m);
        },
        PatKind::Tuple(ps) => lemma_pats_names_mono(ps@, n, m, ps@.len()),
        PatKind::App { func, arg } => {
            lemma_pat_names_mono(func, n, m);
            lemma_pat_names_mono(arg, n, m);
        },
        PatKind::Constructor { name, arg } => match arg {
            Some(a) => lemma_pat_names_mono(a, n, m),
            None => {},
        },
        _ => {},
    }
}

proof fn lemma_pats_names_mono(ps: Seq<Pat>, n: nat, m: nat, k: nat)
    requires
        pats_names_below(ps, n, k),
        n <= m,
    ensures
        pats_names_below(ps, m, k),
    decreases ps, k,
{
    if k > 0 && k <= ps.len() {
        lemma_pats_names_mono(ps, n, m, (k - 1) as nat);
        lemma_pat_names_mono(ps[k - 1], n, m);
    }
}

pub proof fn lemma_bind_pat_names_mono(p: BindPat, n: nat, m: nat)
    requires
        bind_pat_names_below(p, n),
        n <= m,
    ensures
        bind_pat_names_below(p, m),
    decreases p, 0nat,
{
    match p.kind {
        BindPatKind::Tuple(ps) => lemma_bind_pats_names_mono(ps@, n, m, ps@.len()),
        _ => {},
    }
}

proof fn lemma_bind_pats_names_mono(ps: Seq<BindPat>, n: nat, m: nat, k: nat)
    requires
        bind_pats_names_below(ps, n, k),
        n <= m,
    ensures
        bind_pats_names_below(ps, m, k),
    decreases ps, k,
{
    if k > 0 && k <= ps.len() {
        lemma_bind_pats_names_mono(ps, n, m, (k - 1) as nat);
        lemma_bind_pat_names_mono(ps[k - 1], n, m);
    }
}

pub proof fn lemma_names_mono(e: Expr, n: nat, m: nat)
    requires
        names_below(e, n),
        n <= m,
    ensures
        names_below(e, m),
    decreases e, 0nat,
{
    match *e.kind {
        ExprKind::If { cond, then_expr, else_expr } => {
            lemma_names_mono(cond, n, m);
            lemma_names_mono(then_expr, n, m);
            lemma_names_mono(else_expr, n, m);
        },
        ExprKind::BinOp { op, lhs, rhs } => {
            lemma_names_mono(lhs, n, m);
            lemma_names_mono(rhs, n, m);
        },
        ExprKind::UnaryOp { op, rhs } => lemma_names_mono(rhs, n, m),
        ExprKind::Let { bindings, body } => {
            lemma_bindings_names_mono(bindings@, n, m, bindings@.len());
            lemma_names_mono(body, n, m);
        },
        ExprKind::Abs { param, body } => {
            lemma_pat_names_mono(param, n, m);
            lemma_names_mono(body, n, m);
        },
        ExprKind::App { func, arg } => {
            lemma_names_mono(func, n, m);
            lemma_names_mono(arg, n, m);
        },
        ExprKind::Tuple(items) => lemma_items_names_mono(items@, n, m, items@.len()),
        ExprKind::Match { scrutinee, arms } => {
            lemma_names_mono(scrutinee, n, m);
            lemma_arms_names_mono(arms@, n, m, arms@.len());
        },
        ExprKind::Type { definitions, body } => lemma_names_mono(body, n, m),
        ExprKind::Constructor { name, arg } => match arg {
            Some(a) => lemma_names_mono(a, n, m),
            None => {},
        },
        _ => {},
    }
}

proof fn lemma_items_names_mono(items: Seq<Expr>, n: nat, m: nat, k: nat)
    requires
        items_names_below(items, n, k),
        n <= m,
    ensures
        items_names_below(items, m, k),
    decreases items, k,
{
    if k > 0 && k <= items.len() {
        lemma_items_names_mono(items, n, m, (k - 1) as nat);
        lemma_names_mono(items[k - 1], n, m);
    }
}

proof fn lemma_bindings_names_mono(bs: Seq<Binding>, n: nat, m: nat, k: nat)
    requires
        bindings_names_below(bs, n, k),
        n <= m,
    ensures
        bindings_names_below(bs, m, k),
    decreases bs, k,
{
    if k > 0 && k <= bs.len() {
        lemma_bindings_names_mono(bs, n, m, (k - 1) as nat);
        lemma_bind_pat_names_mono(bs[k - 1].pat, n, m);
        lemma_names_mono(bs[k - 1].value, n, m);
    }
}

proof fn lemma_arms_names_mono(arms: Seq<(Pat, Expr)>, n: nat, m: nat, k: nat)
    requires
        arms_names_below(arms, n, k),
        n <= m,
    ensures
        arms_names_below(arms, m, k),
    decreases arms, k,
{
    if k > 0 && k <= arms.len() {
        lemma_arms_names_mono(arms, n, m, (k - 1) as nat);
        lemma_pat_names_mono(arms[k - 1].0, n, m);
        lemma_names_mono(arms[k - 1].1, n, m);
    }
}

// ---------------------------------------------------------------------------
// Reading tokens.
// ---------------------------------------------------------------------------

/// The span from the start of token `i` to the end of token `j - 1`.
pub open spec fn span_spec(toks: Seq<(Token, Range<usize>)>, i: int, j: int) -> Span {
    Span { start: toks[i].1.start, end: toks[j - 1].1.end }
}

fn span_of(toks: &Tokens, i: usize, j: usize) -> (s: Span)
    requires
        i < j <= toks.len(),
    ensures
        s == span_spec(toks@, i as int, j as int),
        s == grammar::span(toks@, i as nat, j as nat),
{
    Span { start: toks[i].1.start, end: toks[j - 1].1.end }
}

/// The error of finding token `i` (or the end) where something else was due.
fn unexpected(toks: &Tokens, i: usize) -> (e: ParseError)
    ensures
        e.span == grammar::error_span(toks@, i as nat),
        e.message@ == grammar::error_text(toks@, i as nat),
{
    if i < toks.len() {
        let mut message = String::from_str("unexpected token `");
        message.append(toks[i].0.to_text().as_str());
        message.append("`");
        ParseError { span: Span { start: toks[i].1.start, end: toks[i].1.end }, message }
    } else {
        let end = if toks.len() > 0 { toks[toks.len() - 1].1.end } else { 0 };
        ParseError { span: Span { start: end, end }, message: String::from_str("unexpected end of input") }
    }
}

/// Whether token `i` is `kind` (compared by variant; both here carry no data).
fn at(toks: &Tokens, i: usize, kind: Token) -> (b: bool)
    requires
        !(kind is Ident || kind is Float || kind is Int),
    ensures
        b ==> i < toks.len() && toks@[i as int].0 == kind,
        b == grammar::at(toks@, i as nat, kind),
{
    if i >= toks.len() {
        return false;
    }
    match (&toks[i].0, &kind) {
        (Token::If, Token::If) | (Token::Then, Token::Then) | (Token::Else, Token::Else)
        | (Token::Rec, Token::Rec) | (Token::Let, Token::Let) | (Token::In, Token::In)
        | (Token::True, Token::True) | (Token::False, Token::False) | (Token::Match, Token::Match)
        | (Token::And, Token::And) | (Token::Type, Token::Type) | (Token::EqEq, Token::EqEq)
        | (Token::BangEq, Token::BangEq) | (Token::LtEq, Token::LtEq) | (Token::GtEq, Token::GtEq)
        | (Token::Lt, Token::Lt) | (Token::Gt, Token::Gt) | (Token::AndAnd, Token::AndAnd)
        | (Token::PipePipe, Token::PipePipe) | (Token::Bang, Token::Bang) | (Token::Plus, Token::Plus)
        | (Token::Minus, Token::Minus) | (Token::Star, Token::Star) | (Token::Slash, Token::Slash)
        | (Token::Caret, Token::Caret) | (Token::Pipe, Token::Pipe) | (Token::Eq, Token::Eq)
        | (Token::LParen, Token::LParen) | (Token::RParen, Token::RParen) | (Token::Comma, Token::Comma)
        | (Token::StrongArrow, Token::StrongArrow) | (Token::WhiteSpace, Token::WhiteSpace)
        | (Token::Error, Token::Error) => true,
        _ => false,
    }
}

/// Interns the name of identifier token `i`.
fn ident_at(toks: &Tokens, i: usize, rodeo: &mut lasso::Rodeo) -> (r: Option<Ident>)
    requires
        i < toks.len(),
        room(*old(rodeo), toks.len() as int, i as int),
        interned(*old(rodeo)).no_duplicates(),
    ensures
        match r {
            Some(id) => toks@[i as int].0 is Ident && id.name < interned(*final(rodeo)).len()
                && id.span == span_spec(toks@, i as int, i + 1)
                && grew(*old(rodeo), *final(rodeo), 1),
            None => !(toks@[i as int].0 is Ident) && *final(rodeo) == *old(rodeo),
        },
        interned(*final(rodeo)).no_duplicates(),
        match toks@[i as int].0 {
            Token::Ident(s) => r == Some(grammar::ident(toks@, i as nat, grammar::intern(interned(*old(rodeo)), s@).0))
                && interned(*final(rodeo)) == grammar::intern(interned(*old(rodeo)), s@).1,
            _ => true,
        },
{
    match &toks[i].0 {
        Token::Ident(name) => {
            let ghost names = interned(*rodeo);
            let key = get_or_intern(rodeo, name.as_str());
            proof {
                assert(interned(*rodeo).take(interned(*old(rodeo)).len() as int) =~= interned(*old(rodeo)));
                if names.contains(name@) {
                    assert(names[names.index_of(name@)] == name@);
                } else {
                    let fin = interned(*rodeo);
                    assert(fin == names.push(name@));
                    assert forall|a: int, b: int| 0 <= a < fin.len() && 0 <= b < fin.len() && a != b
                        implies fin[a] != fin[b] by {
                        if a == names.len() as int {
                            assert(fin[b] == names[b]);
                            assert(names.contains(names[b]));
                        } else if b == names.len() as int {
                            assert(fin[a] == names[a]);
                            assert(names.contains(names[a]));
                        } else {
                            assert(fin[a] == names[a] && fin[b] == names[b]);
                        }
                    }
                }
            }
            Some(Ident { name: key, span: span_of(toks, i, i + 1) })
        },
        _ => None,
    }
}

/// What a parse step promises: on success, that it read tokens `i..j` and
/// the interner gained at most one name per token read; on failure, at most
/// one name per token left.
pub open spec fn parse_ok<T>(r: Result<(T, usize), ParseError>, old: lasso::Rodeo, new: lasso::Rodeo, n: int, i: int) -> bool {
    match r {
        Ok((_, j)) => i < j <= n && grew(old, new, j - i),
        Err(_) => grew(old, new, n - i),
    }
}

/// Whether two strings are the same text.
fn same_text(a: &str, b: &str) -> (r: bool)
    ensures
        r == (a@ == b@),
{
    let x = str_chars(a);
    let y = str_chars(b);
    if x.len() != y.len() {
        return false;
    }
    let mut k: usize = 0;
    while k < x.len()
        invariant
            k <= x.len(),
            x.len() == y.len(),
            x@ == a@,
            y@ == b@,
            forall|m: int| 0 <= m < k ==> x@[m] == y@[m],
        decreases x.len() - k,
    {
        if x[k] != y[k] {
            return false;
        }
        k = k + 1;
    }
    assert(x@ =~= y@);
    true
}

/// Whether a character has the Unicode `Uppercase` property (std's
/// `char::is_uppercase`).
pub uninterp spec fn uppercase(c: char) -> bool;

/// `char::is_uppercase`: whether `c` has the Unicode `Uppercase` property;
/// among ASCII characters those are exactly `A` to `Z`.
#[verifier::external_body]
fn is_uppercase(c: char) -> (b: bool)
    ensures
        b == uppercase(c),
        ('A' <= c && c <= 'Z') ==> b,
        (c as u32) < 128 && !('A' <= c && c <= 'Z') ==> !b,
{
    c.is_uppercase()
}

/// Whether a name starts with an uppercase character.
pub fn ident_uses_uppercase(name: &str) -> (b: bool)
    ensures
        b == (name@.len() > 0 && uppercase(name@[0])),
{
    let cs = str_chars(name);
    if cs.len() == 0 {
        false
    } else {
        is_uppercase(cs[0])
    }
}

/// Whether token `i` can start a type atom.
fn starts_tatom(toks: &Tokens, i: usize) -> (b: bool)
    ensures
        b ==> i < toks.len(),
        b == grammar::starts_tatom(toks@, i as nat),
{
    i < toks.len() && (matches!(toks[i].0, Token::Ident(_)) || at(toks, i, Token::LParen))
}

/// A type: an atom, or an atom `=>` a type.
fn parse_texpr(toks: &Tokens, i: usize, rodeo: &mut lasso::Rodeo) -> (r: Result<(TypeExpr, usize), ParseError>)
    requires
        i <= toks.len(),
        room(*old(rodeo), toks.len() as int, i as int),
        interned(*old(rodeo)).no_duplicates(),
    ensures
        parse_ok(r, *old(rodeo), *final(rodeo), toks.len() as int, i as int),
        interned(*final(rodeo)).no_duplicates(),
        grammar::agrees(grammar::out_texpr(r), interned(*final(rodeo)), toks@, grammar::p_texpr(toks@, i as nat, interned(*old(rodeo)))),
    decreases toks.len() - i, 3nat,
{
    let ghost r0 = *rodeo;
    let (from, k) = match parse_tatom(toks, i, rodeo) {
        Ok(v) => v,
        Err(e) => return Err(e),
    };
    if at(toks, k, Token::StrongArrow) {
        let ghost r1 = *rodeo;
        match parse_texpr(toks, k + 1, rodeo) {
            Ok((to, j)) => {
                proof { lemma_grew_trans(r0, r1, *rodeo, (k - i) as int, (j - k - 1) as int); }
                let span = span_of(toks, i, j);
                Ok((TypeExpr { kind: Box::new(TypeExprKind::Arrow { from, to }), span }, j))
            },
            Err(e) => {
                proof { lemma_grew_trans(r0, r1, *rodeo, (k - i) as int, (toks.len() - k - 1) as int); }
                Err(e)
            },
        }
    } else {
        Ok((from, k))
    }
}

/// A type atom: a named type, a type variable, a type in parentheses, or a tuple of types.
fn parse_tatom(toks: &Tokens, i: usize, rodeo: &mut lasso::Rodeo) -> (r: Result<(TypeExpr, usize), ParseError>)
    requires
        i <= toks.len(),
        room(*old(rodeo), toks.len() as int, i as int),
        interned(*old(rodeo)).no_duplicates(),
    ensures
        parse_ok(r, *old(rodeo), *final(rodeo), toks.len() as int, i as int),
        interned(*final(rodeo)).no_duplicates(),
        grammar::agrees(grammar::out_texpr(r), interned(*final(rodeo)), toks@, grammar::p_tatom(toks@, i as nat, interned(*old(rodeo)))),
    decreases toks.len() - i, 2nat,
{
    let ghost r0 = *rodeo;
    proof { lemma_grew_refl(r0); }
    if i >= toks.len() {
        return Err(unexpected(toks, i));
    }
    match &toks[i].0 {
        Token::Ident(name) => {
            let span = span_of(toks, i, i + 1);
            if same_text(name.as_str(), "Int") {
                Ok((TypeExpr { kind: Box::new(TypeExprKind::Builtin(BuiltinType::Int)), span }, i + 1))
            } else if same_text(name.as_str(), "Float") {
                Ok((TypeExpr { kind: Box::new(TypeExprKind::Builtin(BuiltinType::Float)), span }, i + 1))
            } else if same_text(name.as_str(), "Bool") {
                Ok((TypeExpr { kind: Box::new(TypeExprKind::Builtin(BuiltinType::Bool)), span }, i + 1))
            } else {
                let upper = ident_uses_uppercase(name.as_str());
                let ident = match ident_at(toks, i, rodeo) {
                    Some(id) => id,
                    None => return Err(unexpected(toks, i)),
                };
                if upper {
                    Ok((TypeExpr { kind: Box::new(TypeExprKind::Named(ident)), span }, i + 1))
                } else {
                    Ok((TypeExpr { kind: Box::new(TypeExprKind::Var(ident)), span }, i + 1))
                }
            }
        },
        Token::LParen => {
            let (first, k) = match parse_texpr(toks, i + 1, rodeo) {
                Ok(v) => v,
                Err(e) => return Err(e),
            };
            if at(toks, k, Token::RParen) {
                return Ok((first, k + 1));
            }
            let mut items: Vec<TypeExpr> = Vec::new();
            items.push(first);
            assert(grammar::texprs_view(items@) =~= seq![grammar::texpr_view(first)]);
            let mut k = k;
            while at(toks, k, Token::Comma)
                invariant
                    i < k <= toks.len(),
                    r0 == *old(rodeo),
                    grew(r0, *rodeo, k - i),
                    room(r0, toks.len() as int, i as int),
                    interned(*rodeo).no_duplicates(),
                    grammar::p_tatom(toks@, i as nat, interned(r0))
                        == grammar::p_tatom_items(toks@, i as nat, k as nat, grammar::texprs_view(items@), interned(*rodeo)),
                decreases toks.len() - k,
            {
                let ghost r1 = *rodeo;
                match parse_texpr(toks, k + 1, rodeo) {
                    Ok((t, j)) => {
                        proof { lemma_grew_trans(r0, r1, *rodeo, (k - i) as int, (j - k - 1) as int); }
                        let ghost before = items@;
                        items.push(t);
                        assert(grammar::texprs_view(items@) =~= grammar::texprs_view(before).push(grammar::texpr_view(t)));
                        k = j;
                    },
                    Err(e) => {
                        proof { lemma_grew_trans(r0, r1, *rodeo, (k - i) as int, (toks.len() - k - 1) as int); }
                        return Err(e);
                    },
                }
            }
            if items.len() >= 2 && at(toks, k, Token::RParen) {
                let span = span_of(toks, i, k + 1);
                let ghost iv = grammar::texprs_view(items@);
                let t = TypeExpr { kind: Box::new(TypeExprKind::Tuple(items)), span };
                assert((*grammar::texpr_view(t).kind)->Tuple_0 =~= iv);
                Ok((t, k + 1))
            } else {
                Err(unexpected(toks, k))
            }
        },
        _ => Err(unexpected(toks, i)),
    }
}

// ---------------------------------------------------------------------------
// Names of sequences grown by one.
// ---------------------------------------------------------------------------

proof fn lemma_pats_push(ps: Seq<Pat>, x: Pat, n: nat, k: nat)
    requires
        k <= ps.len(),
    ensures
        pats_names_below(ps.push(x), n, k) == pats_names_below(ps, n, k),
    decreases k,
{
    if k > 0 {
        lemma_pats_push(ps, x, n, (k - 1) as nat);
        assert(ps.push(x)[k - 1] == ps[k - 1]);
    }
}

proof fn lemma_bind_pats_push(ps: Seq<BindPat>, x: BindPat, n: nat, k: nat)
    requires
        k <= ps.len(),
    ensures
        bind_pats_names_below(ps.push(x), n, k) == bind_pats_names_below(ps, n, k),
    decreases k,
{
    if k > 0 {
        lemma_bind_pats_push(ps, x, n, (k - 1) as nat);
        assert(ps.push(x)[k - 1] == ps[k - 1]);
    }
}

proof fn lemma_items_push(ps: Seq<Expr>, x: Expr, n: nat, k: nat)
    requires
        k <= ps.len(),
    ensures
        items_names_below(ps.push(x), n, k) == items_names_below(ps, n, k),
    decreases k,
{
    if k > 0 {
        lemma_items_push(ps, x, n, (k - 1) as nat);
        assert(ps.push(x)[k - 1] == ps[k - 1]);
    }
}

proof fn lemma_bindings_push(ps: Seq<Binding>, x: Binding, n: nat, k: nat)
    requires
        k <= ps.len(),
    ensures
        bindings_names_below(ps.push(x), n, k) == bindings_names_below(ps, n, k),
    decreases k,
{
    if k > 0 {
        lemma_bindings_push(ps, x, n, (k - 1) as nat);
        assert(ps.push(x)[k - 1] == ps[k - 1]);
    }
}

proof fn lemma_arms_push(ps: Seq<(Pat, Expr)>, x: (Pat, Expr), n: nat, k: nat)
    requires
        k <= ps.len(),
    ensures
        arms_names_below(ps.push(x), n, k) == arms_names_below(ps, n, k),
    decreases k,
{
    if k > 0 {
        lemma_arms_push(ps, x, n, (k - 1) as nat);
        assert(ps.push(x)[k - 1] == ps[k - 1]);
    }
}

// ---------------------------------------------------------------------------
// Patterns.
// ---------------------------------------------------------------------------

/// The names bound that a parsed pattern mentions are interned.
pub open spec fn pat_ok(r: Result<(Pat, usize), ParseError>, new: lasso::Rodeo) -> bool {
    r matches Ok((p, j)) ==> pat_names_below(p, interned(new).len())
}

/// Whether token `i` can start a pattern atom.
fn starts_pat_atom(toks: &Tokens, i: usize) -> (b: bool)
    ensures
        b ==> i < toks.len(),
        b == grammar::starts_atom(toks@, i as nat),
{
    i < toks.len() && match toks[i].0 {
        Token::Ident(_) | Token::Int(_) | Token::Float(_) | Token::True | Token::False | Token::LParen => true,
        _ => false,
    }
}

/// The literal of token `i`, if it is one.
fn literal_at(toks: &Tokens, i: usize) -> (l: Option<Literal>)
    requires
        i < toks.len(),
    ensures
        match l {
            Some(x) => grammar::literal_of(toks@[i as int].0) == Some(grammar::lit_view(x)),
            None => grammar::literal_of(toks@[i as int].0) is None,
        },
{
    match &toks[i].0 {
        Token::Int(n) => Some(Literal::Int(*n)),
        Token::Float(text) => Some(Literal::Float(FloatLit { text: text.clone() })),
        Token::True => Some(Literal::Bool(true)),
        Token::False => Some(Literal::Bool(false)),
        _ => None,
    }
}

/// A pattern: atoms, each after the first applied to the pattern so far.
pub fn parse_pat(toks: &Tokens, i: usize, rodeo: &mut lasso::Rodeo) -> (r: Result<(Pat, usize), ParseError>)
    requires
        i <= toks.len(),
        room(*old(rodeo), toks.len() as int, i as int),
        interned(*old(rodeo)).no_duplicates(),
    ensures
        parse_ok(r, *old(rodeo), *final(rodeo), toks.len() as int, i as int),
        pat_ok(r, *final(rodeo)),
        interned(*final(rodeo)).no_duplicates(),
        grammar::agrees(grammar::out_pat(r), interned(*final(rodeo)), toks@, grammar::p_pat(toks@, i as nat, interned(*old(rodeo)))),
    decreases toks.len() - i, 3nat,
{
    let ghost r0 = *rodeo;
    let (mut p, mut k) = match parse_pat_atom(toks, i, rodeo) {
        Ok(v) => v,
        Err(e) => return Err(e),
    };
    while starts_pat_atom(toks, k)
        invariant
            i < k <= toks.len(),
            r0 == *old(rodeo),
            grew(r0, *rodeo, k - i),
            room(r0, toks.len() as int, i as int),
            pat_names_below(p, interned(*rodeo).len()),
            interned(*rodeo).no_duplicates(),
            grammar::p_pat(toks@, i as nat, interned(r0))
                == grammar::p_pat_tail(toks@, i as nat, k as nat, grammar::pat_view(p), interned(*rodeo)),
        decreases toks.len() - k,
    {
        let ghost r1 = *rodeo;
        match parse_pat_atom(toks, k, rodeo) {
            Ok((arg, j)) => {
                proof {
                    lemma_grew_trans(r0, r1, *rodeo, (k - i) as int, (j - k) as int);
                    lemma_pat_names_mono(p, interned(r1).len(), interned(*rodeo).len());
                }
                let span = span_of(toks, i, j);
                p = Pat { kind: Box::new(PatKind::App { func: p, arg }), span };
                k = j;
            },
            Err(e) => {
                proof { lemma_grew_trans(r0, r1, *rodeo, (k - i) as int, (toks.len() - k) as int); }
                return Err(e);
            },
        }
    }
    Ok((p, k))
}

/// A pattern atom: `_`, a literal, a name, or a tuple of patterns.
fn parse_pat_atom(toks: &Tokens, i: usize, rodeo: &mut lasso::Rodeo) -> (r: Result<(Pat, usize), ParseError>)
    requires
        i <= toks.len(),
        room(*old(rodeo), toks.len() as int, i as int),
        interned(*old(rodeo)).no_duplicates(),
    ensures
        parse_ok(r, *old(rodeo), *final(rodeo), toks.len() as int, i as int),
        pat_ok(r, *final(rodeo)),
        interned(*final(rodeo)).no_duplicates(),
        grammar::agrees(grammar::out_pat(r), interned(*final(rodeo)), toks@, grammar::p_pat_atom(toks@, i as nat, interned(*old(rodeo)))),
    decreases toks.len() - i, 2nat,
{
    let ghost r0 = *rodeo;
    proof { lemma_grew_refl(r0); }
    if i >= toks.len() {
        return Err(unexpected(toks, i));
    }
    let span = span_of(toks, i, i + 1);
    match literal_at(toks, i) {
        Some(lit) => return Ok((Pat { kind: Box::new(PatKind::Lit(lit)), span }, i + 1)),
        None => {},
    }
    match &toks[i].0 {
        Token::Ident(name) => {
            if same_text(name.as_str(), "_") {
                proof { reveal_strlit("_"); }
                Ok((Pat { kind: Box::new(PatKind::Wildcard), span }, i + 1))
            } else {
                proof { reveal_strlit("_"); }
                match ident_at(toks, i, rodeo) {
                    Some(id) => Ok((Pat { kind: Box::new(PatKind::Var(id)), span }, i + 1)),
                    None => Err(unexpected(toks, i)),
                }
            }
        },
        Token::LParen => {
            let (first, k) = match parse_pat(toks, i + 1, rodeo) {
                Ok(v) => v,
                Err(e) => return Err(e),
            };
            if !at(toks, k, Token::Comma) {
                return Err(unexpected(toks, k));
            }
            let mut items: Vec<Pat> = Vec::new();
            items.push(first);
            proof {
                assert(pat_names_below(first, interned(*rodeo).len()));
                assert(items@[0] == first);
                reveal_with_fuel(pats_names_below, 2);
                assert(pats_names_below(items@, interned(*rodeo).len(), 1));
                assert(grammar::pats_view(items@) =~= seq![grammar::pat_view(first)]);
            }
            if at(toks, k + 1, Token::RParen) {
                let span = span_of(toks, i, k + 2);
                let t = Pat { kind: Box::new(PatKind::Tuple(items)), span };
                assert((*grammar::pat_view(t).kind)->Tuple_0 =~= seq![grammar::pat_view(first)]);
                return Ok((t, k + 2));
            }
            let mut k = k;
            while at(toks, k, Token::Comma)
                invariant
                    i < k <= toks.len(),
                    r0 == *old(rodeo),
                    grew(r0, *rodeo, k - i),
                    room(r0, toks.len() as int, i as int),
                    pats_names_below(items@, interned(*rodeo).len(), items@.len()),
                    interned(*rodeo).no_duplicates(),
                    grammar::p_pat_atom(toks@, i as nat, interned(r0))
                        == grammar::p_pat_items(toks@, i as nat, k as nat, grammar::pats_view(items@), interned(*rodeo)),
                decreases toks.len() - k,
            {
                let ghost r1 = *rodeo;
                match parse_pat(toks, k + 1, rodeo) {
                    Ok((p, j)) => {
                        proof {
                            lemma_grew_trans(r0, r1, *rodeo, (k - i) as int, (j - k - 1) as int);
                            lemma_pats_names_mono(items@, interned(r1).len(), interned(*rodeo).len(), items@.len());
                            lemma_pats_push(items@, p, interned(*rodeo).len(), items@.len());
                        }
                        let ghost before = items@;
                        items.push(p);
                        assert(grammar::pats_view(items@) =~= grammar::pats_view(before).push(grammar::pat_view(p)));
                        k = j;
                    },
                    Err(e) => {
                        proof { lemma_grew_trans(r0, r1, *rodeo, (k - i) as int, (toks.len() - k - 1) as int); }
                        return Err(e);
                    },
                }
            }
            if at(toks, k, Token::RParen) {
                let span = span_of(toks, i, k + 1);
                let ghost iv = grammar::pats_view(items@);
                let t = Pat { kind: Box::new(PatKind::Tuple(items)), span };
                assert((*grammar::pat_view(t).kind)->Tuple_0 =~= iv);
                Ok((t, k + 1))
            } else {
                Err(unexpected(toks, k))
            }
        },
        _ => Err(unexpected(toks, i)),
    }
}

/// A `let` pattern: a name, or a tuple of `let` patterns.
pub fn parse_bind_pat(toks: &Tokens, i: usize, rodeo: &mut lasso::Rodeo) -> (r: Result<(BindPat, usize), ParseError>)
    requires
        i <= toks.len(),
        room(*old(rodeo), toks.len() as int, i as int),
        interned(*old(rodeo)).no_duplicates(),
    ensures
        parse_ok(r, *old(rodeo), *final(rodeo), toks.len() as int, i as int),
        r matches Ok((p, j)) ==> bind_pat_names_below(p, interned(*final(rodeo)).len()),
        interned(*final(rodeo)).no_duplicates(),
        grammar::agrees(grammar::out_bind_pat(r), interned(*final(rodeo)), toks@, grammar::p_bind_pat(toks@, i as nat, interned(*old(rodeo)))),
    decreases toks.len() - i,
{
    let ghost r0 = *rodeo;
    proof { lemma_grew_refl(r0); }
    if i >= toks.len() {
        return Err(unexpected(toks, i));
    }
    match &toks[i].0 {
        Token::Ident(_) => match ident_at(toks, i, rodeo) {
            Some(id) => Ok((BindPat { kind: BindPatKind::Var(id), span: span_of(toks, i, i + 1) }, i + 1)),
            None => Err(unexpected(toks, i)),
        },
        Token::LParen => {
            let (first, k) = match parse_bind_pat(toks, i + 1, rodeo) {
                Ok(v) => v,
                Err(e) => return Err(e),
            };
            if !at(toks, k, Token::Comma) {
                return Err(unexpected(toks, k));
            }
            let mut items: Vec<BindPat> = Vec::new();
            items.push(first);
            proof {
                assert(bind_pat_names_below(first, interned(*rodeo).len()));
                assert(items@[0] == first);
                reveal_with_fuel(bind_pats_names_below, 2);
                assert(bind_pats_names_below(items@, interned(*rodeo).len(), 1));
                assert(grammar::bind_pats_view(items@) =~= seq![grammar::bind_pat_view(first)]);
            }
            if at(toks, k + 1, Token::RParen) {
                let span = span_of(toks, i, k + 2);
                let t = BindPat { kind: BindPatKind::Tuple(items), span };
                assert(grammar::bind_pat_view(t).kind->Tuple_0 =~= seq![grammar::bind_pat_view(first)]);
                return Ok((t, k + 2));
            }
            let mut k = k;
            while at(toks, k, Token::Comma)
                invariant
                    i < k <= toks.len(),
                    r0 == *old(rodeo),
                    grew(r0, *rodeo, k - i),
                    room(r0, toks.len() as int, i as int),
                    bind_pats_names_below(items@, interned(*rodeo).len(), items@.len()),
                    interned(*rodeo).no_duplicates(),
                    grammar::p_bind_pat(toks@, i as nat, interned(r0))
                        == grammar::p_bind_items(toks@, i as nat, k as nat, grammar::bind_pats_view(items@), interned(*rodeo)),
                decreases toks.len() - k,
            {
                let ghost r1 = *rodeo;
                match parse_bind_pat(toks, k + 1, rodeo) {
                    Ok((p, j)) => {
                        proof {
                            lemma_grew_trans(r0, r1, *rodeo, (k - i) as int, (j - k - 1) as int);
                            lemma_bind_pats_names_mono(items@, interned(r1).len(), interned(*rodeo).len(), items@.len());
                            lemma_bind_pats_push(items@, p, interned(*rodeo).len(), items@.len());
                        }
                        let ghost before = items@;
                        items.push(p);
                        assert(grammar::bind_pats_view(items@) =~= grammar::bind_pats_view(before).push(grammar::bind_pat_view(p)));
                        k = j;
                    },
                    Err(e) => {
                        proof { lemma_grew_trans(r0, r1, *rodeo, (k - i) as int, (toks.len() - k - 1) as int); }
                        return Err(e);
                    },
                }
            }
            if at(toks, k, Token::RParen) {
                let span = span_of(toks, i, k + 1);
                let ghost iv = grammar::bind_pats_view(items@);
                let t = BindPat { kind: BindPatKind::Tuple(items), span };
                assert(grammar::bind_pat_view(t).kind->Tuple_0 =~= iv);
                Ok((t, k + 1))
            } else {
                Err(unexpected(toks, k))
            }
        },
        _ => Err(unexpected(toks, i)),
    }
}

// ---------------------------------------------------------------------------
// Expressions.
// ---------------------------------------------------------------------------

/// The names that a parsed expression mentions are interned.
pub open spec fn expr_ok(r: Result<(Expr, usize), ParseError>, new: lasso::Rodeo) -> bool {
    r matches Ok((e, j)) ==> names_below(e, interned(new).len())
}

fn mk(kind: ExprKind, span: Span) -> (e: Expr)
    ensures
        *e.kind == kind,
        e.span == span,
{
    Expr { kind: Box::new(kind), span }
}

/// Whether token `i` can start an atom.
fn starts_atom(toks: &Tokens, i: usize) -> (b: bool)
    ensures
        b ==> i < toks.len(),
        b == grammar::starts_atom(toks@, i as nat),
{
    i < toks.len() && match toks[i].0 {
        Token::Ident(_) | Token::Int(_) | Token::Float(_) | Token::True | Token::False | Token::LParen => true,
        _ => false,
    }
}

/// The infix operator of token `i`, with how tightly it binds on its left
/// and on its right.
fn infix_at(toks: &Tokens, i: usize) -> (r: Option<(BinOp, u32, u32)>)
    ensures
        r is Some ==> i < toks.len(),
        r matches Some((op, l, rp)) ==> l < 10 && rp < 10,
        r == grammar::infix(toks@, i as nat),
{
    if i >= toks.len() {
        return None;
    }
    match toks[i].0 {
        Token::Caret => Some((BinOp::Pow, 9, 8)),
        Token::Star => Some((BinOp::Mul, 6, 7)),
        Token::Slash => Some((BinOp::Div, 6, 7)),
        Token::Plus => Some((BinOp::Add, 4, 5)),
        Token::Minus => Some((BinOp::Sub, 4, 5)),
        Token::EqEq => Some((BinOp::Eq, 2, 3)),
        Token::BangEq => Some((BinOp::NotEq, 2, 3)),
        Token::Lt => Some((BinOp::Lt, 2, 3)),
        Token::Gt => Some((BinOp::Gt, 2, 3)),
        Token::LtEq => Some((BinOp::Le, 2, 3)),
        Token::GtEq => Some((BinOp::Ge, 2, 3)),
        Token::AndAnd => Some((BinOp::And, 0, 1)),
        Token::PipePipe => Some((BinOp::Or, 0, 1)),
        _ => None,
    }
}

/// An expression.
pub fn parse_expr(toks: &Tokens, i: usize, rodeo: &mut lasso::Rodeo) -> (r: Result<(Expr, usize), ParseError>)
    requires
        i <= toks.len(),
        room(*old(rodeo), toks.len() as int, i as int),
        interned(*old(rodeo)).no_duplicates(),
    ensures
        parse_ok(r, *old(rodeo), *final(rodeo), toks.len() as int, i as int),
        expr_ok(r, *final(rodeo)),
        interned(*final(rodeo)).no_duplicates(),
        grammar::agrees(grammar::out_expr(r), interned(*final(rodeo)), toks@, grammar::p_expr(toks@, i as nat, interned(*old(rodeo)))),
    decreases toks.len() - i, 9nat,
{
    if i < toks.len() {
        match toks[i].0 {
            Token::Type => return parse_type_in(toks, i, rodeo),
            Token::If => return parse_if(toks, i, rodeo),
            Token::Match => return parse_match(toks, i, rodeo),
            Token::Let => return parse_let(toks, i, rodeo),
            Token::Pipe => return parse_lambda(toks, i, rodeo),
            _ => {},
        }
    }
    parse_pratt(toks, i, 0, rodeo)
}

/// `if` cond `then` expr `else` expr.
fn parse_if(toks: &Tokens, i: usize, rodeo: &mut lasso::Rodeo) -> (r: Result<(Expr, usize), ParseError>)
    requires
        i < toks.len(),
        room(*old(rodeo), toks.len() as int, i as int),
        interned(*old(rodeo)).no_duplicates(),
    ensures
        parse_ok(r, *old(rodeo), *final(rodeo), toks.len() as int, i as int),
        expr_ok(r, *final(rodeo)),
        interned(*final(rodeo)).no_duplicates(),
        grammar::agrees(grammar::out_expr(r), interned(*final(rodeo)), toks@, grammar::p_if(toks@, i as nat, interned(*old(rodeo)))),
    decreases toks.len() - i, 8nat,
{
    let ghost r0 = *rodeo;
    let (cond, k1) = match parse_pratt(toks, i + 1, 0, rodeo) {
        Ok(v) => v,
        Err(e) => return Err(e),
    };
    let ghost r1 = *rodeo;
    if !at(toks, k1, Token::Then) {
        return Err(unexpected(toks, k1));
    }
    let (then_expr, k2) = match parse_pratt(toks, k1 + 1, 0, rodeo) {
        Ok(v) => v,
        Err(e) => {
            proof { lemma_grew_trans(r0, r1, *rodeo, (k1 - i) as int, (toks.len() - k1 - 1) as int); }
            return Err(e);
        },
    };
    let ghost r2 = *rodeo;
    proof { lemma_grew_trans(r0, r1, r2, (k1 - i) as int, (k2 - k1 - 1) as int); }
    if !at(toks, k2, Token::Else) {
        return Err(unexpected(toks, k2));
    }
    let (else_expr, j) = match parse_expr(toks, k2 + 1, rodeo) {
        Ok(v) => v,
        Err(e) => {
            proof { lemma_grew_trans(r0, r2, *rodeo, (k2 - i) as int, (toks.len() - k2 - 1) as int); }
            return Err(e);
        },
    };
    proof {
        lemma_grew_trans(r0, r2, *rodeo, (k2 - i) as int, (j - k2 - 1) as int);
        lemma_names_mono(cond, interned(r1).len(), interned(*rodeo).len());
        lemma_names_mono(then_expr, interned(r2).len(), interned(*rodeo).len());
    }
    Ok((mk(ExprKind::If { cond, then_expr, else_expr }, span_of(toks, i, j)), j))
}

/// `|` pattern `|` body.
fn parse_lambda(toks: &Tokens, i: usize, rodeo: &mut lasso::Rodeo) -> (r: Result<(Expr, usize), ParseError>)
    requires
        i < toks.len(),
        room(*old(rodeo), toks.len() as int, i as int),
        interned(*old(rodeo)).no_duplicates(),
    ensures
        parse_ok(r, *old(rodeo), *final(rodeo), toks.len() as int, i as int),
        expr_ok(r, *final(rodeo)),
        interned(*final(rodeo)).no_duplicates(),
        grammar::agrees(grammar::out_expr(r), interned(*final(rodeo)), toks@, grammar::p_lambda(toks@, i as nat, interned(*old(rodeo)))),
    decreases toks.len() - i, 8nat,
{
    let ghost r0 = *rodeo;
    let (param, k) = match parse_pat(toks, i + 1, rodeo) {
        Ok(v) => v,
        Err(e) => return Err(e),
    };
    let ghost r1 = *rodeo;
    if !at(toks, k, Token::Pipe) {
        return Err(unexpected(toks, k));
    }
    let (body, j) = match parse_expr(toks, k + 1, rodeo) {
        Ok(v) => v,
        Err(e) => {
            proof { lemma_grew_trans(r0, r1, *rodeo, (k - i) as int, (toks.len() - k - 1) as int); }
            return Err(e);
        },
    };
    proof {
        lemma_grew_trans(r0, r1, *rodeo, (k - i) as int, (j - k - 1) as int);
        lemma_pat_names_mono(param, interned(r1).len(), interned(*rodeo).len());
    }
    Ok((mk(ExprKind::Abs { param, body }, span_of(toks, i, j)), j))
}

/// `match` scrutinee, then one or more arms `|` pattern `=>` body.
fn parse_match(toks: &Tokens, i: usize, rodeo: &mut lasso::Rodeo) -> (r: Result<(Expr, usize), ParseError>)
    requires
        i < toks.len(),
        room(*old(rodeo), toks.len() as int, i as int),
        interned(*old(rodeo)).no_duplicates(),
    ensures
        parse_ok(r, *old(rodeo), *final(rodeo), toks.len() as int, i as int),
        expr_ok(r, *final(rodeo)),
        interned(*final(rodeo)).no_duplicates(),
        grammar::agrees(grammar::out_expr(r), interned(*final(rodeo)), toks@, grammar::p_match(toks@, i as nat, interned(*old(rodeo)))),
    decreases toks.len() - i, 8nat,
{
    let ghost r0 = *rodeo;
    let (scrutinee, mut k) = match parse_pratt(toks, i + 1, 0, rodeo) {
        Ok(v) => v,
        Err(e) => return Err(e),
    };
    let mut arms: Vec<(Pat, Expr)> = Vec::new();
    assert(grammar::arms_view(arms@) =~= Seq::<(grammar::SPat, grammar::SExpr)>::empty());
    while at(toks, k, Token::Pipe)
        invariant
            i < k <= toks.len(),
            r0 == *old(rodeo),
            grew(r0, *rodeo, k - i),
            room(r0, toks.len() as int, i as int),
            names_below(scrutinee, interned(*rodeo).len()),
            arms_names_below(arms@, interned(*rodeo).len(), arms@.len()),
            interned(*rodeo).no_duplicates(),
            grammar::p_match(toks@, i as nat, interned(r0)) == grammar::p_arms(toks@, i as nat, k as nat,
                grammar::expr_view(scrutinee), grammar::arms_view(arms@), interned(*rodeo)),
        decreases toks.len() - k,
    {
        let ghost r1 = *rodeo;
        let (pat, k2) = match parse_pat(toks, k + 1, rodeo) {
            Ok(v) => v,
            Err(e) => {
                proof { lemma_grew_trans(r0, r1, *rodeo, (k - i) as int, (toks.len() - k - 1) as int); }
                return Err(e);
            },
        };
        let ghost r2 = *rodeo;
        proof { lemma_grew_trans(r0, r1, r2, (k - i) as int, (k2 - k - 1) as int); }
        if !at(toks, k2, Token::StrongArrow) {
            return Err(unexpected(toks, k2));
        }
        let (body, j) = match parse_expr(toks, k2 + 1, rodeo) {
            Ok(v) => v,
            Err(e) => {
                proof { lemma_grew_trans(r0, r2, *rodeo, (k2 - i) as int, (toks.len() - k2 - 1) as int); }
                return Err(e);
            },
        };
        proof {
            lemma_grew_trans(r0, r2, *rodeo, (k2 - i) as int, (j - k2 - 1) as int);
            lemma_names_mono(scrutinee, interned(r1).len(), interned(*rodeo).len());
            lemma_arms_names_mono(arms@, interned(r1).len(), interned(*rodeo).len(), arms@.len());
            lemma_pat_names_mono(pat, interned(r2).len(), interned(*rodeo).len());
            lemma_arms_push(arms@, (pat, body), interned(*rodeo).len(), arms@.len());
        }
        let ghost before = arms@;
        let ghost pv = grammar::pat_view(pat);
        let ghost bv = grammar::expr_view(body);
        arms.push((pat, body));
        assert(grammar::arms_view(arms@) =~= grammar::arms_view(before).push((pv, bv)));
        k = j;
    }
    if arms.len() == 0 {
        return Err(unexpected(toks, k));
    }
    let ghost av = grammar::arms_view(arms@);
    let e = mk(ExprKind::Match { scrutinee, arms }, span_of(toks, i, k));
    assert((*grammar::expr_view(e).kind)->Match_arms =~= av);
    Ok((e, k))
}

/// A binding of `let`: `rec`? pattern parameters `=` value. The parameters
/// become lambdas around the value, the last innermost.
fn parse_binding(toks: &Tokens, i: usize, rodeo: &mut lasso::Rodeo) -> (r: Result<(Binding, usize), ParseError>)
    requires
        i <= toks.len(),
        room(*old(rodeo), toks.len() as int, i as int),
        interned(*old(rodeo)).no_duplicates(),
    ensures
        parse_ok(r, *old(rodeo), *final(rodeo), toks.len() as int, i as int),
        r matches Ok((b, j)) ==> bind_pat_names_below(b.pat, interned(*final(rodeo)).len())
            && names_below(b.value, interned(*final(rodeo)).len()),
        interned(*final(rodeo)).no_duplicates(),
        grammar::agrees(grammar::out_binding(r), interned(*final(rodeo)), toks@, grammar::p_binding(toks@, i as nat, interned(*old(rodeo)))),
    decreases toks.len() - i, 7nat,
{
    let ghost r0 = *rodeo;
    let rec = at(toks, i, Token::Rec);
    let start = if rec { i + 1 } else { i };
    let (pat, mut k) = match parse_bind_pat(toks, start, rodeo) {
        Ok(v) => v,
        Err(e) => return Err(e),
    };
    let mut params: Vec<Pat> = Vec::new();
    assert(grammar::pats_view(params@) =~= Seq::<grammar::SPat>::empty());
    while starts_pat_atom(toks, k)
        invariant
            i <= start < k <= toks.len(),
            r0 == *old(rodeo),
            grew(r0, *rodeo, k - i),
            room(r0, toks.len() as int, i as int),
            bind_pat_names_below(pat, interned(*rodeo).len()),
            pats_names_below(params@, interned(*rodeo).len(), params@.len()),
            interned(*rodeo).no_duplicates(),
            rec == grammar::at(toks@, i as nat, Token::Rec),
            grammar::p_binding(toks@, i as nat, interned(r0)) == grammar::p_params(toks@, rec,
                grammar::bind_pat_view(pat), k as nat, grammar::pats_view(params@), interned(*rodeo)),
        decreases toks.len() - k,
    {
        let ghost r1 = *rodeo;
        match parse_pat_atom(toks, k, rodeo) {
            Ok((p, j)) => {
                proof {
                    lemma_grew_trans(r0, r1, *rodeo, (k - i) as int, (j - k) as int);
                    lemma_bind_pat_names_mono(pat, interned(r1).len(), interned(*rodeo).len());
                    lemma_pats_names_mono(params@, interned(r1).len(), interned(*rodeo).len(), params@.len());
                    lemma_pats_push(params@, p, interned(*rodeo).len(), params@.len());
                }
                let ghost before = params@;
                let ghost pv = grammar::pat_view(p);
                params.push(p);
                assert(grammar::pats_view(params@) =~= grammar::pats_view(before).push(pv));
                k = j;
            },
            Err(e) => {
                proof { lemma_grew_trans(r0, r1, *rodeo, (k - i) as int, (toks.len() - k) as int); }
                return Err(e);
            },
        }
    }
    if !at(toks, k, Token::Eq) {
        return Err(unexpected(toks, k));
    }
    let ghost r1 = *rodeo;
    let (mut value, j) = match parse_expr(toks, k + 1, rodeo) {
        Ok(v) => v,
        Err(e) => {
            proof { lemma_grew_trans(r0, r1, *rodeo, (k - i) as int, (toks.len() - k - 1) as int); }
            return Err(e);
        },
    };
    proof {
        lemma_grew_trans(r0, r1, *rodeo, (k - i) as int, (j - k - 1) as int);
        lemma_bind_pat_names_mono(pat, interned(r1).len(), interned(*rodeo).len());
        lemma_pats_names_mono(params@, interned(r1).len(), interned(*rodeo).len(), params@.len());
    }
    let ghost n = interned(*rodeo).len();
    let ghost target = grammar::wrap_params(grammar::pats_view(params@), grammar::expr_view(value));
    while params.len() > 0
        invariant
            pats_names_below(params@, n, params@.len()),
            names_below(value, n),
            grammar::wrap_params(grammar::pats_view(params@), grammar::expr_view(value)) == target,
        decreases params.len(),
    {
        let ghost before = params@;
        let param = params.pop().unwrap();
        proof {
            assert(before =~= params@.push(param));
            lemma_pats_push(params@, param, n, params@.len());
            reveal_with_fuel(pats_names_below, 2);
            assert(pat_names_below(param, n));
            assert(grammar::pats_view(before).drop_last() =~= grammar::pats_view(params@));
            assert(grammar::pats_view(before).last() == grammar::pat_view(param));
        }
        let span = param.span;
        value = mk(ExprKind::Abs { param, body: value }, span);
    }
    assert(grammar::pats_view(params@) =~= Seq::<grammar::SPat>::empty());
    Ok((Binding { rec, pat, value }, j))
}

/// `let` binding (`and` binding)* `in` body.
fn parse_let(toks: &Tokens, i: usize, rodeo: &mut lasso::Rodeo) -> (r: Result<(Expr, usize), ParseError>)
    requires
        i < toks.len(),
        room(*old(rodeo), toks.len() as int, i as int),
        interned(*old(rodeo)).no_duplicates(),
    ensures
        parse_ok(r, *old(rodeo), *final(rodeo), toks.len() as int, i as int),
        expr_ok(r, *final(rodeo)),
        interned(*final(rodeo)).no_duplicates(),
        grammar::agrees(grammar::out_expr(r), interned(*final(rodeo)), toks@, grammar::p_let(toks@, i as nat, interned(*old(rodeo)))),
    decreases toks.len() - i, 8nat,
{
    let ghost r0 = *rodeo;
    let mut bindings: Vec<Binding> = Vec::new();
    let mut k = i;
    let mut first = true;
    proof { lemma_grew_refl(r0); }
    while first || at(toks, k, Token::And)
        invariant
            i <= k <= toks.len(),
            i < toks.len(),
            first ==> k == i && *rodeo == r0,
            !first ==> i < k,
            r0 == *old(rodeo),
            grew(r0, *rodeo, k - i),
            room(r0, toks.len() as int, i as int),
            bindings_names_below(bindings@, interned(*rodeo).len(), bindings@.len()),
            interned(*rodeo).no_duplicates(),
            !first ==> grammar::p_let(toks@, i as nat, interned(r0))
                == grammar::p_let_rest(toks@, i as nat, k as nat, grammar::bindings_view(bindings@), interned(*rodeo)),
            first ==> bindings@.len() == 0,
        decreases toks.len() - k, if first { 1nat } else { 0nat },
    {
        let ghost r1 = *rodeo;
        match parse_binding(toks, k + 1, rodeo) {
            Ok((b, j)) => {
                proof {
                    lemma_grew_trans(r0, r1, *rodeo, (k - i) as int, (j - k - 1) as int);
                    lemma_bindings_names_mono(bindings@, interned(r1).len(), interned(*rodeo).len(), bindings@.len());
                    lemma_bindings_push(bindings@, b, interned(*rodeo).len(), bindings@.len());
                }
                let ghost before = bindings@;
                let ghost bv = grammar::binding_view(b);
                bindings.push(b);
                assert(grammar::bindings_view(bindings@) =~= grammar::bindings_view(before).push(bv));
                if first {
                    assert(grammar::bindings_view(bindings@) =~= seq![bv]);
                }
                k = j;
            },
            Err(e) => {
                proof { lemma_grew_trans(r0, r1, *rodeo, (k - i) as int, (toks.len() - k - 1) as int); }
                return Err(e);
            },
        }
        first = false;
    }
    if !at(toks, k, Token::In) {
        return Err(unexpected(toks, k));
    }
    let ghost r1 = *rodeo;
    let (body, j) = match parse_expr(toks, k + 1, rodeo) {
        Ok(v) => v,
        Err(e) => {
            proof { lemma_grew_trans(r0, r1, *rodeo, (k - i) as int, (toks.len() - k - 1) as int); }
            return Err(e);
        },
    };
    proof {
        lemma_grew_trans(r0, r1, *rodeo, (k - i) as int, (j - k - 1) as int);
        lemma_bindings_names_mono(bindings@, interned(r1).len(), interned(*rodeo).len(), bindings@.len());
    }
    let ghost bsv = grammar::bindings_view(bindings@);
    let e = mk(ExprKind::Let { bindings, body }, span_of(toks, i, j));
    assert((*grammar::expr_view(e).kind)->Let_bindings =~= bsv);
    Ok((e, j))
}

/// A variant of a union type: a constructor name and, optionally, the type
/// of its argument.
fn parse_variant(toks: &Tokens, i: usize, rodeo: &mut lasso::Rodeo) -> (r: Result<(VariantDef, usize), ParseError>)
    requires
        i <= toks.len(),
        room(*old(rodeo), toks.len() as int, i as int),
        interned(*old(rodeo)).no_duplicates(),
    ensures
        parse_ok(r, *old(rodeo), *final(rodeo), toks.len() as int, i as int),
        interned(*final(rodeo)).no_duplicates(),
        grammar::agrees(grammar::out_variant(r), interned(*final(rodeo)), toks@, grammar::p_variant(toks@, i as nat, interned(*old(rodeo)))),
{
    let ghost r0 = *rodeo;
    if i >= toks.len() {
        proof { lemma_grew_refl(r0); }
        return Err(unexpected(toks, i));
    }
    let name = match ident_at(toks, i, rodeo) {
        Some(id) => id,
        None => {
            proof { lemma_grew_refl(r0); }
            return Err(unexpected(toks, i));
        },
    };
    if starts_tatom(toks, i + 1) {
        let ghost r1 = *rodeo;
        match parse_texpr(toks, i + 1, rodeo) {
            Ok((t, j)) => {
                proof { lemma_grew_trans(r0, r1, *rodeo, 1, (j - i - 1) as int); }
                Ok((VariantDef { name, arg: Some(t) }, j))
            },
            Err(e) => {
                proof { lemma_grew_trans(r0, r1, *rodeo, 1, (toks.len() - i - 1) as int); }
                Err(e)
            },
        }
    } else {
        Ok((VariantDef { name, arg: None }, i + 1))
    }
}

/// A type definition: a name `=` either variants, each after `|`, or a
/// type (a single constructor named like the type).
fn parse_type_def(toks: &Tokens, i: usize, rodeo: &mut lasso::Rodeo) -> (r: Result<(TypeDef, usize), ParseError>)
    requires
        i <= toks.len(),
        room(*old(rodeo), toks.len() as int, i as int),
        interned(*old(rodeo)).no_duplicates(),
    ensures
        parse_ok(r, *old(rodeo), *final(rodeo), toks.len() as int, i as int),
        interned(*final(rodeo)).no_duplicates(),
        grammar::agrees(grammar::out_typedef(r), interned(*final(rodeo)), toks@, grammar::p_type_def(toks@, i as nat, interned(*old(rodeo)))),
{
    let ghost r0 = *rodeo;
    proof { lemma_grew_refl(r0); }
    if i >= toks.len() {
        return Err(unexpected(toks, i));
    }
    let name = match ident_at(toks, i, rodeo) {
        Some(id) => id,
        None => return Err(unexpected(toks, i)),
    };
    if !at(toks, i + 1, Token::Eq) {
        return Err(unexpected(toks, i + 1));
    }
    let mut variants: Vec<VariantDef> = Vec::new();
    let mut k = i + 2;
    if at(toks, k, Token::Pipe) {
        assert(grammar::variants_view(variants@) =~= Seq::<grammar::SVariant>::empty());
        while at(toks, k, Token::Pipe)
            invariant
                i + 2 <= k <= toks.len(),
                r0 == *old(rodeo),
                grew(r0, *rodeo, k - i),
                room(r0, toks.len() as int, i as int),
                interned(*rodeo).no_duplicates(),
                grammar::p_type_def(toks@, i as nat, interned(r0))
                    == grammar::p_variants(toks@, name, k as nat, grammar::variants_view(variants@), interned(*rodeo)),
            decreases toks.len() - k,
        {
            let ghost r1 = *rodeo;
            match parse_variant(toks, k + 1, rodeo) {
                Ok((v, j)) => {
                    proof { lemma_grew_trans(r0, r1, *rodeo, (k - i) as int, (j - k - 1) as int); }
                    let ghost before = variants@;
                    variants.push(v);
                    assert(grammar::variants_view(variants@) =~= grammar::variants_view(before).push(grammar::variant_view(v)));
                    k = j;
                },
                Err(e) => {
                    proof { lemma_grew_trans(r0, r1, *rodeo, (k - i) as int, (toks.len() - k - 1) as int); }
                    return Err(e);
                },
            }
        }
        let ghost vv = grammar::variants_view(variants@);
        let d = TypeDef { name, params: Vec::new(), variants };
        assert(grammar::typedef_view(d).variants =~= vv);
        assert(grammar::typedef_view(d).params =~= Seq::<Ident>::empty());
        Ok((d, k))
    } else {
        let ghost r1 = *rodeo;
        match parse_texpr(toks, k, rodeo) {
            Ok((t, j)) => {
                proof { lemma_grew_trans(r0, r1, *rodeo, (k - i) as int, (j - k) as int); }
                let ghost tv = grammar::texpr_view(t);
                variants.push(VariantDef { name, arg: Some(t) });
                let d = TypeDef { name, params: Vec::new(), variants };
                assert(grammar::typedef_view(d).variants =~= seq![grammar::SVariant { name, arg: Some(tv) }]);
                assert(grammar::typedef_view(d).params =~= Seq::<Ident>::empty());
                Ok((d, j))
            },
            Err(e) => {
                proof { lemma_grew_trans(r0, r1, *rodeo, (k - i) as int, (toks.len() - k) as int); }
                Err(e)
            },
        }
    }
}

/// `type` definition (`and` definition)* `in` body.
fn parse_type_in(toks: &Tokens, i: usize, rodeo: &mut lasso::Rodeo) -> (r: Result<(Expr, usize), ParseError>)
    requires
        i < toks.len(),
        room(*old(rodeo), toks.len() as int, i as int),
        interned(*old(rodeo)).no_duplicates(),
    ensures
        parse_ok(r, *old(rodeo), *final(rodeo), toks.len() as int, i as int),
        expr_ok(r, *final(rodeo)),
        interned(*final(rodeo)).no_duplicates(),
        grammar::agrees(grammar::out_expr(r), interned(*final(rodeo)), toks@, grammar::p_type_in(toks@, i as nat, interned(*old(rodeo)))),
    decreases toks.len() - i, 8nat,
{
    let ghost r0 = *rodeo;
    let mut definitions: Vec<TypeDef> = Vec::new();
    let mut k = i;
    let mut first = true;
    proof { lemma_grew_refl(r0); }
    while first || at(toks, k, Token::And)
        invariant
            i <= k <= toks.len(),
            i < toks.len(),
            first ==> k == i && *rodeo == r0 && definitions@.len() == 0,
            !first ==> i < k,
            r0 == *old(rodeo),
            grew(r0, *rodeo, k - i),
            room(r0, toks.len() as int, i as int),
            interned(*rodeo).no_duplicates(),
            !first ==> grammar::p_type_in(toks@, i as nat, interned(r0))
                == grammar::p_type_in_rest(toks@, i as nat, k as nat, grammar::typedefs_view(definitions@), interned(*rodeo)),
        decreases toks.len() - k, if first { 1nat } else { 0nat },
    {
        let ghost r1 = *rodeo;
        match parse_type_def(toks, k + 1, rodeo) {
            Ok((d, j)) => {
                proof { lemma_grew_trans(r0, r1, *rodeo, (k - i) as int, (j - k - 1) as int); }
                let ghost before = definitions@;
                let ghost dv = grammar::typedef_view(d);
                definitions.push(d);
                assert(grammar::typedefs_view(definitions@) =~= grammar::typedefs_view(before).push(dv));
                if first {
                    assert(grammar::typedefs_view(definitions@) =~= seq![dv]);
                }
                k = j;
            },
            Err(e) => {
                proof { lemma_grew_trans(r0, r1, *rodeo, (k - i) as int, (toks.len() - k - 1) as int); }
                return Err(e);
            },
        }
        first = false;
    }
    if !at(toks, k, Token::In) {
        return Err(unexpected(toks, k));
    }
    let ghost r1 = *rodeo;
    let (body, j) = match parse_expr(toks, k + 1, rodeo) {
        Ok(v) => v,
        Err(e) => {
            proof { lemma_grew_trans(r0, r1, *rodeo, (k - i) as int, (toks.len() - k - 1) as int); }
            return Err(e);
        },
    };
    proof { lemma_grew_trans(r0, r1, *rodeo, (k - i) as int, (j - k - 1) as int); }
    let ghost dsv = grammar::typedefs_view(definitions@);
    let e = mk(ExprKind::Type { definitions, body }, span_of(toks, i, j));
    assert((*grammar::expr_view(e).kind)->Type_definitions =~= dsv);
    Ok((e, j))
}

/// Operands joined by infix operators, each operator binding at least
/// `min_power` on its left.
fn parse_pratt(toks: &Tokens, i: usize, min_power: u32, rodeo: &mut lasso::Rodeo) -> (r: Result<(Expr, usize), ParseError>)
    requires
        i <= toks.len(),
        room(*old(rodeo), toks.len() as int, i as int),
        interned(*old(rodeo)).no_duplicates(),
    ensures
        parse_ok(r, *old(rodeo), *final(rodeo), toks.len() as int, i as int),
        expr_ok(r, *final(rodeo)),
        interned(*final(rodeo)).no_duplicates(),
        grammar::agrees(grammar::out_expr(r), interned(*final(rodeo)), toks@, grammar::p_pratt(toks@, i as nat, min_power, interned(*old(rodeo)))),
    decreases toks.len() - i, 7nat,
{
    let ghost r0 = *rodeo;
    let (mut lhs, mut k) = match parse_unary(toks, i, rodeo) {
        Ok(v) => v,
        Err(e) => return Err(e),
    };
    loop
        invariant
            i < k <= toks.len(),
            r0 == *old(rodeo),
            grew(r0, *rodeo, k - i),
            room(r0, toks.len() as int, i as int),
            names_below(lhs, interned(*rodeo).len()),
            interned(*rodeo).no_duplicates(),
            grammar::p_pratt(toks@, i as nat, min_power, interned(r0))
                == grammar::p_infix(toks@, i as nat, min_power, k as nat, grammar::expr_view(lhs), interned(*rodeo)),
        ensures
            grammar::p_pratt(toks@, i as nat, min_power, interned(r0))
                == grammar::Parsed::Done(grammar::expr_view(lhs), k as nat, interned(*rodeo)),
        decreases toks.len() - k,
    {
        match infix_at(toks, k) {
            Some((op, left, right)) => {
                if left < min_power {
                    break;
                }
                let ghost r1 = *rodeo;
                match parse_pratt(toks, k + 1, right, rodeo) {
                    Ok((rhs, j)) => {
                        proof {
                            lemma_grew_trans(r0, r1, *rodeo, (k - i) as int, (j - k - 1) as int);
                            lemma_names_mono(lhs, interned(r1).len(), interned(*rodeo).len());
                        }
                        lhs = mk(ExprKind::BinOp { op, lhs, rhs }, span_of(toks, i, j));
                        k = j;
                    },
                    Err(e) => {
                        proof { lemma_grew_trans(r0, r1, *rodeo, (k - i) as int, (toks.len() - k - 1) as int); }
                        return Err(e);
                    },
                }
            },
            None => break,
        }
    }
    Ok((lhs, k))
}

/// `!`s, then `-`s, then an application; each operator applies to all that follows it.
fn parse_unary(toks: &Tokens, i: usize, rodeo: &mut lasso::Rodeo) -> (r: Result<(Expr, usize), ParseError>)
    requires
        i <= toks.len(),
        room(*old(rodeo), toks.len() as int, i as int),
        interned(*old(rodeo)).no_duplicates(),
    ensures
        parse_ok(r, *old(rodeo), *final(rodeo), toks.len() as int, i as int),
        expr_ok(r, *final(rodeo)),
        interned(*final(rodeo)).no_duplicates(),
        grammar::agrees(grammar::out_expr(r), interned(*final(rodeo)), toks@, grammar::p_unary(toks@, i as nat, interned(*old(rodeo)))),
    decreases toks.len() - i, 6nat,
{
    let mut nots = i;
    while at(toks, nots, Token::Bang)
        invariant
            i <= nots <= toks.len(),
            grammar::run_end(toks@, i as nat, Token::Bang) == grammar::run_end(toks@, nots as nat, Token::Bang),
        decreases toks.len() - nots,
    {
        nots = nots + 1;
    }
    let mut negs = nots;
    while at(toks, negs, Token::Minus)
        invariant
            nots <= negs <= toks.len(),
            grammar::run_end(toks@, nots as nat, Token::Minus) == grammar::run_end(toks@, negs as nat, Token::Minus),
        decreases toks.len() - negs,
    {
        negs = negs + 1;
    }
    let (mut e, j) = match parse_call(toks, negs, rodeo) {
        Ok(v) => v,
        Err(e) => return Err(e),
    };
    let ghost e0 = grammar::expr_view(e);
    let mut p = negs;
    while p > nots
        invariant
            nots <= p <= negs < j <= toks.len(),
            names_below(e, interned(*rodeo).len()),
            grammar::wrap_unary(toks@, UnaryOp::Neg, nots as nat, negs as nat, e0, j as nat)
                == grammar::wrap_unary(toks@, UnaryOp::Neg, nots as nat, p as nat, grammar::expr_view(e), j as nat),
        decreases p,
    {
        p = p - 1;
        e = mk(ExprKind::UnaryOp { op: UnaryOp::Neg, rhs: e }, span_of(toks, p, j));
    }
    let ghost e1 = grammar::expr_view(e);
    let mut p = nots;
    while p > i
        invariant
            i <= p <= nots <= negs < j <= toks.len(),
            names_below(e, interned(*rodeo).len()),
            grammar::wrap_unary(toks@, UnaryOp::Not, i as nat, nots as nat, e1, j as nat)
                == grammar::wrap_unary(toks@, UnaryOp::Not, i as nat, p as nat, grammar::expr_view(e), j as nat),
        decreases p,
    {
        p = p - 1;
        e = mk(ExprKind::UnaryOp { op: UnaryOp::Not, rhs: e }, span_of(toks, p, j));
    }
    proof { lemma_grew_weaken(*old(rodeo), *rodeo, (j - negs) as int, (j - i) as int); }
    Ok((e, j))
}

/// Atoms, each after the first applied to the expression so far.
fn parse_call(toks: &Tokens, i: usize, rodeo: &mut lasso::Rodeo) -> (r: Result<(Expr, usize), ParseError>)
    requires
        i <= toks.len(),
        room(*old(rodeo), toks.len() as int, i as int),
        interned(*old(rodeo)).no_duplicates(),
    ensures
        parse_ok(r, *old(rodeo), *final(rodeo), toks.len() as int, i as int),
        expr_ok(r, *final(rodeo)),
        interned(*final(rodeo)).no_duplicates(),
        grammar::agrees(grammar::out_expr(r), interned(*final(rodeo)), toks@, grammar::p_call(toks@, i as nat, interned(*old(rodeo)))),
    decreases toks.len() - i, 5nat,
{
    let ghost r0 = *rodeo;
    let (mut func, mut k) = match parse_atom(toks, i, rodeo) {
        Ok(v) => v,
        Err(e) => return Err(e),
    };
    while starts_atom(toks, k)
        invariant
            i < k <= toks.len(),
            r0 == *old(rodeo),
            grew(r0, *rodeo, k - i),
            room(r0, toks.len() as int, i as int),
            names_below(func, interned(*rodeo).len()),
            interned(*rodeo).no_duplicates(),
            grammar::p_call(toks@, i as nat, interned(r0))
                == grammar::p_args(toks@, i as nat, k as nat, grammar::expr_view(func), interned(*rodeo)),
        decreases toks.len() - k,
    {
        let ghost r1 = *rodeo;
        match parse_atom(toks, k, rodeo) {
            Ok((arg, j)) => {
                proof {
                    lemma_grew_trans(r0, r1, *rodeo, (k - i) as int, (j - k) as int);
                    lemma_names_mono(func, interned(r1).len(), interned(*rodeo).len());
                }
                func = mk(ExprKind::App { func, arg }, span_of(toks, i, j));
                k = j;
            },
            Err(e) => {
                proof { lemma_grew_trans(r0, r1, *rodeo, (k - i) as int, (toks.len() - k) as int); }
                return Err(e);
            },
        }
    }
    Ok((func, k))
}

/// A literal, a name, an expression in parentheses, or a tuple.
fn parse_atom(toks: &Tokens, i: usize, rodeo: &mut lasso::Rodeo) -> (r: Result<(Expr, usize), ParseError>)
    requires
        i <= toks.len(),
        room(*old(rodeo), toks.len() as int, i as int),
        interned(*old(rodeo)).no_duplicates(),
    ensures
        parse_ok(r, *old(rodeo), *final(rodeo), toks.len() as int, i as int),
        expr_ok(r, *final(rodeo)),
        interned(*final(rodeo)).no_duplicates(),
        grammar::agrees(grammar::out_expr(r), interned(*final(rodeo)), toks@, grammar::p_atom(toks@, i as nat, interned(*old(rodeo)))),
    decreases toks.len() - i, 4nat,
{
    let ghost r0 = *rodeo;
    proof { lemma_grew_refl(r0); }
    if i >= toks.len() {
        return Err(unexpected(toks, i));
    }
    let span = span_of(toks, i, i + 1);
    match literal_at(toks, i) {
        Some(lit) => return Ok((mk(ExprKind::Literal(lit), span), i + 1)),
        None => {},
    }
    match &toks[i].0 {
        Token::Ident(_) => match ident_at(toks, i, rodeo) {
            Some(id) => Ok((mk(ExprKind::Var(id), span), i + 1)),
            None => Err(unexpected(toks, i)),
        },
        Token::LParen => {
            let (first, k) = match parse_expr(toks, i + 1, rodeo) {
                Ok(v) => v,
                Err(e) => return Err(e),
            };
            if at(toks, k, Token::RParen) {
                return Ok((first, k + 1));
            }
            if !at(toks, k, Token::Comma) {
                return Err(unexpected(toks, k));
            }
            if at(toks, k + 1, Token::RParen) {
                return Ok((first, k + 2));
            }
            let mut items: Vec<Expr> = Vec::new();
            items.push(first);
            proof {
                assert(names_below(first, interned(*rodeo).len()));
                assert(items@[0] == first);
                reveal_with_fuel(items_names_below, 2);
                assert(items_names_below(items@, interned(*rodeo).len(), 1));
                assert(grammar::exprs_view(items@) =~= seq![grammar::expr_view(first)]);
            }
            let mut k = k;
            while at(toks, k, Token::Comma)
                invariant
                    i < k <= toks.len(),
                    r0 == *old(rodeo),
                    grew(r0, *rodeo, k - i),
                    room(r0, toks.len() as int, i as int),
                    items_names_below(items@, interned(*rodeo).len(), items@.len()),
                    interned(*rodeo).no_duplicates(),
                    grammar::p_atom(toks@, i as nat, interned(r0))
                        == grammar::p_items(toks@, i as nat, k as nat, grammar::exprs_view(items@), interned(*rodeo)),
                decreases toks.len() - k,
            {
                let ghost r1 = *rodeo;
                match parse_expr(toks, k + 1, rodeo) {
                    Ok((e, j)) => {
                        proof {
                            lemma_grew_trans(r0, r1, *rodeo, (k - i) as int, (j - k - 1) as int);
                            lemma_items_names_mono(items@, interned(r1).len(), interned(*rodeo).len(), items@.len());
                            lemma_items_push(items@, e, interned(*rodeo).len(), items@.len());
                        }
                        let ghost before = items@;
                        let ghost ev = grammar::expr_view(e);
                        items.push(e);
                        assert(grammar::exprs_view(items@) =~= grammar::exprs_view(before).push(ev));
                        k = j;
                    },
                    Err(e) => {
                        proof { lemma_grew_trans(r0, r1, *rodeo, (k - i) as int, (toks.len() - k - 1) as int); }
                        return Err(e);
                    },
                }
            }
            if at(toks, k, Token::RParen) {
                let ghost iv = grammar::exprs_view(items@);
                let e = mk(ExprKind::Tuple(items), span_of(toks, i, k + 1));
                assert((*grammar::expr_view(e).kind)->Tuple_0 =~= iv);
                Ok((e, k + 1))
            } else {
                Err(unexpected(toks, k))
            }
        },
        _ => Err(unexpected(toks, i)),
    }
}

/// Parses all the tokens as one expression (see `grammar::p_program`).
pub fn parser(toks: &Tokens, rodeo: &mut lasso::Rodeo) -> (r: Result<Expr, ParseError>)
    requires
        room(*old(rodeo), toks.len() as int, 0),
        interned(*old(rodeo)).no_duplicates(),
    ensures
        grew(*old(rodeo), *final(rodeo), toks.len() as int),
        r matches Ok(e) ==> names_below(e, interned(*final(rodeo)).len()),
        interned(*final(rodeo)).no_duplicates(),
        match grammar::p_program(toks@, interned(*old(rodeo))) {
            grammar::Parsed::Done(v, j, n) => r matches Ok(e) && grammar::expr_view(e) == v && interned(*final(rodeo)) == n,
            grammar::Parsed::Failed(k, n) => r matches Err(err) && err.span == grammar::error_span(toks@, k)
                && err.message@ == grammar::error_text(toks@, k) && interned(*final(rodeo)) == n,
        },
{
    match parse_expr(toks, 0, rodeo) {
        Ok((e, j)) => {
            if j == toks.len() {
                Ok(e)
            } else {
                proof { lemma_grew_weaken(*old(rodeo), *rodeo, j as int, toks.len() as int); }
                Err(unexpected(toks, j))
            }
        },
        Err(e) => Err(e),
    }
}

} // verus!
