//! Writing expressions back as text: on one line (`display_inline`),
//! shortened (`display_minimized`), or laid out over lines (`display`).
use vstd::prelude::*;
use crate::ast::{BinOp, BindPat, BindPatKind, Binding, Expr, ExprKind, Literal, Pat, PatKind, UnaryOp};
use crate::interner::{interned, resolve};
use crate::scope::{bind_pat_names_below, names_below, pat_names_below, lemma_arms_names_below, lemma_bind_pats_names_below, lemma_bindings_names_below, lemma_items_names_below, lemma_pats_names_below};
use crate::text::{i64_text, int_decimal};

verus! {

/// How tightly a binary operator binds, from 1 (loosest) to 6.
pub open spec fn prec(op: BinOp) -> u8 {
    match op {
        BinOp::Or => 1,
        BinOp::And => 2,
        BinOp::Eq | BinOp::NotEq | BinOp::Lt | BinOp::Gt | BinOp::Le | BinOp::Ge => 3,
        BinOp::Add | BinOp::Sub => 4,
        BinOp::Mul | BinOp::Div => 5,
        BinOp::Pow => 6,
    }
}

/// How tightly a binary operator binds (see `prec`).
pub fn binop_prec(op: &BinOp) -> (p: u8)
    ensures
        p == prec(*op),
{
    match op {
        BinOp::Or => 1,
        BinOp::And => 2,
        BinOp::Eq | BinOp::NotEq | BinOp::Lt | BinOp::Gt | BinOp::Le | BinOp::Ge => 3,
        BinOp::Add | BinOp::Sub => 4,
        BinOp::Mul | BinOp::Div => 5,
        BinOp::Pow => 6,
    }
}

/// How a binary operator is written, with a space on each side.
pub open spec fn op_text(op: BinOp) -> Seq<char> {
    match op {
        BinOp::Eq => " == "@,
        BinOp::NotEq => " != "@,
        BinOp::Lt => " < "@,
        BinOp::Gt => " > "@,
        BinOp::Le => " <= "@,
        BinOp::Ge => " >= "@,
        BinOp::And => " && "@,
        BinOp::Or => " || "@,
        BinOp::Add => " + "@,
        BinOp::Sub => " - "@,
        BinOp::Mul => " * "@,
        BinOp::Div => " / "@,
        BinOp::Pow => " ^ "@,
    }
}

pub(crate) fn op_str(op: &BinOp) -> (s: &'static str)
    ensures
        s@ == op_text(*op),
{
    match op {
        BinOp::Eq => " == ",
        BinOp::NotEq => " != ",
        BinOp::Lt => " < ",
        BinOp::Gt => " > ",
        BinOp::Le => " <= ",
        BinOp::Ge => " >= ",
        BinOp::And => " && ",
        BinOp::Or => " || ",
        BinOp::Add => " + ",
        BinOp::Sub => " - ",
        BinOp::Mul => " * ",
        BinOp::Div => " / ",
        BinOp::Pow => " ^ ",
    }
}

/// How a unary operator is written.
pub open spec fn unary_text(op: UnaryOp) -> Seq<char> {
    match op {
        UnaryOp::Neg => "-"@,
        UnaryOp::Not => "!"@,
    }
}

pub(crate) fn unary_str(op: &UnaryOp) -> (s: &'static str)
    ensures
        s@ == unary_text(*op),
{
    match op {
        UnaryOp::Neg => "-",
        UnaryOp::Not => "!",
    }
}

/// How a literal is written: a floating-point literal as its text.
pub open spec fn lit_text(l: Literal) -> Seq<char> {
    match l {
        Literal::Int(n) => int_decimal(n as int),
        Literal::Float(f) => f.text@,
        Literal::Bool(b) => if b { "true"@ } else { "false"@ },
    }
}

pub(crate) fn push_lit(out: &mut String, l: &Literal)
    ensures
        final(out)@ == old(out)@ + lit_text(*l),
{
    match l {
        Literal::Int(n) => out.append(i64_text(*n).as_str()),
        Literal::Float(f) => out.append(f.text.as_str()),
        Literal::Bool(b) => if *b { out.append("true") } else { out.append("false") },
    }
}

/// `level` levels of indentation, two spaces each.
pub open spec fn indent_text(level: nat) -> Seq<char> {
    Seq::new(2 * level, |i: int| ' ')
}

/// `level` levels of indentation, two spaces each.
pub fn indent(level: usize) -> (s: String)
    ensures
        s@ == indent_text(level as nat),
{
    let mut s = String::new();
    let mut i: usize = 0;
    while i < level
        invariant
            i <= level,
            s@ == indent_text(i as nat),
        decreases level - i,
    {
        s.append("  ");
        i = i + 1;
        proof {
            reveal_strlit("  ");
        }
        assert(s@ =~= indent_text(i as nat));
    }
    s
}

/// `a` and the texts `b` joined, in order, by `sep`: the start of a list
/// whose first `n` items have texts `b`.
pub open spec fn joined(sep: Seq<char>, b: Seq<Seq<char>>) -> Seq<char>
    decreases b.len(),
{
    if b.len() == 0 {
        Seq::empty()
    } else if b.len() == 1 {
        b[0]
    } else {
        joined(sep, b.drop_last()) + sep + b.last()
    }
}

pub(crate) proof fn lemma_joined_push(sep: Seq<char>, b: Seq<Seq<char>>, x: Seq<char>)
    ensures
        joined(sep, b.push(x)) == if b.len() == 0 { x } else { joined(sep, b) + sep + x },
{
    assert(b.push(x).drop_last() =~= b);
}

// ---------------------------------------------------------------------------
// Patterns.
// ---------------------------------------------------------------------------

/// How a `let` pattern is written.
pub open spec fn bind_pat_text(p: BindPat, names: Seq<Seq<char>>) -> Seq<char>
    decreases p, 0nat,
{
    match p.kind {
        BindPatKind::Var(id) => names[id.name as int],
        BindPatKind::Tuple(ps) => "("@ + joined(", "@, bind_pat_texts(ps@, names, ps@.len())) + ")"@,
    }
}

/// The texts of the first `n` `let` patterns.
pub open spec fn bind_pat_texts(ps: Seq<BindPat>, names: Seq<Seq<char>>, n: nat) -> Seq<Seq<char>>
    decreases ps, n,
{
    if n == 0 || n > ps.len() {
        Seq::empty()
    } else {
        bind_pat_texts(ps, names, (n - 1) as nat).push(bind_pat_text(ps[n - 1], names))
    }
}

proof fn lemma_bind_pat_texts_len(ps: Seq<BindPat>, names: Seq<Seq<char>>, n: nat)
    ensures
        bind_pat_texts(ps, names, n).len() == if n <= ps.len() { n } else { 0 },
    decreases n,
{
    if n > 0 && n <= ps.len() {
        lemma_bind_pat_texts_len(ps, names, (n - 1) as nat);
    }
}

/// Appends how a `let` pattern is written.
#[verifier::loop_isolation(false)]
pub fn write_bind_pat(out: &mut String, pat: &BindPat, rodeo: &lasso::Rodeo)
    requires
        bind_pat_names_below(*pat, interned(*rodeo).len()),
    ensures
        final(out)@ == old(out)@ + bind_pat_text(*pat, interned(*rodeo)),
    decreases pat,
{
    let ghost names = interned(*rodeo);
    match &pat.kind {
        BindPatKind::Var(id) => out.append(resolve(rodeo, id.name)),
        BindPatKind::Tuple(pats) => {
            out.append("(");
            let ghost start = out@;
            let mut i: usize = 0;
            while i < pats.len()
                invariant
                    i <= pats.len(),
                    out@ == start + joined(", "@, bind_pat_texts(pats@, names, i as nat)),
                decreases pats.len() - i,
            {
                proof {
                    lemma_bind_pats_names_below(pats@, names.len(), pats@.len(), i as int);
                    lemma_bind_pat_texts_len(pats@, names, i as nat);
                    lemma_joined_push(", "@, bind_pat_texts(pats@, names, i as nat), bind_pat_text(pats@[i as int], names));
                }
                if i > 0 {
                    out.append(", ");
                }
                write_bind_pat(out, &pats[i], rodeo);
                i = i + 1;
            }
            out.append(")");
        },
    }
}

/// How a pattern is written on one line; a constructor's argument is put in
/// parentheses.
pub open spec fn pat_inline_text(p: Pat, names: Seq<Seq<char>>) -> Seq<char>
    decreases p, 0nat,
{
    match *p.kind {
        PatKind::Wildcard => "_"@,
        PatKind::Var(id) => names[id.name as int],
        PatKind::Lit(l) => lit_text(l),
        PatKind::Or(a, b) => pat_inline_text(a, names) + " | "@ + pat_inline_text(b, names),
        PatKind::Tuple(ps) => "("@ + joined(", "@, pat_inline_texts(ps@, names, ps@.len())) + ")"@,
        PatKind::App { func, arg } => pat_inline_text(func, names) + " "@ + pat_inline_text(arg, names),
        PatKind::Constructor { name, arg } => match arg {
            Some(a) => names[name.name as int] + " ("@ + pat_inline_text(a, names) + ")"@,
            None => names[name.name as int],
        },
    }
}

/// The one-line texts of the first `n` patterns.
pub open spec fn pat_inline_texts(ps: Seq<Pat>, names: Seq<Seq<char>>, n: nat) -> Seq<Seq<char>>
    decreases ps, n,
{
    if n == 0 || n > ps.len() {
        Seq::empty()
    } else {
        pat_inline_texts(ps, names, (n - 1) as nat).push(pat_inline_text(ps[n - 1], names))
    }
}

proof fn lemma_pat_inline_texts_len(ps: Seq<Pat>, names: Seq<Seq<char>>, n: nat)
    ensures
        pat_inline_texts(ps, names, n).len() == if n <= ps.len() { n } else { 0 },
    decreases n,
{
    if n > 0 && n <= ps.len() {
        lemma_pat_inline_texts_len(ps, names, (n - 1) as nat);
    }
}

/// Appends how a pattern is written on one line.
#[verifier::loop_isolation(false)]
pub fn pat_write_inline(pat: &Pat, rodeo: &lasso::Rodeo, out: &mut String)
    requires
        pat_names_below(*pat, interned(*rodeo).len()),
    ensures
        final(out)@ == old(out)@ + pat_inline_text(*pat, interned(*rodeo)),
    decreases pat,
{
    let ghost names = interned(*rodeo);
    match &*pat.kind {
        PatKind::Wildcard => out.append("_"),
        PatKind::Var(id) => out.append(resolve(rodeo, id.name)),
        PatKind::Lit(l) => push_lit(out, l),
        PatKind::Or(a, b) => {
            pat_write_inline(a, rodeo, out);
            out.append(" | ");
            pat_write_inline(b, rodeo, out);
        },
        PatKind::Tuple(pats) => {
            out.append("(");
            let ghost start = out@;
            let mut i: usize = 0;
            while i < pats.len()
                invariant
                    i <= pats.len(),
                    out@ == start + joined(", "@, pat_inline_texts(pats@, names, i as nat)),
                decreases pats.len() - i,
            {
                proof {
                    lemma_pats_names_below(pats@, names.len(), pats@.len(), i as int);
                    lemma_pat_inline_texts_len(pats@, names, i as nat);
                    lemma_joined_push(", "@, pat_inline_texts(pats@, names, i as nat), pat_inline_text(pats@[i as int], names));
                }
                if i > 0 {
                    out.append(", ");
                }
                pat_write_inline(&pats[i], rodeo, out);
                i = i + 1;
            }
            out.append(")");
        },
        PatKind::App { func, arg } => {
            pat_write_inline(func, rodeo, out);
            out.append(" ");
            pat_write_inline(arg, rodeo, out);
        },
        PatKind::Constructor { name, arg } => {
            out.append(resolve(rodeo, name.name));
            match arg {
                Some(a) => {
                    out.append(" (");
                    pat_write_inline(a, rodeo, out);
                    out.append(")");
                },
                None => {},
            }
        },
    }
}

// ---------------------------------------------------------------------------
// One line.
// ---------------------------------------------------------------------------

/// Whether an expression is put in parentheses as the function or argument
/// of an application on one line.
pub open spec fn wraps_inline(e: Expr) -> bool {
    *e.kind is Abs || *e.kind is If || *e.kind is Let || *e.kind is Match
}

/// Whether the first binding of a `let` is recursive.
pub open spec fn let_is_rec(bs: Seq<Binding>) -> bool {
    bs.len() > 0 && bs[0].rec
}

/// How an expression is written on one line.
pub open spec fn inline_text(e: Expr, names: Seq<Seq<char>>) -> Seq<char>
    decreases e, 0nat,
{
    match *e.kind {
        ExprKind::Literal(l) => lit_text(l),
        ExprKind::Var(id) => names[id.name as int],
        ExprKind::If { cond, then_expr, else_expr } => "if "@ + inline_text(cond, names) + " then "@
            + inline_text(then_expr, names) + " else "@ + inline_text(else_expr, names),
        ExprKind::BinOp { op, lhs, rhs } => operand_inline_text(lhs, op, names) + op_text(op)
            + operand_inline_text(rhs, op, names),
        ExprKind::UnaryOp { op, rhs } => unary_text(op) + inline_text(rhs, names),
        ExprKind::Let { bindings, body } => (if let_is_rec(bindings@) { "let rec "@ } else { "let "@ })
            + joined(" and "@, binding_inline_texts(bindings@, names, bindings@.len())) + " in "@ + inline_text(body, names),
        ExprKind::Match { scrutinee, arms } => "match "@ + inline_text(scrutinee, names)
            + arms_inline_text(arms@, names, arms@.len()),
        ExprKind::Abs { param, body } => "|"@ + pat_inline_text(param, names) + "| "@ + inline_text(body, names),
        ExprKind::App { func, arg } => (if wraps_inline(func) { "("@ + inline_text(func, names) + ")"@ } else { inline_text(func, names) })
            + " "@ + (if wraps_inline(arg) { "("@ + inline_text(arg, names) + ")"@ } else { inline_text(arg, names) }),
        ExprKind::Tuple(items) => "("@ + joined(", "@, items_inline_texts(items@, names, items@.len())) + ")"@,
        ExprKind::Type { definitions, body } => "[type ...] "@ + inline_text(body, names),
        ExprKind::Constructor { name, arg } => match arg {
            Some(a) => names[name.name as int] + " "@ + inline_text(a, names),
            None => names[name.name as int],
        },
    }
}

/// An operand of a binary operator on one line: in parentheses when it is
/// an operation that binds more loosely.
pub open spec fn operand_inline_text(e: Expr, parent: BinOp, names: Seq<Seq<char>>) -> Seq<char>
    decreases e, 1nat,
{
    match *e.kind {
        ExprKind::BinOp { op, lhs, rhs } => if prec(op) < prec(parent) {
            "("@ + inline_text(e, names) + ")"@
        } else {
            inline_text(e, names)
        },
        _ => inline_text(e, names),
    }
}

/// The one-line texts of the first `n` bindings: pattern ` = ` value.
pub open spec fn binding_inline_texts(bs: Seq<Binding>, names: Seq<Seq<char>>, n: nat) -> Seq<Seq<char>>
    decreases bs, n,
{
    if n == 0 || n > bs.len() {
        Seq::empty()
    } else {
        binding_inline_texts(bs, names, (n - 1) as nat).push(
            bind_pat_text(bs[n - 1].pat, names) + " = "@ + inline_text(bs[n - 1].value, names))
    }
}

/// The one-line texts of the first `n` arms, each ` | ` pattern ` => ` body.
pub open spec fn arms_inline_text(arms: Seq<(Pat, Expr)>, names: Seq<Seq<char>>, n: nat) -> Seq<char>
    decreases arms, n,
{
    if n == 0 || n > arms.len() {
        Seq::empty()
    } else {
        arms_inline_text(arms, names, (n - 1) as nat) + " | "@ + pat_inline_text(arms[n - 1].0, names)
            + " => "@ + inline_text(arms[n - 1].1, names)
    }
}

/// The one-line texts of the first `n` items.
pub open spec fn items_inline_texts(items: Seq<Expr>, names: Seq<Seq<char>>, n: nat) -> Seq<Seq<char>>
    decreases items, n,
{
    if n == 0 || n > items.len() {
        Seq::empty()
    } else {
        items_inline_texts(items, names, (n - 1) as nat).push(inline_text(items[n - 1], names))
    }
}

proof fn lemma_binding_inline_texts_len(bs: Seq<Binding>, names: Seq<Seq<char>>, n: nat)
    ensures
        binding_inline_texts(bs, names, n).len() == if n <= bs.len() { n } else { 0 },
    decreases n,
{
    if n > 0 && n <= bs.len() {
        lemma_binding_inline_texts_len(bs, names, (n - 1) as nat);
    }
}

proof fn lemma_items_inline_texts_len(items: Seq<Expr>, names: Seq<Seq<char>>, n: nat)
    ensures
        items_inline_texts(items, names, n).len() == if n <= items.len() { n } else { 0 },
    decreases n,
{
    if n > 0 && n <= items.len() {
        lemma_items_inline_texts_len(items, names, (n - 1) as nat);
    }
}

fn is_wrapped_inline(e: &Expr) -> (b: bool)
    ensures
        b == wraps_inline(*e),
{
    match &*e.kind {
        ExprKind::Abs { .. } | ExprKind::If { .. } | ExprKind::Let { .. } | ExprKind::Match { .. } => true,
        _ => false,
    }
}

/// Appends how an expression is written on one line.
#[verifier::loop_isolation(false)]
pub fn write_inline(out: &mut String, expr: &Expr, rodeo: &lasso::Rodeo)
    requires
        names_below(*expr, interned(*rodeo).len()),
    ensures
        final(out)@ == old(out)@ + inline_text(*expr, interned(*rodeo)),
    decreases expr, 2nat,
{
    let ghost names = interned(*rodeo);
    match &*expr.kind {
        ExprKind::Literal(l) => push_lit(out, l),
        ExprKind::Var(id) => out.append(resolve(rodeo, id.name)),
        ExprKind::If { cond, then_expr, else_expr } => {
            out.append("if ");
            write_inline(out, cond, rodeo);
            out.append(" then ");
            write_inline(out, then_expr, rodeo);
            out.append(" else ");
            write_inline(out, else_expr, rodeo);
        },
        ExprKind::BinOp { op, lhs, rhs } => {
            parexpr_inline(lhs, op, rodeo, out);
            out.append(op_str(op));
            parexpr_inline(rhs, op, rodeo, out);
        },
        ExprKind::UnaryOp { op, rhs } => {
            out.append(unary_str(op));
            write_inline(out, rhs, rodeo);
        },
        ExprKind::Let { bindings, body } => write_let_inline(out, expr, bindings, body, rodeo),
        ExprKind::Match { scrutinee, arms } => write_match_inline(out, expr, scrutinee, arms, rodeo),
        ExprKind::Abs { param, body } => {
            out.append("|");
            pat_write_inline(param, rodeo, out);
            out.append("| ");
            write_inline(out, body, rodeo);
        },
        ExprKind::App { func, arg } => {
            if is_wrapped_inline(func) {
                out.append("(");
                write_inline(out, func, rodeo);
                out.append(")");
            } else {
                write_inline(out, func, rodeo);
            }
            out.append(" ");
            if is_wrapped_inline(arg) {
                out.append("(");
                write_inline(out, arg, rodeo);
                out.append(")");
            } else {
                write_inline(out, arg, rodeo);
            }
        },
        ExprKind::Tuple(items) => write_tuple_inline(out, expr, items, rodeo),
        ExprKind::Type { body, .. } => {
            out.append("[type ...] ");
            write_inline(out, body, rodeo);
        },
        ExprKind::Constructor { name, arg } => {
            out.append(resolve(rodeo, name.name));
            match arg {
                Some(a) => {
                    out.append(" ");
                    write_inline(out, a, rodeo);
                },
                None => {},
            }
        },
    }
}

fn write_let_inline(out: &mut String, expr: &Expr, bindings: &Vec<Binding>, body: &Expr, rodeo: &lasso::Rodeo)
    requires
        names_below(*expr, interned(*rodeo).len()),
        *expr.kind == (ExprKind::Let { bindings: *bindings, body: *body }),
    ensures
        final(out)@ == old(out)@ + inline_text(*expr, interned(*rodeo)),
    decreases expr, 1nat,
{
    let rec = bindings.len() > 0 && bindings[0].rec;
    if rec {
        out.append("let rec ");
    } else {
        out.append("let ");
    }
    let ghost head = out@;
    write_bindings_inline(out, expr, bindings, rodeo);
    out.append(" in ");
    write_inline(out, body, rodeo);
    proof {
        assert(head == old(out)@ + (if let_is_rec(bindings@) { "let rec "@ } else { "let "@ }));
    }
}

fn write_bindings_inline(out: &mut String, expr: &Expr, bindings: &Vec<Binding>, rodeo: &lasso::Rodeo)
    requires
        names_below(*expr, interned(*rodeo).len()),
        *expr.kind is Let,
        *bindings == (*expr.kind)->Let_bindings,
    ensures
        final(out)@ == old(out)@ + joined(" and "@, binding_inline_texts(bindings@, interned(*rodeo), bindings@.len())),
    decreases expr, 0nat,
{
    let ghost names = interned(*rodeo);
    let ghost start = out@;
    let mut i: usize = 0;
    while i < bindings.len()
        invariant
            i <= bindings.len(),
            names == interned(*rodeo),
            names_below(*expr, names.len()),
            *expr.kind is Let,
            *bindings == (*expr.kind)->Let_bindings,
            out@ == start + joined(" and "@, binding_inline_texts(bindings@, names, i as nat)),
        decreases bindings.len() - i,
    {
        proof {
            lemma_bindings_names_below(bindings@, names.len(), bindings@.len(), i as int);
            lemma_binding_inline_texts_len(bindings@, names, i as nat);
            lemma_joined_push(" and "@, binding_inline_texts(bindings@, names, i as nat),
                bind_pat_text(bindings@[i as int].pat, names) + " = "@ + inline_text(bindings@[i as int].value, names));
        }
        if i > 0 {
            out.append(" and ");
        }
        write_bind_pat(out, &bindings[i].pat, rodeo);
        out.append(" = ");
        write_inline(out, &bindings[i].value, rodeo);
        i = i + 1;
    }
}

#[verifier::loop_isolation(false)]
fn write_match_inline(out: &mut String, expr: &Expr, scrutinee: &Expr, arms: &Vec<(Pat, Expr)>, rodeo: &lasso::Rodeo)
    requires
        names_below(*expr, interned(*rodeo).len()),
        *expr.kind == (ExprKind::Match { scrutinee: *scrutinee, arms: *arms }),
    ensures
        final(out)@ == old(out)@ + inline_text(*expr, interned(*rodeo)),
    decreases expr, 0nat,
{
    let ghost names = interned(*rodeo);
    out.append("match ");
    write_inline(out, scrutinee, rodeo);
    let ghost start = out@;
    let mut i: usize = 0;
    while i < arms.len()
        invariant
            i <= arms.len(),
            out@ == start + arms_inline_text(arms@, names, i as nat),
        decreases arms.len() - i,
    {
        proof {
            lemma_arms_names_below(arms@, names.len(), arms@.len(), i as int);
        }
        out.append(" | ");
        pat_write_inline(&arms[i].0, rodeo, out);
        out.append(" => ");
        write_inline(out, &arms[i].1, rodeo);
        i = i + 1;
    }
}

#[verifier::loop_isolation(false)]
fn write_tuple_inline(out: &mut String, expr: &Expr, items: &Vec<Expr>, rodeo: &lasso::Rodeo)
    requires
        names_below(*expr, interned(*rodeo).len()),
        *expr.kind == ExprKind::Tuple(*items),
    ensures
        final(out)@ == old(out)@ + inline_text(*expr, interned(*rodeo)),
    decreases expr, 0nat,
{
    let ghost names = interned(*rodeo);
    out.append("(");
    let ghost start = out@;
    let mut i: usize = 0;
    while i < items.len()
        invariant
            i <= items.len(),
            out@ == start + joined(", "@, items_inline_texts(items@, names, i as nat)),
        decreases items.len() - i,
    {
        proof {
            lemma_items_names_below(items@, names.len(), items@.len(), i as int);
            lemma_items_inline_texts_len(items@, names, i as nat);
            lemma_joined_push(", "@, items_inline_texts(items@, names, i as nat), inline_text(items@[i as int], names));
        }
        if i > 0 {
            out.append(", ");
        }
        write_inline(out, &items[i], rodeo);
        i = i + 1;
    }
    out.append(")");
}

/// Appends an operand of a binary operator on one line (see `operand_inline_text`).
fn parexpr_inline(expr: &Expr, parent_op: &BinOp, rodeo: &lasso::Rodeo, out: &mut String)
    requires
        names_below(*expr, interned(*rodeo).len()),
    ensures
        final(out)@ == old(out)@ + operand_inline_text(*expr, *parent_op, interned(*rodeo)),
    decreases expr, 3nat,
{
    let looser = match &*expr.kind {
        ExprKind::BinOp { op, .. } => binop_prec(op) < binop_prec(parent_op),
        _ => false,
    };
    if looser {
        out.append("(");
        write_inline(out, expr, rodeo);
        out.append(")");
    } else {
        write_inline(out, expr, rodeo);
    }
}

// ---------------------------------------------------------------------------
// Shortened.
// ---------------------------------------------------------------------------

/// How an expression is written shortened: no parentheses round operands,
/// a `let` shows its first value only, a `match` its first arm only.
pub open spec fn min_text(e: Expr, names: Seq<Seq<char>>) -> Seq<char>
    decreases e,
{
    match *e.kind {
        ExprKind::Literal(l) => lit_text(l),
        ExprKind::Var(id) => names[id.name as int],
        ExprKind::If { cond, then_expr, else_expr } => "if "@ + min_text(cond, names) + " then "@
            + min_text(then_expr, names) + " else "@ + min_text(else_expr, names),
        ExprKind::BinOp { op, lhs, rhs } => min_text(lhs, names) + op_text(op) + min_text(rhs, names),
        ExprKind::UnaryOp { op, rhs } => unary_text(op) + min_text(rhs, names),
        ExprKind::Let { bindings, body } => (if let_is_rec(bindings@) { "let rec "@ } else { "let "@ })
            + (if bindings@.len() > 0 { min_text(bindings@[0].value, names) } else { Seq::empty() })
            + (if bindings@.len() > 1 { " and ..."@ } else { Seq::empty() }) + " in ..."@,
        ExprKind::Match { scrutinee, arms } => "match "@ + min_text(scrutinee, names)
            + (if arms@.len() > 0 {
                " | "@ + pat_inline_text(arms@[0].0, names) + " => "@ + min_text(arms@[0].1, names)
            } else {
                Seq::empty()
            })
            + (if arms@.len() > 1 { " | ..."@ } else { Seq::empty() }),
        ExprKind::Abs { param, body } => "|"@ + pat_inline_text(param, names) + "| "@ + min_text(body, names),
        ExprKind::App { func, arg } => min_text(func, names) + " "@ + min_text(arg, names),
        ExprKind::Tuple(items) => "("@ + joined(", "@, items_min_texts(items@, names, items@.len())) + ")"@,
        ExprKind::Type { definitions, body } => "[type ...] "@ + min_text(body, names),
        ExprKind::Constructor { name, arg } => match arg {
            Some(a) => names[name.name as int] + " "@ + min_text(a, names),
            None => names[name.name as int],
        },
    }
}

/// The shortened texts of the first `n` items.
pub open spec fn items_min_texts(items: Seq<Expr>, names: Seq<Seq<char>>, n: nat) -> Seq<Seq<char>>
    decreases items, n,
{
    if n == 0 || n > items.len() {
        Seq::empty()
    } else {
        items_min_texts(items, names, (n - 1) as nat).push(min_text(items[n - 1], names))
    }
}

proof fn lemma_items_min_texts_len(items: Seq<Expr>, names: Seq<Seq<char>>, n: nat)
    ensures
        items_min_texts(items, names, n).len() == if n <= items.len() { n } else { 0 },
    decreases n,
{
    if n > 0 && n <= items.len() {
        lemma_items_min_texts_len(items, names, (n - 1) as nat);
    }
}

/// Appends how an expression is written shortened (see `min_text`).
pub fn write_minimized(out: &mut String, expr: &Expr, rodeo: &lasso::Rodeo)
    requires
        names_below(*expr, interned(*rodeo).len()),
    ensures
        final(out)@ == old(out)@ + min_text(*expr, interned(*rodeo)),
    decreases expr, 1nat,
{
    match &*expr.kind {
        ExprKind::Literal(l) => push_lit(out, l),
        ExprKind::Var(id) => out.append(resolve(rodeo, id.name)),
        ExprKind::If { cond, then_expr, else_expr } => {
            out.append("if ");
            write_minimized(out, cond, rodeo);
            out.append(" then ");
            write_minimized(out, then_expr, rodeo);
            out.append(" else ");
            write_minimized(out, else_expr, rodeo);
        },
        ExprKind::BinOp { op, lhs, rhs } => {
            write_minimized(out, lhs, rodeo);
            out.append(op_str(op));
            write_minimized(out, rhs, rodeo);
        },
        ExprKind::UnaryOp { op, rhs } => {
            out.append(unary_str(op));
            write_minimized(out, rhs, rodeo);
        },
        ExprKind::Let { bindings, .. } => {
            let rec = bindings.len() > 0 && bindings[0].rec;
            if rec {
                out.append("let rec ");
            } else {
                out.append("let ");
            }
            if bindings.len() > 0 {
                proof {
                    lemma_bindings_names_below(bindings@, interned(*rodeo).len(), bindings@.len(), 0);
                }
                write_minimized(out, &bindings[0].value, rodeo);
            }
            if bindings.len() > 1 {
                out.append(" and ...");
            }
            out.append(" in ...");
        },
        ExprKind::Match { scrutinee, arms } => {
            out.append("match ");
            write_minimized(out, scrutinee, rodeo);
            if arms.len() > 0 {
                proof {
                    lemma_arms_names_below(arms@, interned(*rodeo).len(), arms@.len(), 0);
                }
                out.append(" | ");
                pat_write_inline(&arms[0].0, rodeo, out);
                out.append(" => ");
                write_minimized(out, &arms[0].1, rodeo);
            }
            if arms.len() > 1 {
                out.append(" | ...");
            }
        },
        ExprKind::Abs { param, body } => {
            out.append("|");
            pat_write_inline(param, rodeo, out);
            out.append("| ");
            write_minimized(out, body, rodeo);
        },
        ExprKind::App { func, arg } => {
            write_minimized(out, func, rodeo);
            out.append(" ");
            write_minimized(out, arg, rodeo);
        },
        ExprKind::Tuple(items) => write_tuple_minimized(out, expr, items, rodeo),
        ExprKind::Type { body, .. } => {
            out.append("[type ...] ");
            write_minimized(out, body, rodeo);
        },
        ExprKind::Constructor { name, arg } => {
            out.append(resolve(rodeo, name.name));
            match arg {
                Some(a) => {
                    out.append(" ");
                    write_minimized(out, a, rodeo);
                },
                None => {},
            }
        },
    }
}

#[verifier::loop_isolation(false)]
fn write_tuple_minimized(out: &mut String, expr: &Expr, items: &Vec<Expr>, rodeo: &lasso::Rodeo)
    requires
        names_below(*expr, interned(*rodeo).len()),
        *expr.kind == ExprKind::Tuple(*items),
    ensures
        final(out)@ == old(out)@ + min_text(*expr, interned(*rodeo)),
    decreases expr, 0nat,
{
    let ghost names = interned(*rodeo);
    out.append("(");
    let ghost start = out@;
    let mut i: usize = 0;
    while i < items.len()
        invariant
            i <= items.len(),
            out@ == start + joined(", "@, items_min_texts(items@, names, i as nat)),
        decreases items.len() - i,
    {
        proof {
            lemma_items_names_below(items@, names.len(), items@.len(), i as int);
            lemma_items_min_texts_len(items@, names, i as nat);
            lemma_joined_push(", "@, items_min_texts(items@, names, i as nat), min_text(items@[i as int], names));
        }
        if i > 0 {
            out.append(", ");
        }
        write_minimized(out, &items[i], rodeo);
        i = i + 1;
    }
    out.append(")");
}

impl Expr {
    /// How this expression is written on one line.
    pub fn display_inline(&self, rodeo: &lasso::Rodeo) -> (s: String)
        requires
            names_below(*self, interned(*rodeo).len()),
        ensures
            s@ == inline_text(*self, interned(*rodeo)),
    {
        let mut s = String::new();
        write_inline(&mut s, self, rodeo);
        s
    }

    /// How this expression is written shortened (see `min_text`).
    pub fn display_minimized(&self, rodeo: &lasso::Rodeo) -> (s: String)
        requires
            names_below(*self, interned(*rodeo).len()),
        ensures
            s@ == min_text(*self, interned(*rodeo)),
    {
        let mut s = String::new();
        write_minimized(&mut s, self, rodeo);
        s
    }
}

} // verus!
