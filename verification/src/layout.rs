//! Writing expressions over several lines, indented two spaces a level:
//! `if` puts `then` and `else` on lines of their own, `let` puts each
//! binding on a line and the body after `in`, `match` puts each arm on a
//! line.
use vstd::prelude::*;
use crate::ast::{BinOp, BindPat, BindPatKind, Binding, Expr, ExprKind, Pat, PatKind};
use crate::interner::{interned, resolve};
use crate::printer::{
    bind_pat_text, binop_prec, indent, indent_text, joined, lemma_joined_push, let_is_rec,
    lit_text, op_str, op_text, prec, push_lit, unary_str, unary_text, write_bind_pat,
};
use crate::scope::{names_below, pat_names_below, lemma_arms_names_below, lemma_bindings_names_below, lemma_items_names_below, lemma_pats_names_below};

verus! {

/// Prints expressions into a `PrintCtx`.
pub struct AstPrinter;

/// Where printing goes: the names, the current indentation level and the
/// text written so far.
pub struct PrintCtx<'a> {
    pub rodeo: &'a lasso::Rodeo,
    pub indent: usize,
    pub output: String,
}

impl<'a> PrintCtx<'a> {
    /// A context at level 0 with nothing written.
    pub fn new(rodeo: &'a lasso::Rodeo) -> (c: Self)
        ensures
            c.rodeo == rodeo,
            c.indent == 0,
            c.output@ == Seq::<char>::empty(),
    {
        PrintCtx { rodeo, indent: 0, output: String::new() }
    }
}

pub open spec fn nmax(a: nat, b: nat) -> nat {
    if a < b { b } else { a }
}

/// How many levels of indentation printing an expression adds at most
/// (every `if`, `let` and type definition writes one level deeper, and the
/// values of a `let` are printed one level deeper).
pub open spec fn nest(e: Expr) -> nat
    decreases e, 0nat,
{
    match *e.kind {
        ExprKind::Literal(_) => 0,
        ExprKind::Var(_) => 0,
        ExprKind::If { cond, then_expr, else_expr } => nmax(1, nmax(nest(cond), nmax(nest(then_expr), nest(else_expr)))),
        ExprKind::BinOp { op, lhs, rhs } => nmax(nest(lhs), nest(rhs)),
        ExprKind::UnaryOp { op, rhs } => nest(rhs),
        ExprKind::Let { bindings, body } => nmax(1, nmax(bindings_nest(bindings@, bindings@.len()), nest(body))),
        ExprKind::Match { scrutinee, arms } => nmax(nest(scrutinee), arms_nest(arms@, arms@.len())),
        ExprKind::Abs { param, body } => nest(body),
        ExprKind::App { func, arg } => nmax(nest(func), nest(arg)),
        ExprKind::Tuple(items) => items_nest(items@, items@.len()),
        ExprKind::Type { definitions, body } => nmax(1, nest(body)),
        ExprKind::Constructor { name, arg } => match arg {
            Some(a) => nest(a),
            None => 0,
        },
    }
}

/// The most that the first `n` bindings add: their values are one level deeper.
pub open spec fn bindings_nest(bs: Seq<Binding>, n: nat) -> nat
    decreases bs, n,
{
    if n == 0 || n > bs.len() {
        0
    } else {
        nmax(bindings_nest(bs, (n - 1) as nat), nest(bs[n - 1].value) + 1)
    }
}

/// The most that the bodies of the first `n` arms add.
pub open spec fn arms_nest(arms: Seq<(Pat, Expr)>, n: nat) -> nat
    decreases arms, n,
{
    if n == 0 || n > arms.len() {
        0
    } else {
        nmax(arms_nest(arms, (n - 1) as nat), nest(arms[n - 1].1))
    }
}

/// The most that the first `n` items add.
pub open spec fn items_nest(items: Seq<Expr>, n: nat) -> nat
    decreases items, n,
{
    if n == 0 || n > items.len() {
        0
    } else {
        nmax(items_nest(items, (n - 1) as nat), nest(items[n - 1]))
    }
}

proof fn lemma_bindings_nest(bs: Seq<Binding>, n: nat, i: int)
    requires
        0 <= i < n <= bs.len(),
    ensures
        nest(bs[i].value) + 1 <= bindings_nest(bs, n),
    decreases n,
{
    if i < n - 1 {
        lemma_bindings_nest(bs, (n - 1) as nat, i);
    }
}

proof fn lemma_arms_nest(arms: Seq<(Pat, Expr)>, n: nat, i: int)
    requires
        0 <= i < n <= arms.len(),
    ensures
        nest(arms[i].1) <= arms_nest(arms, n),
    decreases n,
{
    if i < n - 1 {
        lemma_arms_nest(arms, (n - 1) as nat, i);
    }
}

proof fn lemma_items_nest(items: Seq<Expr>, n: nat, i: int)
    requires
        0 <= i < n <= items.len(),
    ensures
        nest(items[i]) <= items_nest(items, n),
    decreases n,
{
    if i < n - 1 {
        lemma_items_nest(items, (n - 1) as nat, i);
    }
}

/// How a pattern is printed; unlike on one line, a constructor's argument
/// has no parentheses.
pub open spec fn pat_text(p: Pat, names: Seq<Seq<char>>) -> Seq<char>
    decreases p, 0nat,
{
    match *p.kind {
        PatKind::Wildcard => "_"@,
        PatKind::Var(id) => names[id.name as int],
        PatKind::Lit(l) => lit_text(l),
        PatKind::Or(a, b) => pat_text(a, names) + " | "@ + pat_text(b, names),
        PatKind::Tuple(ps) => "("@ + joined(", "@, pat_texts(ps@, names, ps@.len())) + ")"@,
        PatKind::App { func, arg } => pat_text(func, names) + " "@ + pat_text(arg, names),
        PatKind::Constructor { name, arg } => match arg {
            Some(a) => names[name.name as int] + " "@ + pat_text(a, names),
            None => names[name.name as int],
        },
    }
}

/// The printed texts of the first `n` patterns.
pub open spec fn pat_texts(ps: Seq<Pat>, names: Seq<Seq<char>>, n: nat) -> Seq<Seq<char>>
    decreases ps, n,
{
    if n == 0 || n > ps.len() {
        Seq::empty()
    } else {
        pat_texts(ps, names, (n - 1) as nat).push(pat_text(ps[n - 1], names))
    }
}

proof fn lemma_pat_texts_len(ps: Seq<Pat>, names: Seq<Seq<char>>, n: nat)
    ensures
        pat_texts(ps, names, n).len() == if n <= ps.len() { n } else { 0 },
    decreases n,
{
    if n > 0 && n <= ps.len() {
        lemma_pat_texts_len(ps, names, (n - 1) as nat);
    }
}

/// Whether an expression is put in parentheses as the operand of a unary
/// operator or of an application.
pub open spec fn wraps(e: Expr) -> bool {
    ||| *e.kind is If
    ||| *e.kind is Let
    ||| *e.kind is Match
    ||| *e.kind is BinOp
    ||| *e.kind is UnaryOp
    ||| *e.kind is Type
    ||| *e.kind is Constructor
}

/// How an expression is printed at indentation level `level`.
pub open spec fn print_text(e: Expr, names: Seq<Seq<char>>, level: nat) -> Seq<char>
    decreases e, 0nat,
{
    match *e.kind {
        ExprKind::Literal(l) => lit_text(l),
        ExprKind::Var(id) => names[id.name as int],
        ExprKind::If { cond, then_expr, else_expr } => "if "@ + print_text(cond, names, level) + "\n"@
            + indent_text(level) + "then\n"@ + indent_text(level + 1) + print_text(then_expr, names, level)
            + "\n"@ + indent_text(level) + "else\n"@ + indent_text(level + 1) + print_text(else_expr, names, level),
        ExprKind::BinOp { op, lhs, rhs } => operand_text(lhs, op, names, level) + op_text(op)
            + operand_text(rhs, op, names, level),
        ExprKind::UnaryOp { op, rhs } => unary_text(op) + wrapped_text(rhs, names, level),
        ExprKind::Let { bindings, body } => (if let_is_rec(bindings@) { "let rec "@ } else { "let "@ })
            + bindings_text(bindings@, names, level, bindings@.len()) + "in\n"@ + indent_text(level + 1)
            + print_text(body, names, level),
        ExprKind::Match { scrutinee, arms } => "match "@ + print_text(scrutinee, names, level) + "\n"@
            + arms_text(arms@, names, level, arms@.len()),
        ExprKind::Abs { param, body } => "|"@ + pat_text(param, names) + "| "@ + print_text(body, names, level),
        ExprKind::App { func, arg } => wrapped_text(func, names, level) + " "@ + wrapped_text(arg, names, level),
        ExprKind::Tuple(items) => "("@ + joined(", "@, items_texts(items@, names, level, items@.len())) + ")"@,
        ExprKind::Type { definitions, body } => "type ... in\n"@ + indent_text(level + 1) + print_text(body, names, level),
        ExprKind::Constructor { name, arg } => match arg {
            Some(a) => names[name.name as int] + " "@ + print_text(a, names, level),
            None => names[name.name as int],
        },
    }
}

/// An operand of a unary operator or of an application, in parentheses
/// where `wraps` says so.
pub open spec fn wrapped_text(e: Expr, names: Seq<Seq<char>>, level: nat) -> Seq<char>
    decreases e, 1nat,
{
    if wraps(e) {
        "("@ + print_text(e, names, level) + ")"@
    } else {
        print_text(e, names, level)
    }
}

/// An operand of a binary operator: an operation in parentheses when it
/// binds more loosely than the parent, anything else as `wrapped_text`.
pub open spec fn operand_text(e: Expr, parent: BinOp, names: Seq<Seq<char>>, level: nat) -> Seq<char>
    decreases e, 2nat,
{
    match *e.kind {
        ExprKind::BinOp { op, lhs, rhs } => if prec(op) < prec(parent) {
            "("@ + print_text(e, names, level) + ")"@
        } else {
            print_text(e, names, level)
        },
        _ => wrapped_text(e, names, level),
    }
}

/// The first `n` bindings of a `let`, each `[and ]pattern = value` with the
/// value one level deeper, then a line break and the indentation.
pub open spec fn bindings_text(bs: Seq<Binding>, names: Seq<Seq<char>>, level: nat, n: nat) -> Seq<char>
    decreases bs, n,
{
    if n == 0 || n > bs.len() {
        Seq::empty()
    } else {
        bindings_text(bs, names, level, (n - 1) as nat) + (if n > 1 { "and "@ } else { Seq::empty() })
            + bind_pat_text(bs[n - 1].pat, names) + " = "@ + print_text(bs[n - 1].value, names, level + 1)
            + "\n"@ + indent_text(level)
    }
}

/// The first `n` arms of a `match`, each on a line of its own.
pub open spec fn arms_text(arms: Seq<(Pat, Expr)>, names: Seq<Seq<char>>, level: nat, n: nat) -> Seq<char>
    decreases arms, n,
{
    if n == 0 || n > arms.len() {
        Seq::empty()
    } else {
        arms_text(arms, names, level, (n - 1) as nat) + indent_text(level) + "| "@
            + pat_text(arms[n - 1].0, names) + " => "@ + print_text(arms[n - 1].1, names, level)
            + (if n < arms.len() { "\n"@ } else { Seq::empty() })
    }
}

/// The printed texts of the first `n` items.
pub open spec fn items_texts(items: Seq<Expr>, names: Seq<Seq<char>>, level: nat, n: nat) -> Seq<Seq<char>>
    decreases items, n,
{
    if n == 0 || n > items.len() {
        Seq::empty()
    } else {
        items_texts(items, names, level, (n - 1) as nat).push(print_text(items[n - 1], names, level))
    }
}

proof fn lemma_items_texts_len(items: Seq<Expr>, names: Seq<Seq<char>>, level: nat, n: nat)
    ensures
        items_texts(items, names, level, n).len() == if n <= items.len() { n } else { 0 },
    decreases n,
{
    if n > 0 && n <= items.len() {
        lemma_items_texts_len(items, names, level, (n - 1) as nat);
    }
}

fn needs_parens_simple(expr: &Expr) -> (b: bool)
    ensures
        b == wraps(*expr),
{
    match &*expr.kind {
        ExprKind::If { .. } | ExprKind::Let { .. } | ExprKind::Match { .. } | ExprKind::BinOp { .. }
        | ExprKind::UnaryOp { .. } | ExprKind::Type { .. } | ExprKind::Constructor { .. } => true,
        _ => false,
    }
}

impl AstPrinter {
    /// Appends how `expr` is printed at the context's level.
    pub fn visit_expr(&mut self, expr: &Expr, ctx: &mut PrintCtx)
        requires
            names_below(*expr, interned(*old(ctx).rodeo).len()),
            old(ctx).indent + nest(*expr) <= usize::MAX,
        ensures
            final(ctx).rodeo == old(ctx).rodeo,
            final(ctx).indent == old(ctx).indent,
            final(ctx).output@ == old(ctx).output@ + print_text(*expr, interned(*old(ctx).rodeo), old(ctx).indent as nat),
        decreases expr, 2nat,
    {
        let rodeo = ctx.rodeo;
        match &*expr.kind {
            ExprKind::Literal(l) => push_lit(&mut ctx.output, l),
            ExprKind::Var(id) => ctx.output.append(resolve(rodeo, id.name)),
            ExprKind::If { cond, then_expr, else_expr } => self.visit_if(expr, cond, then_expr, else_expr, ctx),
            ExprKind::BinOp { op, lhs, rhs } => {
                self.parexpr_binop(lhs, op, ctx);
                ctx.output.append(op_str(op));
                self.parexpr_binop(rhs, op, ctx);
            },
            ExprKind::UnaryOp { op, rhs } => {
                ctx.output.append(unary_str(op));
                self.parexpr(rhs, ctx, true);
            },
            ExprKind::Let { bindings, body } => self.visit_let(expr, bindings, body, ctx),
            ExprKind::Match { scrutinee, arms } => self.visit_match(expr, scrutinee, arms, ctx),
            ExprKind::Abs { param, body } => {
                ctx.output.append("|");
                self.visit_pat(param, ctx);
                ctx.output.append("| ");
                self.visit_expr(body, ctx);
            },
            ExprKind::App { func, arg } => {
                self.parexpr(func, ctx, true);
                ctx.output.append(" ");
                self.parexpr(arg, ctx, true);
            },
            ExprKind::Tuple(items) => self.visit_tuple(expr, items, ctx),
            ExprKind::Type { body, .. } => {
                ctx.output.append("type ... in\n");
                let pad = indent(ctx.indent + 1);
                ctx.output.append(pad.as_str());
                self.visit_expr(body, ctx);
            },
            ExprKind::Constructor { name, arg } => {
                ctx.output.append(resolve(rodeo, name.name));
                match arg {
                    Some(a) => {
                        ctx.output.append(" ");
                        self.visit_expr(a, ctx);
                    },
                    None => {},
                }
            },
        }
    }

    fn visit_if(&mut self, expr: &Expr, cond: &Expr, then_expr: &Expr, else_expr: &Expr, ctx: &mut PrintCtx)
        requires
            names_below(*expr, interned(*old(ctx).rodeo).len()),
            old(ctx).indent + nest(*expr) <= usize::MAX,
            *expr.kind == (ExprKind::If { cond: *cond, then_expr: *then_expr, else_expr: *else_expr }),
        ensures
            final(ctx).rodeo == old(ctx).rodeo,
            final(ctx).indent == old(ctx).indent,
            final(ctx).output@ == old(ctx).output@ + print_text(*expr, interned(*old(ctx).rodeo), old(ctx).indent as nat),
        decreases expr, 0nat,
    {
        ctx.output.append("if ");
        self.visit_expr(cond, ctx);
        ctx.output.append("\n");
        let pad = indent(ctx.indent);
        let deeper = indent(ctx.indent + 1);
        ctx.output.append(pad.as_str());
        ctx.output.append("then\n");
        ctx.output.append(deeper.as_str());
        self.visit_expr(then_expr, ctx);
        ctx.output.append("\n");
        ctx.output.append(pad.as_str());
        ctx.output.append("else\n");
        ctx.output.append(deeper.as_str());
        self.visit_expr(else_expr, ctx);
    }

    fn visit_let(&mut self, expr: &Expr, bindings: &Vec<Binding>, body: &Expr, ctx: &mut PrintCtx)
        requires
            names_below(*expr, interned(*old(ctx).rodeo).len()),
            old(ctx).indent + nest(*expr) <= usize::MAX,
            *expr.kind == (ExprKind::Let { bindings: *bindings, body: *body }),
        ensures
            final(ctx).rodeo == old(ctx).rodeo,
            final(ctx).indent == old(ctx).indent,
            final(ctx).output@ == old(ctx).output@ + print_text(*expr, interned(*old(ctx).rodeo), old(ctx).indent as nat),
        decreases expr, 1nat,
    {
        let ghost names = interned(*ctx.rodeo);
        let ghost level = ctx.indent as nat;
        let rodeo = ctx.rodeo;
        let rec = bindings.len() > 0 && bindings[0].rec;
        if rec {
            ctx.output.append("let rec ");
        } else {
            ctx.output.append("let ");
        }
        let ghost head = ctx.output@;
        let pad = indent(ctx.indent);
        self.visit_bindings(expr, bindings, &pad, ctx);
        ctx.output.append("in\n");
        let deeper = indent(ctx.indent + 1);
        ctx.output.append(deeper.as_str());
        self.visit_expr(body, ctx);
        proof {
            assert(head == old(ctx).output@ + (if let_is_rec(bindings@) { "let rec "@ } else { "let "@ }));
        }
    }

    fn visit_bindings(&mut self, expr: &Expr, bindings: &Vec<Binding>, pad: &String, ctx: &mut PrintCtx)
        requires
            names_below(*expr, interned(*old(ctx).rodeo).len()),
            old(ctx).indent + nest(*expr) <= usize::MAX,
            *expr.kind is Let,
            *bindings == (*expr.kind)->Let_bindings,
            pad@ == indent_text(old(ctx).indent as nat),
        ensures
            final(ctx).rodeo == old(ctx).rodeo,
            final(ctx).indent == old(ctx).indent,
            final(ctx).output@ == old(ctx).output@ + bindings_text(bindings@, interned(*old(ctx).rodeo), old(ctx).indent as nat, bindings@.len()),
        decreases expr, 0nat,
    {
        let ghost names = interned(*ctx.rodeo);
        let ghost level = ctx.indent as nat;
        let rodeo = ctx.rodeo;
        let ghost start = ctx.output@;
        let mut i: usize = 0;
        while i < bindings.len()
            invariant
                i <= bindings.len(),
                ctx.rodeo == rodeo,
                names == interned(*rodeo),
                ctx.indent == level,
                pad@ == indent_text(level),
                names_below(*expr, names.len()),
                level + nest(*expr) <= usize::MAX,
                *expr.kind is Let,
                *bindings == (*expr.kind)->Let_bindings,
                ctx.output@ == start + bindings_text(bindings@, names, level, i as nat),
            decreases bindings.len() - i,
        {
            proof {
                lemma_bindings_names_below(bindings@, names.len(), bindings@.len(), i as int);
                lemma_bindings_nest(bindings@, bindings@.len(), i as int);
            }
            let ghost before = ctx.output@;
            if i > 0 {
                ctx.output.append("and ");
            }
            write_bind_pat(&mut ctx.output, &bindings[i].pat, rodeo);
            ctx.output.append(" = ");
            ctx.indent = ctx.indent + 1;
            self.visit_expr(&bindings[i].value, ctx);
            ctx.output.append("\n");
            ctx.indent = ctx.indent - 1;
            ctx.output.append(pad.as_str());
            proof {
                assert(ctx.output@ == before + (if i + 1 > 1 { "and "@ } else { Seq::empty() })
                    + bind_pat_text(bindings@[i as int].pat, names) + " = "@
                    + print_text(bindings@[i as int].value, names, level + 1) + "\n"@ + indent_text(level));
            }
            i = i + 1;
        }
    }

    #[verifier::loop_isolation(false)]
    fn visit_match(&mut self, expr: &Expr, scrutinee: &Expr, arms: &Vec<(Pat, Expr)>, ctx: &mut PrintCtx)
        requires
            names_below(*expr, interned(*old(ctx).rodeo).len()),
            old(ctx).indent + nest(*expr) <= usize::MAX,
            *expr.kind == (ExprKind::Match { scrutinee: *scrutinee, arms: *arms }),
        ensures
            final(ctx).rodeo == old(ctx).rodeo,
            final(ctx).indent == old(ctx).indent,
            final(ctx).output@ == old(ctx).output@ + print_text(*expr, interned(*old(ctx).rodeo), old(ctx).indent as nat),
        decreases expr, 0nat,
    {
        let ghost names = interned(*ctx.rodeo);
        let ghost level = ctx.indent as nat;
        let rodeo = ctx.rodeo;
        ctx.output.append("match ");
        self.visit_expr(scrutinee, ctx);
        ctx.output.append("\n");
        let pad = indent(ctx.indent);
        let ghost start = ctx.output@;
        let mut i: usize = 0;
        while i < arms.len()
            invariant
                i <= arms.len(),
                ctx.rodeo == rodeo,
                ctx.indent == level,
                pad@ == indent_text(level),
                ctx.output@ == start + arms_text(arms@, names, level, i as nat),
            decreases arms.len() - i,
        {
            proof {
                lemma_arms_names_below(arms@, names.len(), arms@.len(), i as int);
                lemma_arms_nest(arms@, arms@.len(), i as int);
            }
            ctx.output.append(pad.as_str());
            ctx.output.append("| ");
            self.visit_pat(&arms[i].0, ctx);
            ctx.output.append(" => ");
            self.visit_expr(&arms[i].1, ctx);
            if i < arms.len() - 1 {
                ctx.output.append("\n");
            }
            i = i + 1;
        }
    }

    #[verifier::loop_isolation(false)]
    fn visit_tuple(&mut self, expr: &Expr, items: &Vec<Expr>, ctx: &mut PrintCtx)
        requires
            names_below(*expr, interned(*old(ctx).rodeo).len()),
            old(ctx).indent + nest(*expr) <= usize::MAX,
            *expr.kind == ExprKind::Tuple(*items),
        ensures
            final(ctx).rodeo == old(ctx).rodeo,
            final(ctx).indent == old(ctx).indent,
            final(ctx).output@ == old(ctx).output@ + print_text(*expr, interned(*old(ctx).rodeo), old(ctx).indent as nat),
        decreases expr, 0nat,
    {
        let ghost names = interned(*ctx.rodeo);
        let ghost level = ctx.indent as nat;
        let rodeo = ctx.rodeo;
        ctx.output.append("(");
        let ghost start = ctx.output@;
        let mut i: usize = 0;
        while i < items.len()
            invariant
                i <= items.len(),
                ctx.rodeo == rodeo,
                ctx.indent == level,
                ctx.output@ == start + joined(", "@, items_texts(items@, names, level, i as nat)),
            decreases items.len() - i,
        {
            proof {
                lemma_items_names_below(items@, names.len(), items@.len(), i as int);
                lemma_items_nest(items@, items@.len(), i as int);
                lemma_items_texts_len(items@, names, level, i as nat);
                lemma_joined_push(", "@, items_texts(items@, names, level, i as nat), print_text(items@[i as int], names, level));
            }
            if i > 0 {
                ctx.output.append(", ");
            }
            self.visit_expr(&items[i], ctx);
            i = i + 1;
        }
        ctx.output.append(")");
    }

    /// Appends an operand of a unary operator or of an application (see
    /// `wrapped_text`); with `wrap` false, the expression as it is.
    fn parexpr(&mut self, expr: &Expr, ctx: &mut PrintCtx, wrap: bool)
        requires
            names_below(*expr, interned(*old(ctx).rodeo).len()),
            old(ctx).indent + nest(*expr) <= usize::MAX,
        ensures
            final(ctx).rodeo == old(ctx).rodeo,
            final(ctx).indent == old(ctx).indent,
            final(ctx).output@ == old(ctx).output@ + if wrap {
                wrapped_text(*expr, interned(*old(ctx).rodeo), old(ctx).indent as nat)
            } else {
                print_text(*expr, interned(*old(ctx).rodeo), old(ctx).indent as nat)
            },
        decreases expr, 3nat,
    {
        if wrap && needs_parens_simple(expr) {
            ctx.output.append("(");
            self.visit_expr(expr, ctx);
            ctx.output.append(")");
        } else {
            self.visit_expr(expr, ctx);
        }
    }

    /// Appends an operand of a binary operator (see `operand_text`).
    fn parexpr_binop(&mut self, child: &Expr, parent_op: &BinOp, ctx: &mut PrintCtx)
        requires
            names_below(*child, interned(*old(ctx).rodeo).len()),
            old(ctx).indent + nest(*child) <= usize::MAX,
        ensures
            final(ctx).rodeo == old(ctx).rodeo,
            final(ctx).indent == old(ctx).indent,
            final(ctx).output@ == old(ctx).output@ + operand_text(*child, *parent_op, interned(*old(ctx).rodeo), old(ctx).indent as nat),
        decreases child, 3nat,
    {
        let needs_parens = match &*child.kind {
            ExprKind::BinOp { op, .. } => binop_prec(op) < binop_prec(parent_op),
            _ => needs_parens_simple(child),
        };
        if needs_parens {
            ctx.output.append("(");
            self.visit_expr(child, ctx);
            ctx.output.append(")");
        } else {
            self.visit_expr(child, ctx);
        }
    }

    /// Appends how a pattern is printed (see `pat_text`).
    #[verifier::loop_isolation(false)]
    pub fn visit_pat(&mut self, pat: &Pat, ctx: &mut PrintCtx)
        requires
            pat_names_below(*pat, interned(*old(ctx).rodeo).len()),
        ensures
            final(ctx).rodeo == old(ctx).rodeo,
            final(ctx).indent == old(ctx).indent,
            final(ctx).output@ == old(ctx).output@ + pat_text(*pat, interned(*old(ctx).rodeo)),
        decreases pat,
    {
        let ghost names = interned(*ctx.rodeo);
        let ghost level = ctx.indent;
        let rodeo = ctx.rodeo;
        match &*pat.kind {
            PatKind::Wildcard => ctx.output.append("_"),
            PatKind::Var(id) => ctx.output.append(resolve(rodeo, id.name)),
            PatKind::Lit(l) => push_lit(&mut ctx.output, l),
            PatKind::Or(a, b) => {
                self.visit_pat(a, ctx);
                ctx.output.append(" | ");
                self.visit_pat(b, ctx);
            },
            PatKind::Tuple(pats) => {
                ctx.output.append("(");
                let ghost start = ctx.output@;
                let mut i: usize = 0;
                while i < pats.len()
                    invariant
                        i <= pats.len(),
                        ctx.rodeo == rodeo,
                        ctx.indent == level,
                        ctx.output@ == start + joined(", "@, pat_texts(pats@, names, i as nat)),
                    decreases pats.len() - i,
                {
                    proof {
                        lemma_pats_names_below(pats@, names.len(), pats@.len(), i as int);
                        lemma_pat_texts_len(pats@, names, i as nat);
                        lemma_joined_push(", "@, pat_texts(pats@, names, i as nat), pat_text(pats@[i as int], names));
                    }
                    if i > 0 {
                        ctx.output.append(", ");
                    }
                    self.visit_pat(&pats[i], ctx);
                    i = i + 1;
                }
                ctx.output.append(")");
            },
            PatKind::App { func, arg } => {
                self.visit_pat(func, ctx);
                ctx.output.append(" ");
                self.visit_pat(arg, ctx);
            },
            PatKind::Constructor { name, arg } => {
                ctx.output.append(resolve(rodeo, name.name));
                match arg {
                    Some(a) => {
                        ctx.output.append(" ");
                        self.visit_pat(a, ctx);
                    },
                    None => {},
                }
            },
        }
    }

    /// How `expr` is printed, from level 0.
    pub fn print_expr(expr: &Expr, rodeo: &lasso::Rodeo) -> (s: String)
        requires
            names_below(*expr, interned(*rodeo).len()),
            nest(*expr) <= usize::MAX,
        ensures
            s@ == print_text(*expr, interned(*rodeo), 0),
    {
        let mut ctx = PrintCtx::new(rodeo);
        let mut printer = AstPrinter;
        printer.visit_expr(expr, &mut ctx);
        ctx.output
    }
}

impl Expr {
    /// How this expression is printed over several lines, from level 0.
    pub fn display(&self, rodeo: &lasso::Rodeo) -> (s: String)
        requires
            names_below(*self, interned(*rodeo).len()),
            nest(*self) <= usize::MAX,
        ensures
            s@ == print_text(*self, interned(*rodeo), 0),
    {
        AstPrinter::print_expr(self, rodeo)
    }
}

/// The operands of an application are kept apart in the text: each is
/// printed in parentheses when it is a conditional, a `let`, a `match`, a
/// binary or unary operation, a type definition or a constructor use, and
/// as it is otherwise; so `f (-1)` stays `f (-1)` and does not read as the
/// subtraction `f -1`.
pub proof fn lemma_application_operands(e: Expr, names: Seq<Seq<char>>, level: nat)
    requires
        *e.kind is App,
    ensures
        match *e.kind {
            ExprKind::App { func, arg } => {
                let compound = |x: Expr|
                    *x.kind is If || *x.kind is Let || *x.kind is Match || *x.kind is BinOp
                        || *x.kind is UnaryOp || *x.kind is Type || *x.kind is Constructor;
                print_text(e, names, level)
                    == (if compound(func) { "("@ + print_text(func, names, level) + ")"@ } else { print_text(func, names, level) })
                    + " "@
                    + (if compound(arg) { "("@ + print_text(arg, names, level) + ")"@ } else { print_text(arg, names, level) })
            },
            _ => true,
        },
{
    if let ExprKind::App { func, arg } = *e.kind {
        assert(print_text(e, names, level) == wrapped_text(func, names, level) + " "@ + wrapped_text(arg, names, level));
        assert(wrapped_text(func, names, level) == (if wraps(func) { "("@ + print_text(func, names, level) + ")"@ } else { print_text(func, names, level) }));
        assert(wrapped_text(arg, names, level) == (if wraps(arg) { "("@ + print_text(arg, names, level) + ")"@ } else { print_text(arg, names, level) }));
    }
}

/// The operand of a unary operator is printed in parentheses when it is a
/// conditional, a `let`, a `match`, a binary or unary operation, a type
/// definition or a constructor use: `-(a + b)`, `-(-x)`.
pub proof fn lemma_unary_operand(e: Expr, names: Seq<Seq<char>>, level: nat)
    requires
        *e.kind is UnaryOp,
    ensures
        match *e.kind {
            ExprKind::UnaryOp { op, rhs } => {
                let compound = *rhs.kind is If || *rhs.kind is Let || *rhs.kind is Match || *rhs.kind is BinOp
                    || *rhs.kind is UnaryOp || *rhs.kind is Type || *rhs.kind is Constructor;
                print_text(e, names, level) == unary_text(op)
                    + (if compound { "("@ + print_text(rhs, names, level) + ")"@ } else { print_text(rhs, names, level) })
            },
            _ => true,
        },
{
    if let ExprKind::UnaryOp { op, rhs } = *e.kind {
        assert(print_text(e, names, level) == unary_text(op) + wrapped_text(rhs, names, level));
        assert(wrapped_text(rhs, names, level) == (if wraps(rhs) { "("@ + print_text(rhs, names, level) + ")"@ } else { print_text(rhs, names, level) }));
    }
}

} // verus!

verus! {

/// One call that a walk makes: of `visit_expr`, `visit_pat`,
/// `visit_binding` or `visit_bind_pat`, on the node it carries.
pub enum Visit {
    Expr(Expr),
    Pat(Pat),
    Binding(Binding),
    BindPat(BindPat),
}

/// A traversal of expressions. The free functions `walk_expr`, `walk_pat`,
/// `walk_binding` and `walk_bind_pat` visit a node, then walk its children in
/// order. Each `visit_*` method leaves the visitor and the context as its
/// `after_*` spec function says; a method that does nothing leaves both as
/// they were.
pub trait Visitor<Ctx>: Sized {
    /// The visitor and the context after `visit_expr`.
    spec fn after_expr(self, expr: Expr, ctx: Ctx) -> (Self, Ctx);

    /// The visitor and the context after `visit_pat`.
    spec fn after_pat(self, pat: Pat, ctx: Ctx) -> (Self, Ctx);

    /// The visitor and the context after `visit_binding`.
    spec fn after_binding(self, binding: Binding, ctx: Ctx) -> (Self, Ctx);

    /// The visitor and the context after `visit_bind_pat`.
    spec fn after_bind_pat(self, pat: BindPat, ctx: Ctx) -> (Self, Ctx);

    fn visit_expr(&mut self, expr: &Expr, ctx: &mut Ctx)
        ensures
            (*final(self), *final(ctx)) == old(self).after_expr(*expr, *old(ctx));

    fn visit_pat(&mut self, pat: &Pat, ctx: &mut Ctx)
        ensures
            (*final(self), *final(ctx)) == old(self).after_pat(*pat, *old(ctx));

    fn visit_binding(&mut self, binding: &Binding, ctx: &mut Ctx)
        ensures
            (*final(self), *final(ctx)) == old(self).after_binding(*binding, *old(ctx));

    fn visit_bind_pat(&mut self, pat: &BindPat, ctx: &mut Ctx)
        ensures
            (*final(self), *final(ctx)) == old(self).after_bind_pat(*pat, *old(ctx));
}

/// The visitor and the context after one visit.
pub open spec fn step<Ctx, V: Visitor<Ctx>>(v: V, ctx: Ctx, x: Visit) -> (V, Ctx) {
    match x {
        Visit::Expr(e) => v.after_expr(e, ctx),
        Visit::Pat(p) => v.after_pat(p, ctx),
        Visit::Binding(b) => v.after_binding(b, ctx),
        Visit::BindPat(p) => v.after_bind_pat(p, ctx),
    }
}

/// The visitor and the context after a sequence of visits, in order.
pub open spec fn run_visits<Ctx, V: Visitor<Ctx>>(v: V, ctx: Ctx, xs: Seq<Visit>) -> (V, Ctx)
    decreases xs.len(),
{
    if xs.len() == 0 {
        (v, ctx)
    } else {
        let (v1, c1) = run_visits(v, ctx, xs.drop_last());
        step(v1, c1, xs.last())
    }
}

/// Running two sequences of visits one after the other runs their concatenation.
pub proof fn lemma_run_append<Ctx, V: Visitor<Ctx>>(v: V, ctx: Ctx, a: Seq<Visit>, b: Seq<Visit>)
    ensures
        run_visits(v, ctx, a + b) == run_visits(run_visits(v, ctx, a).0, run_visits(v, ctx, a).1, b),
    decreases b.len(),
{
    if b.len() == 0 {
        assert(a + b =~= a);
    } else {
        assert((a + b).drop_last() =~= a + b.drop_last());
        lemma_run_append(v, ctx, a, b.drop_last());
    }
}

/// Running one visit is that visit's step.
pub proof fn lemma_run_one<Ctx, V: Visitor<Ctx>>(v: V, ctx: Ctx, x: Visit)
    ensures
        run_visits(v, ctx, seq![x]) == step(v, ctx, x),
{
    let xs = seq![x];
    assert(xs.drop_last() =~= Seq::<Visit>::empty());
    assert(run_visits(v, ctx, xs.drop_last()) == (v, ctx));
    assert(xs.last() == x);
}

/// The visits of walking an expression: the expression, then its children
/// in order.
pub open spec fn expr_visits(e: Expr) -> Seq<Visit>
    decreases e, 0nat,
{
    seq![Visit::Expr(e)] + match *e.kind {
        ExprKind::Literal(_) | ExprKind::Var(_) => Seq::empty(),
        ExprKind::If { cond, then_expr, else_expr } =>
            expr_visits(cond) + expr_visits(then_expr) + expr_visits(else_expr),
        ExprKind::BinOp { op, lhs, rhs } => expr_visits(lhs) + expr_visits(rhs),
        ExprKind::UnaryOp { op, rhs } => expr_visits(rhs),
        ExprKind::Let { bindings, body } => bindings_visits(bindings@, bindings@.len()) + expr_visits(body),
        ExprKind::Match { scrutinee, arms } => expr_visits(scrutinee) + arms_visits(arms@, arms@.len()),
        ExprKind::Abs { param, body } => pat_visits(param) + expr_visits(body),
        ExprKind::App { func, arg } => expr_visits(func) + expr_visits(arg),
        ExprKind::Tuple(items) => items_visits(items@, items@.len()),
        ExprKind::Type { definitions, body } => expr_visits(body),
        ExprKind::Constructor { name, arg } => match arg {
            Some(a) => expr_visits(a),
            None => Seq::empty(),
        },
    }
}

/// The visits of walking the first `m` bindings: each binding, its pattern,
/// then its value.
pub open spec fn bindings_visits(bs: Seq<Binding>, m: nat) -> Seq<Visit>
    decreases bs, m,
{
    if m == 0 || m > bs.len() {
        Seq::empty()
    } else {
        bindings_visits(bs, (m - 1) as nat) + seq![Visit::Binding(bs[m - 1])]
            + bind_pat_visits(bs[m - 1].pat) + expr_visits(bs[m - 1].value)
    }
}

/// The visits of walking the first `m` arms: each pattern, then its body.
pub open spec fn arms_visits(arms: Seq<(Pat, Expr)>, m: nat) -> Seq<Visit>
    decreases arms, m,
{
    if m == 0 || m > arms.len() {
        Seq::empty()
    } else {
        arms_visits(arms, (m - 1) as nat) + pat_visits(arms[m - 1].0) + expr_visits(arms[m - 1].1)
    }
}

/// The visits of walking the first `m` expressions, in order.
pub open spec fn items_visits(items: Seq<Expr>, m: nat) -> Seq<Visit>
    decreases items, m,
{
    if m == 0 || m > items.len() {
        Seq::empty()
    } else {
        items_visits(items, (m - 1) as nat) + expr_visits(items[m - 1])
    }
}

/// The visits of walking a pattern: the pattern, then its sub-patterns in order.
pub open spec fn pat_visits(p: Pat) -> Seq<Visit>
    decreases p, 0nat,
{
    seq![Visit::Pat(p)] + match *p.kind {
        PatKind::Wildcard | PatKind::Var(_) | PatKind::Lit(_) => Seq::empty(),
        PatKind::Or(a, b) => pat_visits(a) + pat_visits(b),
        PatKind::Tuple(ps) => pats_visits(ps@, ps@.len()),
        PatKind::App { func, arg } => pat_visits(func) + pat_visits(arg),
        PatKind::Constructor { name, arg } => match arg {
            Some(a) => pat_visits(a),
            None => Seq::empty(),
        },
    }
}

/// The visits of walking the first `m` patterns, in order.
pub open spec fn pats_visits(ps: Seq<Pat>, m: nat) -> Seq<Visit>
    decreases ps, m,
{
    if m == 0 || m > ps.len() {
        Seq::empty()
    } else {
        pats_visits(ps, (m - 1) as nat) + pat_visits(ps[m - 1])
    }
}

/// The visits of walking a `let` pattern: the pattern, then its
/// sub-patterns in order.
pub open spec fn bind_pat_visits(p: BindPat) -> Seq<Visit>
    decreases p, 0nat,
{
    seq![Visit::BindPat(p)] + match p.kind {
        BindPatKind::Var(_) => Seq::empty(),
        BindPatKind::Tuple(ps) => bind_pats_visits(ps@, ps@.len()),
    }
}

/// The visits of walking the first `m` `let` patterns, in order.
pub open spec fn bind_pats_visits(ps: Seq<BindPat>, m: nat) -> Seq<Visit>
    decreases ps, m,
{
    if m == 0 || m > ps.len() {
        Seq::empty()
    } else {
        bind_pats_visits(ps, (m - 1) as nat) + bind_pat_visits(ps[m - 1])
    }
}

/// The visits of walking a binding: the binding, its pattern, then its value.
pub open spec fn binding_visits(b: Binding) -> Seq<Visit> {
    seq![Visit::Binding(b)] + bind_pat_visits(b.pat) + expr_visits(b.value)
}

/// Visits `expr`, then walks its children in order.
#[verifier::loop_isolation(false)]
#[verifier::rlimit(50)]
pub fn walk_expr<Ctx, V: Visitor<Ctx>>(v: &mut V, expr: &Expr, ctx: &mut Ctx)
    ensures
        (*final(v), *final(ctx)) == run_visits(*old(v), *old(ctx), expr_visits(*expr)),
    decreases expr,
{
    let ghost v0 = *v;
    let ghost c0 = *ctx;
    v.visit_expr(expr, ctx);
    let ghost mut done: Seq<Visit> = seq![Visit::Expr(*expr)];
    proof {
        lemma_run_one(v0, c0, Visit::Expr(*expr));
    }
    match &*expr.kind {
        ExprKind::Literal(_) | ExprKind::Var(_) => {},
        ExprKind::If { cond, then_expr, else_expr } => {
            walk_expr(v, cond, ctx);
            proof { lemma_run_append(v0, c0, done, expr_visits(*cond)); done = done + expr_visits(*cond); }
            walk_expr(v, then_expr, ctx);
            proof { lemma_run_append(v0, c0, done, expr_visits(*then_expr)); done = done + expr_visits(*then_expr); }
            walk_expr(v, else_expr, ctx);
            proof { lemma_run_append(v0, c0, done, expr_visits(*else_expr)); done = done + expr_visits(*else_expr); }
        },
        ExprKind::BinOp { lhs, rhs, .. } => {
            walk_expr(v, lhs, ctx);
            proof { lemma_run_append(v0, c0, done, expr_visits(*lhs)); done = done + expr_visits(*lhs); }
            walk_expr(v, rhs, ctx);
            proof { lemma_run_append(v0, c0, done, expr_visits(*rhs)); done = done + expr_visits(*rhs); }
        },
        ExprKind::UnaryOp { rhs, .. } => {
            walk_expr(v, rhs, ctx);
            proof { lemma_run_append(v0, c0, done, expr_visits(*rhs)); done = done + expr_visits(*rhs); }
        },
        ExprKind::Let { bindings, body } => {
            let ghost start = done;
            let mut i: usize = 0;
            while i < bindings.len()
                invariant
                    i <= bindings.len(),
                    done == start + bindings_visits(bindings@, i as nat),
                    (*v, *ctx) == run_visits(v0, c0, done),
                decreases bindings.len() - i,
            {
                let binding = &bindings[i];
                let ghost (vb, cb) = (*v, *ctx);
                v.visit_binding(binding, ctx);
                proof {
                    let one = seq![Visit::Binding(*binding)];
                    lemma_run_append(v0, c0, done, one);
                    lemma_run_one(vb, cb, Visit::Binding(*binding));
                    done = done + one;
                }
                walk_bind_pat(v, &binding.pat, ctx);
                proof { lemma_run_append(v0, c0, done, bind_pat_visits(binding.pat)); done = done + bind_pat_visits(binding.pat); }
                walk_expr(v, &binding.value, ctx);
                proof { lemma_run_append(v0, c0, done, expr_visits(binding.value)); done = done + expr_visits(binding.value); }
                i = i + 1;
                assert(done =~= start + bindings_visits(bindings@, i as nat));
            }
            walk_expr(v, body, ctx);
            proof { lemma_run_append(v0, c0, done, expr_visits(*body)); done = done + expr_visits(*body); }
        },
        ExprKind::Match { scrutinee, arms } => {
            walk_expr(v, scrutinee, ctx);
            proof { lemma_run_append(v0, c0, done, expr_visits(*scrutinee)); done = done + expr_visits(*scrutinee); }
            let ghost start = done;
            let mut i: usize = 0;
            while i < arms.len()
                invariant
                    i <= arms.len(),
                    done == start + arms_visits(arms@, i as nat),
                    (*v, *ctx) == run_visits(v0, c0, done),
                decreases arms.len() - i,
            {
                walk_pat(v, &arms[i].0, ctx);
                proof { lemma_run_append(v0, c0, done, pat_visits(arms@[i as int].0)); done = done + pat_visits(arms@[i as int].0); }
                walk_expr(v, &arms[i].1, ctx);
                proof { lemma_run_append(v0, c0, done, expr_visits(arms@[i as int].1)); done = done + expr_visits(arms@[i as int].1); }
                i = i + 1;
                assert(done =~= start + arms_visits(arms@, i as nat));
            }
        },
        ExprKind::Abs { param, body } => {
            walk_pat(v, param, ctx);
            proof { lemma_run_append(v0, c0, done, pat_visits(*param)); done = done + pat_visits(*param); }
            walk_expr(v, body, ctx);
            proof { lemma_run_append(v0, c0, done, expr_visits(*body)); done = done + expr_visits(*body); }
        },
        ExprKind::App { func, arg } => {
            walk_expr(v, func, ctx);
            proof { lemma_run_append(v0, c0, done, expr_visits(*func)); done = done + expr_visits(*func); }
            walk_expr(v, arg, ctx);
            proof { lemma_run_append(v0, c0, done, expr_visits(*arg)); done = done + expr_visits(*arg); }
        },
        ExprKind::Tuple(items) => {
            let ghost start = done;
            let mut i: usize = 0;
            while i < items.len()
                invariant
                    i <= items.len(),
                    done == start + items_visits(items@, i as nat),
                    (*v, *ctx) == run_visits(v0, c0, done),
                decreases items.len() - i,
            {
                walk_expr(v, &items[i], ctx);
                proof { lemma_run_append(v0, c0, done, expr_visits(items@[i as int])); done = done + expr_visits(items@[i as int]); }
                i = i + 1;
                assert(done =~= start + items_visits(items@, i as nat));
            }
        },
        ExprKind::Type { body, .. } => {
            walk_expr(v, body, ctx);
            proof { lemma_run_append(v0, c0, done, expr_visits(*body)); done = done + expr_visits(*body); }
        },
        ExprKind::Constructor { arg, .. } => match arg {
            Some(a) => {
                walk_expr(v, a, ctx);
                proof { lemma_run_append(v0, c0, done, expr_visits(*a)); done = done + expr_visits(*a); }
            },
            None => {},
        },
    }
    assert(done =~= expr_visits(*expr));
}

/// Visits `pat`, then walks its sub-patterns in order.
#[verifier::loop_isolation(false)]
pub fn walk_pat<Ctx, V: Visitor<Ctx>>(v: &mut V, pat: &Pat, ctx: &mut Ctx)
    ensures
        (*final(v), *final(ctx)) == run_visits(*old(v), *old(ctx), pat_visits(*pat)),
    decreases pat,
{
    let ghost v0 = *v;
    let ghost c0 = *ctx;
    v.visit_pat(pat, ctx);
    let ghost mut done: Seq<Visit> = seq![Visit::Pat(*pat)];
    proof {
        lemma_run_one(v0, c0, Visit::Pat(*pat));
    }
    match &*pat.kind {
        PatKind::Wildcard | PatKind::Var(_) | PatKind::Lit(_) => {},
        PatKind::Or(a, b) => {
            walk_pat(v, a, ctx);
            proof { lemma_run_append(v0, c0, done, pat_visits(*a)); done = done + pat_visits(*a); }
            walk_pat(v, b, ctx);
            proof { lemma_run_append(v0, c0, done, pat_visits(*b)); done = done + pat_visits(*b); }
        },
        PatKind::Tuple(pats) => {
            let ghost start = done;
            let mut i: usize = 0;
            while i < pats.len()
                invariant
                    i <= pats.len(),
                    done == start + pats_visits(pats@, i as nat),
                    (*v, *ctx) == run_visits(v0, c0, done),
                decreases pats.len() - i,
            {
                walk_pat(v, &pats[i], ctx);
                proof { lemma_run_append(v0, c0, done, pat_visits(pats@[i as int])); done = done + pat_visits(pats@[i as int]); }
                i = i + 1;
                assert(done =~= start + pats_visits(pats@, i as nat));
            }
        },
        PatKind::App { func, arg } => {
            walk_pat(v, func, ctx);
            proof { lemma_run_append(v0, c0, done, pat_visits(*func)); done = done + pat_visits(*func); }
            walk_pat(v, arg, ctx);
            proof { lemma_run_append(v0, c0, done, pat_visits(*arg)); done = done + pat_visits(*arg); }
        },
        PatKind::Constructor { arg, .. } => match arg {
            Some(a) => {
                walk_pat(v, a, ctx);
                proof { lemma_run_append(v0, c0, done, pat_visits(*a)); done = done + pat_visits(*a); }
            },
            None => {},
        },
    }
    assert(done =~= pat_visits(*pat));
}

/// Visits `binding`, then walks its pattern and its value.
pub fn walk_binding<Ctx, V: Visitor<Ctx>>(v: &mut V, binding: &Binding, ctx: &mut Ctx)
    ensures
        (*final(v), *final(ctx)) == run_visits(*old(v), *old(ctx), binding_visits(*binding)),
{
    let ghost v0 = *v;
    let ghost c0 = *ctx;
    v.visit_binding(binding, ctx);
    let ghost one = seq![Visit::Binding(*binding)];
    proof {
        lemma_run_one(v0, c0, Visit::Binding(*binding));
    }
    walk_bind_pat(v, &binding.pat, ctx);
    proof { lemma_run_append(v0, c0, one, bind_pat_visits(binding.pat)); }
    let ghost two = one + bind_pat_visits(binding.pat);
    walk_expr(v, &binding.value, ctx);
    proof {
        lemma_run_append(v0, c0, two, expr_visits(binding.value));
        assert(two + expr_visits(binding.value) =~= binding_visits(*binding));
    }
}

/// Visits `pat`, then walks its sub-patterns in order.
#[verifier::loop_isolation(false)]
pub fn walk_bind_pat<Ctx, V: Visitor<Ctx>>(v: &mut V, pat: &BindPat, ctx: &mut Ctx)
    ensures
        (*final(v), *final(ctx)) == run_visits(*old(v), *old(ctx), bind_pat_visits(*pat)),
    decreases pat,
{
    let ghost v0 = *v;
    let ghost c0 = *ctx;
    v.visit_bind_pat(pat, ctx);
    let ghost mut done: Seq<Visit> = seq![Visit::BindPat(*pat)];
    proof {
        lemma_run_one(v0, c0, Visit::BindPat(*pat));
    }
    match &pat.kind {
        BindPatKind::Tuple(pats) => {
            let ghost start = done;
            let mut i: usize = 0;
            while i < pats.len()
                invariant
                    i <= pats.len(),
                    done == start + bind_pats_visits(pats@, i as nat),
                    (*v, *ctx) == run_visits(v0, c0, done),
                decreases pats.len() - i,
            {
                walk_bind_pat(v, &pats[i], ctx);
                proof { lemma_run_append(v0, c0, done, bind_pat_visits(pats@[i as int])); done = done + bind_pat_visits(pats@[i as int]); }
                i = i + 1;
                assert(done =~= start + bind_pats_visits(pats@, i as nat));
            }
        },
        BindPatKind::Var(_) => {},
    }
    assert(done =~= bind_pat_visits(*pat));
}

} // verus!
