//! The derivations that inference records, step by step, as spec functions.
use vstd::prelude::*;
use crate::algorithm_w::{
    arms_spec, bind_all_spec, binds_spec, binop_types, extend_env, fresh, infer_spec, let_values_spec, map_schemes,
    pat_spec, pats_spec, rec_alphas_spec, rec_values_spec, tuple_spec, unary_types, unify_st, var_spec,
};
use crate::ast::{BindPat, BindPatKind, Binding, Expr, ExprKind, Ident, Literal, Pat, PatKind};
use crate::typecheck::{apply, compose, unify_depth_budget, unify_tree, wrap, InferenceState, InferenceTree, Input, Output, RuleName};
use crate::hir::SType;
use crate::scheme::{apply_env_spec, SScheme};
use crate::pretty::{env_text, keys_sorted};
use crate::scope::free_vars_spec;

verus! {

/// Whether a derivation concludes with type `ty`.
pub open spec fn concludes_type(t: InferenceTree, ty: SType) -> bool {
    t.output matches Output::Type(x) && x@ == ty
}

/// How a pattern is shown in its derivation step.
pub open spec fn pat_text(p: Pat, names: Seq<Seq<char>>) -> Seq<char>
    decreases p,
{
    match *p.kind {
        PatKind::Wildcard => "_"@,
        PatKind::Var(id) => names[id.name as int],
        PatKind::Lit(l) => crate::printer::lit_text(l),
        PatKind::Or(a, b) => pat_text(a, names) + " | "@ + pat_text(b, names),
        PatKind::Tuple(_) => "(...)"@,
        PatKind::App { func, arg } => pat_text(func, names) + " "@ + pat_text(arg, names),
        PatKind::Constructor { name, .. } => names[name.name as int],
    }
}

/// Whether `t` is the derivation that inferring pattern `p` from state `st`
/// records: its rule, the pattern's text, the type found and the
/// derivations of its sub-patterns (and, for an or-pattern, of unifying
/// the two sides), each from the state its turn comes in.
pub open spec fn pat_tree_ok(t: InferenceTree, st: crate::typecheck::InferenceState, p: Pat, names: Seq<Seq<char>>) -> bool
    decreases p,
{
    &&& t.input matches Input::Pat(s) && s@ == pat_text(p, names)
    &&& concludes_type(t, pat_spec(st, p).ty)
    &&& match *p.kind {
        PatKind::Wildcard => t.rule == RuleName::TPatWild && t.children@.len() == 0,
        PatKind::Var(_) => t.rule == RuleName::TPatVar && t.children@.len() == 0,
        PatKind::Lit(_) => t.rule == RuleName::TPatLit && t.children@.len() == 0,
        PatKind::Or(a, b) => {
            let ra = pat_spec(st, a);
            let rb = pat_spec(ra.st, b);
            &&& t.rule == RuleName::TPatOr
            &&& t.children@.len() == 3
            &&& pat_tree_ok(t.children@[0], st, a, names)
            &&& pat_tree_ok(t.children@[1], ra.st, b, names)
            &&& unify_tree(t.children@[2], ra.ty, rb.ty, p.span, unify_depth_budget())
        },
        PatKind::Tuple(ps) => {
            &&& t.rule == RuleName::TPatTuple
            &&& t.children@.len() == ps@.len()
            &&& forall|i: int| 0 <= i < ps@.len() ==>
                pat_tree_ok(#[trigger] t.children@[i], pats_spec(st, ps@, i as nat).0, ps@[i], names)
        },
        PatKind::App { func, arg } => {
            &&& t.rule == RuleName::TPatWild
            &&& t.children@.len() == 2
            &&& pat_tree_ok(t.children@[0], st, func, names)
            &&& pat_tree_ok(t.children@[1], pat_spec(st, func).st, arg, names)
        },
        PatKind::Constructor { arg, .. } => {
            &&& t.rule == RuleName::TPatWild
            &&& match arg {
                Some(a) => t.children@.len() == 1 && pat_tree_ok(t.children@[0], st, a, names),
                None => t.children@.len() == 0,
            }
        },
    }
}


/// Whether `s` is how `env` is written for `e`: the schemes of the names
/// that `e` uses freely and `env` holds, ordered by name.
pub open spec fn env_written(s: Seq<char>, env: Map<usize, SScheme>, e: Expr, names: Seq<Seq<char>>) -> bool {
    exists|q: Seq<usize>| #![auto]
        keys_sorted(names, q) && q.to_set() == env.dom().intersect(free_vars_spec(e)) && s == env_text(env, names, q)
}

/// Whether `t` is a step of rule `rule` on `e` in `env`.
pub open spec fn infer_step(t: InferenceTree, rule: RuleName, env: Map<usize, SScheme>, e: Expr, names: Seq<Seq<char>>) -> bool {
    &&& t.rule == rule
    &&& t.input matches Input::Infer { env: s, expr: x } && *x == e && env_written(s@, env, e, names)
}

/// The rule of a literal.
pub open spec fn lit_rule(l: Literal) -> RuleName {
    match l {
        Literal::Int(_) => RuleName::TInt,
        Literal::Float(_) => RuleName::TFloat,
        Literal::Bool(_) => RuleName::TBool,
    }
}

/// The step of looking `id` up while inferring `e`: `T-Var` with the
/// instantiated scheme, or an error step when the name is unbound.
pub open spec fn var_tree_ok(t: InferenceTree, st: InferenceState, env: Map<usize, SScheme>, id: Ident, e: Expr, names: Seq<Seq<char>>) -> bool {
    &&& t.children@.len() == 0
    &&& if env.contains_key(id.name) {
        infer_step(t, RuleName::TVar, env, e, names) && concludes_type(t, var_spec(st, env, id, e.span, names).ty)
    } else {
        infer_step(t, RuleName::TError, env, e, names) && (t.output matches Output::Str(o) && o@ == "unbound variable"@)
    }
}

/// How many unification steps binding a `let` pattern records.
pub open spec fn bind_count(p: BindPat) -> nat
    decreases p, 0nat,
{
    match p.kind {
        BindPatKind::Var(_) => 0,
        BindPatKind::Tuple(ps) => 1 + bind_counts(ps@, ps@.len()),
    }
}

/// How many unification steps binding the first `n` patterns records.
pub open spec fn bind_counts(ps: Seq<BindPat>, n: nat) -> nat
    decreases ps, n,
{
    if n == 0 || n > ps.len() {
        0
    } else {
        bind_counts(ps, (n - 1) as nat) + bind_count(ps[n - 1])
    }
}

/// Where the steps of the `i`-th binding of a non-recursive `let` begin: each
/// binding has its value's derivation, then its pattern's unifications.
pub open spec fn let_off(bs: Seq<Binding>, i: nat) -> nat
    decreases i,
{
    if i == 0 || i > bs.len() {
        0
    } else {
        let_off(bs, (i - 1) as nat) + 1 + bind_count(bs[i - 1].pat)
    }
}

/// The unifications that binding the first `i` patterns records.
pub open spec fn bind_off(bs: Seq<Binding>, i: nat) -> nat
    decreases i,
{
    if i == 0 || i > bs.len() {
        0
    } else {
        bind_off(bs, (i - 1) as nat) + bind_count(bs[i - 1].pat)
    }
}

/// Where the steps of the `i`-th arm of a `match` begin: after the
/// scrutinee, each arm has its pattern, the unification of the pattern with
/// the scrutinee and its body; each arm after the first, the unification of
/// its body's type with the first's.
pub open spec fn arm_off(i: nat) -> nat {
    if i == 0 { 1 } else { 4 * i }
}

/// Whether `t` is the derivation that inferring `e` in `env` from state `st`
/// records (see `infer_spec`): at each step the rule, the environment as
/// written, the expression and the type concluded, and the steps it rests on
/// in order, each from the state its turn comes in.
#[verifier::opaque]
pub open spec fn infer_tree_ok(t: InferenceTree, st: InferenceState, env: Map<usize, SScheme>, e: Expr, names: Seq<Seq<char>>) -> bool
    decreases e, 2nat,
{
    let r = infer_spec(st, env, e, names);
    let c = t.children@;
    let b = unify_depth_budget();
    match *e.kind {
        ExprKind::Literal(l) => infer_step(t, lit_rule(l), env, e, names) && concludes_type(t, r.ty) && c.len() == 0,
        ExprKind::Var(id) => var_tree_ok(t, st, env, id, e, names),
        ExprKind::If { cond, then_expr, else_expr } => {
            let r1 = infer_spec(st, env, cond, names);
            let env1 = apply_env_spec(r1.subst, env);
            let r2 = infer_spec(r1.st, env1, then_expr, names);
            let env2 = apply_env_spec(r2.subst, env1);
            let r3 = infer_spec(r2.st, env2, else_expr, names);
            let cond_ty_s = apply(r3.subst, apply(r2.subst, r1.ty));
            let (st4, s4) = unify_st(r3.st, cond_ty_s, SType::Bool, cond.span);
            &&& infer_step(t, RuleName::TIf, env, e, names)
            &&& concludes_type(t, r.ty)
            &&& c.len() == 5
            &&& infer_tree_ok(c[0], st, env, cond, names)
            &&& infer_tree_ok(c[1], r1.st, env1, then_expr, names)
            &&& infer_tree_ok(c[2], r2.st, env2, else_expr, names)
            &&& unify_tree(c[3], cond_ty_s, SType::Bool, cond.span, b)
            &&& unify_tree(c[4], apply(s4, apply(r3.subst, r2.ty)), apply(s4, r3.ty), then_expr.span, b)
        },
        ExprKind::BinOp { op, lhs, rhs } => {
            let (el, er, res) = binop_types(op);
            let r1 = infer_spec(st, env, lhs, names);
            let env1 = apply_env_spec(r1.subst, env);
            let r2 = infer_spec(r1.st, env1, rhs, names);
            let (st3, s3) = unify_st(r2.st, apply(r2.subst, r1.ty), el, lhs.span);
            &&& infer_step(t, RuleName::TBinOp, env, e, names)
            &&& concludes_type(t, r.ty)
            &&& c.len() == 4
            &&& infer_tree_ok(c[0], st, env, lhs, names)
            &&& infer_tree_ok(c[1], r1.st, env1, rhs, names)
            &&& unify_tree(c[2], apply(r2.subst, r1.ty), el, lhs.span, b)
            &&& unify_tree(c[3], apply(s3, r2.ty), er, rhs.span, b)
        },
        ExprKind::UnaryOp { op, rhs } => {
            let (ea, res) = unary_types(op);
            let r1 = infer_spec(st, env, rhs, names);
            &&& infer_step(t, RuleName::TUnaryOp, env, e, names)
            &&& concludes_type(t, r.ty)
            &&& c.len() == 2
            &&& infer_tree_ok(c[0], st, env, rhs, names)
            &&& unify_tree(c[1], apply(r1.subst, r1.ty), ea, rhs.span, b)
        },
        ExprKind::Let { .. } => infer_step(t, RuleName::TLet, env, e, names) && concludes_type(t, r.ty) && let_tree_ok(t, st, env, e, names),
        ExprKind::Match { .. } => infer_step(t, RuleName::TMatch, env, e, names) && concludes_type(t, r.ty) && match_tree_ok(t, st, env, e, names),
        ExprKind::Abs { param, body } => {
            let pr = pat_spec(st, param);
            &&& infer_step(t, RuleName::TAbs, env, e, names)
            &&& concludes_type(t, r.ty)
            &&& c.len() == 2
            &&& pat_tree_ok(c[0], st, param, names)
            &&& infer_tree_ok(c[1], pr.st, extend_env(env, pr.bindings), body, names)
        },
        ExprKind::App { func, arg } => {
            let (st0, result) = fresh(st);
            let r1 = infer_spec(st0, env, func, names);
            let r2 = infer_spec(r1.st, apply_env_spec(r1.subst, env), arg, names);
            &&& infer_step(t, RuleName::TApp, env, e, names)
            &&& concludes_type(t, r.ty)
            &&& c.len() == 3
            &&& infer_tree_ok(c[0], st0, env, func, names)
            &&& infer_tree_ok(c[1], r1.st, apply_env_spec(r1.subst, env), arg, names)
            &&& unify_tree(c[2], apply(r2.subst, r1.ty), SType::Arrow(Box::new(r2.ty), Box::new(result)), func.span, b)
        },
        ExprKind::Tuple(_) => infer_step(t, RuleName::TTuple, env, e, names) && concludes_type(t, r.ty) && tuple_tree_ok(t, st, env, e, names),
        ExprKind::Type { definitions, body } => infer_tree_ok(t, st, env, body, names),
        ExprKind::Constructor { name, arg } => match arg {
            None => var_tree_ok(t, st, env, name, e, names),
            Some(a) => {
                let (st0, result) = fresh(st);
                let r1 = var_spec(st0, env, name, e.span, names);
                let r2 = infer_spec(r1.st, apply_env_spec(r1.subst, env), a, names);
                &&& infer_step(t, RuleName::TApp, env, e, names)
                &&& concludes_type(t, r.ty)
                &&& c.len() == 3
                &&& var_tree_ok(c[0], st0, env, name, e, names)
                &&& infer_tree_ok(c[1], r1.st, apply_env_spec(r1.subst, env), a, names)
                &&& unify_tree(c[2], apply(r2.subst, r1.ty), SType::Arrow(Box::new(r2.ty), Box::new(result)), e.span, b)
            },
        },
    }
}


/// The premises of the derivation of a tuple: those of its items in order.
#[verifier::opaque]
pub open spec fn tuple_tree_ok(t: InferenceTree, st: InferenceState, env: Map<usize, SScheme>, e: Expr, names: Seq<Seq<char>>) -> bool
    decreases e, 1nat,
{
    let c = t.children@;
    match *e.kind {
        ExprKind::Tuple(items) => {
            &&& c.len() == items@.len()
            &&& forall|i: int| #![trigger items@[i]] 0 <= i < items@.len() ==>
                infer_tree_ok(c[i], tuple_spec(st, env, items@, names, i as nat).0, env, items@[i], names)
        },
        _ => false,
    }
}

/// The recursive `let` `e`'s fresh variables, environment and value types.
pub open spec fn rec_parts(st: InferenceState, env: Map<usize, SScheme>, e: Expr, names: Seq<Seq<char>>)
    -> (InferenceState, Map<usize, SScheme>, Seq<SType>, InferenceState, Map<u64, SType>, Seq<SType>)
{
    match *e.kind {
        ExprKind::Let { bindings, body } => {
            let bs = bindings@;
            let (st1, rec_env, alphas) = rec_alphas_spec(st, env, bs, bs.len());
            let (st2, combined, vtys) = rec_values_spec(st1, rec_env, bs, alphas, e.span, names, bs.len());
            (st1, rec_env, alphas, st2, combined, vtys)
        },
        _ => (st, env, Seq::empty(), st, Map::empty(), Seq::empty()),
    }
}

/// Whether the steps of value `i` of the recursive `let` `e` stand in `c`:
/// its derivation at `2 * i`, then its unification with its variable.
pub open spec fn rec_value_ok(c: Seq<InferenceTree>, st: InferenceState, env: Map<usize, SScheme>, e: Expr, names: Seq<Seq<char>>, i: int) -> bool
    decreases e, 0nat,
{
    match *e.kind {
        ExprKind::Let { bindings, body } => {
            let bs = bindings@;
            let (st1, rec_env, alphas, st2, combined, vtys) = rec_parts(st, env, e, names);
            let (sti, ci, _) = rec_values_spec(st1, rec_env, bs, alphas, e.span, names, i as nat);
            let ri = infer_spec(sti, apply_env_spec(ci, rec_env), bs[i].value, names);
            let c1 = compose(ri.subst, ci);
            &&& 0 <= i < bs.len()
            &&& infer_tree_ok(c[2 * i], sti, apply_env_spec(ci, rec_env), bs[i].value, names)
            &&& unify_tree(c[2 * i + 1], apply(c1, alphas[i]), apply(c1, ri.ty), e.span, unify_depth_budget())
        },
        _ => false,
    }
}

/// Whether the derivation of value `i` of the non-recursive `let` `e`
/// stands in `c` where `let_off` puts it.
pub open spec fn let_value_ok(c: Seq<InferenceTree>, st: InferenceState, env: Map<usize, SScheme>, e: Expr, names: Seq<Seq<char>>, i: int) -> bool
    decreases e, 0nat,
{
    match *e.kind {
        ExprKind::Let { bindings, body } => {
            let bs = bindings@;
            let (sti, envi) = let_values_spec(st, env, bs, names, i as nat);
            &&& 0 <= i < bs.len()
            &&& infer_tree_ok(c[let_off(bs, i as nat) as int], sti, envi, bs[i].value, names)
        },
        _ => false,
    }
}

/// The premises of the derivation of a `let` (see `infer_spec`): for a
/// recursive one, each value and its unification with the binding's
/// variable, then the unifications that binding the patterns records
/// (`bind_count` of them for each), then the body; otherwise each value
/// followed by its pattern's unifications, then the body. The derivations
/// of the values, of their unifications with the recursive variables and of
/// the body are stated; those of binding the patterns are only counted.
#[verifier::opaque]
pub open spec fn let_tree_ok(t: InferenceTree, st: InferenceState, env: Map<usize, SScheme>, e: Expr, names: Seq<Seq<char>>) -> bool
    decreases e, 1nat,
{
    let c = t.children@;
    match *e.kind {
        ExprKind::Let { bindings, body } => {
            let bs = bindings@;
            let n = bs.len();
            if n > 0 && bs[0].rec {
                let (st1, rec_env, alphas, st2, combined, vtys) = rec_parts(st, env, e, names);
                let (st3, new_env) = bind_all_spec(st2, apply_env_spec(combined, env), bs, vtys, n);
                &&& c.len() == 2 * n + bind_off(bs, n) + 1
                &&& forall|i: int| #![trigger bindings@[i]] 0 <= i < n ==> rec_value_ok(c, st, env, e, names, i)
                &&& infer_tree_ok(c[(2 * n + bind_off(bs, n)) as int], st3, new_env, body, names)
            } else {
                let (st1, env1) = let_values_spec(st, env, bs, names, n);
                &&& c.len() == let_off(bs, n) + 1
                &&& forall|i: int| #![trigger bindings@[i]] 0 <= i < n ==> let_value_ok(c, st, env, e, names, i)
                &&& infer_tree_ok(c[let_off(bs, n) as int], st1, env1, body, names)
            }
        },
        _ => false,
    }
}

/// Whether the steps of arm `i` of the `match` `e` stand in `c` where
/// `arm_off` puts them (see `match_tree_ok`).
#[verifier::opaque]
pub open spec fn arm_ok(c: Seq<InferenceTree>, st: InferenceState, env: Map<usize, SScheme>, e: Expr, names: Seq<Seq<char>>, i: int) -> bool
    decreases e, 0nat,
{
    let b = unify_depth_budget();
    match *e.kind {
        ExprKind::Match { scrutinee, arms } => {
            let r1 = infer_spec(st, env, scrutinee, names);
            let (st1, fin1, bt) = arms_spec(r1.st, env, r1.subst, r1.ty, scrutinee.span, arms@, names, i as nat);
            let pat = arms@[i].0;
            let body = arms@[i].1;
            let pr = pat_spec(st1, pat);
            let (st2, s_pat) = unify_st(pr.st, apply(fin1, pr.ty), apply(fin1, r1.ty), scrutinee.span);
            let fin2 = compose(s_pat, fin1);
            let env_arm = extend_env(apply_env_spec(fin2, env), map_schemes(fin2, pr.bindings));
            let rb = infer_spec(st2, env_arm, body, names);
            let fin3 = compose(rb.subst, fin2);
            let o = arm_off(i as nat) as int;
            &&& 0 <= i < arms@.len()
            &&& pat_tree_ok(c[o], st1, pat, names)
            &&& unify_tree(c[o + 1], apply(fin1, pr.ty), apply(fin1, r1.ty), scrutinee.span, b)
            &&& infer_tree_ok(c[o + 2], st2, env_arm, body, names)
            &&& (i > 0 ==> bt is Some && unify_tree(c[o + 3], apply(fin3, bt->0), apply(fin3, rb.ty), body.span, b))
        },
        _ => false,
    }
}

/// The premises of the derivation of a `match`: the scrutinee, then for
/// each arm its pattern, the unification of the pattern's type with the
/// scrutinee's, its body and, after the first arm, the unification of its
/// body's type with the first's.
#[verifier::opaque]
pub open spec fn match_tree_ok(t: InferenceTree, st: InferenceState, env: Map<usize, SScheme>, e: Expr, names: Seq<Seq<char>>) -> bool
    decreases e, 1nat,
{
    let c = t.children@;
    let b = unify_depth_budget();
    match *e.kind {
        ExprKind::Match { scrutinee, arms } => {
            let r1 = infer_spec(st, env, scrutinee, names);
            let n = arms@.len();
            &&& c.len() == arm_off(n)
            &&& infer_tree_ok(c[0], st, env, scrutinee, names)
            &&& forall|i: int| #![trigger arms@[i]] 0 <= i < n ==> arm_ok(c, st, env, e, names, i)
        },
        _ => false,
    }
}

} // verus!


verus! {

/// Whether every scheme in `bs` quantifies no variable.
pub open spec fn all_monomorphic(bs: Seq<(usize, SScheme)>) -> bool {
    forall|i: int| 0 <= i < bs.len() ==> (#[trigger] bs[i]).1.type_vars.len() == 0
}

/// Inferring a pattern binds each name to a scheme that quantifies no
/// variable; a literal pattern has its literal's type and binds nothing; a
/// tuple pattern has a tuple type with one component for each sub-pattern.
pub proof fn lemma_pat_bindings_monomorphic(st: InferenceState, p: Pat)
    ensures
        all_monomorphic(pat_spec(st, p).bindings),
        *p.kind is Lit ==> pat_spec(st, p).bindings.len() == 0
            && pat_spec(st, p).ty == crate::algorithm_w::lit_type((*p.kind)->Lit_0),
        *p.kind is Tuple ==> pat_spec(st, p).ty == SType::Tuple(pats_spec(st, (*p.kind)->Tuple_0@, (*p.kind)->Tuple_0@.len()).1)
            && pats_spec(st, (*p.kind)->Tuple_0@, (*p.kind)->Tuple_0@.len()).1.len() == (*p.kind)->Tuple_0@.len(),
    decreases p, 0nat,
{
    match *p.kind {
        PatKind::Or(a, b) => {
            let ra = pat_spec(st, a);
            lemma_pat_bindings_monomorphic(st, a);
            lemma_pat_bindings_monomorphic(ra.st, b);
            let rb = pat_spec(ra.st, b);
            let (st3, s) = unify_st(rb.st, ra.ty, rb.ty, p.span);
            let all = ra.bindings + crate::algorithm_w::map_bindings(s, rb.bindings);
            assert forall|i: int| 0 <= i < all.len() implies (#[trigger] all[i]).1.type_vars.len() == 0 by {
                if i >= ra.bindings.len() {
                    assert(rb.bindings[i - ra.bindings.len()].1.type_vars.len() == 0);
                }
            }
        },
        PatKind::Tuple(ps) => {
            lemma_pats_bindings_monomorphic(st, ps@, ps@.len());
        },
        PatKind::App { func, arg } => {
            lemma_pat_bindings_monomorphic(st, func);
            lemma_pat_bindings_monomorphic(pat_spec(st, func).st, arg);
            let rf = pat_spec(st, func);
            let ra = pat_spec(rf.st, arg);
            let all = rf.bindings + ra.bindings;
            assert forall|i: int| 0 <= i < all.len() implies (#[trigger] all[i]).1.type_vars.len() == 0 by {
                if i >= rf.bindings.len() {
                    assert(ra.bindings[i - rf.bindings.len()].1.type_vars.len() == 0);
                }
            }
        },
        PatKind::Constructor { name, arg } => {
            match arg {
                Some(a) => lemma_pat_bindings_monomorphic(st, a),
                None => {},
            }
        },
        _ => {},
    }
}

/// The same for the first `n` patterns of a tuple pattern, whose types are
/// one for each.
pub proof fn lemma_pats_bindings_monomorphic(st: InferenceState, ps: Seq<Pat>, n: nat)
    requires
        n <= ps.len(),
    ensures
        all_monomorphic(pats_spec(st, ps, n).2),
        pats_spec(st, ps, n).1.len() == n,
    decreases ps, n,
{
    if n > 0 {
        lemma_pats_bindings_monomorphic(st, ps, (n - 1) as nat);
        let (st1, tys, bs) = pats_spec(st, ps, (n - 1) as nat);
        lemma_pat_bindings_monomorphic(st1, ps[n - 1]);
        let r = pat_spec(st1, ps[n - 1]);
        let all = bs + map_schemes(Map::empty(), r.bindings);
        assert forall|i: int| 0 <= i < all.len() implies (#[trigger] all[i]).1.type_vars.len() == 0 by {
            if i >= bs.len() {
                assert(r.bindings[i - bs.len()].1.type_vars.len() == 0);
            }
        }
    }
}

} // verus!

verus! {

/// The identifiers a pattern binds, in the order inference binds them.
pub open spec fn pat_idents(p: Pat) -> Seq<Ident>
    decreases p, 0nat,
{
    match *p.kind {
        PatKind::Var(id) => seq![id],
        PatKind::Wildcard | PatKind::Lit(_) => Seq::empty(),
        PatKind::Or(a, b) => pat_idents(a) + pat_idents(b),
        PatKind::Tuple(ps) => pats_idents(ps@, ps@.len()),
        PatKind::App { func, arg } => pat_idents(func) + pat_idents(arg),
        PatKind::Constructor { arg, .. } => match arg {
            Some(a) => pat_idents(a),
            None => Seq::empty(),
        },
    }
}

/// The identifiers the first `n` patterns bind, in order.
pub open spec fn pats_idents(ps: Seq<Pat>, n: nat) -> Seq<Ident>
    decreases ps, n,
{
    if n == 0 || n > ps.len() {
        Seq::empty()
    } else {
        pats_idents(ps, (n - 1) as nat) + pat_idents(ps[n - 1])
    }
}

/// Whether bindings bind exactly the identifiers of `p`, in order.
#[verifier::opaque]
pub open spec fn binds_idents_of(bs: Seq<(Ident, crate::scheme::Scheme)>, p: Pat) -> bool {
    binding_idents(bs) == pat_idents(p)
}

/// The identifiers of a sequence of bindings.
pub open spec fn binding_idents(bs: Seq<(Ident, crate::scheme::Scheme)>) -> Seq<Ident> {
    bs.map_values(|b: (Ident, crate::scheme::Scheme)| b.0)
}

} // verus!

verus! {

/// The names that bindings bind.
pub open spec fn binding_names(bs: Seq<(usize, SScheme)>) -> Set<usize> {
    Set::new(|x: usize| exists|i: int| 0 <= i < bs.len() && (#[trigger] bs[i]).0 == x)
}

proof fn lemma_binding_names_add(a: Seq<(usize, SScheme)>, b: Seq<(usize, SScheme)>)
    ensures
        binding_names(a + b) == binding_names(a) + binding_names(b),
{
    assert forall|x: usize| binding_names(a + b).contains(x) implies (binding_names(a) + binding_names(b)).contains(x) by {
        let i = choose|i: int| 0 <= i < (a + b).len() && (#[trigger] (a + b)[i]).0 == x;
        if i < a.len() {
            assert(a[i].0 == x);
        } else {
            assert(b[i - a.len()].0 == x);
        }
    }
    assert forall|x: usize| (binding_names(a) + binding_names(b)).contains(x) implies binding_names(a + b).contains(x) by {
        if binding_names(a).contains(x) {
            let i = choose|i: int| 0 <= i < a.len() && (#[trigger] a[i]).0 == x;
            assert((a + b)[i].0 == x);
        } else {
            let i = choose|i: int| 0 <= i < b.len() && (#[trigger] b[i]).0 == x;
            assert((a + b)[i + a.len()].0 == x);
        }
    }
    assert(binding_names(a + b) =~= binding_names(a) + binding_names(b));
}

proof fn lemma_binding_names_same(a: Seq<(usize, SScheme)>, b: Seq<(usize, SScheme)>)
    requires
        a.len() == b.len(),
        forall|i: int| 0 <= i < a.len() ==> (#[trigger] a[i]).0 == b[i].0,
    ensures
        binding_names(a) == binding_names(b),
{
    assert forall|x: usize| binding_names(a).contains(x) implies binding_names(b).contains(x) by {
        let i = choose|i: int| 0 <= i < a.len() && (#[trigger] a[i]).0 == x;
        assert(b[i].0 == x);
    }
    assert forall|x: usize| binding_names(b).contains(x) implies binding_names(a).contains(x) by {
        let i = choose|i: int| 0 <= i < b.len() && (#[trigger] b[i]).0 == x;
        assert(a[i].0 == x);
    }
    assert(binding_names(a) =~= binding_names(b));
}

/// Inferring a pattern binds exactly the names the pattern binds.
pub proof fn lemma_pat_binding_names(st: InferenceState, p: Pat)
    ensures
        binding_names(pat_spec(st, p).bindings) == crate::scope::pat_vars_spec(p),
    decreases p, 0nat,
{
    let r = pat_spec(st, p);
    match *p.kind {
        PatKind::Var(id) => {
            assert(binding_names(r.bindings) =~= set![id.name]) by {
                assert(r.bindings[0].0 == id.name);
            }
        },
        PatKind::Wildcard | PatKind::Lit(_) => {
            assert(binding_names(r.bindings) =~= Set::<usize>::empty());
        },
        PatKind::Or(a, b) => {
            let ra = pat_spec(st, a);
            let rb = pat_spec(ra.st, b);
            let (st3, s) = unify_st(rb.st, ra.ty, rb.ty, p.span);
            lemma_pat_binding_names(st, a);
            lemma_pat_binding_names(ra.st, b);
            lemma_binding_names_same(crate::algorithm_w::map_bindings(s, rb.bindings), rb.bindings);
            lemma_binding_names_add(ra.bindings, crate::algorithm_w::map_bindings(s, rb.bindings));
        },
        PatKind::Tuple(ps) => {
            lemma_pats_binding_names(st, ps@, ps@.len());
        },
        PatKind::App { func, arg } => {
            let rf = pat_spec(st, func);
            lemma_pat_binding_names(st, func);
            lemma_pat_binding_names(rf.st, arg);
            lemma_binding_names_add(rf.bindings, pat_spec(rf.st, arg).bindings);
        },
        PatKind::Constructor { name, arg } => {
            match arg {
                Some(a) => lemma_pat_binding_names(st, a),
                None => {
                    assert(binding_names(r.bindings) =~= Set::<usize>::empty());
                },
            }
        },
    }
}

/// Inferring the first `n` patterns binds exactly the names they bind.
pub proof fn lemma_pats_binding_names(st: InferenceState, ps: Seq<Pat>, n: nat)
    ensures
        binding_names(pats_spec(st, ps, n).2) == crate::scope::pats_vars_spec(ps, n),
    decreases ps, n,
{
    if n == 0 || n > ps.len() {
        assert(binding_names(pats_spec(st, ps, n).2) =~= Set::<usize>::empty());
    } else {
        lemma_pats_binding_names(st, ps, (n - 1) as nat);
        let (st1, tys, bs) = pats_spec(st, ps, (n - 1) as nat);
        lemma_pat_binding_names(st1, ps[n - 1]);
        let r = pat_spec(st1, ps[n - 1]);
        lemma_binding_names_same(map_schemes(Map::empty(), r.bindings), r.bindings);
        lemma_binding_names_add(bs, map_schemes(Map::empty(), r.bindings));
    }
}

} // verus!

verus! {

/// How many fresh variables inferring a pattern takes: one for each
/// wildcard, name, application and constructor.
pub open spec fn fresh_count(p: Pat) -> nat
    decreases p, 0nat,
{
    match *p.kind {
        PatKind::Wildcard | PatKind::Var(_) => 1,
        PatKind::Lit(_) => 0,
        PatKind::Or(a, b) => fresh_count(a) + fresh_count(b),
        PatKind::Tuple(ps) => fresh_counts(ps@, ps@.len()),
        PatKind::App { func, arg } => fresh_count(func) + fresh_count(arg) + 1,
        PatKind::Constructor { arg, .. } => match arg {
            Some(a) => fresh_count(a) + 1,
            None => 1,
        },
    }
}

/// How many fresh variables inferring the first `n` patterns takes.
pub open spec fn fresh_counts(ps: Seq<Pat>, n: nat) -> nat
    decreases ps, n,
{
    if n == 0 || n > ps.len() {
        0
    } else {
        fresh_counts(ps, (n - 1) as nat) + fresh_count(ps[n - 1])
    }
}

/// Advancing the counter twice advances it by the sum.
proof fn lemma_wrap_add(c: int, a: nat, b: nat)
    requires
        0 <= c,
    ensures
        wrap(wrap(c + a) + b) == wrap(c + a + b),
{
    let m: int = 0x1_0000_0000_0000_0000;
    vstd::arithmetic::div_mod::lemma_add_mod_noop(c + a, b as int, m);
    vstd::arithmetic::div_mod::lemma_add_mod_noop((c + a) % m, b as int, m);
    vstd::arithmetic::div_mod::lemma_mod_twice(c + a, m);
    assert(0 <= (c + a) % m < m) by {
        vstd::arithmetic::div_mod::lemma_mod_bound(c + a, m);
    }
}

/// Inferring a pattern advances the counter by `fresh_count`, one for each
/// fresh variable it takes.
pub proof fn lemma_pat_counter(st: InferenceState, p: Pat)
    ensures
        pat_spec(st, p).st.counter == wrap(st.counter + fresh_count(p)),
    decreases p, 0nat,
{
    match *p.kind {
        PatKind::Lit(_) => {
            assert(wrap(st.counter + 0) == st.counter) by {
                vstd::arithmetic::div_mod::lemma_small_mod(st.counter as nat, 0x1_0000_0000_0000_0000);
            }
        },
        PatKind::Or(a, b) => {
            lemma_pat_counter(st, a);
            let ra = pat_spec(st, a);
            lemma_pat_counter(ra.st, b);
            lemma_wrap_add(st.counter as int, fresh_count(a), fresh_count(b));
        },
        PatKind::Tuple(ps) => {
            lemma_pats_counter(st, ps@, ps@.len());
        },
        PatKind::App { func, arg } => {
            lemma_pat_counter(st, func);
            let rf = pat_spec(st, func);
            lemma_pat_counter(rf.st, arg);
            let ra = pat_spec(rf.st, arg);
            lemma_wrap_add(st.counter as int, fresh_count(func), fresh_count(arg));
            lemma_wrap_add(st.counter as int, fresh_count(func) + fresh_count(arg), 1);
        },
        PatKind::Constructor { name, arg } => {
            match arg {
                Some(a) => {
                    lemma_pat_counter(st, a);
                    lemma_wrap_add(st.counter as int, fresh_count(a), 1);
                },
                None => {},
            }
        },
        _ => {},
    }
}

/// Inferring the first `n` patterns advances the counter by `fresh_counts`.
pub proof fn lemma_pats_counter(st: InferenceState, ps: Seq<Pat>, n: nat)
    ensures
        pats_spec(st, ps, n).0.counter == wrap(st.counter + fresh_counts(ps, n)),
    decreases ps, n,
{
    if n == 0 || n > ps.len() {
        assert(wrap(st.counter + 0) == st.counter) by {
            vstd::arithmetic::div_mod::lemma_small_mod(st.counter as nat, 0x1_0000_0000_0000_0000);
        }
    } else {
        lemma_pats_counter(st, ps, (n - 1) as nat);
        let (st1, tys, bs) = pats_spec(st, ps, (n - 1) as nat);
        lemma_pat_counter(st1, ps[n - 1]);
        lemma_wrap_add(st.counter as int, fresh_counts(ps, (n - 1) as nat), fresh_count(ps[n - 1]));
    }
}

} // verus!
