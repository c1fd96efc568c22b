//! The inference engine at work: each rule of Algorithm W as it runs,
//! proved to give what `infer_spec` says, with the derivation it builds.
use vstd::prelude::*;
use crate::algorithm_w::{bind_all_spec, let_values_spec, rec_alphas_spec, rec_values_spec, arms_spec, bind_spec, binds_spec, extend_env, infer_spec, map_bindings, map_schemes, pat_spec, pats_spec, tuple_spec, InferOut};
use crate::ast::{BinOp, BindPat, BindPatKind, Binding, Expr, ExprKind, Ident, Literal, Pat, PatKind, UnaryOp};
use crate::hir::{SType, Type, TypeVar};
use crate::interner::resolve;
use crate::scheme::{apply_env_spec, clone_env, env_view, Env, SScheme, Scheme};
use crate::scope::{lemma_arms_names_below, lemma_bindings_names_below, lemma_items_names_below, lemma_pats_names_below, names_below, pat_names_below};
use crate::text::i64_text;
use crate::judgement::{binding_idents, pat_idents, pats_idents, concludes_type, infer_step, tuple_tree_ok, let_tree_ok, match_tree_ok, pat_tree_ok, infer_tree_ok, env_written, var_tree_ok, bind_count, let_off, bind_off, arm_off};
use crate::derivation::{all_names_below, lemma_children_names_all, push_tree, tree_names_below};
use crate::interner::interned;
use crate::scheme::{generalize_spec, rename_scheme, rename_scheme_spec};
use crate::typecheck::{
    wrap, errors_view, apply, compose, InferenceError, InferenceState, InferenceTree, Input, Output, RuleName, Subst,
    TypeInference,
};

verus! {

/// The bindings of a pattern, by name.
pub open spec fn bindings_view(bs: Seq<(Ident, Scheme)>) -> Seq<(usize, SScheme)> {
    Seq::new(bs.len(), |i: int| (bs[i].0.name, bs[i].1@))
}

/// The types of a sequence of variables.
pub open spec fn alphas_view(vs: Seq<TypeVar>) -> Seq<SType> {
    vs.map_values(|v: TypeVar| SType::Var(v.0))
}

/// The value of an optional type.
pub open spec fn opt_type_view(o: Option<Type>) -> Option<SType> {
    match o {
        Some(t) => Some(t@),
        None => None,
    }
}

/// Adding a binding adds its view.
pub proof fn lemma_bindings_view_push(bs: Seq<(Ident, Scheme)>, x: (Ident, Scheme))
    ensures
        bindings_view(bs.push(x)) == bindings_view(bs).push((x.0.name, x.1@)),
{
    assert(bindings_view(bs.push(x)) =~= bindings_view(bs).push((x.0.name, x.1@)));
}

/// The rule at the root of the derivation of `e` in `env`.
pub open spec fn infer_rule(env: Map<usize, SScheme>, e: Expr) -> RuleName
    decreases e,
{
    match *e.kind {
        ExprKind::Literal(Literal::Int(_)) => RuleName::TInt,
        ExprKind::Literal(Literal::Float(_)) => RuleName::TFloat,
        ExprKind::Literal(Literal::Bool(_)) => RuleName::TBool,
        ExprKind::Var(id) => if env.contains_key(id.name) { RuleName::TVar } else { RuleName::TError },
        ExprKind::If { .. } => RuleName::TIf,
        ExprKind::BinOp { .. } => RuleName::TBinOp,
        ExprKind::UnaryOp { .. } => RuleName::TUnaryOp,
        ExprKind::Let { .. } => RuleName::TLet,
        ExprKind::Match { .. } => RuleName::TMatch,
        ExprKind::Abs { .. } => RuleName::TAbs,
        ExprKind::App { .. } => RuleName::TApp,
        ExprKind::Tuple(_) => RuleName::TTuple,
        ExprKind::Type { body, .. } => infer_rule(env, body),
        ExprKind::Constructor { name, arg } => match arg {
            Some(_) => RuleName::TApp,
            None => if env.contains_key(name.name) { RuleName::TVar } else { RuleName::TError },
        },
    }
}

/// The rule at the root of the derivation of a pattern.
pub open spec fn pat_rule(p: Pat) -> RuleName {
    match *p.kind {
        PatKind::Var(_) => RuleName::TPatVar,
        PatKind::Lit(_) => RuleName::TPatLit,
        PatKind::Or(..) => RuleName::TPatOr,
        PatKind::Tuple(_) => RuleName::TPatTuple,
        _ => RuleName::TPatWild,
    }
}

/// Whether a derivation concludes with type `ty`.
pub open spec fn concludes(t: InferenceTree, ty: SType) -> bool {
    t.output matches Output::Type(x) && x@ == ty
}

/// The text of a literal in a pattern.
fn lit_text(lit: &Literal) -> (s: String)
    ensures
        s@ == crate::printer::lit_text(*lit),
{
    match lit {
        Literal::Int(n) => i64_text(*n),
        Literal::Float(f) => f.text.clone(),
        Literal::Bool(b) => if *b { String::from_str("true") } else { String::from_str("false") },
    }
}

/// A tree of one inference step.
fn infer_tree<'a>(rule: RuleName, env: String, expr: &'a Expr, ty: &Type, children: Vec<InferenceTree<'a>>) -> (t: InferenceTree<'a>)
    ensures
        t.rule == rule,
        concludes(t, ty@),
        t.input == (Input::Infer { env, expr }),
        t.children == children,
        forall|n: nat| names_below(*expr, n) && all_names_below(children@, n) ==> #[trigger] tree_names_below(t, n),
{
    let ghost cs = children@;
    let t = InferenceTree::new(rule, Input::Infer { env, expr }, Output::Type(ty.clone()), children);
    proof {
        assert forall|n: nat| names_below(*expr, n) && all_names_below(cs, n) implies #[trigger] tree_names_below(t, n) by {
            lemma_children_names_all(cs, n);
        }
    }
    t
}


/// A tuple step whose premises are those of its items.
#[verifier::spinoff_prover]
proof fn lemma_tuple_tree_ok(t: InferenceTree, st: InferenceState, env: Map<usize, SScheme>, e: Expr, names: Seq<Seq<char>>, items: Vec<Expr>)
    requires
        *e.kind == ExprKind::Tuple(items),
        infer_step(t, RuleName::TTuple, env, e, names),
        concludes_type(t, infer_spec(st, env, e, names).ty),
        tuple_tree_ok(t, st, env, e, names),
    ensures
        infer_tree_ok(t, st, env, e, names),
{
    reveal(infer_tree_ok);
    assert(*e.kind is Tuple);
}

/// A `let` step whose premises are as `let_tree_ok` says.
#[verifier::spinoff_prover]
proof fn lemma_let_premises(t: InferenceTree, st: InferenceState, env: Map<usize, SScheme>, e: Expr, names: Seq<Seq<char>>, bindings: Vec<Binding>, body: Expr)
    requires
        *e.kind == (ExprKind::Let { bindings, body }),
        bindings@.len() > 0 && bindings@[0].rec ==> {
            let bs = bindings@;
            let n = bs.len();
            let rp = crate::judgement::rec_parts(st, env, e, names);
            let (st3, new_env) = bind_all_spec(rp.3, apply_env_spec(rp.4, env), bs, rp.5, n);
            &&& t.children@.len() == 2 * n + bind_off(bs, n) + 1
            &&& forall|j: int| #![trigger bindings@[j]] 0 <= j < n ==> crate::judgement::rec_value_ok(t.children@, st, env, e, names, j)
            &&& infer_tree_ok(t.children@[(2 * n + bind_off(bs, n)) as int], st3, new_env, body, names)
        },
        !(bindings@.len() > 0 && bindings@[0].rec) ==> {
            let bs = bindings@;
            let n = bs.len();
            let (st1, env1) = let_values_spec(st, env, bs, names, n);
            &&& t.children@.len() == let_off(bs, n) + 1
            &&& forall|j: int| #![trigger bindings@[j]] 0 <= j < n ==> crate::judgement::let_value_ok(t.children@, st, env, e, names, j)
            &&& infer_tree_ok(t.children@[let_off(bs, n) as int], st1, env1, body, names)
        },
    ensures
        let_tree_ok(t, st, env, e, names),
{
    if bindings@.len() > 0 && bindings@[0].rec {
        lemma_let_premises_rec(t, st, env, e, names, bindings, body);
    } else {
        lemma_let_premises_plain(t, st, env, e, names, bindings, body);
    }
}

#[verifier::spinoff_prover]
proof fn lemma_let_premises_rec(t: InferenceTree, st: InferenceState, env: Map<usize, SScheme>, e: Expr, names: Seq<Seq<char>>, bindings: Vec<Binding>, body: Expr)
    requires
        *e.kind == (ExprKind::Let { bindings, body }),
        bindings@.len() > 0 && bindings@[0].rec,
        ({
            let bs = bindings@;
            let n = bs.len();
            let rp = crate::judgement::rec_parts(st, env, e, names);
            let (st3, new_env) = bind_all_spec(rp.3, apply_env_spec(rp.4, env), bs, rp.5, n);
            &&& t.children@.len() == 2 * n + bind_off(bs, n) + 1
            &&& forall|j: int| #![trigger bindings@[j]] 0 <= j < n ==> crate::judgement::rec_value_ok(t.children@, st, env, e, names, j)
            &&& infer_tree_ok(t.children@[(2 * n + bind_off(bs, n)) as int], st3, new_env, body, names)
        }),
    ensures
        let_tree_ok(t, st, env, e, names),
{
    reveal(let_tree_ok);
}

#[verifier::spinoff_prover]
proof fn lemma_let_premises_plain(t: InferenceTree, st: InferenceState, env: Map<usize, SScheme>, e: Expr, names: Seq<Seq<char>>, bindings: Vec<Binding>, body: Expr)
    requires
        *e.kind == (ExprKind::Let { bindings, body }),
        !(bindings@.len() > 0 && bindings@[0].rec),
        ({
            let bs = bindings@;
            let n = bs.len();
            let (st1, env1) = let_values_spec(st, env, bs, names, n);
            &&& t.children@.len() == let_off(bs, n) + 1
            &&& forall|j: int| #![trigger bindings@[j]] 0 <= j < n ==> crate::judgement::let_value_ok(t.children@, st, env, e, names, j)
            &&& infer_tree_ok(t.children@[let_off(bs, n) as int], st1, env1, body, names)
        }),
    ensures
        let_tree_ok(t, st, env, e, names),
{
    reveal(let_tree_ok);

}

/// A `let` step whose premises are as `let_tree_ok` says.
#[verifier::spinoff_prover]
proof fn lemma_let_tree_ok(t: InferenceTree, st: InferenceState, env: Map<usize, SScheme>, e: Expr, names: Seq<Seq<char>>, bindings: Vec<Binding>, body: Expr)
    requires
        *e.kind == (ExprKind::Let { bindings, body }),
        infer_step(t, RuleName::TLet, env, e, names),
        concludes_type(t, infer_spec(st, env, e, names).ty),
        let_tree_ok(t, st, env, e, names),
    ensures
        infer_tree_ok(t, st, env, e, names),
{
    reveal(infer_tree_ok);
}

/// A `match` step whose premises are as `match_tree_ok` says.
#[verifier::spinoff_prover]
proof fn lemma_match_tree_ok(t: InferenceTree, st: InferenceState, env: Map<usize, SScheme>, e: Expr, names: Seq<Seq<char>>, scrutinee: Expr, arms: Vec<(Pat, Expr)>)
    requires
        *e.kind == (ExprKind::Match { scrutinee, arms }),
        infer_step(t, RuleName::TMatch, env, e, names),
        concludes_type(t, infer_spec(st, env, e, names).ty),
        match_tree_ok(t, st, env, e, names),
    ensures
        infer_tree_ok(t, st, env, e, names),
{
    reveal(infer_tree_ok);
}


/// No unifications for no patterns.
proof fn lemma_bind_counts_zero(ps: Seq<BindPat>)
    ensures
        crate::judgement::bind_counts(ps, 0) == 0,
{
}

/// Binding more patterns records no fewer unifications.
proof fn lemma_bind_counts_mono(ps: Seq<BindPat>, a: nat, b: nat)
    requires
        a <= b <= ps.len(),
    ensures
        crate::judgement::bind_counts(ps, a) <= crate::judgement::bind_counts(ps, b),
        b == a + 1 ==> crate::judgement::bind_counts(ps, b) == crate::judgement::bind_counts(ps, a) + bind_count(ps[a as int]),
    decreases b,
{
    if a < b {
        lemma_bind_counts_mono(ps, a, (b - 1) as nat);
    }
}


/// Where a later binding's steps begin is after an earlier binding's
/// value step.
proof fn lemma_let_off_lt(bs: Seq<Binding>, j: nat, i: nat)
    requires
        j < i <= bs.len(),
    ensures
        let_off(bs, j) < let_off(bs, i),
    decreases i,
{
    if j + 1 < i {
        lemma_let_off_lt(bs, j, (i - 1) as nat);
    }
}

/// The steps of the binding after `i` begin after its value and pattern steps.
proof fn lemma_let_off_mono(bs: Seq<Binding>, i: nat)
    requires
        i < bs.len(),
    ensures
        let_off(bs, i + 1) == let_off(bs, i) + 1 + bind_count(bs[i as int].pat),
{
}

/// The premises of a `match` step, as `match_tree_ok` states them.
#[verifier::spinoff_prover]
proof fn lemma_match_premises(t: InferenceTree, st: InferenceState, env: Map<usize, SScheme>, e: Expr, names: Seq<Seq<char>>, scrutinee: Expr, arms: Vec<(Pat, Expr)>)
    requires
        *e.kind == (ExprKind::Match { scrutinee, arms }),
        t.children@.len() == arm_off(arms@.len()),
        infer_tree_ok(t.children@[0], st, env, scrutinee, names),
        forall|j: int| #![trigger arms@[j]] 0 <= j < arms@.len() ==> crate::judgement::arm_ok(t.children@, st, env, e, names, j),
    ensures
        match_tree_ok(t, st, env, e, names),
{
    reveal(match_tree_ok);
    reveal(crate::judgement::arm_ok);
}

/// Adding a binding adds its identifier.
proof fn lemma_binding_idents_push(bs: Seq<(Ident, Scheme)>, x: (Ident, Scheme))
    ensures
        binding_idents(bs.push(x)) == binding_idents(bs).push(x.0),
{
    assert(binding_idents(bs.push(x)) =~= binding_idents(bs).push(x.0));
}

/// How `pretty_env` writes an environment, read as `env_written`.
proof fn lemma_env_written(s: Seq<char>, env: Map<usize, Scheme>, e: Expr, names: Seq<Seq<char>>)
    requires
        exists|q: Seq<usize>| {
            &&& crate::pretty::keys_sorted(names, q)
            &&& q.to_set() == env.dom().intersect(crate::scope::free_vars_spec(e))
            &&& s == crate::pretty::env_text(env_view(env), names, q)
        },
    ensures
        env_written(s, env_view(env), e, names),
{
    assert(env_view(env).dom() =~= env.dom());
    let q = choose|q: Seq<usize>| {
        &&& crate::pretty::keys_sorted(names, q)
        &&& q.to_set() == env.dom().intersect(crate::scope::free_vars_spec(e))
        &&& s == crate::pretty::env_text(env_view(env), names, q)
    };
    assert(crate::pretty::keys_sorted(names, q) && q.to_set() == env_view(env).dom().intersect(crate::scope::free_vars_spec(e))
        && s == crate::pretty::env_text(env_view(env), names, q));
}

impl<'r> TypeInference<'r> {
    /// Infers the type of `expr` in `env`: the substitution found, the type
    /// and the derivation (see `infer_spec`).
    pub fn infer<'a>(&mut self, env: &Env, expr: &'a Expr) -> (res: (Subst, Type, InferenceTree<'a>))
        requires
            names_below(*expr, old(self).names().len()),
        ensures
            final(self)@ == infer_spec(old(self)@, env_view(env@), *expr, old(self).names()).st,
            res.0@ == infer_spec(old(self)@, env_view(env@), *expr, old(self).names()).subst,
            res.1@ == infer_spec(old(self)@, env_view(env@), *expr, old(self).names()).ty,
            final(self).names() == old(self).names(),
            res.2.rule == infer_rule(env_view(env@), *expr),
            res.2.rule != RuleName::TError ==> concludes(res.2, res.1@),
            tree_names_below(res.2, old(self).names().len()),
            infer_tree_ok(res.2, old(self)@, env_view(env@), *expr, old(self).names()),
        decreases *expr, 1nat,
    {
        proof { reveal(infer_tree_ok); }
        match &*expr.kind {
            ExprKind::Literal(literal) => self.infer_lit(env, expr, literal),
            ExprKind::Var(ident) => self.infer_var(env, expr, *ident),
            ExprKind::If { cond, then_expr, else_expr } => self.infer_if(env, expr, cond, then_expr, else_expr),
            ExprKind::BinOp { op, lhs, rhs } => self.infer_binop(env, expr, *op, lhs, rhs),
            ExprKind::UnaryOp { op, rhs } => self.infer_unaryop(env, expr, *op, rhs),
            ExprKind::Let { bindings, body } => self.infer_let(env, expr, bindings, body),
            ExprKind::Match { scrutinee, arms } => self.infer_match(env, expr, scrutinee, arms),
            ExprKind::Abs { param, body } => self.infer_abs(env, expr, param, body),
            ExprKind::App { func, arg } => self.infer_app(env, expr, func, arg),
            ExprKind::Tuple(items) => self.infer_tuple(env, expr, items),
            ExprKind::Type { definitions, body } => self.infer(env, body),
            ExprKind::Constructor { name, arg } => match arg {
                None => self.infer_var(env, expr, *name),
                Some(a) => self.infer_constructor_app(env, expr, *name, a),
            },
        }
    }

    fn infer_lit<'a>(&mut self, env: &Env, expr: &'a Expr, literal: &Literal) -> (res: (Subst, Type, InferenceTree<'a>))
        requires
            names_below(*expr, old(self).names().len()),
            *expr.kind == ExprKind::Literal(*literal),
        ensures
            final(self)@ == infer_spec(old(self)@, env_view(env@), *expr, old(self).names()).st,
            res.0@ == infer_spec(old(self)@, env_view(env@), *expr, old(self).names()).subst,
            res.1@ == infer_spec(old(self)@, env_view(env@), *expr, old(self).names()).ty,
            final(self).names() == old(self).names(),
            res.2.rule == infer_rule(env_view(env@), *expr),
            concludes(res.2, res.1@),
            tree_names_below(res.2, old(self).names().len()),
            infer_tree_ok(res.2, old(self)@, env_view(env@), *expr, old(self).names()),
    {
        proof { reveal(infer_tree_ok); }
        let env_str = self.pretty_env(env, expr);
        proof { lemma_env_written(env_str@, env@, *expr, self.names()); }
        let (rule, ty) = match literal {
            Literal::Int(_) => (RuleName::TInt, Type::Int),
            Literal::Float(_) => (RuleName::TFloat, Type::Float),
            Literal::Bool(_) => (RuleName::TBool, Type::Bool),
        };
        let tree = infer_tree(rule, env_str, expr, &ty, Vec::new());
        (Subst::empty(), ty, tree)
    }

    fn infer_var<'a>(&mut self, env: &Env, expr: &'a Expr, name: Ident) -> (res: (Subst, Type, InferenceTree<'a>))
        requires
            names_below(*expr, old(self).names().len()),
            name.name < old(self).names().len(),
        ensures
            final(self)@ == crate::algorithm_w::var_spec(old(self)@, env_view(env@), name, expr.span, old(self).names()).st,
            res.0@ == crate::algorithm_w::var_spec(old(self)@, env_view(env@), name, expr.span, old(self).names()).subst,
            res.1@ == crate::algorithm_w::var_spec(old(self)@, env_view(env@), name, expr.span, old(self).names()).ty,
            final(self).names() == old(self).names(),
            res.2.rule == (if env@.contains_key(name.name) { RuleName::TVar } else { RuleName::TError }),
            res.2.rule != RuleName::TError ==> concludes(res.2, res.1@),
            tree_names_below(res.2, old(self).names().len()),
            var_tree_ok(res.2, old(self)@, env_view(env@), name, *expr, old(self).names()),
    {
        let env_str = self.pretty_env(env, expr);
        proof { lemma_env_written(env_str@, env@, *expr, self.names()); }
        match env.get(&name.name) {
            Some(scheme) => {
                let instantiated = self.instantiate(scheme);
                let tree = infer_tree(RuleName::TVar, env_str, expr, &instantiated, Vec::new());
                (Subst::empty(), instantiated, tree)
            },
            None => {
                proof {
                    self.lemma_names();
                }
                let text = resolve(self.rodeo, name.name);
                let err = InferenceError::UnboundVariable { span: expr.span, name: String::from_str(text) };
                self.emit_error(err);
                let tree = InferenceTree::new(
                    RuleName::TError,
                    Input::Infer { env: env_str, expr },
                    Output::Str(String::from_str("unbound variable")),
                    Vec::new(),
                );
                (Subst::empty(), Type::Error, tree)
            },
        }
    }

    fn pat_tree<'a>(rule: RuleName, text: String, ty: &Type, children: Vec<InferenceTree<'a>>) -> (t: InferenceTree<'a>)
        ensures
            t.rule == rule,
            t.input is Pat,
            t.input == Input::Pat(text),
            t.children == children,
            concludes(t, ty@),
            forall|n: nat| all_names_below(children@, n) ==> #[trigger] tree_names_below(t, n),
    {
        let ghost cs = children@;
        let t = InferenceTree::new(rule, Input::Pat(text), Output::Type(ty.clone()), children);
        proof {
            assert forall|n: nat| all_names_below(cs, n) implies #[trigger] tree_names_below(t, n) by {
                lemma_children_names_all(cs, n);
            }
        }
        t
    }

    /// Infers the type of a pattern: the type, the schemes it binds and the derivation.
    pub fn infer_pat<'a>(&mut self, pat: &'a Pat) -> (res: (Type, Vec<(Ident, Scheme)>, InferenceTree<'a>))
        requires
            pat_names_below(*pat, old(self).names().len()),
        ensures
            final(self)@ == pat_spec(old(self)@, *pat).st,
            res.0@ == pat_spec(old(self)@, *pat).ty,
            bindings_view(res.1@) == pat_spec(old(self)@, *pat).bindings,
            final(self).names() == old(self).names(),
            res.2.rule == pat_rule(*pat),
            res.2.input is Pat,
            concludes(res.2, res.0@),
            tree_names_below(res.2, old(self).names().len()),
            pat_tree_ok(res.2, old(self)@, *pat, old(self).names()),
            crate::judgement::binds_idents_of(res.1@, *pat),
        decreases *pat,
    {
        proof { reveal(crate::judgement::binds_idents_of); }
        let ghost st = self@;
        proof {
            self.lemma_names();
        }
        match &*pat.kind {
            PatKind::Wildcard => {
                let ty = Type::Var(self.fresh_tyvar());
                let tree = Self::pat_tree(RuleName::TPatWild, String::from_str("_"), &ty, Vec::new());
                let none: Vec<(Ident, Scheme)> = Vec::new();
                assert(bindings_view(none@) =~= Seq::<(usize, SScheme)>::empty());
                assert(binding_idents(none@) =~= pat_idents(*pat));
                (ty, none, tree)
            },
            PatKind::Var(ident) => {
                let ty = Type::Var(self.fresh_tyvar());
                let scheme = Scheme { type_vars: Vec::new(), ty: ty.clone() };
                proof {
                    self.lemma_names();
                }
                let name = String::from_str(resolve(self.rodeo, ident.name));
                let tree = Self::pat_tree(RuleName::TPatVar, name, &ty, Vec::new());
                let mut bindings: Vec<(Ident, Scheme)> = Vec::new();
                bindings.push((*ident, scheme));
                assert(scheme@.type_vars =~= Seq::<u64>::empty());
                assert(bindings_view(bindings@) =~= pat_spec(st, *pat).bindings);
                assert(binding_idents(bindings@) =~= pat_idents(*pat));
                (ty, bindings, tree)
            },
            PatKind::Lit(lit) => {
                let ty = match lit {
                    Literal::Int(_) => Type::Int,
                    Literal::Float(_) => Type::Float,
                    Literal::Bool(_) => Type::Bool,
                };
                let tree = Self::pat_tree(RuleName::TPatLit, lit_text(lit), &ty, Vec::new());
                let none: Vec<(Ident, Scheme)> = Vec::new();
                assert(bindings_view(none@) =~= Seq::<(usize, SScheme)>::empty());
                assert(binding_idents(none@) =~= pat_idents(*pat));
                (ty, none, tree)
            },
            PatKind::Or(a, b) => {
                let (ty_a, mut bindings, tree_a) = self.infer_pat(a);
                let (ty_b, bindings_b, tree_b) = self.infer_pat(b);
                let (s, unify_tree) = self.unify(&ty_a, &ty_b, pat.span);
                let unified = Self::apply_type(&s, &ty_a);
                let ghost ba = bindings@;
                let mut i: usize = 0;
                while i < bindings_b.len()
                    invariant
                        i <= bindings_b.len(),
                        bindings_view(bindings@) == bindings_view(ba) + map_bindings(s@, bindings_view(bindings_b@)).take(i as int),
                        binding_idents(bindings@) == binding_idents(ba) + binding_idents(bindings_b@).take(i as int),
                    decreases bindings_b.len() - i,
                {
                    let (id, scheme) = &bindings_b[i];
                    let tvs = scheme.clone().type_vars;
                    let ty = Self::apply_type(&s, &scheme.ty);
                    let item = (*id, Scheme { type_vars: tvs, ty });
                    let ghost prev = bindings@;
                    proof {
                        lemma_bindings_view_push(prev, item);
                        let m = map_bindings(s@, bindings_view(bindings_b@));
                        assert(m.take(i + 1) =~= m.take(i as int).push(m[i as int]));
                        assert(m[i as int] == (item.0.name, item.1@));
                    }
                    let ghost prevb = bindings@;
                    let ghost itb = item;
                    bindings.push(item);
                    proof { lemma_binding_idents_push(prevb, itb); }
                    i = i + 1;
                    assert(bindings_view(bindings@) =~= bindings_view(ba) + map_bindings(s@, bindings_view(bindings_b@)).take(i as int));
                    proof {
                        let k = (i - 1) as int;
                        assert(binding_idents(bindings_b@).take(k + 1) =~= binding_idents(bindings_b@).take(k).push(bindings_b@[k].0));
                    }
                    assert(binding_idents(bindings@) =~= binding_idents(ba) + binding_idents(bindings_b@).take(i as int));
                }
                assert(map_bindings(s@, bindings_view(bindings_b@)).take(i as int) =~= map_bindings(s@, bindings_view(bindings_b@)));
                assert(binding_idents(bindings_b@).take(i as int) =~= binding_idents(bindings_b@));
                let a_display = match &tree_a.input {
                    Input::Pat(t) => t.clone(),
                    _ => String::new(),
                };
                let b_display = match &tree_b.input {
                    Input::Pat(t) => t.clone(),
                    _ => String::new(),
                };
                let mut combined = a_display;
                combined.append(" | ");
                combined.append(b_display.as_str());
                let ghost (ta, tb, tu) = (tree_a, tree_b, unify_tree);
                let mut children: Vec<InferenceTree<'a>> = Vec::new();
                push_tree(&mut children, tree_a);
                push_tree(&mut children, tree_b);
                push_tree(&mut children, unify_tree);
                assert(children@[0] == ta && children@[1] == tb && children@[2] == tu);
                let tree = Self::pat_tree(RuleName::TPatOr, combined, &unified, children);
                (unified, bindings, tree)
            },
            PatKind::Tuple(pats) => {
                let subst = Subst::empty();
                let mut types: Vec<Type> = Vec::new();
                let mut all_bindings: Vec<(Ident, Scheme)> = Vec::new();
                let mut children: Vec<InferenceTree<'a>> = Vec::new();
                let mut i: usize = 0;
                while i < pats.len()
                    invariant
                        all_names_below(children@, old(self).names().len()),
                        i <= pats.len(),
                        pat_names_below(*pat, self.names().len()),
                        *pat.kind == PatKind::Tuple(*pats),
                        self.names() == old(self).names(),
                        subst@ == Map::<u64, SType>::empty(),
                        self@ == pats_spec(st, pats@, i as nat).0,
                        crate::hir::types_view(types@) == pats_spec(st, pats@, i as nat).1,
                        bindings_view(all_bindings@) == pats_spec(st, pats@, i as nat).2,
                        binding_idents(all_bindings@) == pats_idents(pats@, i as nat),
                        children@.len() == i,
                        forall|j: int| 0 <= j < i ==> pat_tree_ok(#[trigger] children@[j], pats_spec(st, pats@, j as nat).0, pats@[j], self.names()),
                    decreases pats.len() - i,
                {
                    proof {
                        lemma_pats_names_below(pats@, self.names().len(), pats@.len(), i as int);
                        reveal(crate::judgement::binds_idents_of);
                    }
                    let (ty, bindings, tree) = self.infer_pat(&pats[i]);
                    types.push(Self::apply_type(&subst, &ty));
                    let ghost before = all_bindings@;
                    let mut j: usize = 0;
                    while j < bindings.len()
                        invariant
                            j <= bindings.len(),
                            subst@ == Map::<u64, SType>::empty(),
                            bindings_view(all_bindings@) == bindings_view(before) + map_schemes(subst@, bindings_view(bindings@)).take(j as int),
                            binding_idents(all_bindings@) == binding_idents(before) + binding_idents(bindings@).take(j as int),
                        decreases bindings.len() - j,
                    {
                        let (id, scheme) = &bindings[j];
                        let item = (*id, Self::apply_scheme(&subst, scheme));
                        proof {
                            lemma_bindings_view_push(all_bindings@, item);
                            let m = map_schemes(subst@, bindings_view(bindings@));
                            assert(m.take(j + 1) =~= m.take(j as int).push(m[j as int]));
                            assert(m[j as int] == (item.0.name, item.1@));
                        }
                        let ghost prevb = all_bindings@;
                    let ghost itb = item;
                    all_bindings.push(item);
                    proof { lemma_binding_idents_push(prevb, itb); }
                        j = j + 1;
                        assert(bindings_view(all_bindings@) =~= bindings_view(before) + map_schemes(subst@, bindings_view(bindings@)).take(j as int));
                        proof {
                        let k = (j - 1) as int;
                        assert(binding_idents(bindings@).take(k + 1) =~= binding_idents(bindings@).take(k).push(bindings@[k].0));
                    }
                    assert(binding_idents(all_bindings@) =~= binding_idents(before) + binding_idents(bindings@).take(j as int));
                    }
                    assert(map_schemes(subst@, bindings_view(bindings@)).take(j as int) =~= map_schemes(subst@, bindings_view(bindings@)));
                    assert(binding_idents(bindings@).take(j as int) =~= binding_idents(bindings@));
                    push_tree(&mut children, tree);
                    i = i + 1;
                    assert(crate::hir::types_view(types@) =~= pats_spec(st, pats@, i as nat).1);
                }
                let tuple_ty = Type::Tuple(types);
                let tree = Self::pat_tree(RuleName::TPatTuple, String::from_str("(...)"), &tuple_ty, children);
                (tuple_ty, all_bindings, tree)
            },
            PatKind::App { func, arg } => {
                let (_ty_f, mut bindings, tree_f) = self.infer_pat(func);
                let (_ty_a, bindings_a, tree_a) = self.infer_pat(arg);
                let ty = Type::Var(self.fresh_tyvar());
                let ghost bf = bindings@;
                let mut i: usize = 0;
                while i < bindings_a.len()
                    invariant
                        i <= bindings_a.len(),
                        bindings_view(bindings@) == bindings_view(bf) + bindings_view(bindings_a@).take(i as int),
                        binding_idents(bindings@) == binding_idents(bf) + binding_idents(bindings_a@).take(i as int),
                    decreases bindings_a.len() - i,
                {
                    let (id, scheme) = &bindings_a[i];
                    let item = (*id, scheme.clone());
                    proof {
                        lemma_bindings_view_push(bindings@, item);
                        let m = bindings_view(bindings_a@);
                        assert(m.take(i + 1) =~= m.take(i as int).push(m[i as int]));
                    }
                    let ghost prevb = bindings@;
                    let ghost itb = item;
                    bindings.push(item);
                    proof { lemma_binding_idents_push(prevb, itb); }
                    i = i + 1;
                    assert(bindings_view(bindings@) =~= bindings_view(bf) + bindings_view(bindings_a@).take(i as int));
                    proof {
                        let k = (i - 1) as int;
                        assert(binding_idents(bindings_a@).take(k + 1) =~= binding_idents(bindings_a@).take(k).push(bindings_a@[k].0));
                    }
                    assert(binding_idents(bindings@) =~= binding_idents(bf) + binding_idents(bindings_a@).take(i as int));
                }
                assert(bindings_view(bindings_a@).take(i as int) =~= bindings_view(bindings_a@));
                assert(binding_idents(bindings_a@).take(i as int) =~= binding_idents(bindings_a@));
                let f_display = match &tree_f.input {
                    Input::Pat(t) => t.clone(),
                    _ => String::new(),
                };
                let a_display = match &tree_a.input {
                    Input::Pat(t) => t.clone(),
                    _ => String::new(),
                };
                let mut text = f_display;
                text.append(" ");
                text.append(a_display.as_str());
                let ghost (tf, ta) = (tree_f, tree_a);
                let mut children: Vec<InferenceTree<'a>> = Vec::new();
                push_tree(&mut children, tree_f);
                push_tree(&mut children, tree_a);
                assert(children@[0] == tf && children@[1] == ta);
                let tree = Self::pat_tree(RuleName::TPatWild, text, &ty, children);
                (ty, bindings, tree)
            },
            PatKind::Constructor { name, arg } => {
                let text = String::from_str(resolve(self.rodeo, name.name));
                match arg {
                    Some(a) => {
                        let (_ty_a, bindings, tree_a) = self.infer_pat(a);
                        let ty = Type::Var(self.fresh_tyvar());
                        let ghost ta = tree_a;
                        let mut children: Vec<InferenceTree<'a>> = Vec::new();
                        push_tree(&mut children, tree_a);
                        assert(children@[0] == ta);
                        let tree = Self::pat_tree(RuleName::TPatWild, text, &ty, children);
                        (ty, bindings, tree)
                    },
                    None => {
                        let ty = Type::Var(self.fresh_tyvar());
                        let tree = Self::pat_tree(RuleName::TPatWild, text, &ty, Vec::new());
                        let none: Vec<(Ident, Scheme)> = Vec::new();
                        assert(bindings_view(none@) =~= Seq::<(usize, SScheme)>::empty());
                        assert(binding_idents(none@) =~= pat_idents(*pat));
                assert(binding_idents(none@) =~= pat_idents(*pat));
                        (ty, none, tree)
                    },
                }
            },
        }
    }

    #[verifier::spinoff_prover]
    fn infer_tuple<'a>(&mut self, env: &Env, expr: &'a Expr, items: &'a Vec<Expr>) -> (res: (Subst, Type, InferenceTree<'a>))
        requires
            names_below(*expr, old(self).names().len()),
            *expr.kind == ExprKind::Tuple(*items),
        ensures
            final(self)@ == infer_spec(old(self)@, env_view(env@), *expr, old(self).names()).st,
            res.0@ == infer_spec(old(self)@, env_view(env@), *expr, old(self).names()).subst,
            res.1@ == infer_spec(old(self)@, env_view(env@), *expr, old(self).names()).ty,
            final(self).names() == old(self).names(),
            res.2.rule == RuleName::TTuple,
            concludes(res.2, res.1@),
            tree_names_below(res.2, old(self).names().len()),
            infer_tree_ok(res.2, old(self)@, env_view(env@), *expr, old(self).names()),
        decreases *expr, 0nat,
    {
        let ghost names = self.names();
        let ghost ev = env_view(env@);
        let ghost st = self@;
        let env_str = self.pretty_env(env, expr);
        proof { lemma_env_written(env_str@, env@, *expr, self.names()); }
        let mut subst = Subst::empty();
        let mut types: Vec<Type> = Vec::new();
        let mut children: Vec<InferenceTree<'a>> = Vec::new();
        let mut i: usize = 0;
        while i < items.len()
            invariant
                all_names_below(children@, names.len()),
                i <= items.len(),
                names_below(*expr, names.len()),
                *expr.kind == ExprKind::Tuple(*items),
                names == self.names(),
                names == old(self).names(),
                ev == env_view(env@),
                self@ == tuple_spec(st, ev, items@, names, i as nat).0,
                subst@ == tuple_spec(st, ev, items@, names, i as nat).1,
                crate::hir::types_view(types@) == tuple_spec(st, ev, items@, names, i as nat).2,
                children@.len() == i,
                forall|j: int| #![trigger items@[j]] 0 <= j < i ==>
                    infer_tree_ok(children@[j], tuple_spec(st, ev, items@, names, j as nat).0, ev, items@[j], names),
            decreases items.len() - i,
        {
            proof {
                lemma_items_names_below(items@, names.len(), items@.len(), i as int);
            }
            let (s, ty, tree) = self.infer(env, &items[i]);
            subst = s.compose(&subst);
            types.push(Self::apply_type(&subst, &ty));
            push_tree(&mut children, tree);
            i = i + 1;
            assert(crate::hir::types_view(types@) =~= tuple_spec(st, ev, items@, names, i as nat).2);
        }
        let tuple_ty = Type::Tuple(types);
        let tree = infer_tree(RuleName::TTuple, env_str, expr, &tuple_ty, children);
        proof {
            reveal(crate::judgement::tuple_tree_ok);
            assert(crate::judgement::tuple_tree_ok(tree, st, ev, *expr, names));
            lemma_tuple_tree_ok(tree, st, ev, *expr, names, *items);
        }
        (subst, tuple_ty, tree)
    }

    fn infer_abs<'a>(&mut self, env: &Env, expr: &'a Expr, param: &'a Pat, body: &'a Expr) -> (res: (Subst, Type, InferenceTree<'a>))
        requires
            names_below(*expr, old(self).names().len()),
            *expr.kind == (ExprKind::Abs { param: *param, body: *body }),
        ensures
            final(self)@ == infer_spec(old(self)@, env_view(env@), *expr, old(self).names()).st,
            res.0@ == infer_spec(old(self)@, env_view(env@), *expr, old(self).names()).subst,
            res.1@ == infer_spec(old(self)@, env_view(env@), *expr, old(self).names()).ty,
            final(self).names() == old(self).names(),
            res.2.rule == RuleName::TAbs,
            concludes(res.2, res.1@),
            tree_names_below(res.2, old(self).names().len()),
            infer_tree_ok(res.2, old(self)@, env_view(env@), *expr, old(self).names()),
        decreases *expr, 0nat,
    {
        proof { reveal(infer_tree_ok); }
        let ghost names = self.names();
        let ghost ev = env_view(env@);
        let ghost st = self@;
        let env_str = self.pretty_env(env, expr);
        proof { lemma_env_written(env_str@, env@, *expr, self.names()); }
        let (pat_ty, bindings, pat_tree) = self.infer_pat(param);
        let mut new_env = clone_env(env);
        let mut i: usize = 0;
        while i < bindings.len()
            invariant
                i <= bindings.len(),
                env_view(new_env@) == extend_env(ev, bindings_view(bindings@).take(i as int)),
            decreases bindings.len() - i,
        {
            let (name, scheme) = &bindings[i];
            new_env.insert(name.name, scheme.clone());
            proof {
                let t = bindings_view(bindings@).take(i + 1);
                assert(t.drop_last() =~= bindings_view(bindings@).take(i as int));
                assert(env_view(new_env@) =~= extend_env(ev, t));
            }
            i = i + 1;
        }
        assert(bindings_view(bindings@).take(i as int) =~= bindings_view(bindings@));
        let (s1, body_ty, body_tree) = self.infer(&new_env, body);
        let result_ty = Type::Arrow(Box::new(Self::apply_type(&s1, &pat_ty)), Box::new(body_ty));
        let ghost g_pat_tree = pat_tree;
        let ghost g_body_tree = body_tree;
        let mut children: Vec<InferenceTree<'a>> = Vec::new();
        push_tree(&mut children, pat_tree);
        push_tree(&mut children, body_tree);
        assert(children@[0] == g_pat_tree && children@[1] == g_body_tree);
        let tree = infer_tree(RuleName::TAbs, env_str, expr, &result_ty, children);
        (s1, result_ty, tree)
    }

    /// Binds a `let` pattern to a value's type in `env` (see `bind_spec`),
    /// adding the derivations of any unification to `children`.
    #[verifier::loop_isolation(false)]
    fn bind_pat<'a>(&mut self, env: &mut Env, pat: &BindPat, ty: &Type, children: &mut Vec<InferenceTree<'a>>)
        requires
            all_names_below(old(children)@, old(self).names().len()),
        ensures
            all_names_below(final(children)@, old(self).names().len()),
            final(self)@ == bind_spec(old(self)@, env_view(old(env)@), *pat, ty@).0,
            env_view(final(env)@) == bind_spec(old(self)@, env_view(old(env)@), *pat, ty@).1,
            final(self).names() == old(self).names(),
            final(children)@.len() == old(children)@.len() + bind_count(*pat),
            final(children)@.subrange(0, old(children)@.len() as int) == old(children)@,
        decreases *pat,
    {
        let ghost st = self@;
        let ghost ev = env_view(env@);
        let ghost c0 = children@;
        let ghost base = children@.len() as int;
        match &pat.kind {
            BindPatKind::Var(id) => {
                let scheme = self.generalize(env, ty);
                env.insert(id.name, scheme);
                assert(env_view(env@) =~= ev.insert(id.name, scheme@));
                assert(children@.subrange(0, base) =~= c0);
            },
            BindPatKind::Tuple(ps) => {
                let ghost k = ps@.len();
                let ghost vs = Seq::new(k, |i: int| SType::Var(wrap(st.counter + i)));
                let ghost st1 = InferenceState { counter: wrap(st.counter + k), errors: st.errors };
                let ghost (st2, su) = crate::algorithm_w::unify_st(st1, ty@, SType::Tuple(vs), pat.span);
                let mut vars: Vec<TypeVar> = Vec::new();
                let mut j: usize = 0;
                while j < ps.len()
                    invariant
                        j <= ps.len(),
                        k == ps@.len(),
                        self@.counter == wrap(st.counter + j),
                        self@.errors == st.errors,
                        self.names() == old(self).names(),
                        vars@.len() == j,
                        forall|x: int| 0 <= x < j ==> (#[trigger] vars@[x]).0 == wrap(st.counter + x),
                    decreases ps.len() - j,
                {
                    vars.push(self.fresh_tyvar());
                    j = j + 1;
                }
                let mut comps: Vec<Type> = Vec::new();
                let mut j: usize = 0;
                while j < vars.len()
                    invariant
                        j <= vars.len(),
                        comps@.len() == j,
                        forall|x: int| 0 <= x < j ==> (#[trigger] comps@[x])@ == SType::Var(vars@[x].0),
                    decreases vars.len() - j,
                {
                    comps.push(Type::Var(vars[j]));
                    j = j + 1;
                }
                assert(crate::hir::types_view(comps@) =~= vs);
                let (s, tree) = self.unify(ty, &Type::Tuple(comps), pat.span);
                push_tree(children, tree);
                proof {
                    lemma_bind_counts_zero(ps@);
                    assert(children@.subrange(0, base) =~= c0);
                }
                let applied = Self::apply_env(&s, env);
                *env = applied;
                let ghost tys = vs.map_values(|t: SType| apply(su, t));
                assert(self@ == st2);
                let mut j: usize = 0;
                while j < ps.len()
                    invariant
                        all_names_below(children@, old(self).names().len()),
                        j <= ps.len(),
                        k == ps@.len(),
                        vars@.len() == k,
                        forall|x: int| 0 <= x < k ==> (#[trigger] vars@[x]).0 == wrap(st.counter + x),
                        s@ == su,
                        tys == vs.map_values(|t: SType| apply(su, t)),
                        vs == Seq::new(k, |i: int| SType::Var(wrap(st.counter + i))),
                        self@ == binds_spec(st2, apply_env_spec(su, ev), ps@, tys, j as nat).0,
                        env_view(env@) == binds_spec(st2, apply_env_spec(su, ev), ps@, tys, j as nat).1,
                        self.names() == old(self).names(),
                        pat.kind == BindPatKind::Tuple(*ps),
                        children@.len() == base + 1 + crate::judgement::bind_counts(ps@, j as nat),
                        children@.subrange(0, base) == c0,
                    decreases ps.len() - j,
                {
                    let comp = Self::apply_type(&s, &Type::Var(vars[j]));
                    assert(comp@ == tys[j as int]);
                    let ghost before = children@;
                    proof {
                        lemma_bind_counts_mono(ps@, j as nat, (j + 1) as nat);
                    }
                    self.bind_pat(env, &ps[j], &comp, children);
                    proof {
                        assert(children@.subrange(0, base) =~= children@.subrange(0, before.len() as int).subrange(0, base));
                    }
                    j = j + 1;
                }
            },
        }
    }

    #[verifier::spinoff_prover]
    #[verifier::rlimit(100)]
    fn infer_let<'a>(&mut self, env: &Env, expr: &'a Expr, bindings: &'a Vec<Binding>, body: &'a Expr) -> (res: (Subst, Type, InferenceTree<'a>))
        requires
            names_below(*expr, old(self).names().len()),
            *expr.kind == (ExprKind::Let { bindings: *bindings, body: *body }),
        ensures
            final(self)@ == infer_spec(old(self)@, env_view(env@), *expr, old(self).names()).st,
            res.0@ == infer_spec(old(self)@, env_view(env@), *expr, old(self).names()).subst,
            res.1@ == infer_spec(old(self)@, env_view(env@), *expr, old(self).names()).ty,
            final(self).names() == old(self).names(),
            res.2.rule == RuleName::TLet,
            concludes(res.2, res.1@),
            tree_names_below(res.2, old(self).names().len()),
            infer_tree_ok(res.2, old(self)@, env_view(env@), *expr, old(self).names()),
        decreases *expr, 0nat,
    {
        let ghost names = self.names();
        let ghost ev = env_view(env@);
        let ghost st = self@;
        let ghost bs = bindings@;
        let env_str = self.pretty_env(env, expr);
        proof { lemma_env_written(env_str@, env@, *expr, self.names()); }
        let mut children: Vec<InferenceTree<'a>> = Vec::new();
        let rec = bindings.len() > 0 && bindings[0].rec;
        let (final_subst, body_ty) = if rec {
            let ghost (st1, rec_envv, alphasv) = rec_alphas_spec(st, ev, bs, bs.len());
            let ghost (st2, combinedv, vtys) = rec_values_spec(st1, rec_envv, bs, alphasv, expr.span, names, bs.len());
            let ghost (st3, new_envv) = bind_all_spec(st2, apply_env_spec(combinedv, ev), bs, vtys, bs.len());
            let mut rec_env = clone_env(env);
            let mut alphas: Vec<TypeVar> = Vec::new();
            let mut i: usize = 0;
            while i < bindings.len()
                invariant
                    i <= bindings.len(),
                    bs == bindings@,
                    ev == env_view(env@),
                    st1 == rec_alphas_spec(st, ev, bs, bs.len()).0,
                    self.names() == names,
                    self@ == rec_alphas_spec(st, ev, bs, i as nat).0,
                    env_view(rec_env@) == rec_alphas_spec(st, ev, bs, i as nat).1,
                    alphas_view(alphas@) == rec_alphas_spec(st, ev, bs, i as nat).2,
                decreases bindings.len() - i,
            {
                let alpha = self.fresh_tyvar();
                match &bindings[i].pat.kind {
                    BindPatKind::Var(id) => {
                        let sc = Scheme { type_vars: Vec::new(), ty: Type::Var(alpha) };
                        assert(sc@.type_vars =~= Seq::<u64>::empty());
                        rec_env.insert(id.name, sc);
                    },
                    BindPatKind::Tuple(_) => {},
                }
                alphas.push(alpha);
                i = i + 1;
                proof {
                    let (sa, ea, aa) = rec_alphas_spec(st, ev, bs, (i - 1) as nat);
                    assert(alphas_view(alphas@) =~= aa.push(SType::Var(alpha.0)));
                    assert(env_view(rec_env@) =~= rec_alphas_spec(st, ev, bs, i as nat).1);
                }
            }
            proof {
                crate::algorithm_w::lemma_rec_alphas_len(st, ev, bs, bs.len());
            }
            let mut combined = Subst::empty();
            let mut value_tys: Vec<Type> = Vec::new();
            let mut i: usize = 0;
            while i < bindings.len()
                invariant
                    all_names_below(children@, names.len()),
                    i <= bindings.len(),
                    alphas@.len() == bindings.len(),
                    bs == bindings@,
                    names_below(*expr, names.len()),
                    *expr.kind == (ExprKind::Let { bindings: *bindings, body: *body }),
                    self.names() == names,
                    env_view(rec_env@) == rec_envv,
                    alphas_view(alphas@) == alphasv,
                    self@ == rec_values_spec(st1, rec_envv, bs, alphasv, expr.span, names, i as nat).0,
                    combined@ == rec_values_spec(st1, rec_envv, bs, alphasv, expr.span, names, i as nat).1,
                    crate::hir::types_view(value_tys@) == rec_values_spec(st1, rec_envv, bs, alphasv, expr.span, names, i as nat).2,
                    children@.len() == 2 * i,
                    bs.len() > 0 && bs[0].rec,
                    crate::judgement::rec_parts(st, ev, *expr, names) == (st1, rec_envv, alphasv, st2, combinedv, vtys),
                    forall|j: int| 0 <= j < i ==> #[trigger] crate::judgement::rec_value_ok(children@, st, ev, *expr, names, j),
                decreases bindings.len() - i,
            {
                proof {
                    lemma_bindings_names_below(bs, names.len(), bs.len(), i as int);
                }
                let rec_env_applied = Self::apply_env(&combined, &rec_env);
                let (s1, value_ty, tree1) = self.infer(&rec_env_applied, &bindings[i].value);
                combined = s1.compose(&combined);
                let alpha_ty = Self::apply_type(&combined, &Type::Var(alphas[i]));
                let value_ty_s = Self::apply_type(&combined, &value_ty);
                assert(alphasv[i as int] == SType::Var(alphas@[i as int].0));
                let (s_unify, unify_tree) = self.unify(&alpha_ty, &value_ty_s, expr.span);
                combined = s_unify.compose(&combined);
                let ghost before = children@;
                let ghost (g1, g2) = (tree1, unify_tree);
                push_tree(&mut children, tree1);
                push_tree(&mut children, unify_tree);
                proof {
                    let c = children@;
                    assert(c[2 * i] == g1 && c[2 * i + 1] == g2);
                    assert forall|j: int| 0 <= j < i + 1 implies #[trigger] crate::judgement::rec_value_ok(c, st, ev, *expr, names, j) by {
                        if j < i {
                            assert(crate::judgement::rec_value_ok(before, st, ev, *expr, names, j));
                            assert(c[2 * j] == before[2 * j] && c[2 * j + 1] == before[2 * j + 1]);
                        }
                    }
                }
                value_tys.push(Self::apply_type(&combined, &value_ty));
                i = i + 1;
                assert(crate::hir::types_view(value_tys@) =~= rec_values_spec(st1, rec_envv, bs, alphasv, expr.span, names, i as nat).2);
            }
            proof {
                crate::algorithm_w::lemma_rec_values_len(st1, rec_envv, bs, alphasv, expr.span, names, bs.len());
            }
            let mut new_env = Self::apply_env(&combined, env);
            let mut i: usize = 0;
            while i < bindings.len()
                invariant
                    all_names_below(children@, names.len()),
                    i <= bindings.len(),
                    bs == bindings@,
                    value_tys@.len() == bindings.len(),
                    crate::hir::types_view(value_tys@) == vtys,
                    combined@ == combinedv,
                    self.names() == names,
                    self@ == bind_all_spec(st2, apply_env_spec(combinedv, ev), bs, vtys, i as nat).0,
                    env_view(new_env@) == bind_all_spec(st2, apply_env_spec(combinedv, ev), bs, vtys, i as nat).1,
                    children@.len() == 2 * bs.len() + bind_off(bs, i as nat),
                    children@.len() >= 2 * bs.len(),
                    bs.len() > 0 && bs[0].rec,
                    crate::judgement::rec_parts(st, ev, *expr, names) == (st1, rec_envv, alphasv, st2, combinedv, vtys),
                    forall|j: int| 0 <= j < bs.len() ==> #[trigger] crate::judgement::rec_value_ok(children@, st, ev, *expr, names, j),
                decreases bindings.len() - i,
            {
                assert(vtys[i as int] == value_tys@[i as int]@);
                let ghost before = children@;
                self.bind_pat(&mut new_env, &bindings[i].pat, &value_tys[i], &mut children);
                proof {
                    let c = children@;
                    assert forall|j: int| 0 <= j < bs.len() implies #[trigger] crate::judgement::rec_value_ok(c, st, ev, *expr, names, j) by {
                        assert(crate::judgement::rec_value_ok(before, st, ev, *expr, names, j));
                        assert(c.subrange(0, before.len() as int)[2 * j] == c[2 * j]);
                        assert(c.subrange(0, before.len() as int)[2 * j + 1] == c[2 * j + 1]);
                    }
                }
                i = i + 1;
            }
            let (s2, body_ty, tree2) = self.infer(&new_env, body);
            let ghost before = children@;
            let ghost g = tree2;
            push_tree(&mut children, tree2);
            proof {
                let c = children@;
                assert(c[before.len() as int] == g);
                assert forall|j: int| 0 <= j < bs.len() implies #[trigger] crate::judgement::rec_value_ok(c, st, ev, *expr, names, j) by {
                    assert(crate::judgement::rec_value_ok(before, st, ev, *expr, names, j));
                    assert(c[2 * j] == before[2 * j] && c[2 * j + 1] == before[2 * j + 1]);
                }
            }
            (s2.compose(&combined), body_ty)
        } else {
            let mut env_subst = clone_env(env);
            let mut i: usize = 0;
            while i < bindings.len()
                invariant
                    all_names_below(children@, names.len()),
                    i <= bindings.len(),
                    bs == bindings@,
                    names_below(*expr, names.len()),
                    *expr.kind == (ExprKind::Let { bindings: *bindings, body: *body }),
                    self.names() == names,
                    self@ == let_values_spec(st, ev, bs, names, i as nat).0,
                    env_view(env_subst@) == let_values_spec(st, ev, bs, names, i as nat).1,
                    children@.len() == let_off(bs, i as nat),
                    !(bs.len() > 0 && bs[0].rec),
                    forall|j: int| 0 <= j < i ==> #[trigger] crate::judgement::let_value_ok(children@, st, ev, *expr, names, j),
                decreases bindings.len() - i,
            {
                proof {
                    lemma_bindings_names_below(bs, names.len(), bs.len(), i as int);
                    let (st_i, env_i) = let_values_spec(st, ev, bs, names, i as nat);
                    let r = infer_spec(st_i, env_i, bs[i as int].value, names);
                }
                let (s1, value_ty, tree1) = self.infer(&env_subst, &bindings[i].value);
                let ghost before = children@;
                let ghost g = tree1;
                push_tree(&mut children, tree1);
                let ghost mid = children@;
                env_subst = Self::apply_env(&s1, &env_subst);
                self.bind_pat(&mut env_subst, &bindings[i].pat, &value_ty, &mut children);
                proof {
                    let c = children@;
                    let bl = before.len() as int;
                    assert(c.subrange(0, mid.len() as int)[bl] == c[bl]);
                    assert(c[bl] == g);
                    lemma_let_off_mono(bs, i as nat);
                    assert forall|j: int| 0 <= j < i + 1 implies #[trigger] crate::judgement::let_value_ok(c, st, ev, *expr, names, j) by {
                        if j < i {
                            lemma_let_off_lt(bs, j as nat, i as nat);
                            assert(crate::judgement::let_value_ok(before, st, ev, *expr, names, j));
                            let o = let_off(bs, j as nat) as int;
                            assert(c.subrange(0, mid.len() as int)[o] == c[o]);
                            assert(c[o] == before[o]);
                        }
                    }
                }
                i = i + 1;
            }
            let (s2, body_ty, tree2) = self.infer(&env_subst, body);
            let ghost before = children@;
            let ghost g = tree2;
            push_tree(&mut children, tree2);
            proof {
                let c = children@;
                assert(c[before.len() as int] == g);
                assert forall|j: int| 0 <= j < bs.len() implies #[trigger] crate::judgement::let_value_ok(c, st, ev, *expr, names, j) by {
                    assert(crate::judgement::let_value_ok(before, st, ev, *expr, names, j));
                    lemma_let_off_lt(bs, j as nat, bs.len());
                    let o = let_off(bs, j as nat) as int;
                    assert(c[o] == before[o]);
                }
            }
            (s2, body_ty)
        };
        let ghost children_view = children@;
        let tree = infer_tree(RuleName::TLet, env_str, expr, &body_ty, children);
        proof {
            if bs.len() > 0 && bs[0].rec {
                assert forall|j: int| #![trigger bs[j]] 0 <= j < bs.len() implies crate::judgement::rec_value_ok(tree.children@, st, ev, *expr, names, j) by {
                    assert(crate::judgement::rec_value_ok(children_view, st, ev, *expr, names, j));
                }
            } else {
                assert forall|j: int| #![trigger bs[j]] 0 <= j < bs.len() implies crate::judgement::let_value_ok(tree.children@, st, ev, *expr, names, j) by {
                    assert(crate::judgement::let_value_ok(children_view, st, ev, *expr, names, j));
                }
            }
            lemma_let_premises(tree, st, ev, *expr, names, *bindings, *body);
            lemma_let_tree_ok(tree, st, ev, *expr, names, *bindings, *body);
        }
        (final_subst, body_ty, tree)
    }

    #[verifier::spinoff_prover]
    #[verifier::rlimit(100)]
    fn infer_match<'a>(&mut self, env: &Env, expr: &'a Expr, scrutinee: &'a Expr, arms: &'a Vec<(Pat, Expr)>) -> (res: (Subst, Type, InferenceTree<'a>))
        requires
            names_below(*expr, old(self).names().len()),
            *expr.kind == (ExprKind::Match { scrutinee: *scrutinee, arms: *arms }),
        ensures
            final(self)@ == infer_spec(old(self)@, env_view(env@), *expr, old(self).names()).st,
            res.0@ == infer_spec(old(self)@, env_view(env@), *expr, old(self).names()).subst,
            res.1@ == infer_spec(old(self)@, env_view(env@), *expr, old(self).names()).ty,
            final(self).names() == old(self).names(),
            res.2.rule == RuleName::TMatch,
            concludes(res.2, res.1@),
            tree_names_below(res.2, old(self).names().len()),
            infer_tree_ok(res.2, old(self)@, env_view(env@), *expr, old(self).names()),
        decreases *expr, 0nat,
    {
        let ghost names = self.names();
        let ghost ev = env_view(env@);
        let ghost st = self@;
        let ghost r1 = infer_spec(st, ev, *scrutinee, names);
        let env_str = self.pretty_env(env, expr);
        proof { lemma_env_written(env_str@, env@, *expr, self.names()); }
        let (s1, scrut_ty, tree1) = self.infer(env, scrutinee);
        let mut final_subst = s1;
        let mut arm_trees: Vec<InferenceTree<'a>> = Vec::new();
        let ghost g0 = tree1;
        push_tree(&mut arm_trees, tree1);
        assert(arm_trees@[0] == g0);
        let mut body_ty_opt: Option<Type> = None;
        let mut i: usize = 0;
        while i < arms.len()
            invariant
                all_names_below(arm_trees@, names.len()),
                i <= arms.len(),
                names_below(*expr, names.len()),
                *expr.kind == (ExprKind::Match { scrutinee: *scrutinee, arms: *arms }),
                self.names() == names,
                ev == env_view(env@),
                scrut_ty@ == r1.ty,
                self@ == arms_spec(r1.st, ev, r1.subst, r1.ty, scrutinee.span, arms@, names, i as nat).0,
                final_subst@ == arms_spec(r1.st, ev, r1.subst, r1.ty, scrutinee.span, arms@, names, i as nat).1,
                opt_type_view(body_ty_opt) == arms_spec(r1.st, ev, r1.subst, r1.ty, scrutinee.span, arms@, names, i as nat).2,
                r1 == infer_spec(st, ev, *scrutinee, names),
                i > 0 ==> body_ty_opt is Some,
                arm_trees@.len() == arm_off(i as nat),
                infer_tree_ok(arm_trees@[0], st, ev, *scrutinee, names),
                forall|j: int| 0 <= j < i ==> #[trigger] crate::judgement::arm_ok(arm_trees@, st, ev, *expr, names, j),
            decreases arms.len() - i,
        {
            proof {
                lemma_arms_names_below(arms@, names.len(), arms@.len(), i as int);
                let (st1, fin1, bt) = arms_spec(r1.st, ev, r1.subst, r1.ty, scrutinee.span, arms@, names, i as nat);
                let pr = pat_spec(st1, arms@[i as int].0);
                let (st2, s_pat) = crate::algorithm_w::unify_st(pr.st, apply(fin1, pr.ty), apply(fin1, r1.ty), scrutinee.span);
                let fin2 = compose(s_pat, fin1);
            }
            let pat = &arms[i].0;
            let body = &arms[i].1;
            let ghost before = arm_trees@;
            let ghost st1 = self@;
            let (pat_ty, bindings, pat_tree) = self.infer_pat(pat);
            let pat_ty_s = Self::apply_type(&final_subst, &pat_ty);
            let scrut_ty_s = Self::apply_type(&final_subst, &scrut_ty);
            let (s_pat, pat_uni_tree) = self.unify(&pat_ty_s, &scrut_ty_s, scrutinee.span);
            final_subst = s_pat.compose(&final_subst);
            let ghost (gp, gu) = (pat_tree, pat_uni_tree);
            push_tree(&mut arm_trees, pat_tree);
            push_tree(&mut arm_trees, pat_uni_tree);
            let mut env_arm = Self::apply_env(&final_subst, env);
            let ghost base = env_view(env_arm@);
            let ghost mapped = map_schemes(final_subst@, bindings_view(bindings@));
            let mut j: usize = 0;
            while j < bindings.len()
                invariant
                    j <= bindings.len(),
                    mapped == map_schemes(final_subst@, bindings_view(bindings@)),
                    env_view(env_arm@) == extend_env(base, mapped.take(j as int)),
                decreases bindings.len() - j,
            {
                let (name, scheme) = &bindings[j];
                env_arm.insert(name.name, Self::apply_scheme(&final_subst, scheme));
                proof {
                    let t = mapped.take(j + 1);
                    assert(t.drop_last() =~= mapped.take(j as int));
                    assert(env_view(env_arm@) =~= extend_env(base, t));
                }
                j = j + 1;
            }
            assert(mapped.take(j as int) =~= mapped);
            let (s_body, this_body_ty, body_tree) = self.infer(&env_arm, body);
            final_subst = s_body.compose(&final_subst);
            let ghost gb = body_tree;
            push_tree(&mut arm_trees, body_tree);
            let ghost o = arm_off(i as nat) as int;
            proof {
                assert(arm_trees@[o] == gp && arm_trees@[o + 1] == gu && arm_trees@[o + 2] == gb);
            }
            match body_ty_opt {
                Some(ref prev_ty) => {
                    let prev_ty_s = Self::apply_type(&final_subst, prev_ty);
                    let this_ty_s = Self::apply_type(&final_subst, &this_body_ty);
                    let (s_uni, uni_tree) = self.unify(&prev_ty_s, &this_ty_s, body.span);
                    final_subst = s_uni.compose(&final_subst);
                    let ghost gq = uni_tree;
                    let ghost mid = arm_trees@;
                    push_tree(&mut arm_trees, uni_tree);
                    proof {
                        assert(arm_trees@[o + 3] == gq);
                        assert(arm_trees@[o] == mid[o] && arm_trees@[o + 1] == mid[o + 1] && arm_trees@[o + 2] == mid[o + 2]);
                    }
                },
                None => {
                    body_ty_opt = Some(this_body_ty);
                },
            }
            proof {
                let c = arm_trees@;
                assert(c[0] == before[0]);
                assert(crate::judgement::arm_ok(c, st, ev, *expr, names, i as int)) by {
                    reveal(crate::judgement::arm_ok);
                }
                assert forall|j: int| 0 <= j < i + 1 implies #[trigger] crate::judgement::arm_ok(c, st, ev, *expr, names, j) by {
                    reveal(crate::judgement::arm_ok);
                    if j < i {
                        assert(crate::judgement::arm_ok(before, st, ev, *expr, names, j));
                        let oj = arm_off(j as nat) as int;
                        assert(c[oj] == before[oj] && c[oj + 1] == before[oj + 1] && c[oj + 2] == before[oj + 2]);
                        if j > 0 {
                            assert(c[oj + 3] == before[oj + 3]);
                        }
                    }
                }
            }
            i = i + 1;
        }
        let ghost cv = arm_trees@;
        proof {
            assert forall|j: int| #![trigger arms@[j]] 0 <= j < arms@.len() implies crate::judgement::arm_ok(cv, st, ev, *expr, names, j) by {
                assert(crate::judgement::arm_ok(cv, st, ev, *expr, names, j));
            }
        }
        match body_ty_opt {
            Some(ty) => {
                let final_ty = Self::apply_type(&final_subst, &ty);
                let tree = infer_tree(RuleName::TMatch, env_str, expr, &final_ty, arm_trees);
                proof {
                    lemma_match_premises(tree, st, ev, *expr, names, *scrutinee, *arms);
                    lemma_match_tree_ok(tree, st, ev, *expr, names, *scrutinee, *arms);
                }
                (final_subst, final_ty, tree)
            },
            None => {
                self.emit_error(InferenceError::NoMatchArms { span: expr.span });
                let tree = infer_tree(RuleName::TMatch, env_str, expr, &Type::Never, arm_trees);
                proof {
                    lemma_match_premises(tree, st, ev, *expr, names, *scrutinee, *arms);
                    lemma_match_tree_ok(tree, st, ev, *expr, names, *scrutinee, *arms);
                }
                (final_subst, Type::Never, tree)
            },
        }
    }

    fn infer_if<'a>(&mut self, env: &Env, expr: &'a Expr, cond: &'a Expr, then_expr: &'a Expr, else_expr: &'a Expr) -> (res: (Subst, Type, InferenceTree<'a>))
        requires
            names_below(*expr, old(self).names().len()),
            *expr.kind == (ExprKind::If { cond: *cond, then_expr: *then_expr, else_expr: *else_expr }),
        ensures
            final(self)@ == infer_spec(old(self)@, env_view(env@), *expr, old(self).names()).st,
            res.0@ == infer_spec(old(self)@, env_view(env@), *expr, old(self).names()).subst,
            res.1@ == infer_spec(old(self)@, env_view(env@), *expr, old(self).names()).ty,
            final(self).names() == old(self).names(),
            res.2.rule == RuleName::TIf,
            concludes(res.2, res.1@),
            tree_names_below(res.2, old(self).names().len()),
            infer_tree_ok(res.2, old(self)@, env_view(env@), *expr, old(self).names()),
        decreases *expr, 0nat,
    {
        proof { reveal(infer_tree_ok); }
        let ghost names = self.names();
        let ghost ev = env_view(env@);
        let env_str = self.pretty_env(env, expr);
        proof { lemma_env_written(env_str@, env@, *expr, self.names()); }
        let (s1, cond_ty, tree1) = self.infer(env, cond);
        let env1 = Self::apply_env(&s1, env);
        let (s2, then_ty, tree2) = self.infer(&env1, then_expr);
        let env2 = Self::apply_env(&s2, &env1);
        let (s3, else_ty, tree3) = self.infer(&env2, else_expr);
        let cond_ty_s = Self::apply_type(&s3, &Self::apply_type(&s2, &cond_ty));
        let (s4, cond_tree) = self.unify(&cond_ty_s, &Type::Bool, cond.span);
        let then_ty_s = Self::apply_type(&s4, &Self::apply_type(&s3, &then_ty));
        let else_ty_s = Self::apply_type(&s4, &else_ty);
        let (s5, eq_tree) = self.unify(&then_ty_s, &else_ty_s, then_expr.span);
        let final_subst = s5.compose(&s4.compose(&s3.compose(&s2.compose(&s1))));
        let final_ty = Self::apply_type(&final_subst, &then_ty);
        let ghost g_tree1 = tree1;
        let ghost g_tree2 = tree2;
        let ghost g_tree3 = tree3;
        let ghost g_cond_tree = cond_tree;
        let ghost g_eq_tree = eq_tree;
        let mut children: Vec<InferenceTree<'a>> = Vec::new();
        push_tree(&mut children, tree1);
        push_tree(&mut children, tree2);
        push_tree(&mut children, tree3);
        push_tree(&mut children, cond_tree);
        push_tree(&mut children, eq_tree);
        assert(children@[0] == g_tree1 && children@[1] == g_tree2 && children@[2] == g_tree3 && children@[3] == g_cond_tree && children@[4] == g_eq_tree);
        let tree = infer_tree(RuleName::TIf, env_str, expr, &final_ty, children);
        (final_subst, final_ty, tree)
    }

    fn infer_binop<'a>(&mut self, env: &Env, expr: &'a Expr, op: BinOp, lhs: &'a Expr, rhs: &'a Expr) -> (res: (Subst, Type, InferenceTree<'a>))
        requires
            names_below(*expr, old(self).names().len()),
            *expr.kind == (ExprKind::BinOp { op, lhs: *lhs, rhs: *rhs }),
        ensures
            final(self)@ == infer_spec(old(self)@, env_view(env@), *expr, old(self).names()).st,
            res.0@ == infer_spec(old(self)@, env_view(env@), *expr, old(self).names()).subst,
            res.1@ == infer_spec(old(self)@, env_view(env@), *expr, old(self).names()).ty,
            final(self).names() == old(self).names(),
            res.2.rule == RuleName::TBinOp,
            concludes(res.2, res.1@),
            tree_names_below(res.2, old(self).names().len()),
            infer_tree_ok(res.2, old(self)@, env_view(env@), *expr, old(self).names()),
        decreases *expr, 0nat,
    {
        proof { reveal(infer_tree_ok); }
        let ghost names = self.names();
        let ghost ev = env_view(env@);
        let env_str = self.pretty_env(env, expr);
        proof { lemma_env_written(env_str@, env@, *expr, self.names()); }
        let (expected_lhs_ty, expected_rhs_ty, result_ty) = match op {
            BinOp::Add | BinOp::Sub | BinOp::Mul | BinOp::Div | BinOp::Pow => (Type::Int, Type::Int, Type::Int),
            BinOp::Eq | BinOp::NotEq | BinOp::Lt | BinOp::Gt | BinOp::Le | BinOp::Ge => (Type::Int, Type::Int, Type::Bool),
            BinOp::And | BinOp::Or => (Type::Bool, Type::Bool, Type::Bool),
        };
        let (s1, lhs_ty, tree1) = self.infer(env, lhs);
        let env1 = Self::apply_env(&s1, env);
        let (s2, rhs_ty, tree2) = self.infer(&env1, rhs);
        let lhs_ty_s = Self::apply_type(&s2, &lhs_ty);
        let (s3, lhs_tree) = self.unify(&lhs_ty_s, &expected_lhs_ty, lhs.span);
        let rhs_ty_s = Self::apply_type(&s3, &rhs_ty);
        let (s4, rhs_tree) = self.unify(&rhs_ty_s, &expected_rhs_ty, rhs.span);
        let final_subst = s4.compose(&s3.compose(&s2.compose(&s1)));
        let final_ty = Self::apply_type(&final_subst, &result_ty);
        let ghost g_tree1 = tree1;
        let ghost g_tree2 = tree2;
        let ghost g_lhs_tree = lhs_tree;
        let ghost g_rhs_tree = rhs_tree;
        let mut children: Vec<InferenceTree<'a>> = Vec::new();
        push_tree(&mut children, tree1);
        push_tree(&mut children, tree2);
        push_tree(&mut children, lhs_tree);
        push_tree(&mut children, rhs_tree);
        assert(children@[0] == g_tree1 && children@[1] == g_tree2 && children@[2] == g_lhs_tree && children@[3] == g_rhs_tree);
        let tree = infer_tree(RuleName::TBinOp, env_str, expr, &final_ty, children);
        (final_subst, final_ty, tree)
    }

    fn infer_unaryop<'a>(&mut self, env: &Env, expr: &'a Expr, op: UnaryOp, rhs: &'a Expr) -> (res: (Subst, Type, InferenceTree<'a>))
        requires
            names_below(*expr, old(self).names().len()),
            *expr.kind == (ExprKind::UnaryOp { op, rhs: *rhs }),
        ensures
            final(self)@ == infer_spec(old(self)@, env_view(env@), *expr, old(self).names()).st,
            res.0@ == infer_spec(old(self)@, env_view(env@), *expr, old(self).names()).subst,
            res.1@ == infer_spec(old(self)@, env_view(env@), *expr, old(self).names()).ty,
            final(self).names() == old(self).names(),
            res.2.rule == RuleName::TUnaryOp,
            concludes(res.2, res.1@),
            tree_names_below(res.2, old(self).names().len()),
            infer_tree_ok(res.2, old(self)@, env_view(env@), *expr, old(self).names()),
        decreases *expr, 0nat,
    {
        proof { reveal(infer_tree_ok); }
        let env_str = self.pretty_env(env, expr);
        proof { lemma_env_written(env_str@, env@, *expr, self.names()); }
        let (expected_arg_ty, result_ty) = match op {
            UnaryOp::Neg => (Type::Int, Type::Int),
            UnaryOp::Not => (Type::Bool, Type::Bool),
        };
        let (s1, rhs_ty, tree1) = self.infer(env, rhs);
        let rhs_ty_s = Self::apply_type(&s1, &rhs_ty);
        let (s2, rhs_tree) = self.unify(&rhs_ty_s, &expected_arg_ty, rhs.span);
        let final_subst = s2.compose(&s1);
        let final_ty = Self::apply_type(&final_subst, &result_ty);
        let ghost g_tree1 = tree1;
        let ghost g_rhs_tree = rhs_tree;
        let mut children: Vec<InferenceTree<'a>> = Vec::new();
        push_tree(&mut children, tree1);
        push_tree(&mut children, rhs_tree);
        assert(children@[0] == g_tree1 && children@[1] == g_rhs_tree);
        let tree = infer_tree(RuleName::TUnaryOp, env_str, expr, &final_ty, children);
        (final_subst, final_ty, tree)
    }

    fn infer_app<'a>(&mut self, env: &Env, expr: &'a Expr, func: &'a Expr, arg: &'a Expr) -> (res: (Subst, Type, InferenceTree<'a>))
        requires
            names_below(*expr, old(self).names().len()),
            *expr.kind == (ExprKind::App { func: *func, arg: *arg }),
        ensures
            final(self)@ == infer_spec(old(self)@, env_view(env@), *expr, old(self).names()).st,
            res.0@ == infer_spec(old(self)@, env_view(env@), *expr, old(self).names()).subst,
            res.1@ == infer_spec(old(self)@, env_view(env@), *expr, old(self).names()).ty,
            final(self).names() == old(self).names(),
            res.2.rule == RuleName::TApp,
            concludes(res.2, res.1@),
            tree_names_below(res.2, old(self).names().len()),
            infer_tree_ok(res.2, old(self)@, env_view(env@), *expr, old(self).names()),
        decreases *expr, 0nat,
    {
        proof { reveal(infer_tree_ok); }
        let ghost names = self.names();
        let ghost ev = env_view(env@);
        let env_str = self.pretty_env(env, expr);
        proof { lemma_env_written(env_str@, env@, *expr, self.names()); }
        let result_ty = Type::Var(self.fresh_tyvar());
        let (s1, func_ty, tree1) = self.infer(env, func);
        let env_subst = Self::apply_env(&s1, env);
        let (s2, arg_ty, tree2) = self.infer(&env_subst, arg);
        let func_ty_subst = Self::apply_type(&s2, &func_ty);
        let expected_func_ty = Type::Arrow(Box::new(arg_ty), Box::new(result_ty.clone()));
        let (s3, tree3) = self.unify(&func_ty_subst, &expected_func_ty, func.span);
        let final_subst = s3.compose(&s2.compose(&s1));
        let final_ty = Self::apply_type(&s3, &result_ty);
        let ghost g_tree1 = tree1;
        let ghost g_tree2 = tree2;
        let ghost g_tree3 = tree3;
        let mut children: Vec<InferenceTree<'a>> = Vec::new();
        push_tree(&mut children, tree1);
        push_tree(&mut children, tree2);
        push_tree(&mut children, tree3);
        assert(children@[0] == g_tree1 && children@[1] == g_tree2 && children@[2] == g_tree3);
        let tree = infer_tree(RuleName::TApp, env_str, expr, &final_ty, children);
        (final_subst, final_ty, tree)
    }

    fn infer_constructor_app<'a>(&mut self, env: &Env, expr: &'a Expr, name: Ident, arg: &'a Expr) -> (res: (Subst, Type, InferenceTree<'a>))
        requires
            names_below(*expr, old(self).names().len()),
            *expr.kind == (ExprKind::Constructor { name, arg: Some(*arg) }),
        ensures
            final(self)@ == infer_spec(old(self)@, env_view(env@), *expr, old(self).names()).st,
            res.0@ == infer_spec(old(self)@, env_view(env@), *expr, old(self).names()).subst,
            res.1@ == infer_spec(old(self)@, env_view(env@), *expr, old(self).names()).ty,
            final(self).names() == old(self).names(),
            res.2.rule == RuleName::TApp,
            concludes(res.2, res.1@),
            tree_names_below(res.2, old(self).names().len()),
            infer_tree_ok(res.2, old(self)@, env_view(env@), *expr, old(self).names()),
        decreases *expr, 0nat,
    {
        proof { reveal(infer_tree_ok); }
        let ghost names = self.names();
        let ghost ev = env_view(env@);
        let env_str = self.pretty_env(env, expr);
        proof { lemma_env_written(env_str@, env@, *expr, self.names()); }
        let result_ty = Type::Var(self.fresh_tyvar());
        let (s1, func_ty, tree1) = self.infer_var(env, expr, name);
        let env_subst = Self::apply_env(&s1, env);
        let (s2, arg_ty, tree2) = self.infer(&env_subst, arg);
        let func_ty_subst = Self::apply_type(&s2, &func_ty);
        let expected_func_ty = Type::Arrow(Box::new(arg_ty), Box::new(result_ty.clone()));
        let (s3, tree3) = self.unify(&func_ty_subst, &expected_func_ty, expr.span);
        let final_subst = s3.compose(&s2.compose(&s1));
        let final_ty = Self::apply_type(&s3, &result_ty);
        let ghost g_tree1 = tree1;
        let ghost g_tree2 = tree2;
        let ghost g_tree3 = tree3;
        let mut children: Vec<InferenceTree<'a>> = Vec::new();
        push_tree(&mut children, tree1);
        push_tree(&mut children, tree2);
        push_tree(&mut children, tree3);
        assert(children@[0] == g_tree1 && children@[1] == g_tree2 && children@[2] == g_tree3);
        let tree = infer_tree(RuleName::TApp, env_str, expr, &final_ty, children);
        (final_subst, final_ty, tree)
    }
}

/// What type-checking an expression gives: its type, with the variables it
/// quantifies renamed to letters, the errors found and the derivation.
pub struct TypeCheckResult<'a> {
    pub ty: Type,
    pub errors: Vec<InferenceError>,
    pub tree: InferenceTree<'a>,
}

/// The state of a fresh engine.
pub open spec fn initial_state() -> InferenceState {
    InferenceState { counter: 0, errors: Seq::empty() }
}

/// Inferring an expression in the empty environment with a fresh engine.
pub open spec fn check_spec(e: Expr, names: Seq<Seq<char>>) -> InferOut {
    infer_spec(initial_state(), Map::empty(), e, names)
}

/// The type that type-checking reports: the inferred type, generalized in
/// the empty environment, with its quantified variables renamed to letters.
pub open spec fn checked_type(e: Expr, names: Seq<Seq<char>>) -> SType {
    let r = check_spec(e, names);
    rename_scheme_spec(generalize_spec(Map::empty(), apply(r.subst, r.ty)))
}


/// Type-checks a closed expression.
pub fn typecheck<'a>(expr: &'a Expr, rodeo: &mut lasso::Rodeo) -> (r: TypeCheckResult<'a>)
    requires
        names_below(*expr, interned(*old(rodeo)).len()),
    ensures
        interned(*final(rodeo)) == interned(*old(rodeo)),
        r.ty@ == checked_type(*expr, interned(*old(rodeo))),
        errors_view(r.errors@) == check_spec(*expr, interned(*old(rodeo))).st.errors,
        r.tree.rule == infer_rule(Map::empty(), *expr),
        tree_names_below(r.tree, interned(*old(rodeo)).len()),
        infer_tree_ok(r.tree, initial_state(), Map::empty(), *expr, interned(*old(rodeo))),
{
    let mut inference = TypeInference::new(&*rodeo);
    let env: Env = std::collections::BTreeMap::new();
    assert(env_view(env@) =~= Map::<usize, SScheme>::empty());
    assert(inference@ == initial_state());
    let (s, ty, tree) = inference.infer(&env, expr);
    let final_ty = TypeInference::apply_type(&s, &ty);
    let scheme = inference.generalize(&env, &final_ty);
    let renamed = rename_scheme(&scheme);
    let errors = inference.take_errors();
    TypeCheckResult { ty: renamed, errors, tree }
}

/// The derivation of a closed expression, when type-checking finds no error.
pub fn run_inference<'a>(expr: &'a Expr, rodeo: &mut lasso::Rodeo) -> (r: Result<InferenceTree<'a>, ()>)
    requires
        names_below(*expr, interned(*old(rodeo)).len()),
    ensures
        interned(*final(rodeo)) == interned(*old(rodeo)),
        r is Ok <==> check_spec(*expr, interned(*old(rodeo))).st.errors.len() == 0,
        r matches Ok(t) ==> t.rule == infer_rule(Map::empty(), *expr) && tree_names_below(t, interned(*old(rodeo)).len())
            && infer_tree_ok(t, initial_state(), Map::empty(), *expr, interned(*old(rodeo))),
{
    let result = typecheck(expr, rodeo);
    if result.errors.len() == 0 {
        Ok(result.tree)
    } else {
        Err(())
    }
}

/// The type of a closed expression, when type-checking finds no error.
pub fn infer_type(expr: &Expr, rodeo: &mut lasso::Rodeo) -> (r: Result<Type, ()>)
    requires
        names_below(*expr, interned(*old(rodeo)).len()),
    ensures
        interned(*final(rodeo)) == interned(*old(rodeo)),
        r is Ok <==> check_spec(*expr, interned(*old(rodeo))).st.errors.len() == 0,
        r matches Ok(t) ==> t@ == checked_type(*expr, interned(*old(rodeo))),
{
    let result = typecheck(expr, rodeo);
    if result.errors.len() == 0 {
        Ok(result.ty)
    } else {
        Err(())
    }
}

} // verus!
