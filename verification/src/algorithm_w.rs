//! Algorithm W as this engine runs it: the state, substitution and type that
//! inferring an expression gives.
use vstd::prelude::*;
use crate::ast::{BinOp, BindPat, BindPatKind, Binding, Expr, ExprKind, Ident, Literal, Pat, PatKind, Span, UnaryOp};
use crate::hir::SType;
use crate::scheme::{apply_env_spec, apply_scheme_spec, generalize_spec, inst_map, SScheme};
use crate::typecheck::{wrap, apply, compose, unify_depth_budget, unify_spec, InferenceState, SInferenceError};

verus! {

/// The outcome of inferring: the engine's state after, the substitution and the type.
pub struct InferOut {
    pub st: InferenceState,
    pub subst: Map<u64, SType>,
    pub ty: SType,
}

/// The outcome of inferring a pattern: the state after, its type and the
/// schemes it binds, in order.
pub struct PatOut {
    pub st: InferenceState,
    pub ty: SType,
    pub bindings: Seq<(usize, SScheme)>,
}

/// A fresh variable: the counter's value, and the state with the counter advanced.
pub open spec fn fresh(st: InferenceState) -> (InferenceState, SType) {
    (InferenceState { counter: wrap(st.counter + 1), errors: st.errors }, SType::Var(st.counter))
}

/// Unification as a step of the engine: its errors are recorded.
pub open spec fn unify_st(st: InferenceState, a: SType, b: SType, span: Span) -> (InferenceState, Map<u64, SType>) {
    let (s, e) = unify_spec(a, b, span, unify_depth_budget());
    (InferenceState { counter: st.counter, errors: st.errors + e }, s)
}

/// The type of a literal.
pub open spec fn lit_type(l: Literal) -> SType {
    match l {
        Literal::Int(_) => SType::Int,
        Literal::Float(_) => SType::Float,
        Literal::Bool(_) => SType::Bool,
    }
}

/// The operand types and the result type of a binary operator.
pub open spec fn binop_types(op: BinOp) -> (SType, SType, SType) {
    match op {
        BinOp::Add | BinOp::Sub | BinOp::Mul | BinOp::Div | BinOp::Pow => (SType::Int, SType::Int, SType::Int),
        BinOp::Eq | BinOp::NotEq | BinOp::Lt | BinOp::Gt | BinOp::Le | BinOp::Ge => (SType::Int, SType::Int, SType::Bool),
        BinOp::And | BinOp::Or => (SType::Bool, SType::Bool, SType::Bool),
    }
}

/// The operand type and the result type of a unary operator.
pub open spec fn unary_types(op: UnaryOp) -> (SType, SType) {
    match op {
        UnaryOp::Neg => (SType::Int, SType::Int),
        UnaryOp::Not => (SType::Bool, SType::Bool),
    }
}

/// Looking a name up: its scheme instantiated, or an unbound-variable error and `Error`.
pub open spec fn var_spec(st: InferenceState, env: Map<usize, SScheme>, name: Ident, span: Span, names: Seq<Seq<char>>) -> InferOut {
    if env.contains_key(name.name) {
        let sc = env[name.name];
        InferOut {
            st: InferenceState { counter: wrap(st.counter + sc.type_vars.len()), errors: st.errors },
            subst: Map::empty(),
            ty: apply(inst_map(sc.type_vars, st.counter), sc.ty),
        }
    } else {
        InferOut {
            st: InferenceState {
                counter: st.counter,
                errors: st.errors.push(SInferenceError::UnboundVariable { span, name: names[name.name as int] }),
            },
            subst: Map::empty(),
            ty: SType::Error,
        }
    }
}

/// An environment extended with bindings, in order.
pub open spec fn extend_env(env: Map<usize, SScheme>, bs: Seq<(usize, SScheme)>) -> Map<usize, SScheme>
    decreases bs.len(),
{
    if bs.len() == 0 {
        env
    } else {
        extend_env(env, bs.drop_last()).insert(bs.last().0, bs.last().1)
    }
}

/// The bindings of a pattern with a substitution applied to their types.
pub open spec fn map_bindings(s: Map<u64, SType>, bs: Seq<(usize, SScheme)>) -> Seq<(usize, SScheme)> {
    Seq::new(bs.len(), |i: int| (bs[i].0, SScheme { type_vars: bs[i].1.type_vars, ty: apply(s, bs[i].1.ty) }))
}

/// The bindings of a pattern with a substitution applied to their schemes.
pub open spec fn map_schemes(s: Map<u64, SType>, bs: Seq<(usize, SScheme)>) -> Seq<(usize, SScheme)> {
    Seq::new(bs.len(), |i: int| (bs[i].0, apply_scheme_spec(s, bs[i].1)))
}

/// Inferring a pattern.
pub open spec fn pat_spec(st: InferenceState, p: Pat) -> PatOut
    decreases p, 0nat,
{
    match *p.kind {
        PatKind::Wildcard => {
            let (st1, t) = fresh(st);
            PatOut { st: st1, ty: t, bindings: Seq::empty() }
        },
        PatKind::Var(ident) => {
            let (st1, t) = fresh(st);
            PatOut { st: st1, ty: t, bindings: seq![(ident.name, SScheme { type_vars: Seq::empty(), ty: t })] }
        },
        PatKind::Lit(l) => PatOut { st, ty: lit_type(l), bindings: Seq::empty() },
        PatKind::Or(a, b) => {
            let ra = pat_spec(st, a);
            let rb = pat_spec(ra.st, b);
            let (st3, s) = unify_st(rb.st, ra.ty, rb.ty, p.span);
            PatOut { st: st3, ty: apply(s, ra.ty), bindings: ra.bindings + map_bindings(s, rb.bindings) }
        },
        PatKind::Tuple(ps) => {
            let r = pats_spec(st, ps@, ps@.len());
            PatOut { st: r.0, ty: SType::Tuple(r.1), bindings: r.2 }
        },
        PatKind::App { func, arg } => {
            let rf = pat_spec(st, func);
            let ra = pat_spec(rf.st, arg);
            let (st3, t) = fresh(ra.st);
            PatOut { st: st3, ty: t, bindings: rf.bindings + ra.bindings }
        },
        PatKind::Constructor { name, arg } => {
            match arg {
                Some(a) => {
                    let ra = pat_spec(st, a);
                    let (st3, t) = fresh(ra.st);
                    PatOut { st: st3, ty: t, bindings: ra.bindings }
                },
                None => {
                    let (st3, t) = fresh(st);
                    PatOut { st: st3, ty: t, bindings: Seq::empty() }
                },
            }
        },
    }
}

/// Inferring the first `n` patterns of a tuple pattern: the state, the
/// component types and the bindings.
pub open spec fn pats_spec(st: InferenceState, ps: Seq<Pat>, n: nat) -> (InferenceState, Seq<SType>, Seq<(usize, SScheme)>)
    decreases ps, n,
{
    if n == 0 || n > ps.len() {
        (st, Seq::empty(), Seq::empty())
    } else {
        let (st1, tys, bs) = pats_spec(st, ps, (n - 1) as nat);
        let r = pat_spec(st1, ps[n - 1]);
        (r.st, tys.push(apply(Map::empty(), r.ty)), bs + map_schemes(Map::empty(), r.bindings))
    }
}

} // verus!

verus! {

/// Binding a `let` pattern to a value's type: a name gets the generalized
/// type; a tuple pattern unifies the type with a tuple of fresh variables,
/// applies the result to the environment and binds each component in turn.
pub open spec fn bind_spec(st: InferenceState, env: Map<usize, SScheme>, p: BindPat, ty: SType) -> (InferenceState, Map<usize, SScheme>)
    decreases p, 0nat,
{
    match p.kind {
        BindPatKind::Var(id) => (st, env.insert(id.name, generalize_spec(env, ty))),
        BindPatKind::Tuple(ps) => {
            let k = ps@.len();
            let vs = Seq::new(k, |i: int| SType::Var(wrap(st.counter + i)));
            let st1 = InferenceState { counter: wrap(st.counter + k), errors: st.errors };
            let (st2, s) = unify_st(st1, ty, SType::Tuple(vs), p.span);
            binds_spec(st2, apply_env_spec(s, env), ps@, vs.map_values(|t: SType| apply(s, t)), k)
        },
    }
}

/// Binding the first `n` components of a tuple pattern to their types.
pub open spec fn binds_spec(st: InferenceState, env: Map<usize, SScheme>, ps: Seq<BindPat>, tys: Seq<SType>, n: nat) -> (InferenceState, Map<usize, SScheme>)
    decreases ps, n,
{
    if n == 0 || n > ps.len() {
        (st, env)
    } else {
        let (st1, env1) = binds_spec(st, env, ps, tys, (n - 1) as nat);
        bind_spec(st1, env1, ps[n - 1], tys[n - 1])
    }
}

/// Inferring an expression.
pub open spec fn infer_spec(st: InferenceState, env: Map<usize, SScheme>, e: Expr, names: Seq<Seq<char>>) -> InferOut
    decreases e, 0nat,
{
    match *e.kind {
        ExprKind::Literal(l) => InferOut { st, subst: Map::empty(), ty: lit_type(l) },
        ExprKind::Var(id) => var_spec(st, env, id, e.span, names),
        ExprKind::If { cond, then_expr, else_expr } => {
            let r1 = infer_spec(st, env, cond, names);
            let env1 = apply_env_spec(r1.subst, env);
            let r2 = infer_spec(r1.st, env1, then_expr, names);
            let env2 = apply_env_spec(r2.subst, env1);
            let r3 = infer_spec(r2.st, env2, else_expr, names);
            let cond_ty_s = apply(r3.subst, apply(r2.subst, r1.ty));
            let (st4, s4) = unify_st(r3.st, cond_ty_s, SType::Bool, cond.span);
            let then_ty_s = apply(s4, apply(r3.subst, r2.ty));
            let else_ty_s = apply(s4, r3.ty);
            let (st5, s5) = unify_st(st4, then_ty_s, else_ty_s, then_expr.span);
            let fin = compose(s5, compose(s4, compose(r3.subst, compose(r2.subst, r1.subst))));
            InferOut { st: st5, subst: fin, ty: apply(fin, r2.ty) }
        },
        ExprKind::BinOp { op, lhs, rhs } => {
            let (el, er, res) = binop_types(op);
            let r1 = infer_spec(st, env, lhs, names);
            let env1 = apply_env_spec(r1.subst, env);
            let r2 = infer_spec(r1.st, env1, rhs, names);
            let (st3, s3) = unify_st(r2.st, apply(r2.subst, r1.ty), el, lhs.span);
            let (st4, s4) = unify_st(st3, apply(s3, r2.ty), er, rhs.span);
            let fin = compose(s4, compose(s3, compose(r2.subst, r1.subst)));
            InferOut { st: st4, subst: fin, ty: apply(fin, res) }
        },
        ExprKind::UnaryOp { op, rhs } => {
            let (ea, res) = unary_types(op);
            let r1 = infer_spec(st, env, rhs, names);
            let (st2, s2) = unify_st(r1.st, apply(r1.subst, r1.ty), ea, rhs.span);
            let fin = compose(s2, r1.subst);
            InferOut { st: st2, subst: fin, ty: apply(fin, res) }
        },
        ExprKind::Let { bindings, body } => {
            if bindings@.len() > 0 && bindings@[0].rec {
                let (st1, rec_env, alphas) = rec_alphas_spec(st, env, bindings@, bindings@.len());
                let (st2, combined, vtys) = rec_values_spec(st1, rec_env, bindings@, alphas, e.span, names, bindings@.len());
                let (st3, new_env) = bind_all_spec(st2, apply_env_spec(combined, env), bindings@, vtys, bindings@.len());
                let r = infer_spec(st3, new_env, body, names);
                InferOut { st: r.st, subst: compose(r.subst, combined), ty: r.ty }
            } else {
                let (st1, env1) = let_values_spec(st, env, bindings@, names, bindings@.len());
                infer_spec(st1, env1, body, names)
            }
        },
        ExprKind::Match { scrutinee, arms } => {
            let r1 = infer_spec(st, env, scrutinee, names);
            let (st2, fin, body_ty) = arms_spec(r1.st, env, r1.subst, r1.ty, scrutinee.span, arms@, names, arms@.len());
            match body_ty {
                Some(t) => InferOut { st: st2, subst: fin, ty: apply(fin, t) },
                None => InferOut {
                    st: InferenceState {
                        counter: st2.counter,
                        errors: st2.errors.push(SInferenceError::NoMatchArms { span: e.span }),
                    },
                    subst: fin,
                    ty: SType::Never,
                },
            }
        },
        ExprKind::Abs { param, body } => {
            let pr = pat_spec(st, param);
            let r = infer_spec(pr.st, extend_env(env, pr.bindings), body, names);
            InferOut { st: r.st, subst: r.subst, ty: SType::Arrow(Box::new(apply(r.subst, pr.ty)), Box::new(r.ty)) }
        },
        ExprKind::App { func, arg } => {
            let (st0, result) = fresh(st);
            let r1 = infer_spec(st0, env, func, names);
            let r2 = infer_spec(r1.st, apply_env_spec(r1.subst, env), arg, names);
            let expected = SType::Arrow(Box::new(r2.ty), Box::new(result));
            let (st3, s3) = unify_st(r2.st, apply(r2.subst, r1.ty), expected, func.span);
            InferOut { st: st3, subst: compose(s3, compose(r2.subst, r1.subst)), ty: apply(s3, result) }
        },
        ExprKind::Tuple(items) => {
            let (st1, s, tys) = tuple_spec(st, env, items@, names, items@.len());
            InferOut { st: st1, subst: s, ty: SType::Tuple(tys) }
        },
        ExprKind::Type { definitions, body } => infer_spec(st, env, body, names),
        ExprKind::Constructor { name, arg } => match arg {
            None => var_spec(st, env, name, e.span, names),
            Some(a) => {
                let (st0, result) = fresh(st);
                let r1 = var_spec(st0, env, name, e.span, names);
                let r2 = infer_spec(r1.st, apply_env_spec(r1.subst, env), a, names);
                let expected = SType::Arrow(Box::new(r2.ty), Box::new(result));
                let (st3, s3) = unify_st(r2.st, apply(r2.subst, r1.ty), expected, e.span);
                InferOut { st: st3, subst: compose(s3, compose(r2.subst, r1.subst)), ty: apply(s3, result) }
            },
        },
    }
}

/// The first `n` items of a tuple, each inferred in the same environment; the
/// substitutions are composed and each type is applied the composition so far.
pub open spec fn tuple_spec(st: InferenceState, env: Map<usize, SScheme>, items: Seq<Expr>, names: Seq<Seq<char>>, n: nat) -> (InferenceState, Map<u64, SType>, Seq<SType>)
    decreases items, n,
{
    if n == 0 || n > items.len() {
        (st, Map::empty(), Seq::empty())
    } else {
        let (st1, s1, tys) = tuple_spec(st, env, items, names, (n - 1) as nat);
        let r = infer_spec(st1, env, items[n - 1], names);
        let s = compose(r.subst, s1);
        (r.st, s, tys.push(apply(s, r.ty)))
    }
}

/// The first `n` bindings of a non-recursive `let`: each value is inferred in
/// the environment so far, its substitution applied to that environment, and
/// its pattern bound.
pub open spec fn let_values_spec(st: InferenceState, env: Map<usize, SScheme>, bs: Seq<Binding>, names: Seq<Seq<char>>, n: nat) -> (InferenceState, Map<usize, SScheme>)
    decreases bs, n,
{
    if n == 0 || n > bs.len() {
        (st, env)
    } else {
        let (st1, env1) = let_values_spec(st, env, bs, names, (n - 1) as nat);
        let r = infer_spec(st1, env1, bs[n - 1].value, names);
        bind_spec(r.st, apply_env_spec(r.subst, env1), bs[n - 1].pat, r.ty)
    }
}

/// A fresh variable for each of the first `n` bindings of a recursive `let`;
/// a binding to a name puts the name, with that variable, in the environment.
pub open spec fn rec_alphas_spec(st: InferenceState, env: Map<usize, SScheme>, bs: Seq<Binding>, n: nat) -> (InferenceState, Map<usize, SScheme>, Seq<SType>)
    decreases n,
{
    if n == 0 || n > bs.len() {
        (st, env, Seq::empty())
    } else {
        let (st1, env1, alphas) = rec_alphas_spec(st, env, bs, (n - 1) as nat);
        let (st2, a) = fresh(st1);
        let env2 = match bs[n - 1].pat.kind {
            BindPatKind::Var(id) => env1.insert(id.name, SScheme { type_vars: Seq::empty(), ty: a }),
            BindPatKind::Tuple(_) => env1,
        };
        (st2, env2, alphas.push(a))
    }
}

/// The values of the first `n` bindings of a recursive `let`, each inferred
/// in the recursive environment under the substitution so far and unified
/// with its variable; gives the composed substitution and the value types.
pub open spec fn rec_values_spec(st: InferenceState, rec_env: Map<usize, SScheme>, bs: Seq<Binding>, alphas: Seq<SType>, span: Span, names: Seq<Seq<char>>, n: nat) -> (InferenceState, Map<u64, SType>, Seq<SType>)
    decreases bs, n,
{
    if n == 0 || n > bs.len() {
        (st, Map::empty(), Seq::empty())
    } else {
        let (st1, combined, vtys) = rec_values_spec(st, rec_env, bs, alphas, span, names, (n - 1) as nat);
        let r = infer_spec(st1, apply_env_spec(combined, rec_env), bs[n - 1].value, names);
        let c1 = compose(r.subst, combined);
        let (st2, su) = unify_st(r.st, apply(c1, alphas[n - 1]), apply(c1, r.ty), span);
        let c2 = compose(su, c1);
        (st2, c2, vtys.push(apply(c2, r.ty)))
    }
}

/// Binding the patterns of the first `n` bindings to their value types.
pub open spec fn bind_all_spec(st: InferenceState, env: Map<usize, SScheme>, bs: Seq<Binding>, vtys: Seq<SType>, n: nat) -> (InferenceState, Map<usize, SScheme>)
    decreases n,
{
    if n == 0 || n > bs.len() {
        (st, env)
    } else {
        let (st1, env1) = bind_all_spec(st, env, bs, vtys, (n - 1) as nat);
        bind_spec(st1, env1, bs[n - 1].pat, vtys[n - 1])
    }
}

/// The first `n` arms of a `match`: each pattern is unified with the
/// scrutinee's type, each body inferred with the pattern's bindings, and each
/// body type after the first unified with the first's.
pub open spec fn arms_spec(
    st: InferenceState,
    env: Map<usize, SScheme>,
    s0: Map<u64, SType>,
    scrut_ty: SType,
    scrut_span: Span,
    arms: Seq<(Pat, Expr)>,
    names: Seq<Seq<char>>,
    n: nat,
) -> (InferenceState, Map<u64, SType>, Option<SType>)
    decreases arms, n,
{
    if n == 0 || n > arms.len() {
        (st, s0, None)
    } else {
        let (st1, fin1, body_ty) = arms_spec(st, env, s0, scrut_ty, scrut_span, arms, names, (n - 1) as nat);
        let (pat, body) = arms[n - 1];
        let pr = pat_spec(st1, pat);
        let (st2, s_pat) = unify_st(pr.st, apply(fin1, pr.ty), apply(fin1, scrut_ty), scrut_span);
        let fin2 = compose(s_pat, fin1);
        let env_arm = extend_env(apply_env_spec(fin2, env), map_schemes(fin2, pr.bindings));
        let r = infer_spec(st2, env_arm, body, names);
        let fin3 = compose(r.subst, fin2);
        match body_ty {
            Some(prev) => {
                let (st4, s_uni) = unify_st(r.st, apply(fin3, prev), apply(fin3, r.ty), body.span);
                (st4, compose(s_uni, fin3), body_ty)
            },
            None => (r.st, fin3, Some(r.ty)),
        }
    }
}

/// One variable for each binding.
pub proof fn lemma_rec_alphas_len(st: InferenceState, env: Map<usize, SScheme>, bs: Seq<Binding>, n: nat)
    ensures
        rec_alphas_spec(st, env, bs, n).2.len() == (if n <= bs.len() { n } else { 0 }),
    decreases n,
{
    if n > 0 && n <= bs.len() {
        lemma_rec_alphas_len(st, env, bs, (n - 1) as nat);
    }
}

/// One value type for each binding.
pub proof fn lemma_rec_values_len(st: InferenceState, rec_env: Map<usize, SScheme>, bs: Seq<Binding>, alphas: Seq<SType>, span: Span, names: Seq<Seq<char>>, n: nat)
    ensures
        rec_values_spec(st, rec_env, bs, alphas, span, names, n).2.len() == (if n <= bs.len() { n } else { 0 }),
    decreases bs, n,
{
    if n > 0 && n <= bs.len() {
        lemma_rec_values_len(st, rec_env, bs, alphas, span, names, (n - 1) as nat);
    }
}

} // verus!

verus! {

/// The type of an operator expression depends on its operator alone, as the
/// language defines it: a comparison (`==`, `!=`, `<`, `>`, `<=`, `>=`) takes
/// two `Int`s and gives `Bool`; an arithmetic operator (`+`, `-`, `*`, `/`,
/// `^`) takes two `Int`s and gives `Int`; `&&` and `||` take two `Bool`s and
/// give `Bool`. Whatever the operands, inference gives that result type.
pub proof fn lemma_binop_typing(st: InferenceState, env: Map<usize, SScheme>, e: Expr, names: Seq<Seq<char>>)
    requires
        *e.kind is BinOp,
    ensures
        ({
            let op = (*e.kind)->BinOp_op;
            let ty = infer_spec(st, env, e, names).ty;
            &&& (op is Eq || op is NotEq || op is Lt || op is Gt || op is Le || op is Ge) ==> {
                &&& ty == SType::Bool
                &&& binop_types(op).0 == SType::Int
                &&& binop_types(op).1 == SType::Int
            }
            &&& (op is Add || op is Sub || op is Mul || op is Div || op is Pow) ==> {
                &&& ty == SType::Int
                &&& binop_types(op).0 == SType::Int
                &&& binop_types(op).1 == SType::Int
            }
            &&& (op is And || op is Or) ==> {
                &&& ty == SType::Bool
                &&& binop_types(op).0 == SType::Bool
                &&& binop_types(op).1 == SType::Bool
            }
        }),
{
}

/// A unary operator's type depends on the operator alone: `-` takes and
/// gives `Int`, `!` takes and gives `Bool`.
pub proof fn lemma_unary_typing(st: InferenceState, env: Map<usize, SScheme>, e: Expr, names: Seq<Seq<char>>)
    requires
        *e.kind is UnaryOp,
    ensures
        ({
            let op = (*e.kind)->UnaryOp_op;
            let ty = infer_spec(st, env, e, names).ty;
            &&& op is Neg ==> ty == SType::Int && unary_types(op).0 == SType::Int
            &&& op is Not ==> ty == SType::Bool && unary_types(op).0 == SType::Bool
        }),
{
}

} // verus!
