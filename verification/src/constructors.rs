//! Constructors of union types: collecting those that `type ... in`
//! defines, and resolving names and applications that use them.
use vstd::prelude::*;
use std::collections::{HashMap, HashSet};
use vstd::std_specs::hash::spec_hash_map_iter;
use vstd::std_specs::iter::IteratorSpec;
use crate::grammar::{texpr_view, variant_view, variants_view, SVariant};
use crate::ast::{
    BindPat, BindPatKind, Binding, Expr, ExprKind, FloatLit, Ident, Literal, Pat, PatKind,
    TypeDef, TypeExpr, TypeExprKind, VariantDef,
};

verus! {

broadcast use vstd::std_specs::hash::group_hash_axioms;

// ---------------------------------------------------------------------------
// Copies.
// ---------------------------------------------------------------------------

/// A copy of a type expression.
#[verifier::loop_isolation(false)]
pub fn clone_type_expr(t: &TypeExpr) -> (r: TypeExpr)
    ensures
        r.span == t.span,
        texpr_view(r) == texpr_view(*t),
    decreases t,
{
    match &*t.kind {
        TypeExprKind::Builtin(b) => TypeExpr { kind: Box::new(TypeExprKind::Builtin(*b)), span: t.span },
        TypeExprKind::Named(id) => TypeExpr { kind: Box::new(TypeExprKind::Named(*id)), span: t.span },
        TypeExprKind::Var(id) => TypeExpr { kind: Box::new(TypeExprKind::Var(*id)), span: t.span },
        TypeExprKind::Tuple(items) => {
            let mut out: Vec<TypeExpr> = Vec::new();
            let mut i: usize = 0;
            while i < items.len()
                invariant
                    i <= items.len(),
                    *t.kind == TypeExprKind::Tuple(*items),
                    out@.len() == i,
                    forall|j: int| 0 <= j < i ==> texpr_view(#[trigger] out@[j]) == texpr_view(items@[j]),
                decreases items.len() - i,
            {
                out.push(clone_type_expr(&items[i]));
                i = i + 1;
            }
            let ghost outv = out@;
            let r = TypeExpr { kind: Box::new(TypeExprKind::Tuple(out)), span: t.span };
            proof {
                assert((*texpr_view(r).kind)->Tuple_0 =~= (*texpr_view(*t).kind)->Tuple_0);
            }
            r
        },
        TypeExprKind::Arrow { from, to } => {
            let f = clone_type_expr(from);
            let g = clone_type_expr(to);
            TypeExpr { kind: Box::new(TypeExprKind::Arrow { from: f, to: g }), span: t.span }
        },
    }
}

/// Whether two variant lists name the same constructors, in order, each
/// with the same argument type, if any.
pub open spec fn variants_same(a: Seq<VariantDef>, b: Seq<VariantDef>) -> bool {
    a.len() == b.len() && forall|i: int| 0 <= i < a.len() ==> variant_view(#[trigger] a[i]) == variant_view(b[i])
}

/// A copy of a list of variants.
pub fn clone_variants(vs: &Vec<VariantDef>) -> (r: Vec<VariantDef>)
    ensures
        variants_same(vs@, r@),
{
    let mut out: Vec<VariantDef> = Vec::new();
    let mut i: usize = 0;
    while i < vs.len()
        invariant
            i <= vs.len(),
            out@.len() == i,
            forall|j: int| 0 <= j < i ==> variant_view(#[trigger] vs@[j]) == variant_view(out@[j]),
        decreases vs.len() - i,
    {
        let arg = match &vs[i].arg {
            Some(t) => Some(clone_type_expr(t)),
            None => None,
        };
        out.push(VariantDef { name: vs[i].name, arg });
        i = i + 1;
    }
    out
}

/// Whether two lists of type definitions define the same names with the
/// same variants.
pub open spec fn defs_same(a: Seq<TypeDef>, b: Seq<TypeDef>) -> bool {
    a.len() == b.len() && forall|i: int| 0 <= i < a.len() ==> (#[trigger] a[i]).name == b[i].name
        && variants_same(a[i].variants@, b[i].variants@) && a[i].params@ == b[i].params@
}

fn clone_defs(ds: &Vec<TypeDef>) -> (r: Vec<TypeDef>)
    ensures
        defs_same(ds@, r@),
{
    let mut out: Vec<TypeDef> = Vec::new();
    let mut i: usize = 0;
    while i < ds.len()
        invariant
            i <= ds.len(),
            out@.len() == i,
            forall|j: int| 0 <= j < i ==> (#[trigger] ds@[j]).name == out@[j].name
                && variants_same(ds@[j].variants@, out@[j].variants@) && ds@[j].params@ == out@[j].params@,
        decreases ds.len() - i,
    {
        let params = clone_idents(&ds[i].params);
        out.push(TypeDef { name: ds[i].name, params, variants: clone_variants(&ds[i].variants) });
        i = i + 1;
    }
    out
}

fn clone_idents(v: &Vec<Ident>) -> (r: Vec<Ident>)
    ensures
        r@ == v@,
{
    let mut out: Vec<Ident> = Vec::new();
    let mut i: usize = 0;
    while i < v.len()
        invariant
            i <= v.len(),
            out@ == v@.take(i as int),
        decreases v.len() - i,
    {
        out.push(v[i]);
        i = i + 1;
        assert(out@ =~= v@.take(i as int));
    }
    assert(v@.take(i as int) =~= v@);
    out
}

/// Whether two literals are the same.
pub open spec fn lit_same(a: Literal, b: Literal) -> bool {
    match (a, b) {
        (Literal::Int(x), Literal::Int(y)) => x == y,
        (Literal::Float(x), Literal::Float(y)) => x.text@ == y.text@,
        (Literal::Bool(x), Literal::Bool(y)) => x == y,
        _ => false,
    }
}

fn clone_lit(l: &Literal) -> (r: Literal)
    ensures
        lit_same(*l, r),
{
    match l {
        Literal::Int(n) => Literal::Int(*n),
        Literal::Float(f) => Literal::Float(FloatLit { text: f.text.clone() }),
        Literal::Bool(b) => Literal::Bool(*b),
    }
}

/// Whether two `let` patterns are the same.
pub open spec fn bind_pat_same(a: BindPat, b: BindPat) -> bool
    decreases a, 0nat,
{
    a.span == b.span && match (a.kind, b.kind) {
        (BindPatKind::Var(x), BindPatKind::Var(y)) => x == y,
        (BindPatKind::Tuple(xs), BindPatKind::Tuple(ys)) => xs@.len() == ys@.len() && bind_pats_same(xs@, ys@, xs@.len()),
        _ => false,
    }
}

/// Whether the first `n` `let` patterns of two lists are the same.
pub open spec fn bind_pats_same(a: Seq<BindPat>, b: Seq<BindPat>, n: nat) -> bool
    decreases a, n,
{
    if n == 0 || n > a.len() {
        true
    } else {
        bind_pats_same(a, b, (n - 1) as nat) && n <= b.len() && bind_pat_same(a[n - 1], b[n - 1])
    }
}

proof fn lemma_bind_pats_same_push(a: Seq<BindPat>, b: Seq<BindPat>, x: BindPat, n: nat)
    requires
        n <= b.len(),
        n <= a.len(),
    ensures
        bind_pats_same(a, b.push(x), n) == bind_pats_same(a, b, n),
    decreases n,
{
    if n > 0 {
        lemma_bind_pats_same_push(a, b, x, (n - 1) as nat);
        assert(b.push(x)[n - 1] == b[n - 1]);
    }
}

/// A copy of a `let` pattern.
#[verifier::loop_isolation(false)]
pub fn clone_bind_pat(p: &BindPat) -> (r: BindPat)
    ensures
        bind_pat_same(*p, r),
    decreases p,
{
    match &p.kind {
        BindPatKind::Var(id) => BindPat { kind: BindPatKind::Var(*id), span: p.span },
        BindPatKind::Tuple(ps) => {
            let mut out: Vec<BindPat> = Vec::new();
            let mut i: usize = 0;
            while i < ps.len()
                invariant
                    i <= ps.len(),
                    out@.len() == i,
                    bind_pats_same(ps@, out@, i as nat),
                decreases ps.len() - i,
            {
                let c = clone_bind_pat(&ps[i]);
                proof { lemma_bind_pats_same_push(ps@, out@, c, i as nat); }
                out.push(c);
                i = i + 1;
            }
            BindPat { kind: BindPatKind::Tuple(out), span: p.span }
        },
    }
}

// ---------------------------------------------------------------------------
// Collecting constructors.
// ---------------------------------------------------------------------------

/// The variants, by type name, of a map that `collect_constructors` fills.
pub open spec fn ctors_view(m: Map<usize, Vec<VariantDef>>) -> Map<usize, Seq<SVariant>> {
    m.map_values(|vs: Vec<VariantDef>| variants_view(vs@))
}

/// `m` with the first `n` definitions recorded, a later one replacing an
/// earlier one of the same name.
pub open spec fn defs_collect(m: Map<usize, Seq<SVariant>>, ds: Seq<TypeDef>, n: nat) -> Map<usize, Seq<SVariant>>
    decreases n,
{
    if n == 0 || n > ds.len() {
        m
    } else {
        defs_collect(m, ds, (n - 1) as nat).insert(ds[n - 1].name.name, variants_view(ds[n - 1].variants@))
    }
}

/// `m` with the definitions of `type ... in` in `e` recorded, in the order
/// they are met: an `if` in its condition, branches; a `let` in its values,
/// then its body; a `match` in its scrutinee and arm bodies; a lambda in its
/// body; an application in its function, then argument; a tuple in its
/// items; a constructor in its argument; an operator in its operands, left
/// to right.
pub open spec fn collect_spec(e: Expr, m: Map<usize, Seq<SVariant>>) -> Map<usize, Seq<SVariant>>
    decreases e, 0nat,
{
    match *e.kind {
        ExprKind::Type { definitions, body } => collect_spec(body, defs_collect(m, definitions@, definitions@.len())),
        ExprKind::If { cond, then_expr, else_expr } => collect_spec(else_expr, collect_spec(then_expr, collect_spec(cond, m))),
        ExprKind::Let { bindings, body } => collect_spec(body, bindings_collect(m, bindings@, bindings@.len())),
        ExprKind::Match { scrutinee, arms } => arms_collect(collect_spec(scrutinee, m), arms@, arms@.len()),
        ExprKind::Abs { param, body } => collect_spec(body, m),
        ExprKind::App { func, arg } => collect_spec(arg, collect_spec(func, m)),
        ExprKind::BinOp { op, lhs, rhs } => collect_spec(rhs, collect_spec(lhs, m)),
        ExprKind::UnaryOp { op, rhs } => collect_spec(rhs, m),
        ExprKind::Tuple(items) => items_collect(m, items@, items@.len()),
        ExprKind::Constructor { name, arg } => match arg {
            Some(a) => collect_spec(a, m),
            None => m,
        },
        _ => m,
    }
}

/// `m` with the definitions in the values of the first `n` bindings recorded.
pub open spec fn bindings_collect(m: Map<usize, Seq<SVariant>>, bs: Seq<Binding>, n: nat) -> Map<usize, Seq<SVariant>>
    decreases bs, n,
{
    if n == 0 || n > bs.len() {
        m
    } else {
        collect_spec(bs[n - 1].value, bindings_collect(m, bs, (n - 1) as nat))
    }
}

/// `m` with the definitions in the bodies of the first `n` arms recorded.
pub open spec fn arms_collect(m: Map<usize, Seq<SVariant>>, arms: Seq<(Pat, Expr)>, n: nat) -> Map<usize, Seq<SVariant>>
    decreases arms, n,
{
    if n == 0 || n > arms.len() {
        m
    } else {
        collect_spec(arms[n - 1].1, arms_collect(m, arms, (n - 1) as nat))
    }
}

/// `m` with the definitions in the first `n` items recorded.
pub open spec fn items_collect(m: Map<usize, Seq<SVariant>>, items: Seq<Expr>, n: nat) -> Map<usize, Seq<SVariant>>
    decreases items, n,
{
    if n == 0 || n > items.len() {
        m
    } else {
        collect_spec(items[n - 1], items_collect(m, items, (n - 1) as nat))
    }
}

/// The constructors that the `type ... in` definitions of an expression
/// define, by type name (see `collect_spec`).
pub fn collect_constructors(expr: &Expr) -> (m: HashMap<usize, Vec<VariantDef>>)
    ensures
        ctors_view(m@) == collect_spec(*expr, Map::empty()),
{
    let mut map: HashMap<usize, Vec<VariantDef>> = HashMap::new();
    assert(ctors_view(map@) =~= Map::<usize, Seq<SVariant>>::empty());
    collect_constructors_in_expr(expr, &mut map);
    map
}

proof fn lemma_variants_view(a: Seq<VariantDef>, b: Seq<VariantDef>)
    requires
        variants_same(a, b),
    ensures
        variants_view(a) == variants_view(b),
{
    assert(variants_view(a) =~= variants_view(b));
}

#[verifier::loop_isolation(false)]
fn collect_constructors_in_expr(expr: &Expr, map: &mut HashMap<usize, Vec<VariantDef>>)
    ensures
        ctors_view(final(map)@) == collect_spec(*expr, ctors_view(old(map)@)),
    decreases expr,
{
    let ghost m0 = ctors_view(map@);
    match &*expr.kind {
        ExprKind::Type { definitions, body } => {
            let mut i: usize = 0;
            while i < definitions.len()
                invariant
                    i <= definitions.len(),
                    ctors_view(map@) == defs_collect(m0, definitions@, i as nat),
                decreases definitions.len() - i,
            {
                let vs = clone_variants(&definitions[i].variants);
                proof { lemma_variants_view(definitions@[i as int].variants@, vs@); }
                map.insert(definitions[i].name.name, vs);
                i = i + 1;
                assert(ctors_view(map@) =~= defs_collect(m0, definitions@, i as nat));
            }
            collect_constructors_in_expr(body, map);
        },
        ExprKind::If { cond, then_expr, else_expr } => {
            collect_constructors_in_expr(cond, map);
            collect_constructors_in_expr(then_expr, map);
            collect_constructors_in_expr(else_expr, map);
        },
        ExprKind::Let { bindings, body } => {
            let mut i: usize = 0;
            while i < bindings.len()
                invariant
                    i <= bindings.len(),
                    ctors_view(map@) == bindings_collect(m0, bindings@, i as nat),
                decreases bindings.len() - i,
            {
                collect_constructors_in_expr(&bindings[i].value, map);
                i = i + 1;
            }
            collect_constructors_in_expr(body, map);
        },
        ExprKind::Match { scrutinee, arms } => {
            collect_constructors_in_expr(scrutinee, map);
            let ghost m1 = ctors_view(map@);
            let mut i: usize = 0;
            while i < arms.len()
                invariant
                    i <= arms.len(),
                    ctors_view(map@) == arms_collect(m1, arms@, i as nat),
                decreases arms.len() - i,
            {
                collect_constructors_in_expr(&arms[i].1, map);
                i = i + 1;
            }
        },
        ExprKind::Abs { body, .. } => collect_constructors_in_expr(body, map),
        ExprKind::App { func, arg } => {
            collect_constructors_in_expr(func, map);
            collect_constructors_in_expr(arg, map);
        },
        ExprKind::BinOp { lhs, rhs, .. } => {
            collect_constructors_in_expr(lhs, map);
            collect_constructors_in_expr(rhs, map);
        },
        ExprKind::UnaryOp { rhs, .. } => collect_constructors_in_expr(rhs, map),
        ExprKind::Tuple(items) => {
            let mut i: usize = 0;
            while i < items.len()
                invariant
                    i <= items.len(),
                    ctors_view(map@) == items_collect(m0, items@, i as nat),
                decreases items.len() - i,
            {
                collect_constructors_in_expr(&items[i], map);
                i = i + 1;
            }
        },
        ExprKind::Constructor { arg, .. } => {
            match arg {
                Some(a) => collect_constructors_in_expr(a, map),
                None => {},
            }
        },
        _ => {},
    }
}

/// All constructor names of a collected map.
pub open spec fn names_of_ctors(m: Map<usize, Seq<SVariant>>) -> Set<usize> {
    Set::new(|n: usize| exists|k: usize, i: int| m.contains_key(k) && 0 <= i < m[k].len() && #[trigger] m[k][i].name.name == n)
}

/// The set of constructor names that a collected map holds.
pub fn constructor_names(map: &HashMap<usize, Vec<VariantDef>>) -> (s: HashSet<usize>)
    ensures
        s@ == names_of_ctors(ctors_view(map@)),
{
    let ghost m = ctors_view(map@);
    let mut names: HashSet<usize> = HashSet::new();
    let ghost q = spec_hash_map_iter(map).remaining();
    for (k, variants) in it: map.iter()
        invariant
            it.seq() == q,
            m == ctors_view(map@),
            names@ == Set::new(|n: usize| exists|j: int, i: int| 0 <= j < it.index() && 0 <= i < q[j].1@.len()
                && #[trigger] q[j].1@[i].name.name == n),
    {
        let ghost before = names@;
        let mut i: usize = 0;
        while i < variants.len()
            invariant
                i <= variants.len(),
                names@ == before + Set::new(|n: usize| exists|x: int| 0 <= x < i && #[trigger] variants@[x].name.name == n),
            decreases variants.len() - i,
        {
            names.insert(variants[i].name.name);
            i = i + 1;
            assert(names@ =~= before + Set::new(|n: usize| exists|x: int| 0 <= x < i && #[trigger] variants@[x].name.name == n));
        }
        assert(names@ =~= Set::new(|n: usize| exists|j: int, x: int| 0 <= j < it.index() + 1 && 0 <= x < q[j].1@.len()
            && #[trigger] q[j].1@[x].name.name == n)) by {
            assert forall|n: usize| names@.contains(n) implies exists|j: int, x: int| 0 <= j < it.index() + 1 && 0 <= x < q[j].1@.len()
                && #[trigger] q[j].1@[x].name.name == n by {
                if !before.contains(n) {
                    let x = choose|x: int| 0 <= x < i && #[trigger] variants@[x].name.name == n;
                    assert(q[it.index() as int].1@[x].name.name == n);
                }
            }
            assert forall|n: usize| (exists|j: int, x: int| 0 <= j < it.index() + 1 && 0 <= x < q[j].1@.len()
                && #[trigger] q[j].1@[x].name.name == n) implies names@.contains(n) by {
                let (j, x) = choose|j: int, x: int| 0 <= j < it.index() + 1 && 0 <= x < q[j].1@.len()
                    && #[trigger] q[j].1@[x].name.name == n;
                if j < it.index() {
                    assert(before.contains(n));
                } else {
                    assert(variants@[x].name.name == n);
                }
            }
        }
    }
    proof {
        assert(names@ =~= names_of_ctors(m)) by {
            assert forall|n: usize| names@.contains(n) implies names_of_ctors(m).contains(n) by {
                let (j, x) = choose|j: int, x: int| 0 <= j < q.len() && 0 <= x < q[j].1@.len()
                    && #[trigger] q[j].1@[x].name.name == n;
                let k = *q[j].0;
                assert(map@.contains_key(k) && map@[k] == *q[j].1);
                assert(m[k][x].name.name == n);
            }
            assert forall|n: usize| names_of_ctors(m).contains(n) implies names@.contains(n) by {
                let (k, x) = choose|k: usize, x: int| m.contains_key(k) && 0 <= x < m[k].len() && #[trigger] m[k][x].name.name == n;
                assert(q.contains((&k, &map@[k])));
                let j = choose|j: int| 0 <= j < q.len() && q[j] == (&k, &map@[k]);
                assert(q[j].1@[x].name.name == n);
            }
        }
    }
    names
}

// ---------------------------------------------------------------------------
// Resolving constructors.
// ---------------------------------------------------------------------------

/// The nullary constructor that pattern `p` resolves to, if any: a name in
/// `cs`, or a constructor without argument.
pub open spec fn nullary_pat(p: Pat, cs: Set<usize>) -> Option<Ident> {
    match *p.kind {
        PatKind::Var(id) => if cs.contains(id.name) { Some(id) } else { None },
        PatKind::Constructor { name, arg } => match arg {
            None => Some(name),
            Some(_) => None,
        },
        _ => None,
    }
}

/// Whether `r` is pattern `p` with constructors `cs` resolved: a name in
/// `cs` becomes a constructor without argument, and an application whose
/// function resolves to one becomes that constructor applied to the
/// resolved argument; everything else keeps its shape and span.
pub open spec fn pat_resolved(p: Pat, r: Pat, cs: Set<usize>) -> bool
    decreases p, 0nat,
{
    r.span == p.span && match *p.kind {
        PatKind::Var(id) => if cs.contains(id.name) {
            *r.kind == (PatKind::Constructor { name: id, arg: None })
        } else {
            *r.kind == PatKind::Var(id)
        },
        PatKind::Wildcard => *r.kind is Wildcard,
        PatKind::Lit(l) => match *r.kind {
            PatKind::Lit(l2) => lit_same(l, l2),
            _ => false,
        },
        PatKind::Or(a, b) => match *r.kind {
            PatKind::Or(a2, b2) => pat_resolved(a, a2, cs) && pat_resolved(b, b2, cs),
            _ => false,
        },
        PatKind::Tuple(ps) => match *r.kind {
            PatKind::Tuple(qs) => qs@.len() == ps@.len() && pats_resolved(ps@, qs@, cs, ps@.len()),
            _ => false,
        },
        PatKind::App { func, arg } => match nullary_pat(func, cs) {
            Some(n) => match *r.kind {
                PatKind::Constructor { name, arg: Some(a2) } => name == n && pat_resolved(arg, a2, cs),
                _ => false,
            },
            None => match *r.kind {
                PatKind::App { func: f2, arg: a2 } => pat_resolved(func, f2, cs) && pat_resolved(arg, a2, cs),
                _ => false,
            },
        },
        PatKind::Constructor { name, arg } => match *r.kind {
            PatKind::Constructor { name: n2, arg: a2 } => n2 == name && match (arg, a2) {
                (Some(x), Some(y)) => pat_resolved(x, y, cs),
                (None, None) => true,
                _ => false,
            },
            _ => false,
        },
    }
}

/// Whether the first `n` patterns of `qs` are those of `ps` resolved.
pub open spec fn pats_resolved(ps: Seq<Pat>, qs: Seq<Pat>, cs: Set<usize>, n: nat) -> bool
    decreases ps, n,
{
    if n == 0 || n > ps.len() {
        true
    } else {
        pats_resolved(ps, qs, cs, (n - 1) as nat) && n <= qs.len() && pat_resolved(ps[n - 1], qs[n - 1], cs)
    }
}

proof fn lemma_pats_resolved_push(ps: Seq<Pat>, qs: Seq<Pat>, x: Pat, cs: Set<usize>, n: nat)
    requires
        n <= qs.len(),
        n <= ps.len(),
    ensures
        pats_resolved(ps, qs.push(x), cs, n) == pats_resolved(ps, qs, cs, n),
    decreases n,
{
    if n > 0 {
        lemma_pats_resolved_push(ps, qs, x, cs, (n - 1) as nat);
        assert(qs.push(x)[n - 1] == qs[n - 1]);
    }
}

/// Resolves constructors `constructors` in a pattern (see `pat_resolved`).
#[verifier::loop_isolation(false)]
pub fn resolve_pat(pat: &Pat, constructors: &HashSet<usize>) -> (r: Pat)
    ensures
        pat_resolved(*pat, r, constructors@),
    decreases pat,
{
    let span = pat.span;
    match &*pat.kind {
        PatKind::Var(ident) => {
            if constructors.contains(&ident.name) {
                Pat { kind: Box::new(PatKind::Constructor { name: *ident, arg: None }), span }
            } else {
                Pat { kind: Box::new(PatKind::Var(*ident)), span }
            }
        },
        PatKind::App { func, arg } => {
            let f2 = resolve_pat(func, constructors);
            let a2 = resolve_pat(arg, constructors);
            let nullary = match &*f2.kind {
                PatKind::Constructor { name, arg: None } => Some(*name),
                _ => None,
            };
            match nullary {
                Some(name) => Pat { kind: Box::new(PatKind::Constructor { name, arg: Some(a2) }), span },
                None => Pat { kind: Box::new(PatKind::App { func: f2, arg: a2 }), span },
            }
        },
        PatKind::Or(a, b) => {
            let a2 = resolve_pat(a, constructors);
            let b2 = resolve_pat(b, constructors);
            Pat { kind: Box::new(PatKind::Or(a2, b2)), span }
        },
        PatKind::Tuple(pats) => {
            let mut out: Vec<Pat> = Vec::new();
            let mut i: usize = 0;
            while i < pats.len()
                invariant
                    i <= pats.len(),
                    out@.len() == i,
                    pats_resolved(pats@, out@, constructors@, i as nat),
                decreases pats.len() - i,
            {
                let q = resolve_pat(&pats[i], constructors);
                proof { lemma_pats_resolved_push(pats@, out@, q, constructors@, i as nat); }
                out.push(q);
                i = i + 1;
            }
            Pat { kind: Box::new(PatKind::Tuple(out)), span }
        },
        PatKind::Constructor { name, arg } => {
            let new_arg = match arg {
                Some(a) => Some(resolve_pat(a, constructors)),
                None => None,
            };
            Pat { kind: Box::new(PatKind::Constructor { name: *name, arg: new_arg }), span }
        },
        PatKind::Wildcard => Pat { kind: Box::new(PatKind::Wildcard), span },
        PatKind::Lit(lit) => Pat { kind: Box::new(PatKind::Lit(clone_lit(lit))), span },
    }
}

/// The nullary constructor that expression `e` resolves to, if any.
pub open spec fn nullary_expr(e: Expr, cs: Set<usize>) -> Option<Ident> {
    match *e.kind {
        ExprKind::Var(id) => if cs.contains(id.name) { Some(id) } else { None },
        ExprKind::Constructor { name, arg } => match arg {
            None => Some(name),
            Some(_) => None,
        },
        _ => None,
    }
}

/// Whether `r` is expression `e` with constructors `cs` resolved: a
/// variable in `cs` becomes a constructor without argument, an application
/// whose function resolves to one becomes that constructor applied to the
/// resolved argument, and patterns are resolved (see `pat_resolved`). The
/// operands of operators are kept as they are; everything keeps its span.
pub open spec fn expr_resolved(e: Expr, r: Expr, cs: Set<usize>) -> bool
    decreases e, 0nat,
{
    r.span == e.span && match *e.kind {
        ExprKind::Var(id) => if cs.contains(id.name) {
            *r.kind == (ExprKind::Constructor { name: id, arg: None })
        } else {
            *r.kind == ExprKind::Var(id)
        },
        ExprKind::App { func, arg } => match nullary_expr(func, cs) {
            Some(n) => match *r.kind {
                ExprKind::Constructor { name, arg: Some(a2) } => name == n && expr_resolved(arg, a2, cs),
                _ => false,
            },
            None => match *r.kind {
                ExprKind::App { func: f2, arg: a2 } => expr_resolved(func, f2, cs) && expr_resolved(arg, a2, cs),
                _ => false,
            },
        },
        ExprKind::Type { definitions, body } => match *r.kind {
            ExprKind::Type { definitions: d2, body: b2 } => defs_same(definitions@, d2@) && expr_resolved(body, b2, cs),
            _ => false,
        },
        ExprKind::If { cond, then_expr, else_expr } => match *r.kind {
            ExprKind::If { cond: c2, then_expr: t2, else_expr: e2 } =>
                expr_resolved(cond, c2, cs) && expr_resolved(then_expr, t2, cs) && expr_resolved(else_expr, e2, cs),
            _ => false,
        },
        ExprKind::Let { bindings, body } => match *r.kind {
            ExprKind::Let { bindings: b2, body: body2 } => b2@.len() == bindings@.len()
                && bindings_resolved(bindings@, b2@, cs, bindings@.len()) && expr_resolved(body, body2, cs),
            _ => false,
        },
        ExprKind::Match { scrutinee, arms } => match *r.kind {
            ExprKind::Match { scrutinee: s2, arms: a2 } => a2@.len() == arms@.len()
                && expr_resolved(scrutinee, s2, cs) && arms_resolved(arms@, a2@, cs, arms@.len()),
            _ => false,
        },
        ExprKind::Abs { param, body } => match *r.kind {
            ExprKind::Abs { param: p2, body: b2 } => pat_resolved(param, p2, cs) && expr_resolved(body, b2, cs),
            _ => false,
        },
        ExprKind::Tuple(items) => match *r.kind {
            ExprKind::Tuple(i2) => i2@.len() == items@.len() && items_resolved(items@, i2@, cs, items@.len()),
            _ => false,
        },
        ExprKind::Constructor { name, arg } => match *r.kind {
            ExprKind::Constructor { name: n2, arg: a2 } => n2 == name && match (arg, a2) {
                (Some(x), Some(y)) => expr_resolved(x, y, cs),
                (None, None) => true,
                _ => false,
            },
            _ => false,
        },
        ExprKind::Literal(l) => match *r.kind {
            ExprKind::Literal(l2) => lit_same(l, l2),
            _ => false,
        },
        ExprKind::BinOp { op, lhs, rhs } => match *r.kind {
            ExprKind::BinOp { op: op2, lhs: l2, rhs: r2 } => op2 == op
                && expr_resolved(lhs, l2, cs) && expr_resolved(rhs, r2, cs),
            _ => false,
        },
        ExprKind::UnaryOp { op, rhs } => match *r.kind {
            ExprKind::UnaryOp { op: op2, rhs: r2 } => op2 == op && expr_resolved(rhs, r2, cs),
            _ => false,
        },
    }
}

/// Whether the first `n` items of `b` are those of `a` resolved.
pub open spec fn items_resolved(a: Seq<Expr>, b: Seq<Expr>, cs: Set<usize>, n: nat) -> bool
    decreases a, n,
{
    if n == 0 || n > a.len() {
        true
    } else {
        items_resolved(a, b, cs, (n - 1) as nat) && n <= b.len() && expr_resolved(a[n - 1], b[n - 1], cs)
    }
}

/// Whether the first `n` bindings of `b` are those of `a` with their values resolved.
pub open spec fn bindings_resolved(a: Seq<Binding>, b: Seq<Binding>, cs: Set<usize>, n: nat) -> bool
    decreases a, n,
{
    if n == 0 || n > a.len() {
        true
    } else {
        bindings_resolved(a, b, cs, (n - 1) as nat) && n <= b.len() && b[n - 1].rec == a[n - 1].rec
            && bind_pat_same(a[n - 1].pat, b[n - 1].pat) && expr_resolved(a[n - 1].value, b[n - 1].value, cs)
    }
}

/// Whether the first `n` arms of `b` are those of `a` resolved.
pub open spec fn arms_resolved(a: Seq<(Pat, Expr)>, b: Seq<(Pat, Expr)>, cs: Set<usize>, n: nat) -> bool
    decreases a, n,
{
    if n == 0 || n > a.len() {
        true
    } else {
        arms_resolved(a, b, cs, (n - 1) as nat) && n <= b.len() && pat_resolved(a[n - 1].0, b[n - 1].0, cs)
            && expr_resolved(a[n - 1].1, b[n - 1].1, cs)
    }
}

proof fn lemma_items_resolved_push(a: Seq<Expr>, b: Seq<Expr>, x: Expr, cs: Set<usize>, n: nat)
    requires
        n <= b.len(),
        n <= a.len(),
    ensures
        items_resolved(a, b.push(x), cs, n) == items_resolved(a, b, cs, n),
    decreases n,
{
    if n > 0 {
        lemma_items_resolved_push(a, b, x, cs, (n - 1) as nat);
        assert(b.push(x)[n - 1] == b[n - 1]);
    }
}

proof fn lemma_bindings_resolved_push(a: Seq<Binding>, b: Seq<Binding>, x: Binding, cs: Set<usize>, n: nat)
    requires
        n <= b.len(),
        n <= a.len(),
    ensures
        bindings_resolved(a, b.push(x), cs, n) == bindings_resolved(a, b, cs, n),
    decreases n,
{
    if n > 0 {
        lemma_bindings_resolved_push(a, b, x, cs, (n - 1) as nat);
        assert(b.push(x)[n - 1] == b[n - 1]);
    }
}

proof fn lemma_arms_resolved_push(a: Seq<(Pat, Expr)>, b: Seq<(Pat, Expr)>, x: (Pat, Expr), cs: Set<usize>, n: nat)
    requires
        n <= b.len(),
        n <= a.len(),
    ensures
        arms_resolved(a, b.push(x), cs, n) == arms_resolved(a, b, cs, n),
    decreases n,
{
    if n > 0 {
        lemma_arms_resolved_push(a, b, x, cs, (n - 1) as nat);
        assert(b.push(x)[n - 1] == b[n - 1]);
    }
}

/// Resolves constructors `constructors` in an expression (see `expr_resolved`).
#[verifier::loop_isolation(false)]
fn resolve_expr(expr: &Expr, constructors: &HashSet<usize>) -> (r: Expr)
    ensures
        expr_resolved(*expr, r, constructors@),
    decreases expr,
{
    let span = expr.span;
    match &*expr.kind {
        ExprKind::Var(ident) => {
            if constructors.contains(&ident.name) {
                Expr { kind: Box::new(ExprKind::Constructor { name: *ident, arg: None }), span }
            } else {
                Expr { kind: Box::new(ExprKind::Var(*ident)), span }
            }
        },
        ExprKind::App { func, arg } => {
            let f2 = resolve_expr(func, constructors);
            let a2 = resolve_expr(arg, constructors);
            let nullary = match &*f2.kind {
                ExprKind::Constructor { name, arg: None } => Some(*name),
                _ => None,
            };
            match nullary {
                Some(name) => Expr { kind: Box::new(ExprKind::Constructor { name, arg: Some(a2) }), span },
                None => Expr { kind: Box::new(ExprKind::App { func: f2, arg: a2 }), span },
            }
        },
        ExprKind::Type { definitions, body } => {
            let b2 = resolve_expr(body, constructors);
            Expr { kind: Box::new(ExprKind::Type { definitions: clone_defs(definitions), body: b2 }), span }
        },
        ExprKind::If { cond, then_expr, else_expr } => {
            let c2 = resolve_expr(cond, constructors);
            let t2 = resolve_expr(then_expr, constructors);
            let e2 = resolve_expr(else_expr, constructors);
            Expr { kind: Box::new(ExprKind::If { cond: c2, then_expr: t2, else_expr: e2 }), span }
        },
        ExprKind::Let { bindings, body } => {
            let mut out: Vec<Binding> = Vec::new();
            let mut i: usize = 0;
            while i < bindings.len()
                invariant
                    i <= bindings.len(),
                    out@.len() == i,
                    bindings_resolved(bindings@, out@, constructors@, i as nat),
                decreases bindings.len() - i,
            {
                let b = &bindings[i];
                let nb = Binding { rec: b.rec, pat: clone_bind_pat(&b.pat), value: resolve_expr(&b.value, constructors) };
                proof { lemma_bindings_resolved_push(bindings@, out@, nb, constructors@, i as nat); }
                out.push(nb);
                i = i + 1;
            }
            let body2 = resolve_expr(body, constructors);
            Expr { kind: Box::new(ExprKind::Let { bindings: out, body: body2 }), span }
        },
        ExprKind::Match { scrutinee, arms } => {
            let s2 = resolve_expr(scrutinee, constructors);
            let mut out: Vec<(Pat, Expr)> = Vec::new();
            let mut i: usize = 0;
            while i < arms.len()
                invariant
                    i <= arms.len(),
                    out@.len() == i,
                    arms_resolved(arms@, out@, constructors@, i as nat),
                decreases arms.len() - i,
            {
                let p2 = resolve_pat(&arms[i].0, constructors);
                let e2 = resolve_expr(&arms[i].1, constructors);
                proof { lemma_arms_resolved_push(arms@, out@, (p2, e2), constructors@, i as nat); }
                out.push((p2, e2));
                i = i + 1;
            }
            Expr { kind: Box::new(ExprKind::Match { scrutinee: s2, arms: out }), span }
        },
        ExprKind::Abs { param, body } => {
            let p2 = resolve_pat(param, constructors);
            let b2 = resolve_expr(body, constructors);
            Expr { kind: Box::new(ExprKind::Abs { param: p2, body: b2 }), span }
        },
        ExprKind::Tuple(items) => {
            let mut out: Vec<Expr> = Vec::new();
            let mut i: usize = 0;
            while i < items.len()
                invariant
                    i <= items.len(),
                    out@.len() == i,
                    items_resolved(items@, out@, constructors@, i as nat),
                decreases items.len() - i,
            {
                let e2 = resolve_expr(&items[i], constructors);
                proof { lemma_items_resolved_push(items@, out@, e2, constructors@, i as nat); }
                out.push(e2);
                i = i + 1;
            }
            Expr { kind: Box::new(ExprKind::Tuple(out)), span }
        },
        ExprKind::Constructor { name, arg } => {
            let new_arg = match arg {
                Some(a) => Some(resolve_expr(a, constructors)),
                None => None,
            };
            Expr { kind: Box::new(ExprKind::Constructor { name: *name, arg: new_arg }), span }
        },
        ExprKind::Literal(lit) => Expr { kind: Box::new(ExprKind::Literal(clone_lit(lit))), span },
        ExprKind::BinOp { op, lhs, rhs } => {
            let l2 = resolve_expr(lhs, constructors);
            let r2 = resolve_expr(rhs, constructors);
            Expr { kind: Box::new(ExprKind::BinOp { op: *op, lhs: l2, rhs: r2 }), span }
        },
        ExprKind::UnaryOp { op, rhs } => {
            let r2 = resolve_expr(rhs, constructors);
            Expr { kind: Box::new(ExprKind::UnaryOp { op: *op, rhs: r2 }), span }
        },
    }
}

/// Resolves the constructors `constructors` in an expression: names become
/// constructors, and applications of them constructors with arguments (see
/// `expr_resolved`).
pub fn resolve_constructors(expr: &Expr, constructors: &HashSet<usize>) -> (r: Expr)
    ensures
        expr_resolved(*expr, r, constructors@),
{
    resolve_expr(expr, constructors)
}

} // verus!
