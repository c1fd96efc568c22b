//! Laws of substitutions and unification.
use vstd::prelude::*;
use crate::ast::Span;
use crate::hir::{SType, occurs, lemma_occurs_in, vars};
use crate::typecheck::{apply, apply_fuel, compose, unify_spec, unify_tuple_spec, is_absorbing, same_base};

verus! {

/// No variable of `t` is bound by `s`.
pub open spec fn binds_none_of(s: Map<u64, SType>, t: SType) -> bool {
    forall|v: u64| occurs(v, t) ==> !s.contains_key(v)
}

/// Every binding of `s` is free of the variables that `s` binds.
pub open spec fn resolved(s: Map<u64, SType>) -> bool {
    forall|k: u64| #[trigger] s.contains_key(k) ==> binds_none_of(s, s[k])
}

/// Replaces each variable of `t` bound by `s` with its binding, once.
pub open spec fn subst1(s: Map<u64, SType>, t: SType) -> SType
    decreases t,
{
    match t {
        SType::Var(v) => if s.contains_key(v) { s[v] } else { t },
        SType::Arrow(a, b) => SType::Arrow(Box::new(subst1(s, *a)), Box::new(subst1(s, *b))),
        SType::Tuple(ts) => SType::Tuple(
            Seq::new(ts.len(), |i: int| if 0 <= i < ts.len() { subst1(s, ts[i]) } else { SType::Never }),
        ),
        _ => t,
    }
}

/// Resolving a type none of whose variables is bound leaves it unchanged.
pub proof fn lemma_apply_fuel_unbound(s: Map<u64, SType>, t: SType, fuel: nat)
    requires
        binds_none_of(s, t),
    ensures
        apply_fuel(s, t, fuel) == t,
    decreases t,
{
    match t {
        SType::Var(w) => {
            assert(occurs(w, t));
        },
        SType::Arrow(a, b) => {
            assert forall|v: u64| occurs(v, *a) implies !s.contains_key(v) by {
                assert(occurs(v, t));
            }
            assert forall|v: u64| occurs(v, *b) implies !s.contains_key(v) by {
                assert(occurs(v, t));
            }
            lemma_apply_fuel_unbound(s, *a, fuel);
            lemma_apply_fuel_unbound(s, *b, fuel);
        },
        SType::Tuple(ts) => {
            assert forall|i: int| 0 <= i < ts.len() implies apply_fuel(s, ts[i], fuel) == ts[i] by {
                assert forall|v: u64| occurs(v, ts[i]) implies !s.contains_key(v) by {
                    lemma_occurs_in(v, ts);
                    assert(occurs(v, t));
                }
                lemma_apply_fuel_unbound(s, ts[i], fuel);
            }
            assert(apply_fuel(s, t, fuel)->Tuple_0 =~= ts);
        },
        _ => {},
    }
}

/// Under a resolved substitution, resolving with any positive fuel is one-step substitution.
pub proof fn lemma_apply_fuel_resolved(s: Map<u64, SType>, t: SType, fuel: nat)
    requires
        resolved(s),
        fuel > 0,
    ensures
        apply_fuel(s, t, fuel) == subst1(s, t),
    decreases t,
{
    match t {
        SType::Var(v) => {
            if s.contains_key(v) {
                lemma_apply_fuel_unbound(s, s[v], (fuel - 1) as nat);
            }
        },
        SType::Arrow(a, b) => {
            lemma_apply_fuel_resolved(s, *a, fuel);
            lemma_apply_fuel_resolved(s, *b, fuel);
        },
        SType::Tuple(ts) => {
            assert forall|i: int| 0 <= i < ts.len() implies apply_fuel(s, ts[i], fuel) == subst1(s, ts[i]) by {
                lemma_apply_fuel_resolved(s, ts[i], fuel);
            }
            assert(apply_fuel(s, t, fuel)->Tuple_0 =~= subst1(s, t)->Tuple_0);
        },
        _ => {},
    }
}

/// One-step substitution with an empty map is the identity.
pub proof fn lemma_subst1_empty(t: SType)
    ensures
        subst1(Map::empty(), t) == t,
    decreases t,
{
    match t {
        SType::Arrow(a, b) => {
            lemma_subst1_empty(*a);
            lemma_subst1_empty(*b);
        },
        SType::Tuple(ts) => {
            assert forall|i: int| 0 <= i < ts.len() implies subst1(Map::empty(), ts[i]) == ts[i] by {
                lemma_subst1_empty(ts[i]);
            }
            assert(subst1(Map::empty(), t)->Tuple_0 =~= ts);
        },
        _ => {},
    }
}

/// Under a resolved substitution, `apply` is one-step substitution.
pub proof fn lemma_apply_resolved(s: Map<u64, SType>, t: SType)
    requires
        resolved(s),
        s.dom().finite(),
    ensures
        apply(s, t) == subst1(s, t),
{
    if s.dom().len() > 0 {
        lemma_apply_fuel_resolved(s, t, s.dom().len());
    } else {
        assert(s =~= Map::empty());
        lemma_apply_fuel_unbound(s, t, 0);
        lemma_subst1_empty(t);
    }
}

/// The variables of a one-step substitution result: the unbound variables of
/// `t`, and the variables of the bindings of its bound ones.
pub proof fn lemma_occurs_subst1(s: Map<u64, SType>, t: SType, v: u64)
    ensures
        occurs(v, subst1(s, t)) <==> ((occurs(v, t) && !s.contains_key(v)) || exists|k: u64|
            occurs(k, t) && s.contains_key(k) && occurs(v, #[trigger] s[k])),
    decreases t,
{
    match t {
        SType::Var(w) => {
            if s.contains_key(w) {
                if occurs(v, s[w]) {
                    assert(occurs(w, t));
                }
            }
        },
        SType::Arrow(a, b) => {
            lemma_occurs_subst1(s, *a, v);
            lemma_occurs_subst1(s, *b, v);
            if exists|k: u64| occurs(k, t) && s.contains_key(k) && occurs(v, #[trigger] s[k]) {
                let k = choose|k: u64| occurs(k, t) && s.contains_key(k) && occurs(v, #[trigger] s[k]);
                if occurs(k, *a) {} else {}
            }
        },
        SType::Tuple(ts) => {
            let us = subst1(s, t)->Tuple_0;
            lemma_occurs_in(v, us);
            lemma_occurs_in(v, ts);
            assert forall|i: int| 0 <= i < ts.len() implies (occurs(v, us[i]) <==> ((occurs(v, ts[i]) && !s.contains_key(v)) || exists|k: u64|
                occurs(k, ts[i]) && s.contains_key(k) && occurs(v, #[trigger] s[k]))) by {
                lemma_occurs_subst1(s, ts[i], v);
            }
            if exists|k: u64| occurs(k, t) && s.contains_key(k) && occurs(v, #[trigger] s[k]) {
                let k = choose|k: u64| occurs(k, t) && s.contains_key(k) && occurs(v, #[trigger] s[k]);
                lemma_occurs_in(k, ts);
                let i = choose|i: int| 0 <= i < ts.len() && occurs(k, ts[i]);
                assert(occurs(v, us[i]));
            }
            if occurs(v, subst1(s, t)) {
                let i = choose|i: int| 0 <= i < us.len() && occurs(v, us[i]);
                if occurs(v, ts[i]) && !s.contains_key(v) {
                } else {
                    let k = choose|k: u64| occurs(k, ts[i]) && s.contains_key(k) && occurs(v, #[trigger] s[k]);
                    lemma_occurs_in(k, ts);
                    assert(occurs(k, t));
                }
            }
        },
        _ => {},
    }
}

} // verus!

verus! {

/// No binding of `s1` mentions a variable that `s2` binds.
pub open spec fn ranges_avoid(s1: Map<u64, SType>, s2: Map<u64, SType>) -> bool {
    forall|k: u64, v: u64| s1.contains_key(k) && #[trigger] occurs(v, s1[k]) ==> !s2.contains_key(v)
}

proof fn lemma_subst1_compose(s1: Map<u64, SType>, s2: Map<u64, SType>, t: SType)
    requires
        resolved(s1),
        s1.dom().finite(),
    ensures
        subst1(compose(s1, s2), t) == subst1(s1, subst1(s2, t)),
    decreases t,
{
    match t {
        SType::Var(v) => {
            if s2.contains_key(v) {
                lemma_apply_resolved(s1, s2[v]);
            }
        },
        SType::Arrow(a, b) => {
            lemma_subst1_compose(s1, s2, *a);
            lemma_subst1_compose(s1, s2, *b);
        },
        SType::Tuple(ts) => {
            assert forall|i: int| 0 <= i < ts.len() implies subst1(compose(s1, s2), ts[i]) == subst1(s1, subst1(s2, ts[i])) by {
                lemma_subst1_compose(s1, s2, ts[i]);
            }
            assert(subst1(compose(s1, s2), t)->Tuple_0 =~= subst1(s1, subst1(s2, t))->Tuple_0);
        },
        _ => {},
    }
}

/// Composition of resolved substitutions, where no binding of the first
/// mentions a variable that the second binds, is resolved, and applying it
/// equals applying the second, then the first.
pub proof fn lemma_compose_apply(s1: Map<u64, SType>, s2: Map<u64, SType>, t: SType)
    requires
        resolved(s1),
        resolved(s2),
        s1.dom().finite(),
        s2.dom().finite(),
        ranges_avoid(s1, s2),
    ensures
        resolved(compose(s1, s2)),
        compose(s1, s2).dom().finite(),
        apply(compose(s1, s2), t) == apply(s1, apply(s2, t)),
{
    let c = compose(s1, s2);
    assert(c.dom() =~= s1.dom() + s2.dom());
    assert forall|k: u64| #[trigger] c.contains_key(k) implies binds_none_of(c, c[k]) by {
        assert forall|v: u64| occurs(v, c[k]) implies !c.contains_key(v) by {
            if s2.contains_key(k) {
                lemma_apply_resolved(s1, s2[k]);
                lemma_occurs_subst1(s1, s2[k], v);
                if occurs(v, s2[k]) && !s1.contains_key(v) {
                } else {
                    let j = choose|j: u64| occurs(j, s2[k]) && s1.contains_key(j) && occurs(v, #[trigger] s1[j]);
                    assert(s1.contains_key(j));
                }
            } else {
                assert(s1.contains_key(k));
            }
        }
    }
    lemma_apply_resolved(c, t);
    lemma_apply_resolved(s2, t);
    lemma_apply_resolved(s1, subst1(s2, t));
    lemma_subst1_compose(s1, s2, t);
}

} // verus!

verus! {

/// `t` contains no `Error` and no `Never`.
pub open spec fn plain(t: SType) -> bool
    decreases t,
{
    match t {
        SType::Error | SType::Never => false,
        SType::Arrow(a, b) => plain(*a) && plain(*b),
        SType::Tuple(ts) => all_plain(ts),
        _ => true,
    }
}

/// Every type of `ts` is `plain`.
pub open spec fn all_plain(ts: Seq<SType>) -> bool
    decreases ts,
{
    if ts.len() == 0 {
        true
    } else {
        all_plain(ts.drop_last()) && plain(ts.last())
    }
}

pub proof fn lemma_all_plain(ts: Seq<SType>)
    ensures
        all_plain(ts) <==> forall|i: int| 0 <= i < ts.len() ==> #[trigger] plain(ts[i]),
    decreases ts.len(),
{
    if ts.len() > 0 {
        let d = ts.drop_last();
        lemma_all_plain(d);
        if all_plain(ts) {
            assert forall|i: int| 0 <= i < ts.len() implies #[trigger] plain(ts[i]) by {
                if i < ts.len() - 1 {
                    assert(d[i] == ts[i]);
                    assert(plain(d[i]));
                }
            }
        }
        if forall|i: int| 0 <= i < ts.len() ==> #[trigger] plain(ts[i]) {
            assert forall|i: int| 0 <= i < d.len() implies #[trigger] plain(d[i]) by {
                assert(d[i] == ts[i]);
                assert(plain(ts[i]));
            }
            assert(plain(ts[ts.len() - 1]));
        }
    }
}

/// The variables that `s` binds, and those of its bindings, all lie in `vs`.
pub open spec fn within(s: Map<u64, SType>, vs: Set<u64>) -> bool {
    &&& forall|k: u64| #[trigger] s.contains_key(k) ==> vs.contains(k)
    &&& forall|k: u64, v: u64| s.contains_key(k) && #[trigger] occurs(v, s[k]) ==> vs.contains(v)
}

/// Every binding of `s` is `plain`.
pub open spec fn plain_range(s: Map<u64, SType>) -> bool {
    forall|k: u64| #[trigger] s.contains_key(k) ==> plain(s[k])
}


/// One-step substitution keeps variables within a set that holds those of
/// the type and of the bindings, and keeps types plain.
proof fn lemma_subst1_within(s: Map<u64, SType>, t: SType, vs: Set<u64>)
    requires
        within(s, vs),
        forall|v: u64| occurs(v, t) ==> vs.contains(v),
    ensures
        forall|v: u64| occurs(v, subst1(s, t)) ==> vs.contains(v),
        resolved(s) ==> binds_none_of(s, subst1(s, t)),
{
    assert forall|v: u64| occurs(v, subst1(s, t)) implies vs.contains(v) && (resolved(s) ==> !s.contains_key(v)) by {
        lemma_occurs_subst1(s, t, v);
        if occurs(v, t) && !s.contains_key(v) {
        } else {
            let k = choose|k: u64| occurs(k, t) && s.contains_key(k) && occurs(v, #[trigger] s[k]);
            assert(s.contains_key(k));
        }
    }
}

proof fn lemma_subst1_plain(s: Map<u64, SType>, t: SType)
    requires
        plain_range(s),
        plain(t),
    ensures
        plain(subst1(s, t)),
    decreases t,
{
    match t {
        SType::Var(v) => {
            if s.contains_key(v) {}
        },
        SType::Arrow(a, b) => {
            lemma_subst1_plain(s, *a);
            lemma_subst1_plain(s, *b);
        },
        SType::Tuple(ts) => {
            let us = subst1(s, t)->Tuple_0;
            lemma_all_plain(ts);
            lemma_all_plain(us);
            assert forall|i: int| 0 <= i < us.len() implies #[trigger] plain(us[i]) by {
                lemma_subst1_plain(s, ts[i]);
            }
        },
        _ => {},
    }
}

/// What holds of the substitution that unifying two types gives: it is resolved,
/// finite, binds only variables of the two types to types over those variables,
/// keeps plain types plain, and, when no error arises between two plain types,
/// makes them equal.
pub proof fn lemma_unify(a: SType, b: SType, span: Span, depth: nat)
    ensures
        ({
            let (s, errs) = unify_spec(a, b, span, depth);
            &&& resolved(s)
            &&& s.dom().finite()
            &&& within(s, vars(a) + vars(b))
            &&& (plain(a) && plain(b) ==> plain_range(s))
            &&& (plain(a) && plain(b) && errs.len() == 0 ==> apply(s, a) == apply(s, b))
        }),
    decreases depth, 0nat,
{
    let (s, errs) = unify_spec(a, b, span, depth);
    if depth == 0 || is_absorbing(a) || is_absorbing(b) || same_base(a, b) {
        assert(s =~= Map::<u64, SType>::empty());
        assert(s.dom() =~= Set::<u64>::empty());
    } else if a is Var || b is Var {
        let (v, t) = if a is Var { (a->Var_0, b) } else { (b->Var_0, a) };
        if t == SType::Var(v) || occurs(v, t) {
            assert(s =~= Map::<u64, SType>::empty());
            assert(s.dom() =~= Set::<u64>::empty());
        } else {
            assert(s == Map::<u64, SType>::empty().insert(v, t));
            assert(s.dom() =~= set![v]);
            assert(occurs(v, SType::Var(v)));
            assert(resolved(s)) by {
                assert forall|k: u64| #[trigger] s.contains_key(k) implies binds_none_of(s, s[k]) by {}
            }
            if plain(a) && plain(b) && errs.len() == 0 {
                lemma_apply_resolved(s, a);
                lemma_apply_resolved(s, b);
                lemma_apply_fuel_unbound(s, t, 1);
                lemma_apply_fuel_resolved(s, t, 1);
            }
        }
    } else if a is Arrow && b is Arrow {
        let a1 = *a->Arrow_0;
        let a2 = *a->Arrow_1;
        let b1 = *b->Arrow_0;
        let b2 = *b->Arrow_1;
        let d = (depth - 1) as nat;
        let (s1, e1) = unify_spec(a1, b1, span, d);
        lemma_unify(a1, b1, span, d);
        let vs = vars(a) + vars(b);
        assert forall|v: u64| occurs(v, a1) || occurs(v, b1) implies vs.contains(v) by {}
        assert forall|v: u64| occurs(v, a2) implies vs.contains(v) by {}
        assert forall|v: u64| occurs(v, b2) implies vs.contains(v) by {}
        let a2s = apply(s1, a2);
        let b2s = apply(s1, b2);
        lemma_apply_resolved(s1, a2);
        lemma_apply_resolved(s1, b2);
        assert(within(s1, vs));
        lemma_subst1_within(s1, a2, vs);
        lemma_subst1_within(s1, b2, vs);
        let (s2, e2) = unify_spec(a2s, b2s, span, d);
        lemma_unify(a2s, b2s, span, d);
        assert(ranges_avoid(s2, s1));
        lemma_compose_apply(s2, s1, a1);
        let c = compose(s2, s1);
        assert(s == c);
        assert(within(c, vs)) by {
            assert forall|k: u64, v: u64| c.contains_key(k) && #[trigger] occurs(v, c[k]) implies vs.contains(v) by {
                if s1.contains_key(k) {
                    lemma_apply_resolved(s2, s1[k]);
                    lemma_subst1_within(s2, s1[k], vs);
                }
            }
        }
        if plain(a) && plain(b) {
            lemma_subst1_plain(s1, a2);
            lemma_subst1_plain(s1, b2);
            assert(plain_range(c)) by {
                assert forall|k: u64| #[trigger] c.contains_key(k) implies plain(c[k]) by {
                    if s1.contains_key(k) {
                        lemma_apply_resolved(s2, s1[k]);
                        lemma_subst1_plain(s2, s1[k]);
                    }
                }
            }
            if errs.len() == 0 {
                assert(e1.len() == 0 && e2.len() == 0);
                lemma_compose_apply(s2, s1, a1);
                lemma_compose_apply(s2, s1, b1);
                lemma_compose_apply(s2, s1, a2);
                lemma_compose_apply(s2, s1, b2);
                lemma_apply_resolved(c, a);
                lemma_apply_resolved(c, b);
                lemma_apply_resolved(c, a1);
                lemma_apply_resolved(c, b1);
                lemma_apply_resolved(c, a2);
                lemma_apply_resolved(c, b2);
            }
        }
    } else if a is Tuple && b is Tuple {
        if a->Tuple_0.len() != b->Tuple_0.len() {
            assert(s =~= Map::<u64, SType>::empty());
            assert(s.dom() =~= Set::<u64>::empty());
        } else {
            let ts1 = a->Tuple_0;
            let ts2 = b->Tuple_0;
            lemma_unify_tuple(ts1, ts2, ts1.len(), span, (depth - 1) as nat);
            let vs = vars(a) + vars(b);
            assert(vars(SType::Tuple(ts1)) + vars(SType::Tuple(ts2)) == vs);
            if plain(a) && plain(b) && errs.len() == 0 {
                lemma_apply_resolved(s, a);
                lemma_apply_resolved(s, b);
                assert(subst1(s, a)->Tuple_0 =~= subst1(s, b)->Tuple_0) by {
                    assert forall|i: int| 0 <= i < ts1.len() implies subst1(s, ts1[i]) == subst1(s, ts2[i]) by {
                        lemma_apply_resolved(s, ts1[i]);
                        lemma_apply_resolved(s, ts2[i]);
                    }
                }
            }
        }
    } else {
        assert(s =~= Map::<u64, SType>::empty());
        assert(s.dom() =~= Set::<u64>::empty());
    }
}

/// What holds after unifying the first `n` components of two tuples of the
/// same length.
pub proof fn lemma_unify_tuple(ts1: Seq<SType>, ts2: Seq<SType>, n: nat, span: Span, depth: nat)
    requires
        n <= ts1.len(),
        ts1.len() == ts2.len(),
    ensures
        ({
            let (s, errs) = unify_tuple_spec(ts1, ts2, n, span, depth);
            let vs = vars(SType::Tuple(ts1)) + vars(SType::Tuple(ts2));
            &&& resolved(s)
            &&& s.dom().finite()
            &&& within(s, vs)
            &&& (plain(SType::Tuple(ts1)) && plain(SType::Tuple(ts2)) ==> plain_range(s))
            &&& (plain(SType::Tuple(ts1)) && plain(SType::Tuple(ts2)) && errs.len() == 0 ==>
                forall|i: int| 0 <= i < n ==> apply(s, #[trigger] ts1[i]) == apply(s, ts2[i]))
        }),
    decreases depth, n + 1,
{
    let vs = vars(SType::Tuple(ts1)) + vars(SType::Tuple(ts2));
    let (s, errs) = unify_tuple_spec(ts1, ts2, n, span, depth);
    if n == 0 {
        assert(s =~= Map::<u64, SType>::empty());
        assert(s.dom() =~= Set::<u64>::empty());
    } else {
        let m = (n - 1) as nat;
        let (acc, e0) = unify_tuple_spec(ts1, ts2, m, span, depth);
        lemma_unify_tuple(ts1, ts2, m, span, depth);
        let x = ts1[n - 1];
        let y = ts2[n - 1];
        assert forall|v: u64| occurs(v, x) implies vs.contains(v) by {
            lemma_occurs_in(v, ts1);
        }
        assert forall|v: u64| occurs(v, y) implies vs.contains(v) by {
            lemma_occurs_in(v, ts2);
        }
        let xs = apply(acc, x);
        let ys = apply(acc, y);
        lemma_apply_resolved(acc, x);
        lemma_apply_resolved(acc, y);
        lemma_subst1_within(acc, x, vs);
        lemma_subst1_within(acc, y, vs);
        let (s2, e2) = unify_spec(xs, ys, span, depth);
        lemma_unify(xs, ys, span, depth);
        assert(ranges_avoid(s2, acc));
        lemma_compose_apply(s2, acc, x);
        let c = compose(s2, acc);
        assert(s == c);
        assert(within(c, vs)) by {
            assert forall|k: u64, v: u64| c.contains_key(k) && #[trigger] occurs(v, c[k]) implies vs.contains(v) by {
                if acc.contains_key(k) {
                    lemma_apply_resolved(s2, acc[k]);
                    lemma_subst1_within(s2, acc[k], vs);
                }
            }
        }
        if plain(SType::Tuple(ts1)) && plain(SType::Tuple(ts2)) {
            lemma_all_plain(ts1);
            lemma_all_plain(ts2);
            assert(plain(x) && plain(y));
            lemma_subst1_plain(acc, x);
            lemma_subst1_plain(acc, y);
            assert(plain_range(c)) by {
                assert forall|k: u64| #[trigger] c.contains_key(k) implies plain(c[k]) by {
                    if acc.contains_key(k) {
                        lemma_apply_resolved(s2, acc[k]);
                        lemma_subst1_plain(s2, acc[k]);
                    }
                }
            }
            if errs.len() == 0 {
                assert(e0.len() == 0 && e2.len() == 0);
                assert forall|i: int| 0 <= i < n implies apply(c, #[trigger] ts1[i]) == apply(c, ts2[i]) by {
                    lemma_compose_apply(s2, acc, ts1[i]);
                    lemma_compose_apply(s2, acc, ts2[i]);
                }
            }
        }
    }
}

} // verus!

verus! {

/// Applying the empty substitution changes no type.
pub proof fn lemma_apply_empty(t: SType)
    ensures
        apply(Map::<u64, SType>::empty(), t) == t,
{
    lemma_apply_fuel_unbound(Map::<u64, SType>::empty(), t, 0);
}

/// Composing with the empty substitution, on either side, applies as the
/// other substitution alone.
pub proof fn lemma_compose_empty(s: Map<u64, SType>, t: SType)
    requires
        resolved(s),
        s.dom().finite(),
    ensures
        apply(compose(Map::<u64, SType>::empty(), s), t) == apply(s, t),
        apply(compose(s, Map::<u64, SType>::empty()), t) == apply(s, t),
{
    let e = Map::<u64, SType>::empty();
    assert(resolved(e));
    assert(e.dom() =~= Set::<u64>::empty());
    lemma_compose_apply(e, s, t);
    lemma_compose_apply(s, e, t);
    lemma_apply_empty(apply(s, t));
    lemma_apply_empty(t);
}

} // verus!

verus! {

/// How deeply arrows and tuples nest in a type.
pub open spec fn type_height(t: SType) -> nat
    decreases t,
{
    match t {
        SType::Arrow(a, b) => {
            let (x, y) = (type_height(*a), type_height(*b));
            1 + if x >= y { x } else { y }
        },
        SType::Tuple(ts) => 1 + heights_max(ts, ts.len()),
        _ => 0,
    }
}

/// The greatest height among the first `n` types of `ts`.
pub open spec fn heights_max(ts: Seq<SType>, n: nat) -> nat
    decreases ts, n,
{
    if n == 0 || n > ts.len() {
        0
    } else {
        let (x, y) = (heights_max(ts, (n - 1) as nat), type_height(ts[n - 1]));
        if x >= y { x } else { y }
    }
}

/// Each of the first `n` types is no higher than the greatest of them.
proof fn lemma_heights_max(ts: Seq<SType>, n: nat, i: int)
    requires
        0 <= i < n <= ts.len(),
    ensures
        type_height(ts[i]) <= heights_max(ts, n),
    decreases n,
{
    if i < n - 1 {
        lemma_heights_max(ts, (n - 1) as nat, i);
    }
}

/// A component of a tuple is lower than the tuple.
proof fn lemma_component_height(ts: Seq<SType>, i: int)
    requires
        0 <= i < ts.len(),
    ensures
        type_height(ts[i]) < type_height(SType::Tuple(ts)),
{
    lemma_heights_max(ts, ts.len(), i);
}

/// A variable that occurs in a type is, after any substitution, no higher
/// than the type; strictly lower when the type is not the variable itself.
proof fn lemma_occurs_height(u: Map<u64, SType>, v: u64, t: SType)
    requires
        occurs(v, t),
    ensures
        type_height(subst1(u, t)) >= type_height(subst1(u, SType::Var(v))),
        t != SType::Var(v) ==> type_height(subst1(u, t)) > type_height(subst1(u, SType::Var(v))),
    decreases t,
{
    match t {
        SType::Arrow(a, b) => {
            if occurs(v, *a) {
                lemma_occurs_height(u, v, *a);
            } else {
                lemma_occurs_height(u, v, *b);
            }
        },
        SType::Tuple(ts) => {
            lemma_occurs_in(v, ts);
            let i = choose|i: int| 0 <= i < ts.len() && occurs(v, #[trigger] ts[i]);
            lemma_occurs_height(u, v, ts[i]);
            let us = subst1(u, t)->Tuple_0;
            assert(us[i] == subst1(u, ts[i]));
            lemma_component_height(us, i);
        },
        _ => {},
    }
}

/// When `u` gives variable `v` and type `t` the same type, `u` after the
/// binding of `v` to `t` is `u` itself.
proof fn lemma_bind_absorbed(u: Map<u64, SType>, v: u64, t: SType, x: SType)
    requires
        subst1(u, SType::Var(v)) == subst1(u, t),
    ensures
        subst1(u, subst1(Map::<u64, SType>::empty().insert(v, t), x)) == subst1(u, x),
    decreases x,
{
    let s = Map::<u64, SType>::empty().insert(v, t);
    match x {
        SType::Arrow(a, b) => {
            lemma_bind_absorbed(u, v, t, *a);
            lemma_bind_absorbed(u, v, t, *b);
        },
        SType::Tuple(ts) => {
            assert forall|i: int| 0 <= i < ts.len() implies subst1(u, subst1(s, ts[i])) == subst1(u, ts[i]) by {
                lemma_bind_absorbed(u, v, t, ts[i]);
            }
            assert(subst1(u, subst1(s, x))->Tuple_0 =~= subst1(u, x)->Tuple_0);
        },
        _ => {},
    }
}

/// Unification is complete and most general: when some resolved
/// substitution `u` makes two types without `Error` or `Never` equal, and the
/// budget exceeds the nesting of the type they become, unifying them
/// reports no error and gives a substitution that `u` absorbs: applying `u`
/// after it is applying `u` alone.
pub proof fn lemma_unify_most_general(a: SType, b: SType, span: Span, depth: nat, u: Map<u64, SType>)
    requires
        plain(a),
        plain(b),
        resolved(u),
        u.dom().finite(),
        apply(u, a) == apply(u, b),
        type_height(apply(u, a)) < depth,
    ensures
        unify_spec(a, b, span, depth).1.len() == 0,
        forall|t: SType| #[trigger] apply(u, apply(unify_spec(a, b, span, depth).0, t)) == apply(u, t),
    decreases depth, 0nat,
{
    let (s, errs) = unify_spec(a, b, span, depth);
    lemma_apply_resolved(u, a);
    lemma_apply_resolved(u, b);
    lemma_unify(a, b, span, depth);
    if same_base(a, b) {
        assert(s =~= Map::<u64, SType>::empty());
        assert forall|t: SType| #[trigger] apply(u, apply(s, t)) == apply(u, t) by {
            lemma_apply_empty(t);
        }
    } else if a is Var || b is Var {
        let (v, t) = if a is Var { (a->Var_0, b) } else { (b->Var_0, a) };
        assert(subst1(u, SType::Var(v)) == subst1(u, t));
        if t == SType::Var(v) {
            assert(s =~= Map::<u64, SType>::empty());
            assert forall|x: SType| #[trigger] apply(u, apply(s, x)) == apply(u, x) by {
                lemma_apply_empty(x);
            }
        } else if occurs(v, t) {
            lemma_occurs_height(u, v, t);
            assert(false);
        } else {
            assert(s == Map::<u64, SType>::empty().insert(v, t));
            assert forall|x: SType| #[trigger] apply(u, apply(s, x)) == apply(u, x) by {
                lemma_apply_resolved(s, x);
                lemma_apply_resolved(u, apply(s, x));
                lemma_apply_resolved(u, x);
                lemma_bind_absorbed(u, v, t, x);
            }
        }
    } else if a is Arrow && b is Arrow {
        let a1 = *a->Arrow_0;
        let a2 = *a->Arrow_1;
        let b1 = *b->Arrow_0;
        let b2 = *b->Arrow_1;
        let d = (depth - 1) as nat;
        lemma_apply_resolved(u, a1);
        lemma_apply_resolved(u, b1);
        lemma_apply_resolved(u, a2);
        lemma_apply_resolved(u, b2);
        lemma_unify_most_general(a1, b1, span, d, u);
        let (s1, e1) = unify_spec(a1, b1, span, d);
        lemma_unify(a1, b1, span, d);
        let vs = vars(a) + vars(b);
        assert forall|v: u64| occurs(v, a1) || occurs(v, b1) implies vs.contains(v) by {}
        assert forall|v: u64| occurs(v, a2) implies vs.contains(v) by {}
        assert forall|v: u64| occurs(v, b2) implies vs.contains(v) by {}
        let a2s = apply(s1, a2);
        let b2s = apply(s1, b2);
        lemma_apply_resolved(s1, a2);
        lemma_apply_resolved(s1, b2);
        assert(within(s1, vs));
        lemma_subst1_within(s1, a2, vs);
        lemma_subst1_within(s1, b2, vs);
        lemma_subst1_plain(s1, a2);
        lemma_subst1_plain(s1, b2);
        assert(apply(u, apply(s1, a2)) == apply(u, a2));
        assert(apply(u, apply(s1, b2)) == apply(u, b2));
        lemma_unify_most_general(a2s, b2s, span, d, u);
        let (s2, e2) = unify_spec(a2s, b2s, span, d);
        lemma_unify(a2s, b2s, span, d);
        assert(ranges_avoid(s2, s1));
        let c = compose(s2, s1);
        assert(s == c);
        assert forall|x: SType| #[trigger] apply(u, apply(s, x)) == apply(u, x) by {
            lemma_compose_apply(s2, s1, x);
            assert(apply(u, apply(s2, apply(s1, x))) == apply(u, apply(s1, x)));
            assert(apply(u, apply(s1, x)) == apply(u, x));
        }
    } else if a is Tuple && b is Tuple {
        let ts1 = a->Tuple_0;
        let ts2 = b->Tuple_0;
        assert(subst1(u, a)->Tuple_0.len() == ts1.len());
        assert(subst1(u, b)->Tuple_0.len() == ts2.len());
        let d = (depth - 1) as nat;
        lemma_all_plain(ts1);
        lemma_all_plain(ts2);
        assert forall|i: int| 0 <= i < ts1.len() implies apply(u, #[trigger] ts1[i]) == apply(u, ts2[i])
            && type_height(apply(u, ts1[i])) < d by {
            lemma_apply_resolved(u, ts1[i]);
            lemma_apply_resolved(u, ts2[i]);
            assert(subst1(u, a)->Tuple_0[i] == subst1(u, ts1[i]));
            assert(subst1(u, b)->Tuple_0[i] == subst1(u, ts2[i]));
            lemma_heights_max(subst1(u, a)->Tuple_0, ts1.len(), i);
        }
        lemma_unify_tuple_most_general(ts1, ts2, ts1.len(), span, d, u);
    } else {
        assert(false);
    }
}

/// Unifying the first `n` components of two tuples, each pair of which `u`
/// makes equal within the budget, reports no error and gives a substitution
/// that `u` absorbs.
pub proof fn lemma_unify_tuple_most_general(ts1: Seq<SType>, ts2: Seq<SType>, n: nat, span: Span, depth: nat, u: Map<u64, SType>)
    requires
        n <= ts1.len(),
        ts1.len() == ts2.len(),
        plain(SType::Tuple(ts1)),
        plain(SType::Tuple(ts2)),
        resolved(u),
        u.dom().finite(),
        forall|i: int| 0 <= i < ts1.len() ==> apply(u, #[trigger] ts1[i]) == apply(u, ts2[i])
            && type_height(apply(u, ts1[i])) < depth,
    ensures
        unify_tuple_spec(ts1, ts2, n, span, depth).1.len() == 0,
        forall|t: SType| #[trigger] apply(u, apply(unify_tuple_spec(ts1, ts2, n, span, depth).0, t)) == apply(u, t),
    decreases depth, n + 1,
{
    let vs = vars(SType::Tuple(ts1)) + vars(SType::Tuple(ts2));
    let (s, errs) = unify_tuple_spec(ts1, ts2, n, span, depth);
    lemma_unify_tuple(ts1, ts2, n, span, depth);
    if n == 0 {
        assert(s =~= Map::<u64, SType>::empty());
        assert forall|t: SType| #[trigger] apply(u, apply(s, t)) == apply(u, t) by {
            lemma_apply_empty(t);
        }
    } else {
        let m = (n - 1) as nat;
        let (acc, e0) = unify_tuple_spec(ts1, ts2, m, span, depth);
        lemma_unify_tuple(ts1, ts2, m, span, depth);
        lemma_unify_tuple_most_general(ts1, ts2, m, span, depth, u);
        let x = ts1[n - 1];
        let y = ts2[n - 1];
        assert forall|v: u64| occurs(v, x) implies vs.contains(v) by {
            lemma_occurs_in(v, ts1);
        }
        assert forall|v: u64| occurs(v, y) implies vs.contains(v) by {
            lemma_occurs_in(v, ts2);
        }
        lemma_all_plain(ts1);
        lemma_all_plain(ts2);
        let xs = apply(acc, x);
        let ys = apply(acc, y);
        lemma_apply_resolved(acc, x);
        lemma_apply_resolved(acc, y);
        lemma_subst1_within(acc, x, vs);
        lemma_subst1_within(acc, y, vs);
        lemma_subst1_plain(acc, x);
        lemma_subst1_plain(acc, y);
        assert(apply(u, apply(acc, x)) == apply(u, x));
        assert(apply(u, apply(acc, y)) == apply(u, y));
        lemma_unify_most_general(xs, ys, span, depth, u);
        let (s2, e2) = unify_spec(xs, ys, span, depth);
        lemma_unify(xs, ys, span, depth);
        assert(ranges_avoid(s2, acc));
        let c = compose(s2, acc);
        assert(s == c);
        assert forall|t: SType| #[trigger] apply(u, apply(s, t)) == apply(u, t) by {
            lemma_compose_apply(s2, acc, t);
            assert(apply(u, apply(s2, apply(acc, t))) == apply(u, apply(acc, t)));
            assert(apply(u, apply(acc, t)) == apply(u, t));
        }
    }
}

} // verus!
