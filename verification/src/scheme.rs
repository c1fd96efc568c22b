//! Type schemes, environments, generalization and instantiation.
use vstd::prelude::*;
use std::collections::BTreeMap;
use vstd::std_specs::iter::IteratorSpec;
use vstd::std_specs::btree::spec_btree_map_iter;
use crate::hir::{Type, TypeVar, SType, vars};
use crate::typecheck::{wrap, apply, FreeVars, ftv_type, var_set, var_set_elements, var_set_difference, var_set_remove, var_set_extend, Subst, TypeInference};

verus! {

broadcast use vstd::std_specs::hash::group_hash_axioms;

/// A type scheme: a type with some of its variables quantified.
#[derive(Debug)]
pub struct Scheme {
    pub type_vars: Vec<TypeVar>,
    pub ty: Type,
}

/// The numbers of a sequence of type variables.
pub open spec fn var_numbers(tvs: Seq<TypeVar>) -> Seq<u64> {
    tvs.map_values(|v: TypeVar| v.0)
}

/// The value of a `Scheme`.
pub struct SScheme {
    pub type_vars: Seq<u64>,
    pub ty: SType,
}

impl View for Scheme {
    type V = SScheme;

    open spec fn view(&self) -> SScheme {
        SScheme { type_vars: var_numbers(self.type_vars@), ty: self.ty@ }
    }
}

impl Clone for Scheme {
    fn clone(&self) -> (res: Self)
        ensures
            res@ == self@,
    {
        let mut tvs: Vec<TypeVar> = Vec::new();
        let mut i: usize = 0;
        while i < self.type_vars.len()
            invariant
                i <= self.type_vars.len(),
                tvs@ == self.type_vars@.take(i as int),
            decreases self.type_vars.len() - i,
        {
            tvs.push(self.type_vars[i]);
            i = i + 1;
            assert(tvs@ =~= self.type_vars@.take(i as int));
        }
        assert(self.type_vars@.take(i as int) =~= self.type_vars@);
        let res = Scheme { type_vars: tvs, ty: self.ty.clone() };
        assert(res@.type_vars =~= self@.type_vars);
        res
    }
}

/// A typing environment: schemes of the variables in scope, by interned name.
pub type Env = BTreeMap<usize, Scheme>;

/// The value of an environment.
pub open spec fn env_view(env: Map<usize, Scheme>) -> Map<usize, SScheme> {
    env.map_values(|sc: Scheme| sc@)
}

/// The free variables of a scheme: those of its type that it does not quantify.
pub open spec fn scheme_vars(sc: SScheme) -> Set<u64> {
    vars(sc.ty).difference(sc.type_vars.to_set())
}

/// The free variables of an environment.
pub open spec fn env_vars(env: Map<usize, SScheme>) -> Set<u64> {
    Set::new(|v: u64| exists|k: usize| env.contains_key(k) && #[trigger] scheme_vars(env[k]).contains(v))
}

/// A strictly increasing sequence.
pub open spec fn strictly_sorted(q: Seq<u64>) -> bool {
    forall|i: int, j: int| 0 <= i < j < q.len() ==> q[i] < q[j]
}

/// The elements of a finite set in increasing order.
pub open spec fn sorted_vars(s: Set<u64>) -> Seq<u64> {
    choose|q: Seq<u64>| q.to_set() == s && strictly_sorted(q)
}

/// Two increasing sequences with the same elements are the same.
pub proof fn lemma_sorted_unique(q1: Seq<u64>, q2: Seq<u64>)
    requires
        strictly_sorted(q1),
        strictly_sorted(q2),
        q1.to_set() == q2.to_set(),
    ensures
        q1 == q2,
    decreases q1.len(),
{
    if q1.len() == 0 {
        if q2.len() > 0 {
            assert(q2.to_set().contains(q2[0]));
        }
        assert(q1 =~= q2);
    } else {
        assert(q1.to_set().contains(q1[0]));
        if q2.len() == 0 {
            assert(false);
        }
        assert(q2.to_set().contains(q2[0]));
        let i1 = choose|i: int| 0 <= i < q1.len() && q1[i] == q2[0];
        let i2 = choose|i: int| 0 <= i < q2.len() && q2[i] == q1[0];
        assert(q1[0] == q2[0]) by {
            if i1 > 0 { assert(q1[0] < q1[i1]); }
            if i2 > 0 { assert(q2[0] < q2[i2]); }
        }
        let r1 = q1.drop_first();
        let r2 = q2.drop_first();
        assert(r1.to_set() =~= r2.to_set()) by {
            assert forall|x: u64| r1.to_set().contains(x) implies r2.to_set().contains(x) by {
                let i = choose|i: int| 0 <= i < r1.len() && r1[i] == x;
                assert(q1[i + 1] == x);
                assert(q2.to_set().contains(x));
                let j = choose|j: int| 0 <= j < q2.len() && q2[j] == x;
                assert(q1[0] < x);
                assert(j != 0);
                assert(r2[j - 1] == x);
            }
            assert forall|x: u64| r2.to_set().contains(x) implies r1.to_set().contains(x) by {
                let i = choose|i: int| 0 <= i < r2.len() && r2[i] == x;
                assert(q2[i + 1] == x);
                assert(q1.to_set().contains(x));
                let j = choose|j: int| 0 <= j < q1.len() && q1[j] == x;
                assert(q2[0] < x);
                assert(j != 0);
                assert(r1[j - 1] == x);
            }
        }
        lemma_sorted_unique(r1, r2);
        assert(q1 =~= q2) by {
            assert forall|i: int| 0 <= i < q1.len() implies q1[i] == q2[i] by {
                if i > 0 { assert(q1[i] == r1[i - 1]); assert(q2[i] == r2[i - 1]); }
            }
        }
    }
}

/// The variables of a set in increasing order.
pub(crate) fn sorted_elements(s: &im::HashSet<u64>) -> (q: Vec<u64>)
    ensures
        q@ == sorted_vars(var_set(*s)),
        var_set(*s).finite(),
{
    let elems = var_set_elements(s);
    let mut out: Vec<u64> = Vec::new();
    let mut i: usize = 0;
    while i < elems.len()
        invariant
            i <= elems.len(),
            elems@.no_duplicates(),
            strictly_sorted(out@),
            out@.to_set() == elems@.take(i as int).to_set(),
        decreases elems.len() - i,
    {
        let x = elems[i];
        let mut j: usize = 0;
        while j < out.len() && out[j] < x
            invariant
                j <= out.len(),
                forall|k: int| 0 <= k < j ==> out@[k] < x,
            decreases out.len() - j,
        {
            j = j + 1;
        }
        proof {
            assert(!out@.to_set().contains(x)) by {
                if out@.to_set().contains(x) {
                    let k = choose|k: int| 0 <= k < out@.len() && out@[k] == x;
                    assert(elems@.take(i as int).to_set().contains(x));
                    let m = choose|m: int| 0 <= m < i && elems@[m] == x;
                    assert(elems@[m] == elems@[i as int]);
                }
            }
        }
        let ghost before = out@;
        out.insert(j, x);
        proof {
            assert(j < before.len() ==> before[j as int] > x) by {
                if j < before.len() {
                    assert(before[j as int] >= x);
                    assert(before[j as int] != x) by {
                        assert(before.to_set().contains(before[j as int]));
                    }
                }
            }
            assert(strictly_sorted(out@)) by {
                assert forall|a: int, b: int| 0 <= a < b < out@.len() implies out@[a] < out@[b] by {
                    if a < j && b > j {
                        assert(out@[a] == before[a]);
                        assert(out@[b] == before[b - 1]);
                        if a < b - 1 { assert(before[a] < before[b - 1]); }
                        else { assert(before[a] < x); assert(x < before[j as int]); }
                    }
                }
            }
            let t1 = elems@.take(i + 1);
            let t0 = elems@.take(i as int);
            assert(out@.to_set() =~= t1.to_set()) by {
                assert(t1 =~= t0.push(x));
                assert forall|y: u64| out@.to_set().contains(y) implies t1.to_set().contains(y) by {
                    let k = choose|k: int| 0 <= k < out@.len() && out@[k] == y;
                    if k < j { assert(before.to_set().contains(y)); }
                    else if k > j { assert(out@[k] == before[k - 1]); assert(before.to_set().contains(y)); }
                    else { assert(t1[i as int] == y); }
                    if y != x {
                        assert(t0.to_set().contains(y));
                        let m = choose|m: int| 0 <= m < i && t0[m] == y;
                        assert(t1[m] == y);
                    }
                }
                assert forall|y: u64| t1.to_set().contains(y) implies out@.to_set().contains(y) by {
                    let m = choose|m: int| 0 <= m < i + 1 && t1[m] == y;
                    if m < i {
                        assert(t0[m] == y);
                        assert(before.to_set().contains(y));
                        let k = choose|k: int| 0 <= k < before.len() && before[k] == y;
                        if k < j { assert(out@[k] == y); } else { assert(out@[k + 1] == y); }
                    } else {
                        assert(out@[j as int] == y);
                    }
                }
            }
        }
        i = i + 1;
    }
    proof {
        assert(elems@.take(elems.len() as int) =~= elems@);
        lemma_sorted_unique(out@, sorted_vars(var_set(*s)));
    }
    out
}

} // verus!

verus! {

/// The substitution that instantiates the variables `tvs` with fresh variables
/// numbered from `c` on (after the largest number comes 0); a variable listed
/// twice takes its last number.
pub open spec fn inst_map(tvs: Seq<u64>, c: u64) -> Map<u64, SType>
    decreases tvs.len(),
{
    if tvs.len() == 0 {
        Map::empty()
    } else {
        inst_map(tvs.drop_last(), c).insert(tvs.last(), SType::Var(wrap(c + tvs.len() - 1)))
    }
}

/// A scheme with `s` applied to its type, leaving its quantified variables alone.
pub open spec fn apply_scheme_spec(s: Map<u64, SType>, sc: SScheme) -> SScheme {
    SScheme { type_vars: sc.type_vars, ty: apply(s.remove_keys(sc.type_vars.to_set()), sc.ty) }
}

/// An environment with `s` applied to each of its schemes.
pub open spec fn apply_env_spec(s: Map<u64, SType>, env: Map<usize, SScheme>) -> Map<usize, SScheme> {
    env.map_values(|sc: SScheme| apply_scheme_spec(s, sc))
}

/// The scheme that generalizes `ty` in `env`: it quantifies, in increasing
/// order, the variables that are free in exactly one of `ty` and `env` (the
/// symmetric difference that `im::HashSet::difference` computes).
pub open spec fn generalize_spec(env: Map<usize, SScheme>, ty: SType) -> SScheme {
    let fv = vars(ty);
    let efv = env_vars(env);
    SScheme { type_vars: sorted_vars(fv.difference(efv).union(efv.difference(fv))), ty }
}

/// The renaming of `rename_type`: the `i`-th smallest variable of the type
/// is mapped to variable `i`, when they differ.
pub open spec fn rename_map(q: Seq<u64>, n: nat) -> Map<u64, SType>
    decreases n,
{
    if n == 0 || n > q.len() {
        Map::empty()
    } else {
        let m = rename_map(q, (n - 1) as nat);
        if q[n - 1] != (n - 1) as u64 {
            m.insert(q[n - 1], SType::Var((n - 1) as u64))
        } else {
            m
        }
    }
}

/// A type with its variables renumbered from 0 in increasing order (see `rename_map`).
pub open spec fn rename_type_spec(t: SType) -> SType {
    let q = sorted_vars(vars(t));
    apply(rename_map(q, q.len()), t)
}

/// The renaming of `rename_scheme`: the `i`-th quantified variable is mapped
/// to the `i`-th letter, `a` to `z` (variables 0 to 25), when they differ;
/// past the alphabet a variable keeps its number.
pub open spec fn letters_map(tvs: Seq<u64>, n: nat) -> Map<u64, SType>
    decreases n,
{
    if n == 0 || n > tvs.len() {
        Map::empty()
    } else {
        let m = letters_map(tvs, (n - 1) as nat);
        let v = tvs[n - 1];
        let fresh: u64 = if n - 1 < 26 { (n - 1) as u64 } else { v };
        if v != fresh {
            m.insert(v, SType::Var(fresh))
        } else {
            m
        }
    }
}

/// The type of a scheme with its quantified variables renamed to letters.
pub open spec fn rename_scheme_spec(sc: SScheme) -> SType {
    apply(letters_map(sc.type_vars, sc.type_vars.len()), sc.ty)
}

/// The free variables of a scheme.
pub fn ftv_scheme(s: &Scheme) -> (fv: FreeVars)
    ensures
        var_set(fv.types) == scheme_vars(s@),
{
    let mut fv = FreeVars::new();
    ftv_type(&s.ty, &mut fv);
    let mut i: usize = 0;
    while i < s.type_vars.len()
        invariant
            i <= s.type_vars.len(),
            var_set(fv.types) == vars(s.ty@).difference(s@.type_vars.take(i as int).to_set()),
        decreases s.type_vars.len() - i,
    {
        let x = s.type_vars[i].0;
        var_set_remove(&mut fv.types, x);
        proof {
            let tv = s@.type_vars;
            assert(tv[i as int] == x);
            let a = tv.take(i as int);
            let b = tv.take(i + 1);
            assert(b =~= a.push(x));
            assert(b.to_set() =~= a.to_set().insert(x)) by {
                assert forall|y: u64| b.to_set().contains(y) implies a.to_set().insert(x).contains(y) by {
                    let j = choose|j: int| 0 <= j < b.len() && b[j] == y;
                    if j < i { assert(a[j] == y); }
                }
                assert forall|y: u64| a.to_set().insert(x).contains(y) implies b.to_set().contains(y) by {
                    if y == x { assert(b[i as int] == y); } else {
                        let j = choose|j: int| 0 <= j < a.len() && a[j] == y;
                        assert(b[j] == y);
                    }
                }
            }
            assert(var_set(fv.types) =~= vars(s.ty@).difference(b.to_set()));
        }
        i = i + 1;
    }
    assert(s@.type_vars.take(i as int) =~= s@.type_vars);
    assert(var_set(fv.types) =~= scheme_vars(s@));
    fv
}

/// The free variables of an environment.
pub fn ftv_env(env: &Env) -> (fv: FreeVars)
    ensures
        var_set(fv.types) == env_vars(env_view(env@)),
{
    let mut fv = FreeVars::new();
    let ghost q = spec_btree_map_iter(env).remaining();
    for (k, s) in it: env.iter()
        invariant
            it.seq() == q,
            var_set(fv.types) == Set::new(|v: u64| exists|j: int| 0 <= j < it.index()
                && #[trigger] scheme_vars(q[j].1@).contains(v)),
        ensures
            var_set(fv.types) == Set::new(|v: u64| exists|j: int| 0 <= j < q.len()
                && #[trigger] scheme_vars(q[j].1@).contains(v)),
    {
        let s_fv = ftv_scheme(s);
        var_set_extend(&mut fv.types, s_fv.types);
    }
    proof {
        let ev = env_view(env@);
        assert(var_set(fv.types) =~= env_vars(ev)) by {
            assert forall|v: u64| var_set(fv.types).contains(v) implies env_vars(ev).contains(v) by {
                let j = choose|j: int| 0 <= j < q.len() && #[trigger] scheme_vars(q[j].1@).contains(v);
                assert(env@.contains_key(*q[j].0));
                assert(ev[*q[j].0] == q[j].1@);
            }
            assert forall|v: u64| env_vars(ev).contains(v) implies var_set(fv.types).contains(v) by {
                let k = choose|k: usize| ev.contains_key(k) && #[trigger] scheme_vars(ev[k]).contains(v);
                assert(q.contains((&k, &env@[k])));
                let j = choose|j: int| 0 <= j < q.len() && q[j] == (&k, &env@[k]);
                assert(scheme_vars(q[j].1@).contains(v));
            }
        }
    }
    fv
}

} // verus!

verus! {

impl<'r> TypeInference<'r> {
    /// Instantiates the quantified variables of a scheme with fresh variables.
    pub fn instantiate(&mut self, scheme: &Scheme) -> (t: Type)
        ensures
            t@ == apply(inst_map(scheme@.type_vars, old(self)@.counter), scheme@.ty),
            final(self)@.counter == wrap(old(self)@.counter + scheme@.type_vars.len()),
            final(self)@.errors == old(self)@.errors,
            final(self).names() == old(self).names(),
    {
        let mut s = Subst::empty();
        let mut i: usize = 0;
        let ghost c0 = self@.counter;
        while i < scheme.type_vars.len()
            invariant
                i <= scheme.type_vars.len(),
                self@.counter == wrap(c0 + i),
                self@.errors == old(self)@.errors,
                self.names() == old(self).names(),
                c0 == old(self)@.counter,
                s@ == inst_map(scheme@.type_vars.take(i as int), c0),
            decreases scheme.type_vars.len() - i,
        {
            let fresh = self.fresh_tyvar();
            s.types.insert(scheme.type_vars[i].0, Type::Var(fresh));
            proof {
                assert(wrap(wrap(c0 + i) + 1) == wrap(c0 + i + 1));
                assert(fresh.0 == wrap(c0 + (i + 1) - 1));
                let tv = scheme@.type_vars;
                assert(tv.take(i + 1).drop_last() =~= tv.take(i as int));
                assert(s@ =~= inst_map(tv.take(i + 1), c0));
            }
            i = i + 1;
        }
        assert(scheme@.type_vars.take(i as int) =~= scheme@.type_vars);
        Self::apply_type(&s, &scheme.ty)
    }

    /// Generalizes `ty` in `env` (see `generalize_spec`).
    pub fn generalize(&self, env: &Env, ty: &Type) -> (sc: Scheme)
        ensures
            sc@ == generalize_spec(env_view(env@), ty@),
    {
        let mut fv = FreeVars::new();
        ftv_type(ty, &mut fv);
        let env_fv = ftv_env(env);
        assert(var_set(fv.types) =~= vars(ty@));
        let diff = var_set_difference(fv.types, env_fv.types);
        let ghost fvs = vars(ty@);
        let ghost efv = env_vars(env_view(env@));
        assert(var_set(diff) == fvs.difference(efv).union(efv.difference(fvs)));
        let sorted = sorted_elements(&diff);
        let mut type_vars: Vec<TypeVar> = Vec::new();
        let mut i: usize = 0;
        while i < sorted.len()
            invariant
                i <= sorted.len(),
                type_vars.len() == i,
                var_numbers(type_vars@) == sorted@.take(i as int),
            decreases sorted.len() - i,
        {
            let ghost before = type_vars@;
            type_vars.push(TypeVar(sorted[i]));
            assert(type_vars@ == before.push(TypeVar(sorted@[i as int])));
            assert(var_numbers(type_vars@).len() == i + 1);
            assert(forall|j: int| 0 <= j < i ==> var_numbers(type_vars@)[j] == var_numbers(before)[j]);
            i = i + 1;
            assert(var_numbers(type_vars@) =~= sorted@.take(i as int));
        }
        assert(sorted@.take(i as int) =~= sorted@);
        let sc = Scheme { type_vars, ty: ty.clone() };
        assert(sc@.type_vars == sorted@);
        sc
    }

    /// Applies a substitution to a scheme, leaving its quantified variables alone.
    pub fn apply_scheme(s: &Subst, scheme: &Scheme) -> (res: Scheme)
        ensures
            res@ == apply_scheme_spec(s@, scheme@),
    {
        let mut filtered = s.clone();
        let mut i: usize = 0;
        while i < scheme.type_vars.len()
            invariant
                i <= scheme.type_vars.len(),
                filtered@ == s@.remove_keys(scheme@.type_vars.take(i as int).to_set()),
            decreases scheme.type_vars.len() - i,
        {
            let x = scheme.type_vars[i].0;
            let ghost before = filtered.types@;
            filtered.types.remove(&x);
            assert(filtered.types@ == before.remove(x));
            assert(filtered@ =~= crate::typecheck::types_map_view(before).remove(x));
            proof {
                let tv = scheme@.type_vars;
                let a = tv.take(i as int);
                let b = tv.take(i + 1);
                assert(b =~= a.push(x));
                assert(b.to_set() =~= a.to_set().insert(x)) by {
                    assert forall|y: u64| b.to_set().contains(y) implies a.to_set().insert(x).contains(y) by {
                        let j = choose|j: int| 0 <= j < b.len() && b[j] == y;
                        if j < i { assert(a[j] == y); }
                    }
                    assert forall|y: u64| a.to_set().insert(x).contains(y) implies b.to_set().contains(y) by {
                        if y == x { assert(b[i as int] == y); } else {
                            let j = choose|j: int| 0 <= j < a.len() && a[j] == y;
                            assert(b[j] == y);
                        }
                    }
                }
                assert(filtered@ =~= s@.remove_keys(b.to_set()));
            }
            i = i + 1;
        }
        assert(scheme@.type_vars.take(i as int) =~= scheme@.type_vars);
        let tvs = scheme.clone().type_vars;
        let res = Scheme { type_vars: tvs, ty: Self::apply_type(&filtered, &scheme.ty) };
        res
    }

    /// Applies a substitution to every scheme of an environment.
    pub fn apply_env(s: &Subst, env: &Env) -> (res: Env)
        ensures
            env_view(res@) == apply_env_spec(s@, env_view(env@)),
    {
        let mut out: Env = BTreeMap::new();
        let ghost q = spec_btree_map_iter(env).remaining();
        for (k, scheme) in it: env.iter()
            invariant
                it.seq() == q,
                out@.dom() == Set::new(|k: usize| exists|j: int| 0 <= j < it.index() && *q[j].0 == k),
                forall|k: usize| #[trigger] out@.contains_key(k) ==> env@.contains_key(k)
                    && out@[k]@ == apply_scheme_spec(s@, env@[k]@),
        {
            out.insert(*k, Self::apply_scheme(s, scheme));
        }
        proof {
            assert(out@.dom() =~= env@.dom()) by {
                assert forall|k: usize| env@.contains_key(k) implies out@.contains_key(k) by {
                    assert(q.contains((&k, &env@[k])));
                }
            }
            assert(env_view(out@) =~= apply_env_spec(s@, env_view(env@)));
        }
        out
    }
}

/// A copy of an environment.
pub fn clone_env(env: &Env) -> (res: Env)
    ensures
        env_view(res@) == env_view(env@),
{
    let mut out: Env = BTreeMap::new();
    let ghost q = spec_btree_map_iter(env).remaining();
    for (k, scheme) in it: env.iter()
        invariant
            it.seq() == q,
            out@.dom() == Set::new(|k: usize| exists|j: int| 0 <= j < it.index() && *q[j].0 == k),
            forall|k: usize| #[trigger] out@.contains_key(k) ==> env@.contains_key(k)
                && out@[k]@ == env@[k]@,
    {
        out.insert(*k, scheme.clone());
    }
    proof {
        assert(out@.dom() =~= env@.dom()) by {
            assert forall|k: usize| env@.contains_key(k) implies out@.contains_key(k) by {
                assert(q.contains((&k, &env@[k])));
            }
        }
        assert(env_view(out@) =~= env_view(env@));
    }
    out
}

/// Renames the quantified variables of a scheme to letters (see `letters_map`)
/// and returns its type.
pub fn rename_scheme(s: &Scheme) -> (t: Type)
    ensures
        t@ == rename_scheme_spec(s@),
{
    let mut subst = Subst::empty();
    let mut i: usize = 0;
    while i < s.type_vars.len()
        invariant
            i <= s.type_vars.len(),
            subst@ == letters_map(s@.type_vars, i as nat),
        decreases s.type_vars.len() - i,
    {
        let v = s.type_vars[i];
        let fresh: TypeVar = if i < 26 { TypeVar(i as u64) } else { v };
        if v.0 != fresh.0 {
            subst.types.insert(v.0, Type::Var(fresh));
        }
        i = i + 1;
        assert(subst@ =~= letters_map(s@.type_vars, i as nat));
    }
    TypeInference::apply_type(&subst, &s.ty)
}

/// Renumbers the variables of a type from 0 (see `rename_type_spec`).
pub fn rename_type(ty: &Type) -> (t: Type)
    ensures
        t@ == rename_type_spec(ty@),
{
    let mut fv = FreeVars::new();
    ftv_type(ty, &mut fv);
    let sorted = sorted_elements(&fv.types);
    assert(var_set(fv.types) =~= vars(ty@));
    let mut subst = Subst::empty();
    let mut i: usize = 0;
    while i < sorted.len()
        invariant
            i <= sorted.len(),
            subst@ == rename_map(sorted@, i as nat),
        decreases sorted.len() - i,
    {
        let var = sorted[i];
        if var != i as u64 {
            subst.types.insert(var, Type::Var(TypeVar(i as u64)));
        }
        i = i + 1;
        assert(subst@ =~= rename_map(sorted@, i as nat));
    }
    TypeInference::apply_type(&subst, ty)
}

} // verus!

verus! {

/// The variables `vs` written one after another with single spaces between them.
pub open spec fn vars_text(vs: Seq<u64>) -> Seq<char>
    decreases vs.len(),
{
    if vs.len() == 0 {
        Seq::empty()
    } else if vs.len() == 1 {
        crate::hir::var_text(vs[0])
    } else {
        vars_text(vs.drop_last()) + " "@ + crate::hir::var_text(vs.last())
    }
}

/// How a scheme is written: its type alone when it quantifies nothing;
/// otherwise `forall` with the variables of its renamed type in increasing
/// order, then `. ` and the renamed type (see `rename_scheme_spec`).
pub open spec fn scheme_text(sc: SScheme) -> Seq<char> {
    if sc.type_vars.len() == 0 {
        crate::hir::type_text(sc.ty)
    } else {
        let r = rename_scheme_spec(sc);
        "forall "@ + vars_text(sorted_vars(vars(r))) + ". "@ + crate::hir::type_text(r)
    }
}

impl Scheme {
    /// Appends how this scheme is written.
    pub fn write_to(&self, out: &mut String)
        ensures
            final(out)@ == old(out)@ + scheme_text(self@),
    {
        if self.type_vars.len() == 0 {
            self.ty.write_to(out);
            return;
        }
        let renamed = rename_scheme(self);
        let mut fv = FreeVars::new();
        ftv_type(&renamed, &mut fv);
        assert(var_set(fv.types) =~= vars(renamed@));
        let vs = sorted_elements(&fv.types);
        out.append("forall ");
        let ghost start = out@;
        let mut i: usize = 0;
        while i < vs.len()
            invariant
                i <= vs.len(),
                out@ == start + vars_text(vs@.take(i as int)),
            decreases vs.len() - i,
        {
            if i > 0 {
                out.append(" ");
            }
            TypeVar(vs[i]).write_to(out);
            proof {
                let t = vs@.take(i + 1);
                assert(t.drop_last() =~= vs@.take(i as int));
                if i == 0 {
                    assert(vs@.take(0) =~= Seq::<u64>::empty());
                }
            }
            i = i + 1;
        }
        assert(vs@.take(i as int) =~= vs@);
        out.append(". ");
        renamed.write_to(out);
    }

    /// How this scheme is written.
    pub fn to_text(&self) -> (s: String)
        ensures
            s@ == scheme_text(self@),
    {
        let mut s = String::new();
        self.write_to(&mut s);
        s
    }
}

} // verus!
