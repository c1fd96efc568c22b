//! Names in expressions: the variables a pattern binds, the free variables of
//! an expression, and the bound on interned names that a tree respects.
use vstd::prelude::*;
use std::collections::BTreeSet;
use vstd::std_specs::iter::IteratorSpec;
use vstd::std_specs::btree::spec_btree_keys_iter;
use crate::ast::{BindPat, BindPatKind, Binding, Expr, ExprKind, Pat, PatKind};

verus! {

broadcast use vstd::std_specs::btree::group_btree_axioms;

/// The names a pattern binds.
pub open spec fn pat_vars_spec(p: Pat) -> Set<usize>
    decreases p, 0nat,
{
    match *p.kind {
        PatKind::Var(id) => set![id.name],
        PatKind::Wildcard | PatKind::Lit(_) => Set::empty(),
        PatKind::Or(a, b) => pat_vars_spec(a) + pat_vars_spec(b),
        PatKind::Tuple(ps) => pats_vars_spec(ps@, ps@.len()),
        PatKind::App { func, arg } => pat_vars_spec(func) + pat_vars_spec(arg),
        PatKind::Constructor { name, arg } => match arg {
            Some(a) => pat_vars_spec(a),
            None => Set::empty(),
        },
    }
}

/// The names the first `n` patterns bind.
pub open spec fn pats_vars_spec(ps: Seq<Pat>, n: nat) -> Set<usize>
    decreases ps, n,
{
    if n == 0 || n > ps.len() {
        Set::empty()
    } else {
        pats_vars_spec(ps, (n - 1) as nat) + pat_vars_spec(ps[n - 1])
    }
}

/// The names a `let` pattern binds.
pub open spec fn bind_pat_vars_spec(p: BindPat) -> Set<usize>
    decreases p, 0nat,
{
    match p.kind {
        BindPatKind::Var(id) => set![id.name],
        BindPatKind::Tuple(ps) => bind_pats_vars_spec(ps@, ps@.len()),
    }
}

/// The names the first `n` `let` patterns bind.
pub open spec fn bind_pats_vars_spec(ps: Seq<BindPat>, n: nat) -> Set<usize>
    decreases ps, n,
{
    if n == 0 || n > ps.len() {
        Set::empty()
    } else {
        bind_pats_vars_spec(ps, (n - 1) as nat) + bind_pat_vars_spec(ps[n - 1])
    }
}

/// The free variables of an expression.
pub open spec fn free_vars_spec(e: Expr) -> Set<usize>
    decreases e, 0nat,
{
    match *e.kind {
        ExprKind::Literal(_) => Set::empty(),
        ExprKind::Var(id) => set![id.name],
        ExprKind::If { cond, then_expr, else_expr } => free_vars_spec(cond) + free_vars_spec(then_expr) + free_vars_spec(else_expr),
        ExprKind::BinOp { op, lhs, rhs } => free_vars_spec(lhs) + free_vars_spec(rhs),
        ExprKind::UnaryOp { op, rhs } => free_vars_spec(rhs),
        ExprKind::Let { bindings, body } => let_free_vars_spec(free_vars_spec(body), bindings@, bindings@.len()),
        ExprKind::Abs { param, body } => free_vars_spec(body).difference(pat_vars_spec(param)),
        ExprKind::App { func, arg } => free_vars_spec(func) + free_vars_spec(arg),
        ExprKind::Tuple(items) => items_free_vars_spec(items@, items@.len()),
        ExprKind::Match { scrutinee, arms } => arms_free_vars_spec(free_vars_spec(scrutinee), arms@, arms@.len()),
        ExprKind::Type { definitions, body } => free_vars_spec(body),
        ExprKind::Constructor { name, arg } => match arg {
            Some(a) => set![name.name] + free_vars_spec(a),
            None => set![name.name],
        },
    }
}

/// The free variables of a `let` whose body has free variables `fv`, after its
/// first `n` bindings: each adds those of its value and removes its names.
pub open spec fn let_free_vars_spec(fv: Set<usize>, bs: Seq<Binding>, n: nat) -> Set<usize>
    decreases bs, n,
{
    if n == 0 || n > bs.len() {
        fv
    } else {
        (let_free_vars_spec(fv, bs, (n - 1) as nat) + free_vars_spec(bs[n - 1].value)).difference(
            bind_pat_vars_spec(bs[n - 1].pat),
        )
    }
}

/// The free variables of the first `n` items of a tuple.
pub open spec fn items_free_vars_spec(items: Seq<Expr>, n: nat) -> Set<usize>
    decreases items, n,
{
    if n == 0 || n > items.len() {
        Set::empty()
    } else {
        items_free_vars_spec(items, (n - 1) as nat) + free_vars_spec(items[n - 1])
    }
}

/// `fv` with the free variables of the first `n` arms of a `match` added, each
/// body's without the names its pattern binds.
pub open spec fn arms_free_vars_spec(fv: Set<usize>, arms: Seq<(Pat, Expr)>, n: nat) -> Set<usize>
    decreases arms, n,
{
    if n == 0 || n > arms.len() {
        fv
    } else {
        arms_free_vars_spec(fv, arms, (n - 1) as nat) + free_vars_spec(arms[n - 1].1).difference(
            pat_vars_spec(arms[n - 1].0),
        )
    }
}

/// Whether every name a pattern mentions is below `n`.
pub open spec fn pat_names_below(p: Pat, n: nat) -> bool
    decreases p, 0nat,
{
    match *p.kind {
        PatKind::Var(id) => id.name < n,
        PatKind::Wildcard | PatKind::Lit(_) => true,
        PatKind::Or(a, b) => pat_names_below(a, n) && pat_names_below(b, n),
        PatKind::Tuple(ps) => pats_names_below(ps@, n, ps@.len()),
        PatKind::App { func, arg } => pat_names_below(func, n) && pat_names_below(arg, n),
        PatKind::Constructor { name, arg } => name.name < n && match arg {
            Some(a) => pat_names_below(a, n),
            None => true,
        },
    }
}

/// Whether every name the first `m` patterns of `ps` mention is below `n`.
pub open spec fn pats_names_below(ps: Seq<Pat>, n: nat, m: nat) -> bool
    decreases ps, m,
{
    if m == 0 || m > ps.len() {
        true
    } else {
        pats_names_below(ps, n, (m - 1) as nat) && pat_names_below(ps[m - 1], n)
    }
}

/// Whether every name a `let` pattern mentions is below `n`.
pub open spec fn bind_pat_names_below(p: BindPat, n: nat) -> bool
    decreases p, 0nat,
{
    match p.kind {
        BindPatKind::Var(id) => id.name < n,
        BindPatKind::Tuple(ps) => bind_pats_names_below(ps@, n, ps@.len()),
    }
}

/// Whether every name the first `m` `let` patterns of `ps` mention is below `n`.
pub open spec fn bind_pats_names_below(ps: Seq<BindPat>, n: nat, m: nat) -> bool
    decreases ps, m,
{
    if m == 0 || m > ps.len() {
        true
    } else {
        bind_pats_names_below(ps, n, (m - 1) as nat) && bind_pat_names_below(ps[m - 1], n)
    }
}

/// Whether every name an expression mentions (variables, constructors,
/// patterns and `let` patterns) is below `n`: in this library, whether each
/// is a key of an interner holding `n` names.
pub open spec fn names_below(e: Expr, n: nat) -> bool
    decreases e, 0nat,
{
    match *e.kind {
        ExprKind::Literal(_) => true,
        ExprKind::Var(id) => id.name < n,
        ExprKind::If { cond, then_expr, else_expr } =>
            names_below(cond, n) && names_below(then_expr, n) && names_below(else_expr, n),
        ExprKind::BinOp { op, lhs, rhs } => names_below(lhs, n) && names_below(rhs, n),
        ExprKind::UnaryOp { op, rhs } => names_below(rhs, n),
        ExprKind::Let { bindings, body } => bindings_names_below(bindings@, n, bindings@.len()) && names_below(body, n),
        ExprKind::Abs { param, body } => pat_names_below(param, n) && names_below(body, n),
        ExprKind::App { func, arg } => names_below(func, n) && names_below(arg, n),
        ExprKind::Tuple(items) => items_names_below(items@, n, items@.len()),
        ExprKind::Match { scrutinee, arms } => names_below(scrutinee, n) && arms_names_below(arms@, n, arms@.len()),
        ExprKind::Type { definitions, body } => names_below(body, n),
        ExprKind::Constructor { name, arg } => name.name < n && match arg {
            Some(a) => names_below(a, n),
            None => true,
        },
    }
}

/// Whether every name the first `m` expressions of `items` mention is below `n`.
pub open spec fn items_names_below(items: Seq<Expr>, n: nat, m: nat) -> bool
    decreases items, m,
{
    if m == 0 || m > items.len() {
        true
    } else {
        items_names_below(items, n, (m - 1) as nat) && names_below(items[m - 1], n)
    }
}

/// Whether every name the first `m` bindings of `bs` mention is below `n`.
pub open spec fn bindings_names_below(bs: Seq<Binding>, n: nat, m: nat) -> bool
    decreases bs, m,
{
    if m == 0 || m > bs.len() {
        true
    } else {
        bindings_names_below(bs, n, (m - 1) as nat) && bind_pat_names_below(bs[m - 1].pat, n)
            && names_below(bs[m - 1].value, n)
    }
}

/// Whether every name the first `m` arms of `arms` mention is below `n`.
pub open spec fn arms_names_below(arms: Seq<(Pat, Expr)>, n: nat, m: nat) -> bool
    decreases arms, m,
{
    if m == 0 || m > arms.len() {
        true
    } else {
        arms_names_below(arms, n, (m - 1) as nat) && pat_names_below(arms[m - 1].0, n)
            && names_below(arms[m - 1].1, n)
    }
}

/// Each of the first `m` patterns has its names below `n`.
pub proof fn lemma_pats_names_below(ps: Seq<Pat>, n: nat, m: nat, i: int)
    requires
        pats_names_below(ps, n, m),
        0 <= i < m <= ps.len(),
    ensures
        pat_names_below(ps[i], n),
    decreases m,
{
    if i < m - 1 {
        lemma_pats_names_below(ps, n, (m - 1) as nat, i);
    }
}

/// Each of the first `m` `let` patterns has its names below `n`.
pub proof fn lemma_bind_pats_names_below(ps: Seq<BindPat>, n: nat, m: nat, i: int)
    requires
        bind_pats_names_below(ps, n, m),
        0 <= i < m <= ps.len(),
    ensures
        bind_pat_names_below(ps[i], n),
    decreases m,
{
    if i < m - 1 {
        lemma_bind_pats_names_below(ps, n, (m - 1) as nat, i);
    }
}

/// Each of the first `m` expressions has its names below `n`.
pub proof fn lemma_items_names_below(items: Seq<Expr>, n: nat, m: nat, i: int)
    requires
        items_names_below(items, n, m),
        0 <= i < m <= items.len(),
    ensures
        names_below(items[i], n),
    decreases m,
{
    if i < m - 1 {
        lemma_items_names_below(items, n, (m - 1) as nat, i);
    }
}

/// Each of the first `m` bindings has its names below `n`.
pub proof fn lemma_bindings_names_below(bs: Seq<Binding>, n: nat, m: nat, i: int)
    requires
        bindings_names_below(bs, n, m),
        0 <= i < m <= bs.len(),
    ensures
        bind_pat_names_below(bs[i].pat, n),
        names_below(bs[i].value, n),
    decreases m,
{
    if i < m - 1 {
        lemma_bindings_names_below(bs, n, (m - 1) as nat, i);
    }
}

/// Each of the first `m` arms has its names below `n`.
pub proof fn lemma_arms_names_below(arms: Seq<(Pat, Expr)>, n: nat, m: nat, i: int)
    requires
        arms_names_below(arms, n, m),
        0 <= i < m <= arms.len(),
    ensures
        pat_names_below(arms[i].0, n),
        names_below(arms[i].1, n),
    decreases m,
{
    if i < m - 1 {
        lemma_arms_names_below(arms, n, (m - 1) as nat, i);
    }
}

/// The free variables of an expression are among the names it mentions.
pub proof fn lemma_free_vars_below(e: Expr, n: nat)
    requires
        names_below(e, n),
    ensures
        forall|k: usize| #[trigger] free_vars_spec(e).contains(k) ==> k < n,
    decreases e, 0nat,
{
    match *e.kind {
        ExprKind::If { cond, then_expr, else_expr } => {
            lemma_free_vars_below(cond, n);
            lemma_free_vars_below(then_expr, n);
            lemma_free_vars_below(else_expr, n);
            assert forall|k: usize| #[trigger] free_vars_spec(e).contains(k) implies k < n by {
                assert(free_vars_spec(cond).contains(k) || free_vars_spec(then_expr).contains(k)
                    || free_vars_spec(else_expr).contains(k));
            }
        },
        ExprKind::BinOp { op, lhs, rhs } => {
            lemma_free_vars_below(lhs, n);
            lemma_free_vars_below(rhs, n);
            assert forall|k: usize| #[trigger] free_vars_spec(e).contains(k) implies k < n by {
                assert(free_vars_spec(lhs).contains(k) || free_vars_spec(rhs).contains(k));
            }
        },
        ExprKind::UnaryOp { op, rhs } => {
            lemma_free_vars_below(rhs, n);
            assert forall|k: usize| #[trigger] free_vars_spec(e).contains(k) implies k < n by {
                assert(free_vars_spec(rhs).contains(k));
            }
        },
        ExprKind::Let { bindings, body } => {
            lemma_free_vars_below(body, n);
            lemma_let_free_vars_below(free_vars_spec(body), bindings@, n, bindings@.len());
            assert forall|k: usize| #[trigger] free_vars_spec(e).contains(k) implies k < n by {
                assert(let_free_vars_spec(free_vars_spec(body), bindings@, bindings@.len()).contains(k));
            }
        },
        ExprKind::Abs { param, body } => {
            lemma_free_vars_below(body, n);
            assert forall|k: usize| #[trigger] free_vars_spec(e).contains(k) implies k < n by {
                assert(free_vars_spec(body).contains(k));
            }
        },
        ExprKind::App { func, arg } => {
            lemma_free_vars_below(func, n);
            lemma_free_vars_below(arg, n);
            assert forall|k: usize| #[trigger] free_vars_spec(e).contains(k) implies k < n by {
                assert(free_vars_spec(func).contains(k) || free_vars_spec(arg).contains(k));
            }
        },
        ExprKind::Tuple(items) => {
            lemma_items_free_vars_below(items@, n, items@.len());
            assert forall|k: usize| #[trigger] free_vars_spec(e).contains(k) implies k < n by {
                assert(items_free_vars_spec(items@, items@.len()).contains(k));
            }
        },
        ExprKind::Match { scrutinee, arms } => {
            lemma_free_vars_below(scrutinee, n);
            lemma_arms_free_vars_below(free_vars_spec(scrutinee), arms@, n, arms@.len());
            assert forall|k: usize| #[trigger] free_vars_spec(e).contains(k) implies k < n by {
                assert(arms_free_vars_spec(free_vars_spec(scrutinee), arms@, arms@.len()).contains(k));
            }
        },
        ExprKind::Type { definitions, body } => {
            lemma_free_vars_below(body, n);
            assert forall|k: usize| #[trigger] free_vars_spec(e).contains(k) implies k < n by {
                assert(free_vars_spec(body).contains(k));
            }
        },
        ExprKind::Constructor { name, arg } => match arg {
            Some(a) => {
                lemma_free_vars_below(a, n);
                assert forall|k: usize| #[trigger] free_vars_spec(e).contains(k) implies k < n by {
                    assert(k == name.name || free_vars_spec(a).contains(k));
                }
            },
            None => {},
        },
        _ => {},
    }
}

proof fn lemma_let_free_vars_below(fv: Set<usize>, bs: Seq<Binding>, n: nat, m: nat)
    requires
        bindings_names_below(bs, n, m),
        forall|k: usize| #[trigger] fv.contains(k) ==> k < n,
    ensures
        forall|k: usize| #[trigger] let_free_vars_spec(fv, bs, m).contains(k) ==> k < n,
    decreases bs, m,
{
    if m > 0 && m <= bs.len() {
        lemma_let_free_vars_below(fv, bs, n, (m - 1) as nat);
        lemma_free_vars_below(bs[m - 1].value, n);
        assert forall|k: usize| #[trigger] let_free_vars_spec(fv, bs, m).contains(k) implies k < n by {
            assert(let_free_vars_spec(fv, bs, (m - 1) as nat).contains(k) || free_vars_spec(bs[m - 1].value).contains(k));
        }
    }
}

proof fn lemma_items_free_vars_below(items: Seq<Expr>, n: nat, m: nat)
    requires
        items_names_below(items, n, m),
    ensures
        forall|k: usize| #[trigger] items_free_vars_spec(items, m).contains(k) ==> k < n,
    decreases items, m,
{
    if m > 0 && m <= items.len() {
        lemma_items_free_vars_below(items, n, (m - 1) as nat);
        lemma_free_vars_below(items[m - 1], n);
        assert forall|k: usize| #[trigger] items_free_vars_spec(items, m).contains(k) implies k < n by {
            assert(items_free_vars_spec(items, (m - 1) as nat).contains(k) || free_vars_spec(items[m - 1]).contains(k));
        }
    }
}

proof fn lemma_arms_free_vars_below(fv: Set<usize>, arms: Seq<(Pat, Expr)>, n: nat, m: nat)
    requires
        arms_names_below(arms, n, m),
        forall|k: usize| #[trigger] fv.contains(k) ==> k < n,
    ensures
        forall|k: usize| #[trigger] arms_free_vars_spec(fv, arms, m).contains(k) ==> k < n,
    decreases arms, m,
{
    if m > 0 && m <= arms.len() {
        lemma_arms_free_vars_below(fv, arms, n, (m - 1) as nat);
        lemma_free_vars_below(arms[m - 1].1, n);
        assert forall|k: usize| #[trigger] arms_free_vars_spec(fv, arms, m).contains(k) implies k < n by {
            assert(arms_free_vars_spec(fv, arms, (m - 1) as nat).contains(k) || free_vars_spec(arms[m - 1].1).contains(k));
        }
    }
}

fn set_union(a: &mut BTreeSet<usize>, b: &BTreeSet<usize>)
    ensures
        final(a)@ == old(a)@ + b@,
{
    let ghost q = spec_btree_keys_iter(b).remaining();
    for x in it: b.iter()
        invariant
            it.seq() == q,
            a@ == old(a)@ + Set::new(|y: usize| exists|j: int| 0 <= j < it.index() && *q[j] == y),
    {
        a.insert(*x);
        assert(a@ =~= old(a)@ + Set::new(|y: usize| exists|j: int| 0 <= j < it.index() + 1 && *q[j] == y));
    }
    assert(a@ =~= old(a)@ + b@) by {
        assert forall|y: usize| b@.contains(y) implies exists|j: int| 0 <= j < q.len() && *q[j] == y by {
            assert(q.unref().to_set().contains(y));
            let j = choose|j: int| 0 <= j < q.unref().len() && q.unref()[j] == y;
            assert(*q[j] == y);
        }
        assert forall|y: usize| (exists|j: int| 0 <= j < q.len() && *q[j] == y) implies b@.contains(y) by {
            let j = choose|j: int| 0 <= j < q.len() && *q[j] == y;
            assert(q.unref()[j] == y);
            assert(q.unref().to_set().contains(y));
        }
    }
}

fn set_difference(a: &mut BTreeSet<usize>, b: &BTreeSet<usize>)
    ensures
        final(a)@ == old(a)@.difference(b@),
{
    let ghost q = spec_btree_keys_iter(b).remaining();
    for x in it: b.iter()
        invariant
            it.seq() == q,
            a@ == old(a)@.difference(Set::new(|y: usize| exists|j: int| 0 <= j < it.index() && *q[j] == y)),
    {
        a.remove(x);
        assert(a@ =~= old(a)@.difference(Set::new(|y: usize| exists|j: int| 0 <= j < it.index() + 1 && *q[j] == y)));
    }
    assert(a@ =~= old(a)@.difference(b@)) by {
        assert forall|y: usize| b@.contains(y) implies exists|j: int| 0 <= j < q.len() && *q[j] == y by {
            assert(q.unref().to_set().contains(y));
            let j = choose|j: int| 0 <= j < q.unref().len() && q.unref()[j] == y;
            assert(*q[j] == y);
        }
        assert forall|y: usize| (exists|j: int| 0 <= j < q.len() && *q[j] == y) implies b@.contains(y) by {
            let j = choose|j: int| 0 <= j < q.len() && *q[j] == y;
            assert(q.unref()[j] == y);
            assert(q.unref().to_set().contains(y));
        }
    }
}

/// The names a pattern binds.
#[verifier::loop_isolation(false)]
pub fn pat_vars(pat: &Pat) -> (s: BTreeSet<usize>)
    ensures
        s@ == pat_vars_spec(*pat),
    decreases pat,
{
    match &*pat.kind {
        PatKind::Var(ident) => {
            let mut s = BTreeSet::new();
            s.insert(ident.name);
            assert(s@ =~= set![ident.name]);
            s
        },
        PatKind::Wildcard | PatKind::Lit(_) => BTreeSet::new(),
        PatKind::Or(a, b) => {
            let mut s1 = pat_vars(a);
            let s2 = pat_vars(b);
            set_union(&mut s1, &s2);
            s1
        },
        PatKind::Tuple(pats) => {
            let mut s = BTreeSet::new();
            let mut i: usize = 0;
            while i < pats.len()
                invariant
                    i <= pats.len(),
                    s@ == pats_vars_spec(pats@, i as nat),
                decreases pats.len() - i,
            {
                let p = pat_vars(&pats[i]);
                set_union(&mut s, &p);
                i = i + 1;
            }
            s
        },
        PatKind::App { func, arg } => {
            let mut s1 = pat_vars(func);
            let s2 = pat_vars(arg);
            set_union(&mut s1, &s2);
            s1
        },
        PatKind::Constructor { name, arg } => match arg {
            Some(a) => pat_vars(a),
            None => BTreeSet::new(),
        },
    }
}

/// The names a `let` pattern binds.
#[verifier::loop_isolation(false)]
pub fn bind_pat_vars(pat: &BindPat) -> (s: BTreeSet<usize>)
    ensures
        s@ == bind_pat_vars_spec(*pat),
    decreases pat,
{
    match &pat.kind {
        BindPatKind::Var(ident) => {
            let mut s = BTreeSet::new();
            s.insert(ident.name);
            assert(s@ =~= set![ident.name]);
            s
        },
        BindPatKind::Tuple(pats) => {
            let mut s = BTreeSet::new();
            let mut i: usize = 0;
            while i < pats.len()
                invariant
                    i <= pats.len(),
                    s@ == bind_pats_vars_spec(pats@, i as nat),
                decreases pats.len() - i,
            {
                let p = bind_pat_vars(&pats[i]);
                set_union(&mut s, &p);
                i = i + 1;
            }
            s
        },
    }
}

/// The free variables of an expression.
#[verifier::loop_isolation(false)]
pub fn free_vars(expr: &Expr) -> (s: BTreeSet<usize>)
    ensures
        s@ == free_vars_spec(*expr),
    decreases expr,
{
    match &*expr.kind {
        ExprKind::Literal(_) => BTreeSet::new(),
        ExprKind::Var(ident) => {
            let mut s = BTreeSet::new();
            s.insert(ident.name);
            assert(s@ =~= set![ident.name]);
            s
        },
        ExprKind::If { cond, then_expr, else_expr } => {
            let mut s1 = free_vars(cond);
            let s2 = free_vars(then_expr);
            let s3 = free_vars(else_expr);
            set_union(&mut s1, &s2);
            set_union(&mut s1, &s3);
            s1
        },
        ExprKind::BinOp { lhs, rhs, .. } => {
            let mut s1 = free_vars(lhs);
            let s2 = free_vars(rhs);
            set_union(&mut s1, &s2);
            s1
        },
        ExprKind::UnaryOp { rhs, .. } => free_vars(rhs),
        ExprKind::Let { bindings, body } => {
            let mut fv = free_vars(body);
            let mut i: usize = 0;
            while i < bindings.len()
                invariant
                    i <= bindings.len(),
                    fv@ == let_free_vars_spec(free_vars_spec(*body), bindings@, i as nat),
                decreases bindings.len() - i,
            {
                let v = free_vars(&bindings[i].value);
                set_union(&mut fv, &v);
                let p = bind_pat_vars(&bindings[i].pat);
                set_difference(&mut fv, &p);
                i = i + 1;
            }
            fv
        },
        ExprKind::Abs { param, body } => {
            let mut fv = free_vars(body);
            let p = pat_vars(param);
            set_difference(&mut fv, &p);
            fv
        },
        ExprKind::App { func, arg } => {
            let mut s1 = free_vars(func);
            let s2 = free_vars(arg);
            set_union(&mut s1, &s2);
            s1
        },
        ExprKind::Tuple(items) => {
            let mut s = BTreeSet::new();
            let mut i: usize = 0;
            while i < items.len()
                invariant
                    i <= items.len(),
                    s@ == items_free_vars_spec(items@, i as nat),
                decreases items.len() - i,
            {
                let v = free_vars(&items[i]);
                set_union(&mut s, &v);
                i = i + 1;
            }
            s
        },
        ExprKind::Match { scrutinee, arms } => {
            let mut fv = free_vars(scrutinee);
            let mut i: usize = 0;
            while i < arms.len()
                invariant
                    i <= arms.len(),
                    fv@ == arms_free_vars_spec(free_vars_spec(*scrutinee), arms@, i as nat),
                decreases arms.len() - i,
            {
                let p = pat_vars(&arms[i].0);
                let mut body_fv = free_vars(&arms[i].1);
                set_difference(&mut body_fv, &p);
                set_union(&mut fv, &body_fv);
                i = i + 1;
            }
            fv
        },
        ExprKind::Type { body, .. } => free_vars(body),
        ExprKind::Constructor { name, arg } => {
            let mut s = BTreeSet::new();
            s.insert(name.name);
            match arg {
                Some(a) => {
                    let v = free_vars(a);
                    set_union(&mut s, &v);
                },
                None => {},
            }
            assert(s@ =~= free_vars_spec(*expr));
            s
        },
    }
}

} // verus!
