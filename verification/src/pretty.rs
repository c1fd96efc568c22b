//! How an environment is written in a derivation: the schemes of the names
//! an expression uses, ordered by name.
use vstd::prelude::*;
use vstd::std_specs::iter::IteratorSpec;
use vstd::string::axiom_spec_iter;
use vstd::std_specs::btree::spec_btree_map_iter;
use crate::ast::Expr;
use crate::interner::{interned, resolve};
use crate::scheme::{env_view, scheme_text, Env, SScheme};
use crate::scope::{free_vars, free_vars_spec, lemma_free_vars_below, names_below};
use crate::typecheck::TypeInference;

verus! {

/// The characters of a string, one by one.
pub fn str_chars(s: &str) -> (v: Vec<char>)
    ensures
        v@ == s@,
{
    broadcast use axiom_spec_iter;
    let mut v: Vec<char> = Vec::new();
    for c in it: s.chars()
        invariant
            it.seq() == s@,
            v@ == it.seq().take(it.index()),
    {
        v.push(c);
        assert(v@ =~= it.seq().take(it.index() + 1));
    }
    assert(v@ =~= s@);
    v
}

/// Whether `a` comes strictly before `b` in lexicographic order of their
/// characters (which is the order of `str`'s `Ord`).
pub open spec fn text_lt(a: Seq<char>, b: Seq<char>) -> bool
    decreases a.len(),
{
    if a.len() == 0 {
        b.len() > 0
    } else if b.len() == 0 {
        false
    } else if a[0] != b[0] {
        (a[0] as int) < (b[0] as int)
    } else {
        text_lt(a.drop_first(), b.drop_first())
    }
}

/// No text comes before itself.
pub proof fn lemma_text_lt_irreflexive(a: Seq<char>)
    ensures
        !text_lt(a, a),
    decreases a.len(),
{
    if a.len() > 0 {
        lemma_text_lt_irreflexive(a.drop_first());
    }
}

/// Of two different texts, one comes before the other.
pub proof fn lemma_text_lt_total(a: Seq<char>, b: Seq<char>)
    requires
        a != b,
    ensures
        text_lt(a, b) || text_lt(b, a),
    decreases a.len(),
{
    if a.len() > 0 && b.len() > 0 && a[0] == b[0] {
        if a.drop_first() == b.drop_first() {
            assert(a =~= seq![a[0]] + a.drop_first());
            assert(b =~= seq![b[0]] + b.drop_first());
        }
        lemma_text_lt_total(a.drop_first(), b.drop_first());
    } else if a.len() == 0 && b.len() == 0 {
        assert(a =~= b);
    } else if a.len() > 0 && b.len() > 0 {
        assert((a[0] as int) != (b[0] as int));
    }
}

/// The order of texts is transitive.
pub proof fn lemma_text_lt_transitive(a: Seq<char>, b: Seq<char>, c: Seq<char>)
    requires
        text_lt(a, b),
        text_lt(b, c),
    ensures
        text_lt(a, c),
    decreases a.len(),
{
    if a.len() > 0 && b.len() > 0 && c.len() > 0 && a[0] == b[0] && b[0] == c[0] {
        lemma_text_lt_transitive(a.drop_first(), b.drop_first(), c.drop_first());
    }
}

/// The order of texts never has both `a` before `b` and `b` before `a`.
pub proof fn lemma_text_lt_asymmetric(a: Seq<char>, b: Seq<char>)
    requires
        text_lt(a, b),
    ensures
        !text_lt(b, a),
{
    if text_lt(b, a) {
        lemma_text_lt_transitive(a, b, a);
        lemma_text_lt_irreflexive(a);
    }
}

/// Whether `a` comes before `b` in lexicographic order.
pub fn text_less(a: &str, b: &str) -> (r: bool)
    ensures
        r == text_lt(a@, b@),
{
    let va = str_chars(a);
    let vb = str_chars(b);
    let mut i: usize = 0;
    assert(a@.skip(0) =~= a@);
    assert(b@.skip(0) =~= b@);
    while i < va.len() && i < vb.len() && va[i] == vb[i]
        invariant
            va@ == a@,
            vb@ == b@,
            i <= va.len(),
            i <= vb.len(),
            text_lt(a@, b@) == text_lt(a@.skip(i as int), b@.skip(i as int)),
        decreases va.len() - i,
    {
        proof {
            let x = a@.skip(i as int);
            let y = b@.skip(i as int);
            assert(x[0] == y[0]);
            assert(x.drop_first() =~= a@.skip(i + 1));
            assert(y.drop_first() =~= b@.skip(i + 1));
        }
        i = i + 1;
    }
    if i == va.len() {
        i < vb.len()
    } else if i == vb.len() {
        false
    } else {
        assert(a@.skip(i as int)[0] == va@[i as int]);
        assert(b@.skip(i as int)[0] == vb@[i as int]);
        va[i] < vb[i]
    }
}

/// Whether key `k1` comes before key `k2` when ordered by name, and by key
/// among equal names.
pub open spec fn key_before(names: Seq<Seq<char>>, k1: usize, k2: usize) -> bool {
    text_lt(names[k1 as int], names[k2 as int]) || (names[k1 as int] == names[k2 as int] && k1 < k2)
}

/// Whether keys `q` are ordered by `key_before`.
pub open spec fn keys_sorted(names: Seq<Seq<char>>, q: Seq<usize>) -> bool {
    forall|i: int, j: int| 0 <= i < j < q.len() ==> key_before(names, #[trigger] q[i], #[trigger] q[j])
}

/// `key_before` orders distinct keys one way or the other.
pub proof fn lemma_key_before_total(names: Seq<Seq<char>>, k1: usize, k2: usize)
    requires
        k1 != k2,
    ensures
        key_before(names, k1, k2) || key_before(names, k2, k1),
{
    if names[k1 as int] != names[k2 as int] {
        lemma_text_lt_total(names[k1 as int], names[k2 as int]);
    }
}

/// `key_before` is transitive.
pub proof fn lemma_key_before_transitive(names: Seq<Seq<char>>, k1: usize, k2: usize, k3: usize)
    requires
        key_before(names, k1, k2),
        key_before(names, k2, k3),
    ensures
        key_before(names, k1, k3),
{
    let (a, b, c) = (names[k1 as int], names[k2 as int], names[k3 as int]);
    if text_lt(a, b) && text_lt(b, c) {
        lemma_text_lt_transitive(a, b, c);
    }
}

/// The entry of key `k`: its name, `: ` and its scheme.
pub open spec fn entry_text(env: Map<usize, SScheme>, names: Seq<Seq<char>>, k: usize) -> Seq<char> {
    names[k as int] + ": "@ + scheme_text(env[k])
}

/// The entries of keys `q`, in order, separated by `, `.
pub open spec fn entries_text(env: Map<usize, SScheme>, names: Seq<Seq<char>>, q: Seq<usize>) -> Seq<char>
    decreases q.len(),
{
    if q.len() == 0 {
        Seq::empty()
    } else if q.len() == 1 {
        entry_text(env, names, q[0])
    } else {
        entries_text(env, names, q.drop_last()) + ", "@ + entry_text(env, names, q.last())
    }
}

/// How the entries of keys `q` of an environment are written: `{}` when there
/// are none, otherwise the entries between braces.
pub open spec fn env_text(env: Map<usize, SScheme>, names: Seq<Seq<char>>, q: Seq<usize>) -> Seq<char> {
    if q.len() == 0 {
        "{}"@
    } else {
        "{"@ + entries_text(env, names, q) + "}"@
    }
}

/// Inserts `k` into keys ordered by name, unless it is there already.
fn insert_by_name(rodeo: &lasso::Rodeo, keys: &mut Vec<usize>, k: usize)
    requires
        keys_sorted(interned(*rodeo), old(keys)@),
        forall|i: int| 0 <= i < old(keys)@.len() ==> old(keys)@[i] < interned(*rodeo).len(),
        k < interned(*rodeo).len(),
    ensures
        keys_sorted(interned(*rodeo), final(keys)@),
        final(keys)@.to_set() == old(keys)@.to_set().insert(k),
        forall|i: int| 0 <= i < final(keys)@.len() ==> final(keys)@[i] < interned(*rodeo).len(),
{
    let ghost names = interned(*rodeo);
    let mut i: usize = 0;
    let mut stop = false;
    while i < keys.len() && !stop
        invariant
            i <= keys.len(),
            keys@ == old(keys)@,
            keys_sorted(names, keys@),
            forall|j: int| 0 <= j < keys@.len() ==> keys@[j] < names.len(),
            k < names.len(),
            names == interned(*rodeo),
            forall|j: int| 0 <= j < i ==> key_before(names, #[trigger] keys@[j], k),
            stop ==> i < keys.len() && key_before(names, k, keys@[i as int]),
        decreases keys.len() - i, if stop { 0nat } else { 1nat },
    {
        let other = keys[i];
        if other == k {
            assert(keys@.to_set() =~= keys@.to_set().insert(k));
            return;
        }
        let n1 = resolve(rodeo, k);
        let n2 = resolve(rodeo, other);
        let lt = text_less(n1, n2);
        let gt = text_less(n2, n1);
        let before = lt || (!gt && k < other);
        proof {
            if !lt && !gt {
                if names[k as int] != names[other as int] {
                    lemma_text_lt_total(names[k as int], names[other as int]);
                }
            }
            if lt {
                lemma_text_lt_asymmetric(names[k as int], names[other as int]);
            }
            assert(before == key_before(names, k, other));
        }
        if before {
            stop = true;
        } else {
            proof {
                lemma_key_before_total(names, k, other);
            }
            i = i + 1;
        }
    }
    proof {
        if i < keys.len() {
            assert forall|j: int| i <= j < keys@.len() implies key_before(names, k, #[trigger] keys@[j]) by {
                if j > i {
                    lemma_key_before_transitive(names, k, keys@[i as int], keys@[j]);
                }
            }
        }
    }
    let ghost before = keys@;
    keys.insert(i, k);
    proof {
        assert(keys@ =~= before.take(i as int).push(k) + before.skip(i as int));
        assert forall|a: int, b: int| 0 <= a < b < keys@.len() implies key_before(names, #[trigger] keys@[a], #[trigger] keys@[b]) by {
            if b < i {
                assert(keys@[a] == before[a] && keys@[b] == before[b]);
            } else if b == i {
                assert(keys@[a] == before[a]);
            } else if a == i {
                assert(keys@[b] == before[b - 1]);
            } else if a < i {
                assert(keys@[a] == before[a] && keys@[b] == before[b - 1]);
                lemma_key_before_transitive(names, before[a], k, before[b - 1]);
            } else {
                assert(keys@[a] == before[a - 1] && keys@[b] == before[b - 1]);
            }
        }
        assert(keys@.to_set() =~= before.to_set().insert(k)) by {
            assert forall|x: usize| keys@.to_set().contains(x) implies before.to_set().insert(k).contains(x) by {
                let j = choose|j: int| 0 <= j < keys@.len() && keys@[j] == x;
                if j < i { assert(before[j] == x); } else if j > i { assert(before[j - 1] == x); }
            }
            assert forall|x: usize| before.to_set().insert(k).contains(x) implies keys@.to_set().contains(x) by {
                if x == k {
                    assert(keys@[i as int] == k);
                } else {
                    let j = choose|j: int| 0 <= j < before.len() && before[j] == x;
                    if j < i { assert(keys@[j] == x); } else { assert(keys@[j + 1] == x); }
                }
            }
        }
        assert forall|j: int| 0 <= j < keys@.len() implies keys@[j] < names.len() by {
            if j < i { assert(keys@[j] == before[j]); } else if j > i { assert(keys@[j] == before[j - 1]); }
        }
    }
}

impl<'r> TypeInference<'r> {
    /// How the environment of a derivation step is written: the schemes of
    /// the names that `expr` uses freely and `env` holds, ordered by name (see
    /// `env_text`).
    pub fn pretty_env(&self, env: &Env, expr: &Expr) -> (s: String)
        requires
            names_below(*expr, self.names().len()),
        ensures
            exists|q: Seq<usize>| {
                &&& keys_sorted(self.names(), q)
                &&& q.to_set() == env@.dom().intersect(free_vars_spec(*expr))
                &&& s@ == env_text(env_view(env@), self.names(), q)
            },
    {
        let ghost names = self.names();
        proof {
            self.lemma_names();
        }
        let fv = free_vars(expr);
        proof {
            lemma_free_vars_below(*expr, names.len());
        }
        let mut keys: Vec<usize> = Vec::new();
        let ghost q = spec_btree_map_iter(env).remaining();
        for (k, sc) in it: env.iter()
            invariant
                it.seq() == q,
                names == self.names(),
                names == interned(*self.rodeo),
                fv@ == free_vars_spec(*expr),
                forall|x: usize| #[trigger] fv@.contains(x) ==> x < names.len(),
                keys_sorted(names, keys@),
                forall|j: int| 0 <= j < keys@.len() ==> keys@[j] < names.len(),
                keys@.to_set() == Set::new(|x: usize| fv@.contains(x) && exists|j: int| 0 <= j < it.index() && *q[j].0 == x),
        {
            let ghost before = keys@;
            if fv.contains(k) {
                insert_by_name(self.rodeo, &mut keys, *k);
            }
            assert(keys@.to_set() =~= Set::new(|x: usize| fv@.contains(x) && exists|j: int| 0 <= j < it.index() + 1 && *q[j].0 == x)) by {
                assert forall|x: usize| keys@.to_set().contains(x) implies fv@.contains(x) && exists|j: int| 0 <= j < it.index() + 1 && *q[j].0 == x by {
                    if x != *k || !fv@.contains(*k) {
                        assert(before.to_set().contains(x));
                    }
                }
                assert forall|x: usize| fv@.contains(x) && (exists|j: int| 0 <= j < it.index() + 1 && *q[j].0 == x) implies keys@.to_set().contains(x) by {
                    let j = choose|j: int| 0 <= j < it.index() + 1 && *q[j].0 == x;
                    if j < it.index() {
                        assert(before.to_set().contains(x));
                    }
                }
            }
        }
        proof {
            assert(keys@.to_set() =~= env@.dom().intersect(free_vars_spec(*expr))) by {
                assert forall|x: usize| keys@.to_set().contains(x) implies env@.dom().intersect(free_vars_spec(*expr)).contains(x) by {
                    let j = choose|j: int| 0 <= j < q.len() && *q[j].0 == x;
                    assert(q.contains(q[j]));
                }
                assert forall|x: usize| env@.dom().intersect(free_vars_spec(*expr)).contains(x) implies keys@.to_set().contains(x) by {
                    assert(q.contains((&x, &env@[x])));
                    let j = choose|j: int| 0 <= j < q.len() && q[j] == (&x, &env@[x]);
                    assert(*q[j].0 == x);
                }
            }
            assert forall|j: int| 0 <= j < keys@.len() implies env@.contains_key(#[trigger] keys@[j]) by {
                assert(keys@.to_set().contains(keys@[j]));
            }
        }
        let ghost ev = env_view(env@);
        let mut out = String::from_str("{");
        let mut i: usize = 0;
        while i < keys.len()
            invariant
                i <= keys.len(),
                names == self.names(),
                names == interned(*self.rodeo),
                ev == env_view(env@),
                forall|j: int| 0 <= j < keys@.len() ==> keys@[j] < names.len(),
                forall|j: int| 0 <= j < keys@.len() ==> env@.contains_key(#[trigger] keys@[j]),
                out@ == "{"@ + entries_text(ev, names, keys@.take(i as int)),
            decreases keys.len() - i,
        {
            if i > 0 {
                out.append(", ");
            }
            let k = keys[i];
            out.append(resolve(self.rodeo, k));
            out.append(": ");
            match env.get(&k) {
                Some(sc) => sc.write_to(&mut out),
                None => {},
            }
            proof {
                let t = keys@.take(i + 1);
                assert(t.drop_last() =~= keys@.take(i as int));
                assert(t.last() == k);
                assert(ev[k] == env@[k]@);
                if i == 0 {
                    assert(keys@.take(0).len() == 0);
                }
            }
            i = i + 1;
        }
        assert(keys@.take(i as int) =~= keys@);
        if keys.len() == 0 {
            String::from_str("{}")
        } else {
            out.append("}");
            out
        }
    }
}

} // verus!
