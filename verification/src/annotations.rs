//! Type annotations of a source text for an editor: the type of each
//! expression and binding, by the byte span it covers, and the conversion
//! between byte offsets and line/column positions.
use vstd::prelude::*;
use std::collections::BTreeMap;
use vstd::std_specs::iter::IteratorSpec;
use vstd::std_specs::btree::spec_btree_map_iter;
use vstd::string::StringSliceAdditionalSpecFns;
use crate::ast::{BindPat, BindPatKind, ExprKind, PatKind, Span};
use crate::hir::{SType, Type};
use crate::infer::typecheck;
use crate::interner::interned;
use crate::lexer::{ints_fit, lex_spec, tokenize, tokens_view};
use crate::parser::parser;
use crate::scheme::{rename_type, rename_type_spec};
use crate::typecheck::{InferenceTree, Input, Output};

verus! {

broadcast use vstd::std_specs::btree::group_btree_axioms;

/// What an annotation is of: a name bound by `let`, a lambda's parameter,
/// or any other expression.
#[derive(Debug, Clone, Copy, PartialEq, Eq)]
pub enum BindingKind {
    Let,
    Param,
    NotBinding,
}

/// An annotation: where its span ends, the type, and what it is of.
#[derive(Debug)]
pub struct AnnotationEntry {
    pub end: usize,
    pub ty: Type,
    pub kind: BindingKind,
}

/// Annotations by the byte offset where their spans start.
#[derive(Debug)]
pub struct AnnotationMap {
    pub spans: BTreeMap<usize, AnnotationEntry>,
}

/// The value of the annotations: by start, the end, the type and the kind.
pub open spec fn spans_view(m: Map<usize, AnnotationEntry>) -> Map<usize, (usize, SType, BindingKind)> {
    m.map_values(|e: AnnotationEntry| (e.end, e.ty@, e.kind))
}

/// Whether the annotation starting at `s` covers byte `offset`.
pub open spec fn covers(m: Map<usize, (usize, SType, BindingKind)>, s: usize, offset: usize) -> bool {
    m.contains_key(s) && s <= offset && offset < m[s].0
}

/// Whether the annotation starting at `s` is the narrowest that covers
/// `offset`, and the first among equally narrow ones.
pub open spec fn narrowest(m: Map<usize, (usize, SType, BindingKind)>, s: usize, offset: usize) -> bool {
    &&& covers(m, s, offset)
    &&& forall|s2: usize| #[trigger] covers(m, s2, offset) ==>
        m[s].0 - s < m[s2].0 - s2 || (m[s].0 - s == m[s2].0 - s2 && s <= s2)
}

impl AnnotationMap {
    /// The narrowest annotation that covers `offset`: its start, end, type and kind.
    pub fn find_entry(&self, offset: usize) -> (r: Option<(usize, usize, Type, BindingKind)>)
        ensures
            match r {
                Some((s, e, ty, k)) => narrowest(spans_view(self.spans@), s, offset)
                    && (e, ty@, k) == spans_view(self.spans@)[s],
                None => forall|s: usize| !covers(spans_view(self.spans@), s, offset),
            },
    {
        let ghost m = spans_view(self.spans@);
        let ghost q = spec_btree_map_iter(&self.spans).remaining();
        let mut best: Option<(usize, usize)> = None;
        for (start, e) in it: self.spans.iter()
            invariant
                it.seq() == q,
                m == spans_view(self.spans@),
                match best {
                    Some((s, len)) => covers(m, s, offset) && len == m[s].0 - s
                        && forall|j: int| 0 <= j < it.index() && #[trigger] covers(m, *q[j].0, offset) ==>
                            len < m[*q[j].0].0 - *q[j].0 || (len == m[*q[j].0].0 - *q[j].0 && s <= *q[j].0),
                    None => forall|j: int| 0 <= j < it.index() ==> !#[trigger] covers(m, *q[j].0, offset),
                },
        {
            assert(self.spans@.contains_key(*start) && self.spans@[*start] == *e);
            if *start <= offset && offset < e.end {
                let len = e.end - *start;
                match best {
                    Some((s, l)) => {
                        if len < l || (len == l && *start < s) {
                            best = Some((*start, len));
                        }
                    },
                    None => {
                        best = Some((*start, len));
                    },
                }
            }
        }
        proof {
            assert forall|s2: usize| #[trigger] covers(m, s2, offset) implies exists|j: int| 0 <= j < q.len() && *q[j].0 == s2 by {
                assert(q.contains((&s2, &self.spans@[s2])));
                let j = choose|j: int| 0 <= j < q.len() && q[j] == (&s2, &self.spans@[s2]);
                assert(*q[j].0 == s2);
            }
        }
        match best {
            Some((s, _)) => {
                match self.spans.get(&s) {
                    Some(e) => Some((s, e.end, e.ty.clone(), e.kind)),
                    None => None,
                }
            },
            None => None,
        }
    }
}

/// The annotations after binding pattern `p` to type `t`: each name of the
/// pattern gets its part of `t`, a tuple pattern taking the components of
/// a tuple type pairwise (as far as both go) and nothing from another type.
pub open spec fn bind_types_spec(m: Map<usize, (usize, SType, BindingKind)>, p: BindPat, t: SType) -> Map<usize, (usize, SType, BindingKind)>
    decreases p, 0nat,
{
    match p.kind {
        BindPatKind::Var(name) => m.insert(name.span.start, (name.span.end, t, BindingKind::Let)),
        BindPatKind::Tuple(ps) => match t {
            SType::Tuple(ts) => binds_types_spec(m, ps@, ts, if ps@.len() < ts.len() { ps@.len() } else { ts.len() }),
            _ => m,
        },
    }
}

/// The annotations after binding the first `n` patterns to the first `n` types.
pub open spec fn binds_types_spec(m: Map<usize, (usize, SType, BindingKind)>, ps: Seq<BindPat>, ts: Seq<SType>, n: nat) -> Map<usize, (usize, SType, BindingKind)>
    decreases ps, n,
{
    if n == 0 || n > ps.len() {
        m
    } else {
        bind_types_spec(binds_types_spec(m, ps, ts, (n - 1) as nat), ps[n - 1], ts[n - 1])
    }
}

/// Records the types that binding `pat` to `ty` gives its names.
#[verifier::loop_isolation(false)]
pub fn collect_bind_pat_types(pat: &BindPat, ty: &Type, map: &mut AnnotationMap)
    ensures
        spans_view(final(map).spans@) == bind_types_spec(spans_view(old(map).spans@), *pat, ty@),
    decreases pat,
{
    match &pat.kind {
        BindPatKind::Var(name) => {
            map.spans.insert(name.span.start, AnnotationEntry { end: name.span.end, ty: ty.clone(), kind: BindingKind::Let });
            assert(spans_view(map.spans@) =~= bind_types_spec(spans_view(old(map).spans@), *pat, ty@));
        },
        BindPatKind::Tuple(pats) => {
            match ty {
                Type::Tuple(types) => {
                    let ghost ts = crate::hir::types_view(types@);
                    assert(ty@ == SType::Tuple(ts));
                    let n = if pats.len() < types.len() { pats.len() } else { types.len() };
                    let ghost m0 = spans_view(map.spans@);
                    let mut i: usize = 0;
                    while i < n
                        invariant
                            i <= n,
                            n <= pats.len(),
                            n <= types.len(),
                            ts == crate::hir::types_view(types@),
                            pat.kind == BindPatKind::Tuple(*pats),
                            spans_view(map.spans@) == binds_types_spec(m0, pats@, ts, i as nat),
                        decreases n - i,
                    {
                        assert(ts[i as int] == types@[i as int]@);
                        collect_bind_pat_types(&pats[i], &types[i], map);
                        i = i + 1;
                    }
                },
                _ => {},
            }
        },
    }
}

/// The index of the first derivation among `cs[i..]` whose step inferred
/// an expression with span `sp`.
pub open spec fn find_child(cs: Seq<InferenceTree>, sp: Span, i: nat) -> Option<nat>
    decreases cs.len() - i,
{
    if i >= cs.len() {
        None
    } else if cs[i as int].input matches Input::Infer { env, expr } && expr.span == sp {
        Some(i)
    } else {
        find_child(cs, sp, i + 1)
    }
}

/// The annotations after the first `n` bindings of a `let` with derivations
/// `cs`: each binding's pattern gets the renamed type of the first
/// derivation of its value, when that derivation concludes a type.
pub open spec fn let_types_spec(
    m: Map<usize, (usize, SType, BindingKind)>,
    cs: Seq<InferenceTree>,
    bs: Seq<crate::ast::Binding>,
    n: nat,
) -> Map<usize, (usize, SType, BindingKind)>
    decreases n,
{
    if n == 0 || n > bs.len() {
        m
    } else {
        let m1 = let_types_spec(m, cs, bs, (n - 1) as nat);
        match find_child(cs, bs[n - 1].value.span, 0) {
            Some(c) => match cs[c as int].output {
                Output::Type(vty) => bind_types_spec(m1, bs[n - 1].pat, rename_type_spec(vty@)),
                _ => m1,
            },
            None => m1,
        }
    }
}

/// The annotations that a derivation's own step records before its children:
/// the renamed type of the expression it inferred, and, for a lambda whose
/// parameter is a name and whose type is a function type, the parameter's type.
pub open spec fn node_spec(m: Map<usize, (usize, SType, BindingKind)>, t: InferenceTree) -> Map<usize, (usize, SType, BindingKind)> {
    match t.input {
        Input::Infer { env, expr } => match t.output {
            Output::Type(ty) => {
                let r = rename_type_spec(ty@);
                let m1 = m.insert(expr.span.start, (expr.span.end, r, BindingKind::NotBinding));
                match *expr.kind {
                    ExprKind::Abs { param, body } => {
                        if ty@ is Arrow && *param.kind is Var && r is Arrow {
                            m1.insert(param.span.start, (param.span.end, *r->Arrow_0, BindingKind::Param))
                        } else {
                            m1
                        }
                    },
                    _ => m1,
                }
            },
            _ => m,
        },
        _ => m,
    }
}

/// The annotations that a derivation records: its own step, then those of
/// its children in order, then, for a `let`, the types of the names it binds.
pub open spec fn nodes_spec(m: Map<usize, (usize, SType, BindingKind)>, t: InferenceTree) -> Map<usize, (usize, SType, BindingKind)>
    decreases t, 1nat,
{
    let m2 = children_spec(node_spec(m, t), t.children@, t.children@.len());
    match t.input {
        Input::Infer { env, expr } => match t.output {
            Output::Type(_) => match *expr.kind {
                ExprKind::Let { bindings, body } => let_types_spec(m2, t.children@, bindings@, bindings@.len()),
                _ => m2,
            },
            _ => m2,
        },
        _ => m2,
    }
}

/// The annotations that the first `n` derivations of `cs` record, in order.
pub open spec fn children_spec(m: Map<usize, (usize, SType, BindingKind)>, cs: Seq<InferenceTree>, n: nat) -> Map<usize, (usize, SType, BindingKind)>
    decreases cs, n,
{
    if n == 0 || n > cs.len() {
        m
    } else {
        nodes_spec(children_spec(m, cs, (n - 1) as nat), cs[n - 1])
    }
}

/// The first child derivation that inferred an expression with span `sp`.
fn find_child_exec(cs: &Vec<InferenceTree>, sp: Span) -> (r: Option<usize>)
    ensures
        match r {
            Some(c) => find_child(cs@, sp, 0) == Some(c as nat) && c < cs@.len(),
            None => find_child(cs@, sp, 0) is None,
        },
{
    let mut i: usize = 0;
    while i < cs.len()
        invariant
            i <= cs.len(),
            find_child(cs@, sp, 0) == find_child(cs@, sp, i as nat),
        decreases cs.len() - i,
    {
        match &cs[i].input {
            Input::Infer { expr, .. } => {
                if expr.span.start == sp.start && expr.span.end == sp.end {
                    return Some(i);
                }
            },
            _ => {},
        }
        i = i + 1;
    }
    None
}

/// Records the annotations of a derivation (see `nodes_spec`).
pub fn collect_infer_nodes(tree: &InferenceTree, map: &mut AnnotationMap)
    ensures
        spans_view(final(map).spans@) == nodes_spec(spans_view(old(map).spans@), *tree),
    decreases *tree,
{
    let ghost m0 = spans_view(map.spans@);
    match &tree.input {
        Input::Infer { expr, .. } => match &tree.output {
            Output::Type(ty) => {
                let renamed = rename_type(ty);
                let range_start = expr.span.start;
                let range_end = expr.span.end;
                map.spans.insert(range_start, AnnotationEntry { end: range_end, ty: renamed, kind: BindingKind::NotBinding });
                match &*expr.kind {
                    ExprKind::Abs { param, .. } => {
                        let is_arrow = match ty { Type::Arrow(_, _) => true, _ => false };
                        let is_var = match &*param.kind { PatKind::Var(_) => true, _ => false };
                        if is_arrow && is_var {
                            let renamed = rename_type(ty);
                            match &renamed {
                                Type::Arrow(param_ty, _) => {
                                    map.spans.insert(param.span.start, AnnotationEntry {
                                        end: param.span.end,
                                        ty: (**param_ty).clone(),
                                        kind: BindingKind::Param,
                                    });
                                },
                                _ => {},
                            }
                        }
                    },
                    _ => {},
                }
            },
            _ => {},
        },
        _ => {},
    }
    assert(spans_view(map.spans@) =~= node_spec(m0, *tree));
    let ghost m1 = spans_view(map.spans@);
    let mut i: usize = 0;
    while i < tree.children.len()
        invariant
            i <= tree.children.len(),
            spans_view(map.spans@) == children_spec(m1, tree.children@, i as nat),
        decreases tree.children.len() - i,
    {
        collect_infer_nodes(&tree.children[i], map);
        i = i + 1;
    }
    let ghost m2 = spans_view(map.spans@);
    match &tree.input {
        Input::Infer { expr, .. } => match &tree.output {
            Output::Type(_) => match &*expr.kind {
                ExprKind::Let { bindings, .. } => {
                    let mut b: usize = 0;
                    while b < bindings.len()
                        invariant
                            b <= bindings.len(),
                            spans_view(map.spans@) == let_types_spec(m2, tree.children@, bindings@, b as nat),
                        decreases bindings.len() - b,
                    {
                        let binding = &bindings[b];
                        match find_child_exec(&tree.children, binding.value.span) {
                            Some(c) => match &tree.children[c].output {
                                Output::Type(val_ty) => {
                                    let renamed = rename_type(val_ty);
                                    collect_bind_pat_types(&binding.pat, &renamed, map);
                                },
                                _ => {},
                            },
                            None => {},
                        }
                        b = b + 1;
                    }
                },
                _ => {},
            },
            _ => {},
        },
        _ => {},
    }
}

/// The first newline byte at or after `from`, if any.
pub open spec fn next_newline(b: Seq<u8>, from: nat) -> Option<nat>
    decreases b.len() - from,
{
    if from >= b.len() {
        None
    } else if b[from as int] == 10 {
        Some(from)
    } else {
        next_newline(b, from + 1)
    }
}

/// The byte offset where line `n` (counted from 0) starts, if the text has
/// that many lines.
pub open spec fn line_start(b: Seq<u8>, n: nat) -> Option<nat>
    decreases n,
{
    if n == 0 {
        Some(0)
    } else {
        match line_start(b, (n - 1) as nat) {
            Some(o) => match next_newline(b, o) {
                Some(k) => Some(k + 1),
                None => None,
            },
            None => None,
        }
    }
}

proof fn lemma_next_newline(b: Seq<u8>, from: nat)
    ensures
        next_newline(b, from) matches Some(k) ==> from <= k < b.len() && b[k as int] == 10,
    decreases b.len() - from,
{
    if from < b.len() && b[from as int] != 10 {
        lemma_next_newline(b, from + 1);
    }
}

proof fn lemma_line_start(b: Seq<u8>, n: nat)
    ensures
        line_start(b, n) matches Some(o) ==> o <= b.len(),
    decreases n,
{
    if n > 0 {
        lemma_line_start(b, (n - 1) as nat);
        if let Some(o) = line_start(b, (n - 1) as nat) {
            lemma_next_newline(b, o);
        }
    }
}

/// The byte offset of line `line`, column `character` (a column counts bytes
/// from the start of its line), if the text has that many lines.
pub fn lsp_to_offset(text: &str, line: u32, character: u32) -> (r: Option<usize>)
    requires
        line_start(text.spec_bytes(), line as nat) matches Some(o) ==> o + character <= usize::MAX,
    ensures
        match line_start(text.spec_bytes(), line as nat) {
            Some(o) => r == Some((o + character) as usize),
            None => r is None,
        },
{
    let b = text.as_bytes();
    let mut offset: usize = 0;
    let mut n: u32 = 0;
    while n < line
        invariant
            n <= line,
            b@ == text.spec_bytes(),
            line_start(b@, n as nat) == Some(offset as nat),
            line_start(b@, line as nat) matches Some(o) ==> o + character <= usize::MAX,
        decreases line - n,
    {
        let ghost from = offset;
        let mut k = offset;
        proof { lemma_line_start(b@, n as nat); }
        while k < b.len() && b[k] != 10
            invariant
                from <= k <= b.len(),
                next_newline(b@, from as nat) == next_newline(b@, k as nat),
            decreases b.len() - k,
        {
            k = k + 1;
        }
        if k >= b.len() {
            proof {
                assert(line_start(b@, (n + 1) as nat) is None);
                lemma_none_after(b@, (n + 1) as nat, line as nat);
            }
            return None;
        }
        offset = k + 1;
        n = n + 1;
    }
    Some(offset + character as usize)
}

proof fn lemma_none_after(b: Seq<u8>, m: nat, n: nat)
    requires
        line_start(b, m) is None,
        m <= n,
    ensures
        line_start(b, n) is None,
    decreases n - m,
{
    if m < n {
        lemma_none_after(b, m, (n - 1) as nat);
    }
}

/// The number of newline bytes among the first `k` bytes.
pub open spec fn newlines_before(b: Seq<u8>, k: nat) -> nat
    decreases k,
{
    if k == 0 {
        0
    } else {
        newlines_before(b, (k - 1) as nat) + if b[k - 1] == 10 { 1nat } else { 0nat }
    }
}

/// Where the line that byte `k` is on starts: just after the last newline
/// before `k`, or 0.
pub open spec fn line_begin(b: Seq<u8>, k: nat) -> nat
    decreases k,
{
    if k == 0 {
        0
    } else if b[k - 1] == 10 {
        k
    } else {
        line_begin(b, (k - 1) as nat)
    }
}

/// The line and column (in bytes) of byte offset `offset`, each truncated to 32 bits.
pub fn offset_to_lsp(text: &str, offset: usize) -> (r: (u32, u32))
    requires
        offset <= text.spec_bytes().len(),
        vstd::utf8::is_char_boundary(text.spec_bytes(), offset as int),
    ensures
        r.0 == newlines_before(text.spec_bytes(), offset as nat) as u32,
        r.1 == (offset - line_begin(text.spec_bytes(), offset as nat)) as u32,
{
    let b = text.as_bytes();
    let mut k: usize = 0;
    let mut lines: usize = 0;
    let mut begin: usize = 0;
    while k < offset
        invariant
            k <= offset <= b@.len(),
            b@ == text.spec_bytes(),
            lines == newlines_before(b@, k as nat),
            begin == line_begin(b@, k as nat),
            lines <= k,
            begin <= k,
        decreases offset - k,
    {
        if b[k] == 10 {
            lines = lines + 1;
            begin = k + 1;
        }
        k = k + 1;
    }
    (lines as u32, (offset - begin) as u32)
}

/// The annotations of a source text: `None` when the text has a character
/// that starts no token or its tokens do not parse (see
/// `grammar::p_program`); otherwise those that the derivation of its type
/// records (see `collect_infer_nodes`).
pub fn build_annotations(source: &str) -> (r: Option<AnnotationMap>)
    requires
        ints_fit(lex_spec(source@, 0).0),
        lex_spec(source@, 0).0.len() + 2 < u32::MAX,
    ensures
        lex_spec(source@, 0).1.len() > 0 ==> r is None,
        r is Some ==> exists|t: crate::grammar::Toks| #![auto]
            tokens_view(t) == lex_spec(source@, 0).0
            && crate::grammar::p_program(t, Seq::empty()) is Done,
        r matches Some(m) ==> exists|toks: crate::grammar::Toks, e: crate::ast::Expr, d: InferenceTree|
            #![trigger tokens_view(toks), crate::grammar::expr_view(e), nodes_spec(Map::empty(), d)]
            tokens_view(toks) == lex_spec(source@, 0).0
            && (crate::grammar::p_program(toks, Seq::empty()) matches crate::grammar::Parsed::Done(v, _, n)
                && crate::grammar::expr_view(e) == v
                && crate::judgement::infer_tree_ok(d, crate::infer::initial_state(), Map::empty(), e, n))
            && spans_view(m.spans@) == nodes_spec(Map::empty(), d),
        r is None && lex_spec(source@, 0).1.len() == 0 ==> exists|t: crate::grammar::Toks| #![auto]
            tokens_view(t) == lex_spec(source@, 0).0
            && crate::grammar::p_program(t, Seq::empty()) is Failed,
{
    let (tokens, errors) = tokenize(source);
    if errors.len() > 0 {
        return None;
    }
    let mut rodeo = crate::interner::rodeo_new();
    assert(tokens@.len() == crate::lexer::tokens_view(tokens@).len());
    let expr = match parser(&tokens, &mut rodeo) {
        Ok(e) => e,
        Err(_) => return None,
    };
    let ghost names = interned(rodeo);
    let result = typecheck(&expr, &mut rodeo);
    let mut map = AnnotationMap { spans: BTreeMap::new() };
    assert(spans_view(map.spans@) =~= Map::<usize, (usize, SType, BindingKind)>::empty());
    collect_infer_nodes(&result.tree, &mut map);
    proof {
        let toks = tokens@;
        assert(crate::grammar::p_program(toks, Seq::empty()) matches crate::grammar::Parsed::Done(v, _, n)
            && crate::grammar::expr_view(expr) == v
            && crate::judgement::infer_tree_ok(result.tree, crate::infer::initial_state(), Map::empty(), expr, n));
        assert(tokens_view(toks) == lex_spec(source@, 0).0);
        assert(spans_view(map.spans@) == nodes_spec(Map::empty(), result.tree));
    }
    Some(map)
}

} // verus!

verus! {

proof fn lemma_line_begin_no_newline(b: Seq<u8>, k: nat, j: int)
    requires
        k <= b.len(),
        line_begin(b, k) <= j < k,
    ensures
        b[j] != 10,
    decreases k,
{
    if k > 0 && b[k - 1] != 10 {
        if j < k - 1 {
            lemma_line_begin_no_newline(b, (k - 1) as nat, j);
        }
    }
}

proof fn lemma_line_begin_le(b: Seq<u8>, k: nat)
    ensures
        line_begin(b, k) <= k,
    decreases k,
{
    if k > 0 && b[k - 1] != 10 {
        lemma_line_begin_le(b, (k - 1) as nat);
    }
}

proof fn lemma_next_newline_skip(b: Seq<u8>, from: nat, to: nat)
    requires
        from <= to <= b.len(),
        forall|j: int| from <= j < to ==> b[j] != 10,
    ensures
        next_newline(b, from) == next_newline(b, to),
    decreases to - from,
{
    if from < to {
        lemma_next_newline_skip(b, from + 1, to);
    }
}

/// Line `n` of the text, where `n` counts the newlines before byte `k`,
/// starts where the line of byte `k` begins.
proof fn lemma_line_of_offset(b: Seq<u8>, k: nat)
    requires
        k <= b.len(),
    ensures
        line_start(b, newlines_before(b, k)) == Some(line_begin(b, k)),
    decreases k,
{
    if k > 0 {
        lemma_line_of_offset(b, (k - 1) as nat);
        if b[k - 1] == 10 {
            let lb = line_begin(b, (k - 1) as nat);
            lemma_line_begin_le(b, (k - 1) as nat);
            assert forall|j: int| lb <= j < k - 1 implies b[j] != 10 by {
                lemma_line_begin_no_newline(b, (k - 1) as nat, j);
            }
            lemma_next_newline_skip(b, lb, (k - 1) as nat);
            assert(next_newline(b, (k - 1) as nat) == Some((k - 1) as nat));
        }
    }
}

/// The position that `offset_to_lsp` gives for a byte offset leads
/// `lsp_to_offset` back to that offset, when its line and column fit in 32
/// bits.
pub proof fn lemma_position_round_trip(b: Seq<u8>, offset: nat)
    requires
        offset <= b.len(),
        newlines_before(b, offset) <= u32::MAX,
        offset - line_begin(b, offset) <= u32::MAX,
    ensures
        ({
            let line = (newlines_before(b, offset) as u32) as nat;
            let column = ((offset - line_begin(b, offset)) as u32) as nat;
            line_start(b, line) matches Some(start) && start + column == offset
        }),
{
    lemma_line_begin_le(b, offset);
    lemma_line_of_offset(b, offset);
}

} // verus!
