//! Writing a derivation as a tree, one step a line: the branches that lead
//! to it, the rule, what went in and what came out. Each piece carries the
//! role by which a terminal front end colours it.
use vstd::prelude::*;
use vstd::utf8::encode_utf8;
use crate::hir::{type_text, Type};
use crate::interner::interned;
use crate::printer::{inline_text, min_text};
use crate::scheme::{rename_type, rename_type_spec};
use crate::scope::names_below;
use crate::typecheck::{rule_text, InferenceTree, Input, Output, RuleName};

verus! {

/// What a piece of a derivation's text is, for colouring.
#[derive(Debug, Clone, Copy, PartialEq, Eq)]
pub enum Role {
    /// Branches, spaces and line breaks: never coloured.
    Plain,
    /// The name of a rule.
    Rule,
    /// The name of the rule of a failed step.
    RuleError,
    /// An environment, an expression or a pattern.
    Expr,
    /// A connective: ` ⊢ `, ` ⇒`, ` ~ `.
    Op,
    /// A type.
    Ty,
    /// What a failed step reports.
    Error,
}

/// The branches in front of a step whose ancestors' "is last child" marks
/// are `prefix`, outermost first.
pub open spec fn branch_text(prefix: Seq<bool>) -> Seq<char> {
    if prefix.len() == 0 {
        Seq::empty()
    } else {
        guides_text(prefix.drop_last()) + (if prefix.last() { "└── "@ } else { "├── "@ })
    }
}

/// The vertical guides for the marks `marks`: blank below a last child.
pub open spec fn guides_text(marks: Seq<bool>) -> Seq<char>
    decreases marks.len(),
{
    if marks.len() == 0 {
        Seq::empty()
    } else {
        guides_text(marks.drop_last()) + (if marks.last() { "    "@ } else { "│   "@ })
    }
}

/// The guides take four characters for each mark, in the order of the
/// marks: `│   ` below an ancestor that is not a last child, so that its
/// later siblings stay joined to it, and four blanks below one that is.
pub proof fn lemma_guides_per_mark(marks: Seq<bool>)
    ensures
        guides_text(marks).len() == 4 * marks.len(),
        forall|i: int| 0 <= i < marks.len() ==>
            guides_text(marks).subrange(4 * i, 4 * i + 4) == (if #[trigger] marks[i] { "    "@ } else { "│   "@ }),
    decreases marks.len(),
{
    reveal_strlit("    ");
    reveal_strlit("│   ");
    if marks.len() > 0 {
        let init = marks.drop_last();
        let n = marks.len() - 1;
        lemma_guides_per_mark(init);
        let last = if marks.last() { "    "@ } else { "│   "@ };
        assert(guides_text(marks) == guides_text(init) + last);
        assert forall|i: int| 0 <= i < marks.len() implies
            guides_text(marks).subrange(4 * i, 4 * i + 4) == (if #[trigger] marks[i] { "    "@ } else { "│   "@ }) by {
            if i < n {
                assert(init[i] == marks[i]);
                assert(guides_text(marks).subrange(4 * i, 4 * i + 4) =~= guides_text(init).subrange(4 * i, 4 * i + 4));
            } else {
                assert(guides_text(marks).subrange(4 * i, 4 * i + 4) =~= last);
            }
        }
    }
}

/// In front of a step stand the guides of its ancestors' marks but the
/// last, four characters each, then its own branch: `└── ` for a last
/// child, `├── ` for any other.
pub proof fn lemma_branch_per_mark(prefix: Seq<bool>)
    requires
        prefix.len() > 0,
    ensures
        branch_text(prefix).len() == 4 * prefix.len(),
        forall|i: int| 0 <= i < prefix.len() - 1 ==>
            branch_text(prefix).subrange(4 * i, 4 * i + 4) == (if #[trigger] prefix[i] { "    "@ } else { "│   "@ }),
        branch_text(prefix).subrange(4 * (prefix.len() - 1), 4 * prefix.len() as int)
            == (if prefix.last() { "└── "@ } else { "├── "@ }),
{
    reveal_strlit("└── ");
    reveal_strlit("├── ");
    let init = prefix.drop_last();
    let n = init.len() as int;
    lemma_guides_per_mark(init);
    let own = if prefix.last() { "└── "@ } else { "├── "@ };
    assert(branch_text(prefix) == guides_text(init) + own);
    assert forall|i: int| 0 <= i < prefix.len() - 1 implies
        branch_text(prefix).subrange(4 * i, 4 * i + 4) == (if #[trigger] prefix[i] { "    "@ } else { "│   "@ }) by {
        assert(init[i] == prefix[i]);
        assert(branch_text(prefix).subrange(4 * i, 4 * i + 4) =~= guides_text(init).subrange(4 * i, 4 * i + 4));
    }
    assert(branch_text(prefix).subrange(4 * n, 4 * n + 4) =~= own);
}

/// An expression as shown in a step: on one line, or shortened when its
/// one-line text takes more than `max` bytes.
pub open spec fn shown_expr(e: crate::ast::Expr, names: Seq<Seq<char>>, max: nat) -> Seq<char> {
    if encode_utf8(inline_text(e, names)).len() > max {
        min_text(e, names)
    } else {
        inline_text(e, names)
    }
}

/// The pieces that show what went into a step.
pub open spec fn input_pieces(i: Input, names: Seq<Seq<char>>, max: nat) -> Seq<(Role, Seq<char>)> {
    match i {
        Input::Infer { env, expr } => seq![
            (Role::Expr, env@),
            (Role::Op, " ⊢ "@),
            (Role::Expr, shown_expr(*expr, names, max)),
            (Role::Op, " ⇒"@),
        ],
        Input::Unify { left, right } => seq![
            (Role::Ty, type_text(rename_type_spec(left@))),
            (Role::Op, " ~ "@),
            (Role::Ty, type_text(rename_type_spec(right@))),
        ],
        Input::Pat(s) => seq![(Role::Expr, s@)],
    }
}

/// The piece that shows what came out of a step; types are renumbered.
pub open spec fn output_piece(o: Output, failed: bool) -> (Role, Seq<char>) {
    match o {
        Output::Type(t) => (if failed { Role::Error } else { Role::Ty }, type_text(rename_type_spec(t@))),
        Output::Str(s) => (if failed { Role::Error } else { Role::Plain }, s@),
    }
}

/// The pieces of the line of one step.
pub open spec fn line_pieces(t: InferenceTree, names: Seq<Seq<char>>, max: nat, prefix: Seq<bool>) -> Seq<(Role, Seq<char>)> {
    let failed = t.rule == RuleName::TError;
    seq![
        (Role::Plain, branch_text(prefix)),
        (if failed { Role::RuleError } else { Role::Rule }, rule_text(t.rule)),
        (Role::Plain, " "@),
    ] + input_pieces(t.input, names, max) + seq![
        (Role::Plain, " "@),
        output_piece(t.output, failed),
        (Role::Plain, "\n"@),
    ]
}

/// The pieces of a derivation: its own line, then each premise below it.
pub open spec fn tree_pieces(t: InferenceTree, names: Seq<Seq<char>>, max: nat, prefix: Seq<bool>) -> Seq<(Role, Seq<char>)>
    decreases t, 0nat,
{
    line_pieces(t, names, max, prefix) + children_pieces(t.children@, names, max, prefix, t.children@.len())
}

/// The pieces of the first `n` premises; the last premise is marked as such.
pub open spec fn children_pieces(cs: Seq<InferenceTree>, names: Seq<Seq<char>>, max: nat, prefix: Seq<bool>, n: nat) -> Seq<(Role, Seq<char>)>
    decreases cs, n,
{
    if n == 0 || n > cs.len() {
        Seq::empty()
    } else {
        children_pieces(cs, names, max, prefix, (n - 1) as nat)
            + tree_pieces(cs[n - 1], names, max, prefix.push(n == cs.len()))
    }
}

/// The text of pieces, in order.
pub open spec fn pieces_text(ps: Seq<(Role, Seq<char>)>) -> Seq<char>
    decreases ps.len(),
{
    if ps.len() == 0 {
        Seq::empty()
    } else {
        pieces_text(ps.drop_last()) + ps.last().1
    }
}

/// Every expression in a derivation has its names among the first `n`.
pub open spec fn tree_names_below(t: InferenceTree, n: nat) -> bool
    decreases t, 0nat,
{
    &&& match t.input {
        Input::Infer { env, expr } => names_below(*expr, n),
        _ => true,
    }
    &&& children_names_below(t.children@, n, t.children@.len())
}

/// The first `m` premises have their names among the first `n`.
pub open spec fn children_names_below(cs: Seq<InferenceTree>, n: nat, m: nat) -> bool
    decreases cs, m,
{
    if m == 0 || m > cs.len() {
        true
    } else {
        children_names_below(cs, n, (m - 1) as nat) && tree_names_below(cs[m - 1], n)
    }
}

proof fn lemma_children_names_below(cs: Seq<InferenceTree>, n: nat, m: nat, i: int)
    requires
        children_names_below(cs, n, m),
        0 <= i < m <= cs.len(),
    ensures
        tree_names_below(cs[i], n),
    decreases m,
{
    if i < m - 1 {
        lemma_children_names_below(cs, n, (m - 1) as nat, i);
    }
}

/// Each derivation has its names among the first `n`.
pub open spec fn all_names_below(ts: Seq<InferenceTree>, n: nat) -> bool {
    forall|i: int| 0 <= i < ts.len() ==> tree_names_below(#[trigger] ts[i], n)
}

/// Premises that each have their names among the first `n` meet
/// `children_names_below`.
pub proof fn lemma_children_names_all(cs: Seq<InferenceTree>, n: nat)
    requires
        all_names_below(cs, n),
    ensures
        children_names_below(cs, n, cs.len()),
{
    lemma_children_names_upto(cs, n, cs.len());
}

/// Appends a derivation to premises.
pub fn push_tree<'a>(children: &mut Vec<InferenceTree<'a>>, t: InferenceTree<'a>)
    ensures
        final(children)@ == old(children)@.push(t),
        forall|n: nat| all_names_below(old(children)@, n) && tree_names_below(t, n) ==> #[trigger] all_names_below(final(children)@, n),
{
    let ghost before = children@;
    let ghost tt = t;
    children.push(t);
    proof {
        assert forall|n: nat| all_names_below(before, n) && tree_names_below(tt, n) implies #[trigger] all_names_below(children@, n) by {
            assert forall|i: int| 0 <= i < children@.len() implies tree_names_below(#[trigger] children@[i], n) by {
                if i < before.len() {
                    assert(children@[i] == before[i]);
                }
            }
        }
    }
}

proof fn lemma_children_names_upto(cs: Seq<InferenceTree>, n: nat, m: nat)
    requires
        m <= cs.len(),
        forall|i: int| 0 <= i < cs.len() ==> tree_names_below(#[trigger] cs[i], n),
    ensures
        children_names_below(cs, n, m),
    decreases m,
{
    if m > 0 {
        lemma_children_names_upto(cs, n, (m - 1) as nat);
        assert(tree_names_below(cs[m - 1], n));
    }
}

/// Pieces as plain values.
pub open spec fn pieces_view(v: Seq<(Role, String)>) -> Seq<(Role, Seq<char>)> {
    Seq::new(v.len(), |i: int| (v[i].0, v[i].1@))
}

proof fn lemma_pieces_view_push(v: Seq<(Role, String)>, x: (Role, String))
    ensures
        pieces_view(v.push(x)) == pieces_view(v).push((x.0, x.1@)),
{
    assert(pieces_view(v.push(x)) =~= pieces_view(v).push((x.0, x.1@)));
}

fn push_piece(out: &mut Vec<(Role, String)>, role: Role, text: String)
    ensures
        pieces_view(final(out)@) == pieces_view(old(out)@).push((role, text@)),
{
    proof {
        lemma_pieces_view_push(out@, (role, text));
    }
    out.push((role, text));
}

fn branches(prefix: &Vec<bool>) -> (s: String)
    ensures
        s@ == branch_text(prefix@),
{
    let mut s = String::new();
    if prefix.len() == 0 {
        return s;
    }
    let n = prefix.len() - 1;
    let mut i: usize = 0;
    while i < n
        invariant
            n == prefix.len() - 1,
            i <= n,
            s@ == guides_text(prefix@.take(i as int)),
        decreases n - i,
    {
        assert(prefix@.take(i + 1).drop_last() =~= prefix@.take(i as int));
        if prefix[i] {
            s.append("    ");
        } else {
            s.append("│   ");
        }
        i = i + 1;
    }
    assert(prefix@.take(n as int) =~= prefix@.drop_last());
    if prefix[n] {
        s.append("└── ");
    } else {
        s.append("├── ");
    }
    s
}

/// The texts of the pieces, joined.
fn concat_pieces(v: &Vec<(Role, String)>) -> (s: String)
    ensures
        s@ == pieces_text(pieces_view(v@)),
{
    let ghost pv = pieces_view(v@);
    let mut s = String::new();
    let mut i: usize = 0;
    while i < v.len()
        invariant
            i <= v.len(),
            pv == pieces_view(v@),
            s@ == pieces_text(pv.take(i as int)),
        decreases v.len() - i,
    {
        assert(pv.take(i + 1).drop_last() =~= pv.take(i as int));
        s.append(v[i].1.as_str());
        i = i + 1;
    }
    assert(pv.take(v.len() as int) =~= pv);
    s
}

impl<'a> InferenceTree<'a> {
    fn push_line(&self, out: &mut Vec<(Role, String)>, max_expr_len: usize, prefix: &Vec<bool>, rodeo: &lasso::Rodeo)
        requires
            tree_names_below(*self, interned(*rodeo).len()),
        ensures
            pieces_view(final(out)@) == pieces_view(old(out)@)
                + line_pieces(*self, interned(*rodeo), max_expr_len as nat, prefix@),
    {
        let ghost names = interned(*rodeo);
        let ghost start = pieces_view(out@);
        let failed = matches!(self.rule, RuleName::TError);
        push_piece(out, Role::Plain, branches(prefix));
        push_piece(out, if failed { Role::RuleError } else { Role::Rule }, self.rule.to_text());
        push_piece(out, Role::Plain, String::from_str(" "));
        let ghost mid = pieces_view(out@);
        match &self.input {
            Input::Infer { env, expr } => {
                push_piece(out, Role::Expr, env.clone());
                push_piece(out, Role::Op, String::from_str(" ⊢ "));
                let full = expr.display_inline(rodeo);
                if full.as_str().as_bytes().len() > max_expr_len {
                    push_piece(out, Role::Expr, expr.display_minimized(rodeo));
                } else {
                    push_piece(out, Role::Expr, full);
                }
                push_piece(out, Role::Op, String::from_str(" ⇒"));
                proof {
                    reveal_strlit(" ⊢ ");
                    reveal_strlit(" ⇒");
                    assert(pieces_view(out@) =~= mid + input_pieces(self.input, names, max_expr_len as nat));
                }
            },
            Input::Unify { left, right } => {
                push_piece(out, Role::Ty, rename_type(left).to_text());
                push_piece(out, Role::Op, String::from_str(" ~ "));
                push_piece(out, Role::Ty, rename_type(right).to_text());
                proof {
                    reveal_strlit(" ~ ");
                    assert(pieces_view(out@) =~= mid + input_pieces(self.input, names, max_expr_len as nat));
                }
            },
            Input::Pat(s) => {
                push_piece(out, Role::Expr, s.clone());
                assert(pieces_view(out@) =~= mid + input_pieces(self.input, names, max_expr_len as nat));
            },
        }
        proof {
            reveal_strlit(" ");
        }
        let ghost mid2 = pieces_view(out@);
        push_piece(out, Role::Plain, String::from_str(" "));
        match &self.output {
            Output::Type(t) => push_piece(out, if failed { Role::Error } else { Role::Ty }, rename_type(t).to_text()),
            Output::Str(s) => push_piece(out, if failed { Role::Error } else { Role::Plain }, s.clone()),
        }
        push_piece(out, Role::Plain, String::from_str("\n"));
        proof {
            reveal_strlit("\n");
            assert(pieces_view(out@) =~= start + line_pieces(*self, names, max_expr_len as nat, prefix@));
        }
    }

    /// Appends the pieces of this derivation, below ancestors marked `prefix`.
    pub fn push_pieces(&self, out: &mut Vec<(Role, String)>, max_expr_len: usize, prefix: &mut Vec<bool>, rodeo: &lasso::Rodeo)
        requires
            tree_names_below(*self, interned(*rodeo).len()),
        ensures
            final(prefix)@ == old(prefix)@,
            pieces_view(final(out)@) == pieces_view(old(out)@)
                + tree_pieces(*self, interned(*rodeo), max_expr_len as nat, old(prefix)@),
        decreases self,
    {
        let ghost names = interned(*rodeo);
        let ghost start = pieces_view(out@);
        let ghost p0 = prefix@;
        self.push_line(out, max_expr_len, prefix, rodeo);
        let ghost after_line = pieces_view(out@);
        let n = self.children.len();
        let mut i: usize = 0;
        while i < n
            invariant
                n == self.children@.len(),
                i <= n,
                prefix@ == p0,
                names == interned(*rodeo),
                tree_names_below(*self, names.len()),
                pieces_view(out@) == after_line + children_pieces(self.children@, names, max_expr_len as nat, p0, i as nat),
            decreases n - i,
        {
            proof {
                lemma_children_names_below(self.children@, names.len(), n as nat, i as int);
            }
            prefix.push(i == n - 1);
            self.children[i].push_pieces(out, max_expr_len, prefix, rodeo);
            let _ = prefix.pop();
            proof {
                assert(prefix@ =~= p0);
            }
            i = i + 1;
        }
        proof {
            assert(pieces_view(out@) =~= start + tree_pieces(*self, names, max_expr_len as nat, p0));
        }
    }

    /// The pieces of this derivation, each with its role.
    pub fn pieces(&self, max_expr_len: usize, rodeo: &lasso::Rodeo) -> (v: Vec<(Role, String)>)
        requires
            tree_names_below(*self, interned(*rodeo).len()),
        ensures
            pieces_view(v@) == tree_pieces(*self, interned(*rodeo), max_expr_len as nat, Seq::empty()),
    {
        let mut v: Vec<(Role, String)> = Vec::new();
        let mut prefix: Vec<bool> = Vec::new();
        proof {
            assert(pieces_view(v@) =~= Seq::<(Role, Seq<char>)>::empty());
            assert(prefix@ =~= Seq::<bool>::empty());
        }
        self.push_pieces(&mut v, max_expr_len, &mut prefix, rodeo);
        assert(pieces_view(v@) =~= tree_pieces(*self, interned(*rodeo), max_expr_len as nat, Seq::empty()));
        v
    }

    /// The derivation as text, one step a line, expressions longer than
    /// `max_expr_len` bytes shortened.
    pub fn display_tree(&self, max_expr_len: usize, rodeo: &lasso::Rodeo) -> (s: String)
        requires
            tree_names_below(*self, interned(*rodeo).len()),
        ensures
            s@ == pieces_text(tree_pieces(*self, interned(*rodeo), max_expr_len as nat, Seq::empty())),
    {
        let v = self.pieces(max_expr_len, rodeo);
        concat_pieces(&v)
    }
}

} // verus!
