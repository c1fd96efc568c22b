//! Hindley-Milner type inference: substitutions, unification and inference.
use vstd::prelude::*;
use std::collections::HashMap;
use vstd::std_specs::hash::spec_hash_map_iter;
use vstd::std_specs::iter::IteratorSpec;
use crate::ast::{Span, Expr};
use crate::hir::{Type, TypeVar, SType, occurs, lemma_occurs_in, types_view};
use crate::derivation::{tree_names_below, lemma_children_names_all};

verus! {

broadcast use vstd::std_specs::hash::group_hash_axioms;

// ---------------------------------------------------------------------------
// Sets of type variables, held in `im::HashSet`.
// ---------------------------------------------------------------------------

#[verifier::external_type_specification]
#[verifier::external_body]
#[verifier::reject_recursive_types(A)]
#[verifier::reject_recursive_types(S)]
pub struct ExImHashSet<A, S>(im::HashSet<A, S>);

/// The variables that an `im::HashSet` of variable numbers holds.
pub uninterp spec fn var_set(s: im::HashSet<u64>) -> Set<u64>;

/// An empty set (`im::HashSet::new`).
#[verifier::external_body]
pub(crate) fn var_set_new() -> (r: im::HashSet<u64>)
    ensures
        var_set(r) == Set::<u64>::empty(),
{
    im::HashSet::new()
}

/// Adds a variable (`im::HashSet::insert`).
#[verifier::external_body]
pub(crate) fn var_set_insert(s: &mut im::HashSet<u64>, v: u64)
    ensures
        var_set(*final(s)) == var_set(*old(s)).insert(v),
{
    s.insert(v);
}

/// Removes a variable (`im::HashSet::remove`).
#[verifier::external_body]
pub(crate) fn var_set_remove(s: &mut im::HashSet<u64>, v: u64)
    ensures
        var_set(*final(s)) == var_set(*old(s)).remove(v),
{
    s.remove(&v);
}

/// Whether a variable is held (`im::HashSet::contains`).
#[verifier::external_body]
pub(crate) fn var_set_contains(s: &im::HashSet<u64>, v: u64) -> (b: bool)
    ensures
        b == var_set(*s).contains(v),
{
    s.contains(&v)
}

/// `im::HashSet::difference`, which in this version of `im` is the symmetric
/// difference: the variables held by exactly one of the two sets.
#[verifier::external_body]
pub(crate) fn var_set_difference(a: im::HashSet<u64>, b: im::HashSet<u64>) -> (r: im::HashSet<u64>)
    ensures
        var_set(r) == var_set(a).difference(var_set(b)).union(var_set(b).difference(var_set(a))),
{
    a.difference(b)
}

/// Adds all variables of `b` (`im::HashSet::extend`).
#[verifier::external_body]
pub(crate) fn var_set_extend(a: &mut im::HashSet<u64>, b: im::HashSet<u64>)
    ensures
        var_set(*final(a)) == var_set(*old(a)) + var_set(b),
{
    a.extend(b);
}

/// The variables of a set, in the order its iterator yields them (`im::HashSet::iter`).
#[verifier::external_body]
pub(crate) fn var_set_elements(s: &im::HashSet<u64>) -> (v: Vec<u64>)
    ensures
        v@.to_set() == var_set(*s),
        v@.no_duplicates(),
{
    s.iter().copied().collect()
}

/// A set of free type variables.
pub struct FreeVars {
    pub types: im::HashSet<u64>,
}

impl FreeVars {
    pub fn new() -> (r: FreeVars)
        ensures
            var_set(r.types) == Set::<u64>::empty(),
    {
        FreeVars { types: var_set_new() }
    }
}

/// The free variables of a type, added to `out`.
#[verifier::loop_isolation(false)]
pub fn ftv_type(ty: &Type, out: &mut FreeVars)
    ensures
        var_set(final(out).types) == var_set(old(out).types) + crate::hir::vars(ty@),
    decreases ty,
{
    match ty {
        Type::Var(n) => {
            var_set_insert(&mut out.types, n.0);
            assert(var_set(out.types) =~= var_set(old(out).types) + crate::hir::vars(ty@));
        },
        Type::Arrow(a, b) => {
            ftv_type(a, out);
            ftv_type(b, out);
            assert(var_set(out.types) =~= var_set(old(out).types) + crate::hir::vars(ty@));
        },
        Type::Tuple(types) => {
            let mut i: usize = 0;
            while i < types.len()
                invariant
                    i <= types.len(),
                    var_set(out.types) =~= var_set(old(out).types) + Set::new(
                        |v: u64| exists|j: int| 0 <= j < i && occurs(v, types@[j]@),
                    ),
                decreases types.len() - i,
            {
                ftv_type(&types[i], out);
                i = i + 1;
                assert(var_set(out.types) =~= var_set(old(out).types) + Set::new(
                    |v: u64| exists|j: int| 0 <= j < i && occurs(v, types@[j]@),
                )) by {
                    assert forall|v: u64| (exists|j: int| 0 <= j < i && occurs(v, types@[j]@))
                        implies var_set(out.types).contains(v) by {
                        let j = choose|j: int| 0 <= j < i && occurs(v, types@[j]@);
                        if j == i - 1 {} else {}
                    }
                }
            }
            let ghost vs = types_view(types@);
            assert(ty@ == SType::Tuple(vs));

            assert(var_set(out.types) =~= var_set(old(out).types) + crate::hir::vars(ty@)) by {
                assert forall|v: u64| crate::hir::vars(ty@).contains(v) implies
                    (exists|j: int| 0 <= j < types.len() && occurs(v, types@[j]@)) by {
                    lemma_occurs_in(v, vs);
                    let j = choose|j: int| 0 <= j < vs.len() && occurs(v, vs[j]);
                    assert(vs[j] == types@[j]@);
                }
                assert forall|v: u64| (exists|j: int| 0 <= j < types.len() && occurs(v, types@[j]@))
                    implies crate::hir::vars(ty@).contains(v) by {
                    let j = choose|j: int| 0 <= j < types.len() && occurs(v, types@[j]@);
                    assert(vs[j] == types@[j]@);
                    assert(0 <= j < vs.len() && occurs(v, vs[j]));
                    lemma_occurs_in(v, vs);
                }
            }
        },
        _ => {
            assert(var_set(out.types) =~= var_set(old(out).types) + crate::hir::vars(ty@));
        },
    }
}

// ---------------------------------------------------------------------------
// Substitutions.
// ---------------------------------------------------------------------------

/// Resolves `t` under `s`: each bound variable is replaced by its binding,
/// itself resolved in turn. `fuel` bounds how many bindings are followed on any
/// path; it only runs out on a substitution whose bindings lead back to a
/// variable already passed, and that variable is then left in place.
pub open spec fn apply_fuel(s: Map<u64, SType>, t: SType, fuel: nat) -> SType
    decreases fuel, t,
{
    match t {
        SType::Var(v) => if s.contains_key(v) && fuel > 0 {
            apply_fuel(s, s[v], (fuel - 1) as nat)
        } else {
            t
        },
        SType::Arrow(a, b) => SType::Arrow(
            Box::new(apply_fuel(s, *a, fuel)),
            Box::new(apply_fuel(s, *b, fuel)),
        ),
        SType::Tuple(ts) => SType::Tuple(
            Seq::new(
                ts.len(),
                |i: int|
                    if 0 <= i < ts.len() {
                        apply_fuel(s, ts[i], fuel)
                    } else {
                        SType::Never
                    },
            ),
        ),
        _ => t,
    }
}

/// The result of applying substitution `s` to `t`: as many bindings can be
/// followed on a path as `s` has bindings.
pub open spec fn apply(s: Map<u64, SType>, t: SType) -> SType {
    apply_fuel(s, t, s.dom().len())
}

/// `s1` composed after `s2`: the bindings of `s2` with `s1` applied to them,
/// then the bindings of `s1` for variables that `s2` does not bind.
pub open spec fn compose(s1: Map<u64, SType>, s2: Map<u64, SType>) -> Map<u64, SType> {
    Map::new(
        |k: u64| s2.contains_key(k) || s1.contains_key(k),
        |k: u64|
            if s2.contains_key(k) {
                apply(s1, s2[k])
            } else {
                s1[k]
            },
    )
}

/// The values of a map of types.
pub open spec fn types_map_view(m: Map<u64, Type>) -> Map<u64, SType> {
    m.map_values(|t: Type| t@)
}

/// A substitution of types for type variables.
#[derive(Debug)]
pub struct Subst {
    pub types: HashMap<u64, Type>,
}

impl View for Subst {
    type V = Map<u64, SType>;

    open spec fn view(&self) -> Map<u64, SType> {
        types_map_view(self.types@)
    }
}

impl Clone for Subst {
    fn clone(&self) -> (res: Self)
        ensures
            res@ == self@,
    {
        let mut types: HashMap<u64, Type> = HashMap::new();
        for (k, ty) in it: self.types.iter()
            invariant
                types@.dom() == Set::new(|k: u64| exists|j: int| 0 <= j < it.index() && *it.seq()[j].0 == k),
                forall|k: u64| #[trigger] types@.contains_key(k) ==> types@[k]@ == self.types@[k]@,
        {
            types.insert(*k, ty.clone());
        }
        let res = Subst { types };
        assert(res@ =~= self@);
        res
    }
}

impl Subst {
    /// The substitution that binds nothing.
    pub fn empty() -> (s: Subst)
        ensures
            s@ == Map::<u64, SType>::empty(),
    {
        let s = Subst { types: HashMap::new() };
        assert(s@ =~= Map::<u64, SType>::empty());
        s
    }

    /// The substitution that binds `var` to `ty` and nothing else.
    pub fn singleton_type(var: TypeVar, ty: Type) -> (s: Subst)
        ensures
            s@ == Map::<u64, SType>::empty().insert(var.0, ty@),
    {
        let mut s = Self::empty();
        s.types.insert(var.0, ty);
        assert(s@ =~= Map::<u64, SType>::empty().insert(var.0, ty@));
        s
    }

    /// `self` composed after `other`: applying the result equals applying
    /// `other`, then `self` (see `lemma_compose_apply`).
    pub fn compose(&self, other: &Self) -> (res: Self)
        ensures
            res@ == compose(self@, other@),
    {
        let mut types: HashMap<u64, Type> = HashMap::new();
        for (k, ty) in it: other.types.iter()
            invariant
                types@.dom() == Set::new(|k: u64| exists|j: int| 0 <= j < it.index() && *it.seq()[j].0 == k),
                forall|k: u64| #[trigger] types@.contains_key(k) ==> types@[k]@ == apply(self@, other@[k]),
        {
            types.insert(*k, TypeInference::apply_type(self, ty));
        }
        assert(types@.dom() =~= other.types@.dom());
        for (k, v) in it: self.types.iter()
            invariant
                types@.dom() == other.types@.dom() + Set::new(|k: u64| exists|j: int| 0 <= j < it.index() && *it.seq()[j].0 == k),
                forall|k: u64| #[trigger] types@.contains_key(k) ==>
                    types@[k]@ == (if other@.contains_key(k) { apply(self@, other@[k]) } else { self@[k] }),
        {
            if !types.contains_key(k) {
                types.insert(*k, v.clone());
            }
        }
        let res = Subst { types };
        assert(res@ =~= compose(self@, other@));
        res
    }
}

// ---------------------------------------------------------------------------
// Errors and inference trees.
// ---------------------------------------------------------------------------

/// An error found during type inference.
#[derive(Debug)]
pub enum InferenceError {
    UnboundVariable { span: Span, name: String },
    UnificationFailure { span: Span, expected: Type, actual: Type },
    OccursCheck { span: Span, var: TypeVar, ty: Type },
    TupleLengthMismatch { span: Span, left_len: usize, right_len: usize },
    NoMatchArms { span: Span },
}

/// The value of an `InferenceError`.
pub enum SInferenceError {
    UnboundVariable { span: Span, name: Seq<char> },
    UnificationFailure { span: Span, expected: SType, actual: SType },
    OccursCheck { span: Span, var: u64, ty: SType },
    TupleLengthMismatch { span: Span, left_len: nat, right_len: nat },
    NoMatchArms { span: Span },
}

impl View for InferenceError {
    type V = SInferenceError;

    open spec fn view(&self) -> SInferenceError {
        match self {
            InferenceError::UnboundVariable { span, name } => SInferenceError::UnboundVariable {
                span: *span,
                name: name@,
            },
            InferenceError::UnificationFailure { span, expected, actual } =>
                SInferenceError::UnificationFailure {
                span: *span,
                expected: expected@,
                actual: actual@,
            },
            InferenceError::OccursCheck { span, var, ty } => SInferenceError::OccursCheck {
                span: *span,
                var: var.0,
                ty: ty@,
            },
            InferenceError::TupleLengthMismatch { span, left_len, right_len } =>
                SInferenceError::TupleLengthMismatch {
                span: *span,
                left_len: *left_len as nat,
                right_len: *right_len as nat,
            },
            InferenceError::NoMatchArms { span } => SInferenceError::NoMatchArms { span: *span },
        }
    }
}

/// The values of a sequence of errors.
pub open spec fn errors_view(es: Seq<InferenceError>) -> Seq<SInferenceError> {
    Seq::new(es.len(), |i: int| es[i]@)
}

/// The rule of an inference step.
#[derive(Debug, Clone, Copy, PartialEq, Eq)]
pub enum RuleName {
    TVar,
    TAbs,
    TApp,
    TLet,
    TIf,
    TBinOp,
    TUnaryOp,
    TMatch,
    TInt,
    TFloat,
    TBool,
    TError,
    UnifyBase,
    UnifyVarSame,
    UnifyVar,
    UnifyArrow,
    UnifyTuple,
    TPatWild,
    TPatVar,
    TPatLit,
    TPatOr,
    TPatTuple,
    TTuple,
}


/// How a rule is named.
pub open spec fn rule_text(r: RuleName) -> Seq<char> {
    match r {
        RuleName::TVar => "T-Var"@,
        RuleName::TAbs => "T-Abs"@,
        RuleName::TApp => "T-App"@,
        RuleName::TLet => "T-Let"@,
        RuleName::TIf => "T-If"@,
        RuleName::TBinOp => "T-BinOp"@,
        RuleName::TUnaryOp => "T-UnaryOp"@,
        RuleName::TMatch => "T-Match"@,
        RuleName::TInt => "T-Int"@,
        RuleName::TFloat => "T-Float"@,
        RuleName::TBool => "T-Bool"@,
        RuleName::TError => "T-Error"@,
        RuleName::UnifyBase => "Unify-Base"@,
        RuleName::UnifyVarSame => "Unify-Var-Same"@,
        RuleName::UnifyVar => "Unify-Var"@,
        RuleName::UnifyArrow => "Unify-Arrow"@,
        RuleName::UnifyTuple => "Unify-Tuple"@,
        RuleName::TPatWild => "T-Pat-Wild"@,
        RuleName::TPatVar => "T-Pat-Var"@,
        RuleName::TPatLit => "T-Pat-Lit"@,
        RuleName::TPatOr => "T-Pat-Or"@,
        RuleName::TPatTuple => "T-Pat-Tuple"@,
        RuleName::TTuple => "T-Tuple"@,
    }
}

fn rule_str(r: RuleName) -> (s: &'static str)
    ensures
        s@ == rule_text(r),
{
    match r {
        RuleName::TVar => "T-Var",
        RuleName::TAbs => "T-Abs",
        RuleName::TApp => "T-App",
        RuleName::TLet => "T-Let",
        RuleName::TIf => "T-If",
        RuleName::TBinOp => "T-BinOp",
        RuleName::TUnaryOp => "T-UnaryOp",
        RuleName::TMatch => "T-Match",
        RuleName::TInt => "T-Int",
        RuleName::TFloat => "T-Float",
        RuleName::TBool => "T-Bool",
        RuleName::TError => "T-Error",
        RuleName::UnifyBase => "Unify-Base",
        RuleName::UnifyVarSame => "Unify-Var-Same",
        RuleName::UnifyVar => "Unify-Var",
        RuleName::UnifyArrow => "Unify-Arrow",
        RuleName::UnifyTuple => "Unify-Tuple",
        RuleName::TPatWild => "T-Pat-Wild",
        RuleName::TPatVar => "T-Pat-Var",
        RuleName::TPatLit => "T-Pat-Lit",
        RuleName::TPatOr => "T-Pat-Or",
        RuleName::TPatTuple => "T-Pat-Tuple",
        RuleName::TTuple => "T-Tuple",
    }
}

impl RuleName {
    /// How this rule is named.
    pub fn to_text(&self) -> (s: String)
        ensures
            s@ == rule_text(*self),
    {
        String::from_str(rule_str(*self))
    }
}

/// Where an error was found.
pub open spec fn error_span(e: SInferenceError) -> Span {
    match e {
        SInferenceError::UnboundVariable { span, .. } => span,
        SInferenceError::UnificationFailure { span, .. } => span,
        SInferenceError::OccursCheck { span, .. } => span,
        SInferenceError::TupleLengthMismatch { span, .. } => span,
        SInferenceError::NoMatchArms { span } => span,
    }
}

/// The headline of an error.
pub open spec fn error_message(e: SInferenceError) -> Seq<char> {
    match e {
        SInferenceError::UnboundVariable { name, .. } => "Variable '"@ + name + "' not found in environment"@,
        SInferenceError::UnificationFailure { .. } => "Type mismatch"@,
        SInferenceError::OccursCheck { .. } => "Occurs check failed: infinite type"@,
        SInferenceError::TupleLengthMismatch { .. } => "Tuple length mismatch"@,
        SInferenceError::NoMatchArms { .. } => "Match expression has no arms"@,
    }
}

/// The explanation of an error, shown at its span.
pub open spec fn error_label(e: SInferenceError) -> Seq<char> {
    match e {
        SInferenceError::UnboundVariable { name, .. } => "`"@ + name + "` is not defined in this scope"@,
        SInferenceError::UnificationFailure { expected, actual, .. } =>
            "expected `"@ + crate::hir::type_text(expected) + "`, found `"@ + crate::hir::type_text(actual) + "`"@,
        SInferenceError::OccursCheck { var, ty, .. } =>
            "type variable `"@ + crate::hir::var_text(var) + "` occurs in `"@ + crate::hir::type_text(ty) + "`"@,
        SInferenceError::TupleLengthMismatch { left_len, right_len, .. } =>
            "expected "@ + crate::text::decimal(left_len) + " elements, found "@ + crate::text::decimal(right_len),
        SInferenceError::NoMatchArms { .. } => "add at least one arm to this match expression"@,
    }
}

impl InferenceError {
    /// Where this error was found.
    pub fn span(&self) -> (s: Span)
        ensures
            s == error_span(self@),
    {
        match self {
            InferenceError::UnboundVariable { span, .. } => *span,
            InferenceError::UnificationFailure { span, .. } => *span,
            InferenceError::OccursCheck { span, .. } => *span,
            InferenceError::TupleLengthMismatch { span, .. } => *span,
            InferenceError::NoMatchArms { span } => *span,
        }
    }

    /// The headline of this error.
    pub fn message(&self) -> (s: String)
        ensures
            s@ == error_message(self@),
    {
        match self {
            InferenceError::UnboundVariable { name, .. } => {
                let mut s = String::from_str("Variable '");
                s.append(name.as_str());
                s.append("' not found in environment");
                s
            },
            InferenceError::UnificationFailure { .. } => String::from_str("Type mismatch"),
            InferenceError::OccursCheck { .. } => String::from_str("Occurs check failed: infinite type"),
            InferenceError::TupleLengthMismatch { .. } => String::from_str("Tuple length mismatch"),
            InferenceError::NoMatchArms { .. } => String::from_str("Match expression has no arms"),
        }
    }

    /// The explanation of this error, shown at its span.
    pub fn label(&self) -> (s: String)
        ensures
            s@ == error_label(self@),
    {
        match self {
            InferenceError::UnboundVariable { name, .. } => {
                let mut s = String::from_str("`");
                s.append(name.as_str());
                s.append("` is not defined in this scope");
                s
            },
            InferenceError::UnificationFailure { expected, actual, .. } => {
                let mut s = String::from_str("expected `");
                expected.write_to(&mut s);
                s.append("`, found `");
                actual.write_to(&mut s);
                s.append("`");
                s
            },
            InferenceError::OccursCheck { var, ty, .. } => {
                let mut s = String::from_str("type variable `");
                var.write_to(&mut s);
                s.append("` occurs in `");
                ty.write_to(&mut s);
                s.append("`");
                s
            },
            InferenceError::TupleLengthMismatch { left_len, right_len, .. } => {
                let mut s = String::from_str("expected ");
                crate::text::push_u128(&mut s, *left_len as u128);
                s.append(" elements, found ");
                crate::text::push_u128(&mut s, *right_len as u128);
                s
            },
            InferenceError::NoMatchArms { .. } => String::from_str("add at least one arm to this match expression"),
        }
    }
}

/// What an inference step looked at.
pub enum Input<'a> {
    Infer { env: String, expr: &'a Expr },
    Unify { left: Type, right: Type },
    Pat(String),
}

/// What an inference step concluded.
pub enum Output {
    Type(Type),
    Str(String),
}

impl From<Type> for Output {
    fn from(ty: Type) -> (o: Output) {
        Output::Type(ty)
    }
}

impl vstd::std_specs::convert::FromSpecImpl<Type> for Output {
    open spec fn obeys_from_spec() -> bool {
        true
    }

    open spec fn from_spec(ty: Type) -> Output {
        Output::Type(ty)
    }
}

impl From<String> for Output {
    fn from(s: String) -> (o: Output) {
        Output::Str(s)
    }
}

impl vstd::std_specs::convert::FromSpecImpl<String> for Output {
    open spec fn obeys_from_spec() -> bool {
        true
    }

    open spec fn from_spec(s: String) -> Output {
        Output::Str(s)
    }
}

/// A derivation: a rule, its input and output, and the derivations it rests on.
pub struct InferenceTree<'a> {
    pub rule: RuleName,
    pub input: Input<'a>,
    pub output: Output,
    pub children: Vec<InferenceTree<'a>>,
}

impl<'a> InferenceTree<'a> {
    pub fn new(rule: RuleName, input: Input<'a>, output: Output, children: Vec<InferenceTree<'a>>) -> (t: InferenceTree<'a>)
        ensures
            t.rule == rule,
            t.input == input,
            t.output == output,
            t.children == children,
    {
        InferenceTree { rule, input, output, children }
    }
}

// ---------------------------------------------------------------------------
// Unification.
// ---------------------------------------------------------------------------

/// What unifying variable `v` with type `t` gives.
pub open spec fn unify_var(v: u64, t: SType, span: Span) -> (Map<u64, SType>, Seq<SInferenceError>) {
    if t == SType::Var(v) {
        (Map::empty(), Seq::empty())
    } else if occurs(v, t) {
        (Map::empty(), seq![SInferenceError::OccursCheck { span, var: v, ty: t }])
    } else {
        (Map::empty().insert(v, t), Seq::empty())
    }
}

/// Whether a type is `Error` or `Never`, which unify with anything.
pub open spec fn is_absorbing(t: SType) -> bool {
    t is Error || t is Never
}

/// Whether two types are the same base type.
pub open spec fn same_base(a: SType, b: SType) -> bool {
    (a is Int && b is Int) || (a is Float && b is Float) || (a is Bool && b is Bool)
}

/// The substitution and the errors that unifying `a` with `b` gives.
/// `depth` bounds the nesting of unification steps; when it runs out the
/// two types are reported as mismatched.
pub open spec fn unify_spec(a: SType, b: SType, span: Span, depth: nat) -> (Map<u64, SType>, Seq<SInferenceError>)
    decreases depth, 0nat,
{
    if depth == 0 {
        (Map::empty(), seq![SInferenceError::UnificationFailure { span, expected: b, actual: a }])
    } else if is_absorbing(a) || is_absorbing(b) || same_base(a, b) {
        (Map::empty(), Seq::empty())
    } else if a is Var {
        unify_var(a->Var_0, b, span)
    } else if b is Var {
        unify_var(b->Var_0, a, span)
    } else if a is Arrow && b is Arrow {
        let (s1, e1) = unify_spec(*a->Arrow_0, *b->Arrow_0, span, (depth - 1) as nat);
        let (s2, e2) = unify_spec(apply(s1, *a->Arrow_1), apply(s1, *b->Arrow_1), span, (depth - 1) as nat);
        (compose(s2, s1), e1 + e2)
    } else if a is Tuple && b is Tuple {
        if a->Tuple_0.len() != b->Tuple_0.len() {
            (Map::empty(), seq![SInferenceError::TupleLengthMismatch {
                span,
                left_len: a->Tuple_0.len(),
                right_len: b->Tuple_0.len(),
            }])
        } else {
            unify_tuple_spec(a->Tuple_0, b->Tuple_0, a->Tuple_0.len(), span, (depth - 1) as nat)
        }
    } else {
        (Map::empty(), seq![SInferenceError::UnificationFailure { span, expected: b, actual: a }])
    }
}

/// Unifies the first `n` components of two tuples in order, each under the
/// substitution found so far.
pub open spec fn unify_tuple_spec(ts1: Seq<SType>, ts2: Seq<SType>, n: nat, span: Span, depth: nat) -> (Map<u64, SType>, Seq<SInferenceError>)
    decreases depth, n + 1,
{
    if n == 0 {
        (Map::empty(), Seq::empty())
    } else {
        let (acc, errs) = unify_tuple_spec(ts1, ts2, (n - 1) as nat, span, depth);
        let (s, e) = unify_spec(apply(acc, ts1[n - 1]), apply(acc, ts2[n - 1]), span, depth);
        (compose(s, acc), errs + e)
    }
}

/// Whether `t` is a unification step with rule `rule` on `a` and `b` that
/// concludes the text `out` and rests on nothing.
pub open spec fn unify_node(t: InferenceTree, rule: RuleName, a: SType, b: SType, out: Seq<char>) -> bool {
    &&& t.rule == rule
    &&& t.input matches Input::Unify { left, right } && left@ == a && right@ == b
    &&& t.output matches Output::Str(o) && o@ == out
    &&& t.children@.len() == 0
}

/// Whether `t` is the step that unifying `a` with `b`, where one of them is
/// the variable `v` and `ty` the other, records.
pub open spec fn unify_var_tree(t: InferenceTree, v: u64, ty: SType, a: SType, b: SType) -> bool {
    if ty == SType::Var(v) {
        unify_node(t, RuleName::UnifyVarSame, a, b, "{}"@)
    } else if occurs(v, ty) {
        unify_node(t, RuleName::TError, a, b, "occurs check failed"@)
    } else {
        unify_node(t, RuleName::UnifyVar, a, b, "{"@ + crate::hir::type_text(ty) + "/"@ + crate::hir::var_text(v) + "}"@)
    }
}

/// Whether `t` is the derivation that unifying `a` with `b` records, with
/// `depth` nested steps left (see `unify_spec`): the rule, the two types and
/// the conclusion of every step, and the steps each rests on. An arrow or a
/// tuple step concludes the text of the substitution found, whose bindings
/// come in the order the map yields them; that order is not stated.
pub open spec fn unify_tree(t: InferenceTree, a: SType, b: SType, span: Span, depth: nat) -> bool
    decreases depth,
{
    if depth == 0 {
        unify_node(t, RuleName::TError, a, b, "type mismatch"@)
    } else if is_absorbing(a) || is_absorbing(b) || same_base(a, b) {
        unify_node(t, RuleName::UnifyBase, a, b, "{}"@)
    } else if a is Var {
        unify_var_tree(t, a->Var_0, b, a, b)
    } else if b is Var {
        unify_var_tree(t, b->Var_0, a, a, b)
    } else if a is Arrow && b is Arrow {
        let s1 = unify_spec(*a->Arrow_0, *b->Arrow_0, span, (depth - 1) as nat).0;
        &&& t.rule == RuleName::UnifyArrow
        &&& t.input matches Input::Unify { left, right } && left@ == a && right@ == b
        &&& t.output is Str
        &&& t.children@.len() == 2
        &&& unify_tree(t.children@[0], *a->Arrow_0, *b->Arrow_0, span, (depth - 1) as nat)
        &&& unify_tree(t.children@[1], apply(s1, *a->Arrow_1), apply(s1, *b->Arrow_1), span, (depth - 1) as nat)
    } else if a is Tuple && b is Tuple {
        let (ts1, ts2) = (a->Tuple_0, b->Tuple_0);
        if ts1.len() != ts2.len() {
            unify_node(t, RuleName::TError, a, b, "tuple length mismatch"@)
        } else {
            &&& t.rule == RuleName::UnifyTuple
            &&& t.input matches Input::Unify { left, right } && left@ == a && right@ == b
            &&& t.output is Str
            &&& t.children@.len() == ts1.len()
            &&& forall|i: int| 0 <= i < ts1.len() ==> unify_tree(#[trigger] t.children@[i],
                apply(unify_tuple_spec(ts1, ts2, i as nat, span, (depth - 1) as nat).0, ts1[i]),
                apply(unify_tuple_spec(ts1, ts2, i as nat, span, (depth - 1) as nat).0, ts2[i]),
                span, (depth - 1) as nat)
        }
    } else {
        unify_node(t, RuleName::TError, a, b, "type mismatch"@)
    }
}

/// The number after `n` among 64-bit numbers, `0` after the largest.
pub open spec fn wrap(n: int) -> u64 {
    (n % 0x1_0000_0000_0000_0000) as u64
}

/// The inference engine: a counter for fresh type variables and the errors found.
pub struct TypeInference<'r> {
    pub(crate) counter: u64,
    pub(crate) rodeo: &'r lasso::Rodeo,
    pub(crate) errors: Vec<InferenceError>,
}

/// The state of the inference engine: the next fresh variable and the errors so far.
pub struct InferenceState {
    pub counter: u64,
    pub errors: Seq<SInferenceError>,
}

impl<'r> View for TypeInference<'r> {
    type V = InferenceState;

    closed spec fn view(&self) -> InferenceState {
        InferenceState { counter: self.counter, errors: errors_view(self.errors@) }
    }
}

impl<'r> TypeInference<'r> {
    /// The names of the interner the engine reads.
    pub closed spec fn names(&self) -> Seq<Seq<char>> {
        crate::interner::interned(*self.rodeo)
    }

    /// The names are those of the engine's interner.
    pub(crate) proof fn lemma_names(&self)
        ensures
            self.names() == crate::interner::interned(*self.rodeo),
    {
    }

    /// A fresh engine over an interner.
    pub fn new(rodeo: &'r lasso::Rodeo) -> (t: Self)
        ensures
            t@.counter == 0,
            t@.errors == Seq::<SInferenceError>::empty(),
            t.names() == crate::interner::interned(*rodeo),
    {
        let t = TypeInference { counter: 0, rodeo, errors: Vec::new() };
        assert(t@.errors =~= Seq::<SInferenceError>::empty());
        t
    }

    /// Takes the errors found so far, leaving none.
    pub fn take_errors(&mut self) -> (es: Vec<InferenceError>)
        ensures
            errors_view(es@) == old(self)@.errors,
            final(self)@.errors == Seq::<SInferenceError>::empty(),
            final(self)@.counter == old(self)@.counter,
            final(self).names() == old(self).names(),
    {
        let mut es: Vec<InferenceError> = Vec::new();
        std::mem::swap(&mut es, &mut self.errors);
        assert(self@.errors =~= Seq::<SInferenceError>::empty());
        es
    }
}

/// The unification depth budget: as many nested steps as `usize` can count.
pub open spec fn unify_depth_budget() -> nat {
    usize::MAX as nat
}

/// One binding of a substitution as written: the type, `/`, the variable.
pub open spec fn subst_binding_text(v: u64, t: SType) -> Seq<char> {
    crate::hir::type_text(t) + "/"@ + crate::hir::var_text(v)
}

/// A substitution as written, its bindings in the order `q`: `{}` when there
/// are none.
pub open spec fn subst_text(q: Seq<(&u64, &Type)>) -> Seq<char> {
    if q.len() == 0 {
        "{}"@
    } else {
        "{"@ + crate::printer::joined(", "@, Seq::new(q.len(), |x: int| subst_binding_text(*q[x].0, (*q[x].1)@))) + "}"@
    }
}

/// The error-tree of a failed unification step.
fn unify_error_tree<'tree>(this: &Type, other: &Type, msg: &str) -> (r: (Subst, InferenceTree<'tree>))
    ensures
        r.0@ == Map::<u64, SType>::empty(),
        unify_node(r.1, RuleName::TError, this@, other@, msg@),
{
    let tree = InferenceTree::new(
        RuleName::TError,
        Input::Unify { left: this.clone(), right: other.clone() },
        Output::Str(String::from_str(msg)),
        Vec::new(),
    );
    (Subst::empty(), tree)
}

/// A leaf of a unification tree that binds nothing.
fn unify_leaf<'tree>(rule: RuleName, this: &Type, other: &Type) -> (r: (Subst, InferenceTree<'tree>))
    ensures
        r.0@ == Map::<u64, SType>::empty(),
        unify_node(r.1, rule, this@, other@, "{}"@),
{
    let tree = InferenceTree::new(
        rule,
        Input::Unify { left: this.clone(), right: other.clone() },
        Output::Str(String::from_str("{}")),
        Vec::new(),
    );
    (Subst::empty(), tree)
}

impl<'r> TypeInference<'r> {
    /// A fresh type variable.
    pub(crate) fn fresh_tyvar(&mut self) -> (v: TypeVar)
        requires
        ensures
            v.0 == old(self)@.counter,
            final(self)@.counter == wrap(old(self)@.counter + 1),
            final(self)@.errors == old(self)@.errors,
            final(self).names() == old(self).names(),
    {
        let var = self.counter;
        self.counter = if self.counter == u64::MAX { 0 } else { self.counter + 1 };
        TypeVar(var)
    }

    /// Records an error.
    pub(crate) fn emit_error(&mut self, err: InferenceError)
        ensures
            final(self).errors@ == old(self).errors@.push(err),
            final(self)@.errors == old(self)@.errors.push(err@),
            final(self)@.counter == old(self)@.counter,
            final(self).names() == old(self).names(),
    {
        let ghost e = err@;
        self.errors.push(err);
        assert(errors_view(self.errors@) =~= errors_view(old(self).errors@).push(e));
    }

    /// Unifies `this` with `other`, recording the errors found, and returns the
    /// unifying substitution with its derivation.
    pub fn unify<'tree>(&mut self, this: &Type, other: &Type, span: Span) -> (res: (Subst, InferenceTree<'tree>))
        ensures
            res.0@ == unify_spec(this@, other@, span, unify_depth_budget()).0,
            unify_tree(res.1, this@, other@, span, unify_depth_budget()),
            final(self)@.errors == old(self)@.errors
                + unify_spec(this@, other@, span, unify_depth_budget()).1,
            final(self)@.counter == old(self)@.counter,
            final(self).names() == old(self).names(),
            tree_names_below(res.1, old(self).names().len()),
    {
        self.unify_depth(this, other, span, usize::MAX)
    }

    fn unify_var<'tree>(&mut self, this: &Type, other: &Type, var: TypeVar, ty: &Type, span: Span) -> (res: (Subst, InferenceTree<'tree>))
        ensures
            res.0@ == unify_var(var.0, ty@, span).0,
            unify_var_tree(res.1, var.0, ty@, this@, other@),
            final(self)@.errors == old(self)@.errors + unify_var(var.0, ty@, span).1,
            final(self)@.counter == old(self)@.counter,
            final(self).names() == old(self).names(),
            tree_names_below(res.1, old(self).names().len()),
    {
        let same = match ty {
            Type::Var(w) => w.0 == var.0,
            _ => false,
        };
        if same {
            assert(ty@ == SType::Var(var.0));
            assert(errors_view(self.errors@) =~= old(self)@.errors + unify_var(var.0, ty@, span).1);
            unify_leaf(RuleName::UnifyVarSame, this, other)
        } else if self.occurs_check(&var, ty) {
            self.emit_error(InferenceError::OccursCheck { span, var, ty: ty.clone() });
            assert(errors_view(self.errors@) =~= old(self)@.errors + unify_var(var.0, ty@, span).1);
            unify_error_tree(this, other, "occurs check failed")
        } else {
            let subst = Subst::singleton_type(var, ty.clone());
            let mut output = String::from_str("{");
            ty.write_to(&mut output);
            output.append("/");
            var.write_to(&mut output);
            output.append("}");
            let tree = InferenceTree::new(
                RuleName::UnifyVar,
                Input::Unify { left: this.clone(), right: other.clone() },
                Output::Str(output),
                Vec::new(),
            );
            assert(errors_view(self.errors@) =~= old(self)@.errors + unify_var(var.0, ty@, span).1);
            (subst, tree)
        }
    }

    fn unify_depth<'tree>(&mut self, this: &Type, other: &Type, span: Span, depth: usize) -> (res: (Subst, InferenceTree<'tree>))
        ensures
            res.0@ == unify_spec(this@, other@, span, depth as nat).0,
            unify_tree(res.1, this@, other@, span, depth as nat),
            final(self)@.errors == old(self)@.errors
                + unify_spec(this@, other@, span, depth as nat).1,
            final(self)@.counter == old(self)@.counter,
            final(self).names() == old(self).names(),
            tree_names_below(res.1, old(self).names().len()),
        decreases depth, 0nat,
    {
        if depth == 0 {
            self.emit_error(InferenceError::UnificationFailure { span, expected: other.clone(), actual: this.clone() });
            assert(errors_view(self.errors@) =~= old(self)@.errors + unify_spec(this@, other@, span, depth as nat).1);
            return unify_error_tree(this, other, "type mismatch");
        }
        let absorbing = match (this, other) {
            (Type::Error, _) | (_, Type::Error) | (Type::Never, _) | (_, Type::Never) => true,
            _ => false,
        };
        let base = match (this, other) {
            (Type::Int, Type::Int) | (Type::Float, Type::Float) | (Type::Bool, Type::Bool) => true,
            _ => false,
        };
        if absorbing || base {
            assert(errors_view(self.errors@) =~= old(self)@.errors + unify_spec(this@, other@, span, depth as nat).1);
            return unify_leaf(RuleName::UnifyBase, this, other);
        }
        match (this, other) {
            (Type::Var(var), ty) => self.unify_var(this, other, *var, ty, span),
            (ty, Type::Var(var)) => self.unify_var(this, other, *var, ty, span),
            (Type::Arrow(from_a, to_a), Type::Arrow(from_b, to_b)) => {
                let (from, from_tree) = self.unify_depth(from_a, from_b, span, depth - 1);
                let ta = Self::apply_type(&from, to_a);
                let tb = Self::apply_type(&from, to_b);
                let (to, to_tree) = self.unify_depth(&ta, &tb, span, depth - 1);
                let final_subst = to.compose(&from);
                let output = self.pretty_subst(&final_subst);
                let ghost ft = from_tree;
                let ghost tt = to_tree;
                let mut children: Vec<InferenceTree<'tree>> = Vec::new();
                children.push(from_tree);
                children.push(to_tree);
                assert(children@[0] == ft && children@[1] == tt);
                proof {
                    lemma_children_names_all(children@, old(self).names().len());
                }
                let tree = InferenceTree::new(
                    RuleName::UnifyArrow,
                    Input::Unify { left: this.clone(), right: other.clone() },
                    Output::Str(output),
                    children,
                );
                assert(errors_view(self.errors@) =~= old(self)@.errors + unify_spec(this@, other@, span, depth as nat).1);
                (final_subst, tree)
            },
            (Type::Tuple(ts1), Type::Tuple(ts2)) => {
                proof {
                    assert(this@ == SType::Tuple(types_view(ts1@)));
                    assert(other@ == SType::Tuple(types_view(ts2@)));
                }
                if ts1.len() != ts2.len() {
                    self.emit_error(InferenceError::TupleLengthMismatch {
                        span,
                        left_len: ts1.len(),
                        right_len: ts2.len(),
                    });
                    assert(errors_view(self.errors@) =~= old(self)@.errors + unify_spec(this@, other@, span, depth as nat).1);
                    return unify_error_tree(this, other, "tuple length mismatch");
                }
                let ghost e0 = errors_view(self.errors@);
                let mut subst = Subst::empty();
                let mut trees: Vec<InferenceTree<'tree>> = Vec::new();
                let mut i: usize = 0;
                while i < ts1.len()
                    invariant
                        i <= ts1.len(),
                        ts1.len() == ts2.len(),
                        depth > 0,
                        subst@ == unify_tuple_spec(types_view(ts1@), types_view(ts2@), i as nat, span, (depth - 1) as nat).0,
                        errors_view(self.errors@) == e0
                            + unify_tuple_spec(types_view(ts1@), types_view(ts2@), i as nat, span, (depth - 1) as nat).1,
                        self.counter == old(self).counter,
                        self.names() == old(self).names(),
                        forall|j: int| 0 <= j < trees@.len() ==> tree_names_below(#[trigger] trees@[j], old(self).names().len()),
                        trees@.len() == i,
                        forall|j: int| 0 <= j < i ==> unify_tree(#[trigger] trees@[j],
                            apply(unify_tuple_spec(types_view(ts1@), types_view(ts2@), j as nat, span, (depth - 1) as nat).0, types_view(ts1@)[j]),
                            apply(unify_tuple_spec(types_view(ts1@), types_view(ts2@), j as nat, span, (depth - 1) as nat).0, types_view(ts2@)[j]),
                            span, (depth - 1) as nat),
                    decreases ts1.len() - i,
                {
                    let t1 = Self::apply_type(&subst, &ts1[i]);
                    let t2 = Self::apply_type(&subst, &ts2[i]);
                    let (s, tree) = self.unify_depth(&t1, &t2, span, depth - 1);
                    subst = s.compose(&subst);
                    trees.push(tree);
                    i = i + 1;
                    proof {
                        let (acc, errs) = unify_tuple_spec(types_view(ts1@), types_view(ts2@), (i - 1) as nat, span, (depth - 1) as nat);
                        let (s2, e2) = unify_spec(apply(acc, types_view(ts1@)[i - 1]), apply(acc, types_view(ts2@)[i - 1]), span, (depth - 1) as nat);
                        assert(errors_view(self.errors@) =~= e0 + errs + e2);
                    }
                }
                let output = self.pretty_subst(&subst);
                proof {
                    lemma_children_names_all(trees@, old(self).names().len());
                }
                let tree = InferenceTree::new(
                    RuleName::UnifyTuple,
                    Input::Unify { left: this.clone(), right: other.clone() },
                    Output::Str(output),
                    trees,
                );
                (subst, tree)
            },
            _ => {
                self.emit_error(InferenceError::UnificationFailure { span, expected: other.clone(), actual: this.clone() });
                assert(errors_view(self.errors@) =~= old(self)@.errors + unify_spec(this@, other@, span, depth as nat).1);
                unify_error_tree(this, other, "type mismatch")
            },
        }
    }

    /// Whether `var` occurs in `ty`.
    fn occurs_check(&self, var: &TypeVar, ty: &Type) -> (b: bool)
        ensures
            b == occurs(var.0, ty@),
    {
        let mut fv = FreeVars::new();
        ftv_type(ty, &mut fv);
        var_set_contains(&fv.types, var.0)
    }

    /// How a substitution is written: `{}` when empty, otherwise its bindings
    /// `type/variable` between braces, separated by `, `, in the order that the
    /// map yields them (see `subst_text`).
    pub fn pretty_subst(&self, subst: &Subst) -> (s: String)
        ensures
            s@ == subst_text(spec_hash_map_iter(&subst.types).remaining()),
    {
        let ghost q = spec_hash_map_iter(&subst.types).remaining();
        let ghost texts = Seq::new(q.len(), |x: int| subst_binding_text(*q[x].0, (*q[x].1)@));
        if subst.types.len() == 0 {
            String::from_str("{}")
        } else {
            let mut out = String::from_str("{");
            let ghost start = out@;
            let mut first = true;
            for (k, v) in it: subst.types.iter()
                invariant
                    it.seq() == q,
                    texts == Seq::new(q.len(), |x: int| subst_binding_text(*q[x].0, (*q[x].1)@)),
                    start == "{"@,
                    first == (it.index() == 0),
                    out@ == start + crate::printer::joined(", "@, texts.take(it.index() as int)),
            {
                let ghost before = out@;
                if !first {
                    out.append(", ");
                }
                first = false;
                v.write_to(&mut out);
                out.append("/");
                TypeVar(*k).write_to(&mut out);
                proof {
                    let n = it.index();
                    assert(texts.take(n + 1) =~= texts.take(n as int).push(texts[n as int]));
                    crate::printer::lemma_joined_push(", "@, texts.take(n as int), texts[n as int]);
                }
            }
            assert(texts.take(q.len() as int) =~= texts);
            out.append("}");
            out
        }
    }

    /// Applies a substitution to a type (see `apply`).
    pub fn apply_type(s: &Subst, ty: &Type) -> (res: Type)
        ensures
            res@ == apply(s@, ty@),
    {
        assert(s.types@.dom() =~= s@.dom());
        Self::apply_type_fuel(s, ty, s.types.len())
    }

    #[verifier::loop_isolation(false)]
    fn apply_type_fuel(s: &Subst, ty: &Type, fuel: usize) -> (res: Type)
        ensures
            res@ == apply_fuel(s@, ty@, fuel as nat),
        decreases fuel, ty,
    {
        match ty {
            Type::Var(name) => match s.types.get(&name.0) {
                Some(t) => {
                    if fuel > 0 {
                        Self::apply_type_fuel(s, t, fuel - 1)
                    } else {
                        Type::Var(*name)
                    }
                },
                None => Type::Var(*name),
            },
            Type::Arrow(from, to) => {
                let a = Self::apply_type_fuel(s, from, fuel);
                let b = Self::apply_type_fuel(s, to, fuel);
                Type::Arrow(Box::new(a), Box::new(b))
            },
            Type::Tuple(types) => {
                let mut out: Vec<Type> = Vec::new();
                let mut i: usize = 0;
                while i < types.len()
                    invariant
                        i <= types.len(),
                        out.len() == i,
                        forall|j: int| 0 <= j < i ==> out@[j]@ == apply_fuel(s@, types@[j]@, fuel as nat),
                    decreases types.len() - i,
                {
                    let t = Self::apply_type_fuel(s, &types[i], fuel);
                    out.push(t);
                    i = i + 1;
                }
                let ghost vs = types_view(types@);
                assert(ty@ == SType::Tuple(vs));
                let res = Type::Tuple(out);
                assert(res@ == SType::Tuple(types_view(out@)));
                assert(types_view(out@) =~= apply_fuel(s@, ty@, fuel as nat)->Tuple_0);
                res
            },
            Type::Int => Type::Int,
            Type::Bool => Type::Bool,
            Type::Float => Type::Float,
            Type::Error => Type::Error,
            Type::Never => Type::Never,
        }
    }
}

} // verus!
