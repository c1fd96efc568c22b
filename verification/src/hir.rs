//! Types of the Mest language.
use vstd::prelude::*;
use crate::text::{decimal, push_u128};
use crate::ast::{BinOp, Ident, Literal, Span, UnaryOp};

verus! {

/// A type variable, numbered by the inference engine.
#[derive(Debug, Clone, Copy, Hash, PartialEq, Eq, PartialOrd, Ord)]
pub struct TypeVar(pub u64);

/// A type of the language.
#[derive(Debug, PartialEq, Eq, PartialOrd, Ord)]
pub enum Type {
    Var(TypeVar),
    Arrow(Box<Type>, Box<Type>),
    Int,
    Float,
    Bool,
    Tuple(Vec<Type>),
    Error,
    Never,
}

/// An expression annotated with its type.
#[derive(Debug)]
pub struct TExpr {
    pub kind: Box<TExprKind>,
    pub span: Span,
    pub ty: Type,
}

/// The forms of a typed expression.
#[derive(Debug)]
pub enum TExprKind {
    Literal(Literal),
    Ident(Ident),
    If { cond: TExpr, then_expr: TExpr, else_expr: TExpr },
    BinOp { op: BinOp, lhs: TExpr, rhs: TExpr },
    UnaryOp { op: UnaryOp, rhs: TExpr },
    Let { name: Ident, value: TExpr, body: TExpr, rec: bool },
    Match { scrutinee: TExpr, arms: Vec<(TPat, TExpr)> },
    Lambda { param: Ident, param_ty: Type, body: TExpr },
    App { func: TExpr, arg: TExpr },
}

/// A pattern annotated with the types of the variables it binds.
#[derive(Debug)]
pub enum TPat {
    Wildcard,
    Var(Ident, Type),
    Lit(Literal),
    Or(Box<TPat>, Box<TPat>),
}

/// The mathematical value of a `Type`.
pub enum SType {
    Var(u64),
    Arrow(Box<SType>, Box<SType>),
    Int,
    Float,
    Bool,
    Tuple(Seq<SType>),
    Error,
    Never,
}

impl View for Type {
    type V = SType;

    open spec fn view(&self) -> SType {
        type_view(*self)
    }
}

/// The value of a type.
pub open spec fn type_view(t: Type) -> SType
    decreases t,
{
    match t {
        Type::Var(v) => SType::Var(v.0),
        Type::Arrow(a, b) => SType::Arrow(Box::new(type_view(*a)), Box::new(type_view(*b))),
        Type::Int => SType::Int,
        Type::Float => SType::Float,
        Type::Bool => SType::Bool,
        Type::Tuple(ts) => SType::Tuple(types_view(ts@)),
        Type::Error => SType::Error,
        Type::Never => SType::Never,
    }
}

/// The values of a sequence of types.
pub open spec fn types_view(ts: Seq<Type>) -> Seq<SType>
    decreases ts,
{
    Seq::new(ts.len(), |i: int| if 0 <= i < ts.len() { type_view(ts[i]) } else { SType::Never })
}

/// Whether type variable `v` occurs in `t`.
pub open spec fn occurs(v: u64, t: SType) -> bool
    decreases t,
{
    match t {
        SType::Var(w) => v == w,
        SType::Arrow(a, b) => occurs(v, *a) || occurs(v, *b),
        SType::Tuple(ts) => occurs_in(v, ts),
        _ => false,
    }
}

/// Whether type variable `v` occurs in one of the types `ts`.
pub open spec fn occurs_in(v: u64, ts: Seq<SType>) -> bool
    decreases ts,
{
    if ts.len() == 0 {
        false
    } else {
        occurs_in(v, ts.drop_last()) || occurs(v, ts.last())
    }
}

/// A variable occurs in a sequence of types exactly when it occurs in one of them.
pub broadcast proof fn lemma_occurs_in(v: u64, ts: Seq<SType>)
    ensures
        #[trigger] occurs_in(v, ts) <==> exists|i: int| 0 <= i < ts.len() && occurs(v, ts[i]),
    decreases ts.len(),
{
    if ts.len() > 0 {
        lemma_occurs_in(v, ts.drop_last());
        if occurs_in(v, ts.drop_last()) {
            let i = choose|i: int| 0 <= i < ts.drop_last().len() && occurs(v, ts.drop_last()[i]);
            assert(ts[i] == ts.drop_last()[i]);
        }
        if exists|i: int| 0 <= i < ts.len() && occurs(v, ts[i]) {
            let i = choose|i: int| 0 <= i < ts.len() && occurs(v, ts[i]);
            if i < ts.len() - 1 {
                assert(ts.drop_last()[i] == ts[i]);
            }
        }
    }
}

/// The type variables of a type.
pub open spec fn vars(t: SType) -> Set<u64> {
    Set::new(|v: u64| occurs(v, t))
}

/// The Greek letter that names type variable `v`, for `v < 24`.
pub open spec fn greek(v: u64) -> Seq<char> {
    if v == 0 { "α"@ } else if v == 1 { "β"@ } else if v == 2 { "γ"@ } else if v == 3 { "δ"@ }
    else if v == 4 { "ε"@ } else if v == 5 { "ζ"@ } else if v == 6 { "η"@ } else if v == 7 { "θ"@ }
    else if v == 8 { "ι"@ } else if v == 9 { "κ"@ } else if v == 10 { "λ"@ } else if v == 11 { "μ"@ }
    else if v == 12 { "ν"@ } else if v == 13 { "ξ"@ } else if v == 14 { "ο"@ } else if v == 15 { "π"@ }
    else if v == 16 { "ρ"@ } else if v == 17 { "σ"@ } else if v == 18 { "τ"@ } else if v == 19 { "υ"@ }
    else if v == 20 { "φ"@ } else if v == 21 { "χ"@ } else if v == 22 { "ψ"@ } else { "ω"@ }
}

/// How a type variable is written: a Greek letter, or `α<n>` past the alphabet.
pub open spec fn var_text(v: u64) -> Seq<char> {
    if v < 24 {
        greek(v)
    } else {
        "α<"@ + decimal(v as nat) + ">"@
    }
}

/// How a type is written.
pub open spec fn type_text(t: SType) -> Seq<char>
    decreases t,
{
    match t {
        SType::Var(v) => var_text(v),
        SType::Arrow(a, b) => "("@ + type_text(*a) + ") -> "@ + type_text(*b),
        SType::Int => "Int"@,
        SType::Float => "Float"@,
        SType::Bool => "Bool"@,
        SType::Tuple(ts) => "("@ + types_text(ts) + ")"@,
        SType::Error => "<error>"@,
        SType::Never => "Never"@,
    }
}

/// The types of a tuple, written one after another with `,` between them.
pub open spec fn types_text(ts: Seq<SType>) -> Seq<char>
    decreases ts,
{
    if ts.len() == 0 {
        Seq::empty()
    } else if ts.len() == 1 {
        type_text(ts[0])
    } else {
        types_text(ts.drop_last()) + ","@ + type_text(ts.last())
    }
}

fn greek_str(v: u64) -> (s: &'static str)
    requires
        v < 24,
    ensures
        s@ == greek(v),
{
    if v == 0 { "α" } else if v == 1 { "β" } else if v == 2 { "γ" } else if v == 3 { "δ" }
    else if v == 4 { "ε" } else if v == 5 { "ζ" } else if v == 6 { "η" } else if v == 7 { "θ" }
    else if v == 8 { "ι" } else if v == 9 { "κ" } else if v == 10 { "λ" } else if v == 11 { "μ" }
    else if v == 12 { "ν" } else if v == 13 { "ξ" } else if v == 14 { "ο" } else if v == 15 { "π" }
    else if v == 16 { "ρ" } else if v == 17 { "σ" } else if v == 18 { "τ" } else if v == 19 { "υ" }
    else if v == 20 { "φ" } else if v == 21 { "χ" } else if v == 22 { "ψ" } else { "ω" }
}

impl TypeVar {
    /// Appends how this variable is written.
    pub fn write_to(&self, out: &mut String)
        ensures
            final(out)@ == old(out)@ + var_text(self.0),
    {
        if self.0 < 24 {
            out.append(greek_str(self.0));
        } else {
            out.append("α<");
            push_u128(out, self.0 as u128);
            out.append(">");
        }
    }

    /// How this variable is written.
    pub fn to_text(&self) -> (s: String)
        ensures
            s@ == var_text(self.0),
    {
        let mut s = String::new();
        self.write_to(&mut s);
        s
    }
}

impl Type {
    /// Appends how this type is written.
    #[verifier::loop_isolation(false)]
    pub fn write_to(&self, out: &mut String)
        ensures
            final(out)@ == old(out)@ + type_text(self@),
        decreases self,
    {
        match self {
            Type::Var(v) => v.write_to(out),
            Type::Arrow(a, b) => {
                out.append("(");
                a.write_to(out);
                out.append(") -> ");
                b.write_to(out);
            },
            Type::Int => out.append("Int"),
            Type::Float => out.append("Float"),
            Type::Bool => out.append("Bool"),
            Type::Tuple(ts) => {
                out.append("(");
                let ghost start = out@;
                let ghost vs = types_view(ts@);
                
                let mut i: usize = 0;
                while i < ts.len()
                    invariant
                        i <= ts.len(),
                        vs.len() == ts.len(),
                        out@ == start + types_text(vs.take(i as int)),
                    decreases ts.len() - i,
                {
                    assert(vs[i as int] == ts@[i as int]@);
                    if i > 0 {
                        out.append(",");
                    }
                    ts[i].write_to(out);
                    proof {
                        let t = vs.take(i + 1);
                        assert(t.drop_last() == vs.take(i as int));
                        assert(t.last() == vs[i as int]);
                        if i == 0 {
                            assert(vs.take(0).len() == 0);
                        }
                    }
                    i = i + 1;
                }
                assert(vs.take(ts.len() as int) == vs);
                out.append(")");
            },
            Type::Error => out.append("<error>"),
            Type::Never => out.append("Never"),
        }
    }

    /// How this type is written.
    pub fn to_text(&self) -> (s: String)
        ensures
            s@ == type_text(self@),
    {
        let mut s = String::new();
        self.write_to(&mut s);
        s
    }
}

/// A copy of a type, built node by node.
#[verifier::loop_isolation(false)]
pub fn clone_type(t: &Type) -> (res: Type)
    ensures
        res@ == t@,
    decreases t,
{
    match t {
        Type::Var(v) => Type::Var(TypeVar(v.0)),
        Type::Arrow(a, b) => {
            let a2 = clone_type(a);
            let b2 = clone_type(b);
            Type::Arrow(Box::new(a2), Box::new(b2))
        },
        Type::Int => Type::Int,
        Type::Float => Type::Float,
        Type::Bool => Type::Bool,
        Type::Tuple(ts) => {
            let mut out: Vec<Type> = Vec::new();
            let mut i: usize = 0;
            while i < ts.len()
                invariant
                    i <= ts.len(),
                    out.len() == i,
                    forall|j: int| 0 <= j < i ==> out@[j]@ == ts@[j]@,
                decreases ts.len() - i,
            {
                let c = clone_type(&ts[i]);
                out.push(c);
                i = i + 1;
            }
            proof {
                assert(types_view(out@) =~= types_view(ts@));
            }
            Type::Tuple(out)
        },
        Type::Error => Type::Error,
        Type::Never => Type::Never,
    }
}

impl Clone for Type {
    fn clone(&self) -> (res: Self)
        ensures
            res@ == self@,
    {
        clone_type(self)
    }
}

} // verus!
