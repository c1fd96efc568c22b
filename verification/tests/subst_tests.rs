use mest::hir::{Type, TypeVar};
use mest::scheme::{rename_scheme, rename_type, Scheme};
use mest::typecheck::{Subst, TypeInference};

fn var(n: u64) -> Type {
    Type::Var(TypeVar(n))
}

fn arrow(a: Type, b: Type) -> Type {
    Type::Arrow(Box::new(a), Box::new(b))
}

#[test]
fn empty_substitution_changes_nothing() {
    let t = arrow(var(0), Type::Tuple(vec![var(1), Type::Bool]));
    let applied = TypeInference::apply_type(&Subst::empty(), &t);
    assert_eq!(applied, t);
}

#[test]
fn singleton_substitution_replaces_its_variable() {
    let s = Subst::singleton_type(TypeVar(0), Type::Int);
    let t = arrow(var(0), var(1));
    assert_eq!(TypeInference::apply_type(&s, &t), arrow(Type::Int, var(1)));
}

#[test]
fn composition_applies_the_second_then_the_first() {
    let s1 = Subst::singleton_type(TypeVar(0), Type::Int);
    let s2 = Subst::singleton_type(TypeVar(1), arrow(var(0), Type::Bool));
    let composed = s1.compose(&s2);
    let t = Type::Tuple(vec![var(1), var(0), var(2)]);
    let expected = TypeInference::apply_type(&s1, &TypeInference::apply_type(&s2, &t));
    assert_eq!(TypeInference::apply_type(&composed, &t), expected);
    assert_eq!(expected, Type::Tuple(vec![arrow(Type::Int, Type::Bool), Type::Int, var(2)]));
}

#[test]
fn renaming_numbers_variables_in_order() {
    let t = arrow(var(5), var(2));
    let renamed = rename_type(&t);
    assert_eq!(renamed, arrow(var(1), var(0)));
    assert_eq!(renamed.to_text(), "(β) -> α");
    assert_eq!(rename_type(&renamed), renamed);
}

#[test]
fn renaming_a_scheme() {
    let s = Scheme { type_vars: vec![TypeVar(7)], ty: arrow(var(7), var(7)) };
    assert_eq!(rename_scheme(&s).to_text(), "(α) -> α");
}

#[test]
fn type_text() {
    assert_eq!(Type::Tuple(vec![Type::Int, Type::Float]).to_text(), "(Int,Float)");
    assert_eq!(var(30).to_text(), "α<30>");
    assert_eq!(Type::Error.to_text(), "<error>");
    assert_eq!(Type::Never.to_text(), "Never");
}
