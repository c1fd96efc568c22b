use lasso::{Key, Rodeo};
use mest::ast::{Expr, ExprKind};
use mest::constructors::{collect_constructors, constructor_names, resolve_constructors};
use mest::lexer::tokenize;
use mest::parser::{ident_uses_uppercase, parser};

fn parse_src(src: &str) -> (Expr, Rodeo) {
    let (tokens, errors) = tokenize(src);
    assert!(errors.is_empty());
    let mut rodeo = Rodeo::new();
    let expr = parser(&tokens, &mut rodeo).expect("the source parses");
    (expr, rodeo)
}

fn key(rodeo: &Rodeo, name: &str) -> usize {
    rodeo.get(name).unwrap().into_usize()
}

#[test]
fn collects_variants_by_type() {
    let (expr, rodeo) = parse_src("type T = | A | B Int in B 1");
    let map = collect_constructors(&expr);
    assert_eq!(map.len(), 1);
    let variants = map.get(&key(&rodeo, "T")).unwrap();
    let names: Vec<usize> = variants.iter().map(|v| v.name.name).collect();
    assert_eq!(names, vec![key(&rodeo, "A"), key(&rodeo, "B")]);
    let set = constructor_names(&map);
    assert_eq!(set.len(), 2);
    assert!(set.contains(&key(&rodeo, "A")));
    assert!(set.contains(&key(&rodeo, "B")));
}

#[test]
fn resolves_constructor_applications() {
    let (expr, rodeo) = parse_src("type T = | A | B Int in B 1");
    let set = constructor_names(&collect_constructors(&expr));
    let resolved = resolve_constructors(&expr, &set);
    match &*resolved.kind {
        ExprKind::Type { body, .. } => match &*body.kind {
            ExprKind::Constructor { name, arg } => {
                assert_eq!(name.name, key(&rodeo, "B"));
                assert!(arg.is_some());
            }
            other => panic!("expected a constructor, got {other:?}"),
        },
        other => panic!("expected a type definition, got {other:?}"),
    }
}

#[test]
fn resolves_nullary_constructors() {
    let (expr, rodeo) = parse_src("type T = | A | B Int in A");
    let set = constructor_names(&collect_constructors(&expr));
    let resolved = resolve_constructors(&expr, &set);
    match &*resolved.kind {
        ExprKind::Type { body, .. } => {
            assert!(matches!(&*body.kind, ExprKind::Constructor { arg: None, .. }));
            if let ExprKind::Constructor { name, .. } = &*body.kind {
                assert_eq!(name.name, key(&rodeo, "A"));
            }
        }
        other => panic!("expected a type definition, got {other:?}"),
    }
}

#[test]
fn leaves_other_names_alone() {
    let (expr, _rodeo) = parse_src("let x = 1 in x");
    let set = constructor_names(&collect_constructors(&expr));
    assert!(set.is_empty());
    let resolved = resolve_constructors(&expr, &set);
    match &*resolved.kind {
        ExprKind::Let { body, .. } => assert!(matches!(&*body.kind, ExprKind::Var(_))),
        other => panic!("expected a let, got {other:?}"),
    }
}

#[test]
fn uppercase_names() {
    assert!(ident_uses_uppercase("Some"));
    assert!(!ident_uses_uppercase("some"));
    assert!(!ident_uses_uppercase("_x"));
    assert!(!ident_uses_uppercase(""));
    assert!(ident_uses_uppercase("Élan"));
}

#[test]
fn resolves_operator_operands() {
    let (expr, rodeo) = parse_src("type T = | C in C == C");
    let set = constructor_names(&collect_constructors(&expr));
    let resolved = resolve_constructors(&expr, &set);
    match &*resolved.kind {
        ExprKind::Type { body, .. } => match &*body.kind {
            ExprKind::BinOp { lhs, rhs, .. } => {
                for side in [lhs, rhs] {
                    match &*side.kind {
                        ExprKind::Constructor { name, arg } => {
                            assert_eq!(name.name, key(&rodeo, "C"));
                            assert!(arg.is_none());
                        }
                        other => panic!("expected a constructor, got {other:?}"),
                    }
                }
            }
            other => panic!("expected an operator, got {other:?}"),
        },
        other => panic!("expected a type definition, got {other:?}"),
    }
}

#[test]
fn collects_definitions_inside_operands() {
    let (expr, rodeo) = parse_src("1 + (type U = | D in 2)");
    let map = collect_constructors(&expr);
    assert_eq!(map.len(), 1);
    let variants = map.get(&key(&rodeo, "U")).unwrap();
    assert_eq!(variants.len(), 1);
    assert_eq!(variants[0].name.name, key(&rodeo, "D"));
}
