use lasso::Rodeo;
use mest::ast::Expr;
use mest::hir::{Type, TypeVar};
use mest::typecheck::{Input, Output, RuleName, TypeInference};
use mest::ast::Span;
use mest::parser::parse_pat;
use mest::infer::{infer_type, run_inference, typecheck};
use mest::lexer::tokenize;
use mest::parser::parser;

fn parse_src(src: &str) -> (Expr, Rodeo) {
    let (tokens, errors) = tokenize(src);
    assert!(errors.is_empty());
    let mut rodeo = Rodeo::new();
    let expr = parser(&tokens, &mut rodeo).expect("the source parses");
    (expr, rodeo)
}

fn check(src: &str) -> (String, Vec<String>) {
    let (expr, mut rodeo) = parse_src(src);
    let result = typecheck(&expr, &mut rodeo);
    let messages = result.errors.iter().map(|e| e.message()).collect();
    (result.ty.to_text(), messages)
}

fn check_ok(src: &str) -> String {
    let (ty, errors) = check(src);
    assert!(errors.is_empty(), "unexpected errors for {src}: {errors:?}");
    ty
}

#[test]
fn arithmetic_is_int() {
    assert_eq!(check_ok("1 + 2 * 3"), "Int");
}

#[test]
fn bool_ops_are_bool() {
    assert_eq!(check_ok("true && false || true"), "Bool");
}

#[test]
fn if_then_else_has_branch_type() {
    assert_eq!(check_ok("if true then 1 else 2"), "Int");
}

#[test]
fn identity_is_generalized() {
    assert_eq!(check_ok("|x| x"), "(α) -> α");
}

#[test]
fn let_polymorphism() {
    assert_eq!(check_ok("let id = |x| x in id true"), "Bool");
    assert_eq!(check_ok("let id = |x| x in if id true then id 1 else 2"), "Int");
}

#[test]
fn match_expression() {
    assert_eq!(check_ok("match 42 | 42 => true | _ => false"), "Bool");
}

#[test]
fn unary_operators() {
    assert_eq!(check_ok("!(1 < 2)"), "Bool");
    assert_eq!(check_ok("-5"), "Int");
}

#[test]
fn power_is_int() {
    assert_eq!(check_ok("2 ^ 3"), "Int");
}

#[test]
fn tuples_and_tuple_bindings() {
    assert_eq!(check_ok("(1, true)"), "(Int,Bool)");
    assert_eq!(check_ok("let (a, b) = (1, true) in b"), "Bool");
}

#[test]
fn recursive_function() {
    assert_eq!(
        check_ok("let rec fact = |n| if n == 0 then 1 else n * fact (n - 1) in fact 5"),
        "Int"
    );
}

#[test]
fn higher_order_function() {
    assert_eq!(check_ok("let twice = |f| |x| f (f x) in twice (|y| y + 1) 3"), "Int");
}

#[test]
fn type_mismatch_in_binop() {
    let (_, errors) = check("1 + true");
    assert_eq!(errors, vec!["Type mismatch".to_string()]);
}

#[test]
fn unbound_variable_is_reported() {
    let (expr, mut rodeo) = parse_src("y + 1");
    let result = typecheck(&expr, &mut rodeo);
    assert_eq!(result.errors.len(), 1);
    assert_eq!(result.errors[0].message(), "Variable 'y' not found in environment");
    assert_eq!(result.errors[0].label(), "`y` is not defined in this scope");
    let span = result.errors[0].span();
    assert_eq!((span.start, span.end), (0, 1));
}

#[test]
fn if_condition_must_be_bool() {
    let (_, errors) = check("if 1 then 2 else 3");
    assert!(!errors.is_empty());
}

#[test]
fn infer_type_and_run_inference() {
    let (expr, mut rodeo) = parse_src("let f = |x| x + 1 in f 2");
    assert_eq!(infer_type(&expr, &mut rodeo).unwrap().to_text(), "Int");
    assert!(run_inference(&expr, &mut rodeo).is_ok());
    let (bad, mut rodeo) = parse_src("1 + true");
    assert!(infer_type(&bad, &mut rodeo).is_err());
    assert!(run_inference(&bad, &mut rodeo).is_err());
}

#[test]
fn derivation_tree_text() {
    let (expr, mut rodeo) = parse_src("1");
    let result = typecheck(&expr, &mut rodeo);
    assert_eq!(result.tree.display_tree(50, &rodeo), "T-Int {} ⊢ 1 ⇒ Int\n");
}

#[test]
fn derivation_tree_branches() {
    let (expr, mut rodeo) = parse_src("1 + 2");
    let result = typecheck(&expr, &mut rodeo);
    assert_eq!(
        result.tree.display_tree(50, &rodeo),
        "T-BinOp {} ⊢ 1 + 2 ⇒ Int\n\
         ├── T-Int {} ⊢ 1 ⇒ Int\n\
         ├── T-Int {} ⊢ 2 ⇒ Int\n\
         ├── Unify-Base Int ~ Int {}\n\
         └── Unify-Base Int ~ Int {}\n"
    );
}

#[test]
fn derivation_tree_shortens_long_expressions() {
    let (expr, mut rodeo) = parse_src("let x = 1 in x");
    let result = typecheck(&expr, &mut rodeo);
    let text = result.tree.display_tree(5, &rodeo);
    assert!(text.starts_with("T-Let {} ⊢ let 1 in ... ⇒ Int\n"), "{text}");
    let text = result.tree.display_tree(50, &rodeo);
    assert!(text.starts_with("T-Let {} ⊢ let x = 1 in x ⇒ Int\n"), "{text}");
}

#[test]
fn output_from_type_and_text() {
    assert!(matches!(Output::from(Type::Int), Output::Type(Type::Int)));
    match Output::from(String::from("x")) {
        Output::Str(s) => assert_eq!(s, "x"),
        Output::Type(_) => panic!("a string becomes a string output"),
    }
}

#[test]
fn unify_records_its_derivation() {
    let rodeo = Rodeo::new();
    let mut ti = TypeInference::new(&rodeo);
    let sp = Span { start: 0, end: 1 };
    let (s, tree) = ti.unify(&Type::Int, &Type::Bool, sp);
    assert!(s.types.is_empty());
    assert_eq!(tree.rule, RuleName::TError);
    assert!(matches!(&tree.output, Output::Str(o) if o == "type mismatch"));
    assert!(matches!(&tree.input, Input::Unify { .. }));
    let (_, tree) = ti.unify(&Type::Error, &Type::Bool, sp);
    assert_eq!(tree.rule, RuleName::UnifyBase);
    let errors = ti.take_errors();
    assert_eq!(errors.len(), 1);
}

#[test]
fn derivation_of_an_if_has_its_premises() {
    let (expr, mut rodeo) = parse_src("if true then 1 else 2");
    let tree = run_inference(&expr, &mut rodeo).expect("no type errors");
    assert_eq!(tree.rule, RuleName::TIf);
    assert_eq!(tree.children.len(), 5);
    assert_eq!(tree.children[0].rule, RuleName::TBool);
    assert_eq!(tree.children[1].rule, RuleName::TInt);
    assert_eq!(tree.children[2].rule, RuleName::TInt);
    assert_eq!(tree.children[3].rule, RuleName::UnifyBase);
    assert_eq!(tree.children[4].rule, RuleName::UnifyBase);
}

#[test]
fn pattern_bindings_are_monomorphic() {
    let (toks, errors) = tokenize("(a, 1)");
    assert!(errors.is_empty());
    let mut rodeo = Rodeo::new();
    let (pat, _) = parse_pat(&toks, 0, &mut rodeo).expect("the pattern parses");
    let mut ti = TypeInference::new(&rodeo);
    let (ty, bindings, tree) = ti.infer_pat(&pat);
    assert_eq!(bindings.len(), 1);
    assert_eq!(bindings[0].0.span, Span { start: 1, end: 2 });
    assert!(bindings[0].1.type_vars.is_empty());
    match ty {
        Type::Tuple(ts) => {
            assert_eq!(ts.len(), 2);
            assert!(matches!(ts[1], Type::Int));
        }
        _ => panic!("a tuple pattern has a tuple type"),
    }
    assert_eq!(tree.rule, RuleName::TPatTuple);
    assert_eq!(tree.children.len(), 2);
    assert_eq!(tree.children[0].rule, RuleName::TPatVar);
    assert_eq!(tree.children[1].rule, RuleName::TPatLit);
}

#[test]
fn unify_finds_a_most_general_unifier() {
    let rodeo = Rodeo::new();
    let mut ti = TypeInference::new(&rodeo);
    let sp = Span { start: 0, end: 1 };
    let a = Type::Arrow(Box::new(Type::Var(TypeVar(0))), Box::new(Type::Int));
    let b = Type::Arrow(Box::new(Type::Bool), Box::new(Type::Var(TypeVar(1))));
    let (s, _) = ti.unify(&a, &b, sp);
    assert!(ti.take_errors().is_empty());
    let sa = TypeInference::apply_type(&s, &a);
    let sb = TypeInference::apply_type(&s, &b);
    assert_eq!(sa.to_text(), sb.to_text());
    assert_eq!(sa.to_text(), "(Bool) -> Int");
    assert_eq!(s.types.len(), 2);
}
