use mest::ast::BinOp;
use mest::eval::{eval_int_binop, EvalError, Scalar};

#[test]
fn integer_arithmetic() {
    assert!(matches!(eval_int_binop(&BinOp::Add, 2, 3), Ok(Scalar::Int(5))));
    assert!(matches!(eval_int_binop(&BinOp::Sub, 2, 3), Ok(Scalar::Int(-1))));
    assert!(matches!(eval_int_binop(&BinOp::Mul, -4, 3), Ok(Scalar::Int(-12))));
    assert!(matches!(eval_int_binop(&BinOp::Pow, 2, 10), Ok(Scalar::Int(1024))));
    assert!(matches!(eval_int_binop(&BinOp::Pow, -3, 3), Ok(Scalar::Int(-27))));
    assert!(matches!(eval_int_binop(&BinOp::Pow, 7, 0), Ok(Scalar::Int(1))));
}

#[test]
fn division_rounds_toward_zero() {
    assert!(matches!(eval_int_binop(&BinOp::Div, 7, 2), Ok(Scalar::Int(3))));
    assert!(matches!(eval_int_binop(&BinOp::Div, -7, 2), Ok(Scalar::Int(-3))));
    assert!(matches!(eval_int_binop(&BinOp::Div, 7, -2), Ok(Scalar::Int(-3))));
    assert!(matches!(eval_int_binop(&BinOp::Div, -7, -2), Ok(Scalar::Int(3))));
    assert!(matches!(eval_int_binop(&BinOp::Div, i64::MIN, 1), Ok(Scalar::Int(i64::MIN))));
}

#[test]
fn division_by_zero() {
    assert!(matches!(eval_int_binop(&BinOp::Div, 1, 0), Err(EvalError::DivisionByZero)));
}

#[test]
fn integer_comparisons() {
    assert!(matches!(eval_int_binop(&BinOp::Lt, 1, 2), Ok(Scalar::Bool(true))));
    assert!(matches!(eval_int_binop(&BinOp::Gt, 1, 2), Ok(Scalar::Bool(false))));
    assert!(matches!(eval_int_binop(&BinOp::Le, 2, 2), Ok(Scalar::Bool(true))));
    assert!(matches!(eval_int_binop(&BinOp::Ge, 1, 2), Ok(Scalar::Bool(false))));
}

#[test]
fn evaluation_error_messages() {
    assert_eq!(EvalError::NonExhaustiveMatch.to_text(), "non-exhaustive match");
    assert_eq!(EvalError::UnboundVariable("x".to_string()).to_text(), "unbound variable `x`");
    assert_eq!(
        EvalError::TypeMismatch { expected: "bool", got: "int" }.to_text(),
        "type mismatch: expected bool, got int"
    );
    assert_eq!(EvalError::DivisionByZero.to_text(), "division by zero");
    assert_eq!(EvalError::NotAFunction.to_text(), "applied a non-function value");
}
