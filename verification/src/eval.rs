//! What evaluation reports when it fails, and the arithmetic and comparison
//! of integers that evaluation performs.
use vstd::prelude::*;
use vstd::arithmetic::power::pow;
use crate::ast::BinOp;

verus! {

/// Why evaluating an expression failed.
#[derive(Debug, Clone)]
pub enum EvalError {
    UnboundVariable(String),
    TypeMismatch { expected: &'static str, got: &'static str },
    DivisionByZero,
    NotAFunction,
    NonExhaustiveMatch,
}

/// The message of an evaluation error.
pub open spec fn eval_error_text(e: EvalError) -> Seq<char> {
    match e {
        EvalError::NonExhaustiveMatch => "non-exhaustive match"@,
        EvalError::UnboundVariable(name) => "unbound variable `"@ + name@ + "`"@,
        EvalError::TypeMismatch { expected, got } => "type mismatch: expected "@ + expected@ + ", got "@ + got@,
        EvalError::DivisionByZero => "division by zero"@,
        EvalError::NotAFunction => "applied a non-function value"@,
    }
}

impl EvalError {
    /// The message of this error.
    pub fn to_text(&self) -> (s: String)
        ensures
            s@ == eval_error_text(*self),
    {
        match self {
            EvalError::NonExhaustiveMatch => String::from_str("non-exhaustive match"),
            EvalError::UnboundVariable(name) => {
                let mut s = String::from_str("unbound variable `");
                s.append(name.as_str());
                s.append("`");
                s
            },
            EvalError::TypeMismatch { expected, got } => {
                let mut s = String::from_str("type mismatch: expected ");
                s.append(expected);
                s.append(", got ");
                s.append(got);
                s
            },
            EvalError::DivisionByZero => String::from_str("division by zero"),
            EvalError::NotAFunction => String::from_str("applied a non-function value"),
        }
    }
}

/// An integer or a boolean: what an operation on two integers gives.
#[derive(Debug, Clone, Copy, PartialEq, Eq)]
pub enum Scalar {
    Int(i64),
    Bool(bool),
}

/// Whether an operator is arithmetic or an ordering, the operators that
/// apply to two integers on their own.
pub open spec fn is_int_op(op: BinOp) -> bool {
    !(op is Eq || op is NotEq || op is And || op is Or)
}

/// Division that rounds toward zero.
pub open spec fn div_toward_zero(a: int, b: int) -> int {
    let q: int = vstd::math::abs(a) as int / vstd::math::abs(b) as int;
    if (a < 0) != (b < 0) { -q } else { q }
}

/// The exponent of `x ^ y`: the low 32 bits of `y`, read as unsigned.
pub open spec fn exponent(y: i64) -> nat {
    (y as u32) as nat
}

/// The exact result of an arithmetic operator on two integers.
pub open spec fn int_arith(op: BinOp, x: int, y: i64) -> int {
    match op {
        BinOp::Add => x + y,
        BinOp::Sub => x - y,
        BinOp::Mul => x * y,
        BinOp::Div => div_toward_zero(x, y as int),
        _ => pow(x, exponent(y)),
    }
}

/// What an arithmetic or ordering operator gives on two integers: an
/// ordering a boolean, division by zero an error, the rest an integer.
pub open spec fn int_binop_spec(op: BinOp, x: i64, y: i64) -> Result<Scalar, EvalError> {
    match op {
        BinOp::Lt => Ok(Scalar::Bool(x < y)),
        BinOp::Gt => Ok(Scalar::Bool(x > y)),
        BinOp::Le => Ok(Scalar::Bool(x <= y)),
        BinOp::Ge => Ok(Scalar::Bool(x >= y)),
        BinOp::Div => if y == 0 {
            Err(EvalError::DivisionByZero)
        } else {
            Ok(Scalar::Int(int_arith(op, x as int, y) as i64))
        },
        _ => Ok(Scalar::Int(int_arith(op, x as int, y) as i64)),
    }
}

/// The result of an arithmetic operator fits in an `i64` (an ordering
/// always does, and division by zero gives no integer).
pub open spec fn int_binop_fits(op: BinOp, x: i64, y: i64) -> bool {
    match op {
        BinOp::Lt | BinOp::Gt | BinOp::Le | BinOp::Ge => true,
        BinOp::Div => y == 0 || i64::MIN <= int_arith(op, x as int, y) <= i64::MAX,
        _ => i64::MIN <= int_arith(op, x as int, y) <= i64::MAX,
    }
}

proof fn lemma_pow_abs_grows(b: int, k: nat, e: nat)
    requires
        b != 0,
        k <= e,
    ensures
        vstd::math::abs(pow(b, k)) <= vstd::math::abs(pow(b, e)),
    decreases e,
{
    reveal(pow);
    if k < e {
        lemma_pow_abs_grows(b, k, (e - 1) as nat);
        let p = pow(b, (e - 1) as nat);
        assert(pow(b, e) == b * p);
        assert(vstd::math::abs(b * p) >= vstd::math::abs(p)) by (nonlinear_arith)
            requires
                b != 0,
        ;
    }
}

/// `x` to the power `e`, where the result fits.
fn checked_pow(x: i64, e: u32) -> (r: i64)
    requires
        i64::MIN <= pow(x as int, e as nat) <= i64::MAX,
    ensures
        r == pow(x as int, e as nat),
{
    proof {
        reveal(pow);
    }
    let mut acc: i128 = 1;
    let mut i: u32 = 0;
    while i < e
        invariant
            i <= e,
            acc == pow(x as int, i as nat),
            i64::MIN <= pow(x as int, e as nat) <= i64::MAX,
        decreases e - i,
    {
        proof {
            reveal(pow);
            let p = pow(x as int, i as nat);
            if x != 0 {
                lemma_pow_abs_grows(x as int, i as nat, e as nat);
            } else if i > 0 {
                assert(p == x * pow(x as int, (i - 1) as nat));
            }
            assert(-0x8000_0000_0000_0000 <= p <= 0x8000_0000_0000_0000);
            assert(-0x8000_0000_0000_0000 <= x <= 0x8000_0000_0000_0000);
            assert(-0x4000_0000_0000_0000_0000_0000_0000_0000 <= p * x <= 0x4000_0000_0000_0000_0000_0000_0000_0000) by (nonlinear_arith)
                requires
                    -0x8000_0000_0000_0000 <= p <= 0x8000_0000_0000_0000,
                    -0x8000_0000_0000_0000 <= x <= 0x8000_0000_0000_0000,
            ;
            assert(pow(x as int, (i + 1) as nat) == x * p);
            assert(x * p == p * x) by (nonlinear_arith);
        }
        acc = acc * (x as i128);
        i = i + 1;
    }
    acc as i64
}

/// The magnitude of an integer.
fn magnitude(x: i64) -> (m: u64)
    ensures
        m == vstd::math::abs(x as int),
{
    if x < 0 {
        ((-(x + 1)) as u64) + 1
    } else {
        x as u64
    }
}

/// Applies an arithmetic or ordering operator to two integers (see
/// `int_binop_spec`); the result of arithmetic must fit in an `i64`.
pub fn eval_int_binop(op: &BinOp, lhs: i64, rhs: i64) -> (r: Result<Scalar, EvalError>)
    requires
        is_int_op(*op),
        int_binop_fits(*op, lhs, rhs),
    ensures
        r == int_binop_spec(*op, lhs, rhs),
{
    match op {
        BinOp::Lt => Ok(Scalar::Bool(lhs < rhs)),
        BinOp::Gt => Ok(Scalar::Bool(lhs > rhs)),
        BinOp::Le => Ok(Scalar::Bool(lhs <= rhs)),
        BinOp::Ge => Ok(Scalar::Bool(lhs >= rhs)),
        BinOp::Add => Ok(Scalar::Int(lhs + rhs)),
        BinOp::Sub => Ok(Scalar::Int(lhs - rhs)),
        BinOp::Mul => Ok(Scalar::Int(lhs * rhs)),
        BinOp::Div => {
            if rhs == 0 {
                return Err(EvalError::DivisionByZero);
            }
            let q = magnitude(lhs) / magnitude(rhs);
            let negative = (lhs < 0) != (rhs < 0);
            assert(q == div_toward_zero(lhs as int, rhs as int) || -q == div_toward_zero(lhs as int, rhs as int));
            let v: i64 = if negative {
                if q == 0 {
                    0
                } else {
                    -(((q - 1) as i64)) - 1
                }
            } else {
                q as i64
            };
            Ok(Scalar::Int(v))
        },
        _ => Ok(Scalar::Int(checked_pow(lhs, rhs as u32))),
    }
}

} // verus!
