//! How the parser groups operands between binary operators: a table of
//! precedence and associativity, and the laws that tie the parser to it.
use vstd::prelude::*;
use crate::ast::BinOp;
use crate::grammar::{
    infix, literal_of, mk, p_args, p_atom, p_call, p_expr, p_infix, p_pratt, p_program, p_unary, run_end,
    span, starts_atom, wrap_unary, Parsed, SExpr, SExprKind, Toks,
};
use crate::token::Token;

verus! {

/// The binary operator that a token spells, if it spells one.
pub open spec fn operator_of(t: Token) -> Option<BinOp> {
    match t {
        Token::Caret => Some(BinOp::Pow),
        Token::Star => Some(BinOp::Mul),
        Token::Slash => Some(BinOp::Div),
        Token::Plus => Some(BinOp::Add),
        Token::Minus => Some(BinOp::Sub),
        Token::EqEq => Some(BinOp::Eq),
        Token::BangEq => Some(BinOp::NotEq),
        Token::Lt => Some(BinOp::Lt),
        Token::Gt => Some(BinOp::Gt),
        Token::LtEq => Some(BinOp::Le),
        Token::GtEq => Some(BinOp::Ge),
        Token::AndAnd => Some(BinOp::And),
        Token::PipePipe => Some(BinOp::Or),
        _ => None,
    }
}

/// How tightly an operator binds: `^` most, then `*` and `/`, then `+` and
/// `-`, then the comparisons, then `&&` and `||`.
pub open spec fn precedence(op: BinOp) -> int {
    match op {
        BinOp::Pow => 4,
        BinOp::Mul | BinOp::Div => 3,
        BinOp::Add | BinOp::Sub => 2,
        BinOp::Eq | BinOp::NotEq | BinOp::Lt | BinOp::Gt | BinOp::Le | BinOp::Ge => 1,
        BinOp::And | BinOp::Or => 0,
    }
}

/// Whether a chain of the operator groups to the right: `^` alone; every
/// other operator groups to the left.
pub open spec fn right_associative(op: BinOp) -> bool {
    op is Pow
}

/// Whether, in `a op1 b op2 c`, the first operator takes `b` as its right
/// operand, so that the whole reads `(a op1 b) op2 c`.
pub open spec fn first_takes_middle(op1: BinOp, op2: BinOp) -> bool {
    precedence(op1) > precedence(op2) || (precedence(op1) == precedence(op2) && !right_associative(op1))
}

/// An operator's binding powers follow the table: the operator is the one
/// the token spells; a left-associative operator binds less tightly on its
/// left than on its right (and a right-associative one the other way); and
/// after `op1`, a following `op2` stops `op1`'s right operand exactly when
/// `op1` takes the middle operand.
pub proof fn lemma_binding_powers(toks: Toks, i: nat, j: nat)
    requires
        infix(toks, i) is Some,
        infix(toks, j) is Some,
    ensures
        i < toks.len(),
        j < toks.len(),
        operator_of(toks[i as int].0) == Some((infix(toks, i)->0).0),
        (infix(toks, i)->0).1 < (infix(toks, i)->0).2 <==> !right_associative((infix(toks, i)->0).0),
        (infix(toks, j)->0).1 < (infix(toks, i)->0).2 <==> first_takes_middle((infix(toks, i)->0).0, (infix(toks, j)->0).0),
{
}

/// The literal operand at token `k`.
pub open spec fn literal_operand(toks: Toks, k: nat) -> SExpr {
    mk(SExprKind::Literal(literal_of(toks[k as int].0)->0), span(toks, k, k + 1))
}

/// A literal followed by an operator (or by the end) is an operand on its
/// own.
proof fn lemma_literal_operand(toks: Toks, k: nat, min_power: u32, names: Seq<Seq<char>>)
    requires
        k < toks.len(),
        literal_of(toks[k as int].0) is Some,
        k + 1 == toks.len() || operator_of(toks[k + 1 as int].0) is Some,
    ensures
        p_pratt(toks, k, min_power, names) == p_infix(toks, k, min_power, k + 1, literal_operand(toks, k), names),
{
    let e = literal_operand(toks, k);
    assert(run_end(toks, k, Token::Bang) == k);
    assert(run_end(toks, k, Token::Minus) == k);
    assert(p_atom(toks, k, names) == Parsed::Done(e, k + 1, names));
    assert(!starts_atom(toks, k + 1));
    assert(p_args(toks, k, k + 1, e, names) == Parsed::Done(e, k + 1, names));
    assert(p_call(toks, k, names) == Parsed::Done(e, k + 1, names));
    assert(wrap_unary(toks, crate::ast::UnaryOp::Neg, k, k, e, k + 1) == e);
    assert(wrap_unary(toks, crate::ast::UnaryOp::Not, k, k, e, k + 1) == e);
    assert(p_unary(toks, k, names) == Parsed::Done(e, k + 1, names));
}

/// Three literals joined by two binary operators are grouped by the table:
/// `a op1 b op2 c` reads `(a op1 b) op2 c` when `op1` takes the middle
/// operand, and `a op1 (b op2 c)` otherwise; so `10 - 3 - 2` is
/// `(10 - 3) - 2` and `2 ^ 3 ^ 2` is `2 ^ (3 ^ 2)`.
pub proof fn lemma_two_operators(toks: Toks, names: Seq<Seq<char>>)
    requires
        toks.len() == 5,
        literal_of(toks[0].0) is Some,
        literal_of(toks[2].0) is Some,
        literal_of(toks[4].0) is Some,
        operator_of(toks[1].0) is Some,
        operator_of(toks[3].0) is Some,
    ensures
        ({
            let op1 = operator_of(toks[1].0)->0;
            let op2 = operator_of(toks[3].0)->0;
            let a = literal_operand(toks, 0);
            let b = literal_operand(toks, 2);
            let c = literal_operand(toks, 4);
            p_program(toks, names) == Parsed::Done(
                if first_takes_middle(op1, op2) {
                    mk(SExprKind::BinOp { op: op2, lhs: mk(SExprKind::BinOp { op: op1, lhs: a, rhs: b }, span(toks, 0, 3)), rhs: c }, span(toks, 0, 5))
                } else {
                    mk(SExprKind::BinOp { op: op1, lhs: a, rhs: mk(SExprKind::BinOp { op: op2, lhs: b, rhs: c }, span(toks, 2, 5)) }, span(toks, 0, 5))
                },
                5,
                names,
            )
        }),
{
    let op1 = operator_of(toks[1].0)->0;
    let op2 = operator_of(toks[3].0)->0;
    let a = literal_operand(toks, 0);
    let b = literal_operand(toks, 2);
    let c = literal_operand(toks, 4);
    let (o1, l1, r1) = infix(toks, 1)->0;
    let (o2, l2, r2) = infix(toks, 3)->0;
    assert(infix(toks, 1) is Some && infix(toks, 3) is Some);
    lemma_binding_powers(toks, 1, 3);
    lemma_binding_powers(toks, 3, 3);
    assert(infix(toks, 5) is None);
    lemma_literal_operand(toks, 0, 0, names);
    lemma_literal_operand(toks, 2, r1, names);
    lemma_literal_operand(toks, 4, r2, names);
    assert(p_infix(toks, 4, r2, 5, c, names) == Parsed::Done(c, 5, names));
    assert(p_pratt(toks, 4, r2, names) == Parsed::Done(c, 5, names));
    assert(p_expr(toks, 0, names) == p_pratt(toks, 0, 0, names));
    if first_takes_middle(op1, op2) {
        assert(l2 < r1);
        assert(p_infix(toks, 2, r1, 3, b, names) == Parsed::Done(b, 3, names));
        let ab = mk(SExprKind::BinOp { op: op1, lhs: a, rhs: b }, span(toks, 0, 3));
        let abc = mk(SExprKind::BinOp { op: op2, lhs: ab, rhs: c }, span(toks, 0, 5));
        assert(p_infix(toks, 0, 0, 5, abc, names) == Parsed::Done(abc, 5, names));
        assert(p_infix(toks, 0, 0, 3, ab, names) == Parsed::Done(abc, 5, names));
        assert(p_infix(toks, 0, 0, 1, a, names) == Parsed::Done(abc, 5, names));
    } else {
        assert(l2 >= r1);
        let bc = mk(SExprKind::BinOp { op: op2, lhs: b, rhs: c }, span(toks, 2, 5));
        assert(p_infix(toks, 2, r1, 5, bc, names) == Parsed::Done(bc, 5, names));
        assert(p_infix(toks, 2, r1, 3, b, names) == Parsed::Done(bc, 5, names));
        let abc = mk(SExprKind::BinOp { op: op1, lhs: a, rhs: bc }, span(toks, 0, 5));
        assert(p_infix(toks, 0, 0, 5, abc, names) == Parsed::Done(abc, 5, names));
        assert(p_infix(toks, 0, 0, 1, a, names) == Parsed::Done(abc, 5, names));
    }
}

} // verus!
