use lasso::Rodeo;
use mest::ast::{BinOp, Expr};
use lasso::Key;
use mest::ast::{BindPat, Binding, ExprKind, Ident, Literal, Pat, Span, UnaryOp};
use mest::layout::{walk_expr, AstPrinter, PrintCtx, Visitor};
use mest::lexer::tokenize;
use mest::parser::parser;
use mest::printer::{binop_prec, indent};

fn parse_src(src: &str) -> (Expr, Rodeo) {
    let (tokens, errors) = tokenize(src);
    assert!(errors.is_empty());
    let mut rodeo = Rodeo::new();
    let expr = parser(&tokens, &mut rodeo).expect("the source parses");
    (expr, rodeo)
}

#[test]
fn parse_simple() {
    let (expr, rodeo) = parse_src("1 + 2");
    assert_eq!(AstPrinter::print_expr(&expr, &rodeo), "1 + 2");
}

#[test]
fn print_let_three_ways() {
    let (expr, rodeo) = parse_src("let x = 1 in x");
    assert_eq!(expr.display(&rodeo), "let x = 1\nin\n  x");
    assert_eq!(expr.display_inline(&rodeo), "let x = 1 in x");
    assert_eq!(expr.display_minimized(&rodeo), "let 1 in ...");
}

#[test]
fn print_let_and() {
    let (expr, rodeo) = parse_src("let a = 1 and b = true in b");
    assert_eq!(expr.display(&rodeo), "let a = 1\nand b = true\nin\n  b");
    assert_eq!(expr.display_inline(&rodeo), "let a = 1 and b = true in b");
    assert_eq!(expr.display_minimized(&rodeo), "let 1 and ... in ...");
}

#[test]
fn print_let_rec() {
    let (expr, rodeo) = parse_src("let rec f = |n| n in f 1");
    assert_eq!(expr.display(&rodeo), "let rec f = |n| n\nin\n  f 1");
    assert_eq!(expr.display_inline(&rodeo), "let rec f = |n| n in f 1");
}

#[test]
fn print_nested_let_indents() {
    let (expr, rodeo) = parse_src("let a = let b = 1 in b in a");
    assert_eq!(expr.display(&rodeo), "let a = let b = 1\n  in\n    b\nin\n  a");
}

#[test]
fn print_if() {
    let (expr, rodeo) = parse_src("if true then 1 else 2");
    assert_eq!(expr.display(&rodeo), "if true\nthen\n  1\nelse\n  2");
    assert_eq!(expr.display_inline(&rodeo), "if true then 1 else 2");
    assert_eq!(expr.display_minimized(&rodeo), "if true then 1 else 2");
}

#[test]
fn print_precedence() {
    let (expr, rodeo) = parse_src("(1 + 2) * 3");
    assert_eq!(expr.display(&rodeo), "(1 + 2) * 3");
    assert_eq!(expr.display_inline(&rodeo), "(1 + 2) * 3");
    assert_eq!(expr.display_minimized(&rodeo), "1 + 2 * 3");
    let (expr, rodeo) = parse_src("1 + 2 * 3");
    assert_eq!(expr.display(&rodeo), "1 + 2 * 3");
    let (expr, rodeo) = parse_src("1 - (2 - 3)");
    assert_eq!(expr.display(&rodeo), "1 - 2 - 3");
}

#[test]
fn print_match() {
    let (expr, rodeo) = parse_src("match 1 | 1 => true | _ => false");
    assert_eq!(expr.display(&rodeo), "match 1\n| 1 => true\n| _ => false");
    assert_eq!(expr.display_inline(&rodeo), "match 1 | 1 => true | _ => false");
    assert_eq!(expr.display_minimized(&rodeo), "match 1 | 1 => true | ...");
}

#[test]
fn print_unary_and_application() {
    let (expr, rodeo) = parse_src("!(1 < 2)");
    assert_eq!(expr.display(&rodeo), "!(1 < 2)");
    assert_eq!(expr.display_inline(&rodeo), "!1 < 2");
    let (expr, rodeo) = parse_src("(|x| x) 1");
    assert_eq!(expr.display(&rodeo), "|x| x 1");
    assert_eq!(expr.display_inline(&rodeo), "(|x| x) 1");
    let (expr, rodeo) = parse_src("f (g x)");
    assert_eq!(expr.display(&rodeo), "f g x");
    assert_eq!(expr.display_inline(&rodeo), "f g x");
}

#[test]
fn print_tuples() {
    let (expr, rodeo) = parse_src("let (a, b) = (1, true) in b");
    assert_eq!(expr.display(&rodeo), "let (a, b) = (1, true)\nin\n  b");
    assert_eq!(expr.display_inline(&rodeo), "let (a, b) = (1, true) in b");
}

#[test]
fn print_into_context() {
    let (expr, rodeo) = parse_src("if a then b else c");
    let mut ctx = PrintCtx::new(&rodeo);
    ctx.indent = 2;
    ctx.output.push_str(">> ");
    let mut printer = AstPrinter;
    printer.visit_expr(&expr, &mut ctx);
    assert_eq!(ctx.output, ">> if a\n    then\n      b\n    else\n      c");
    assert_eq!(ctx.indent, 2);
}

#[test]
fn operator_precedence_levels() {
    assert_eq!(binop_prec(&BinOp::Or), 1);
    assert_eq!(binop_prec(&BinOp::And), 2);
    assert_eq!(binop_prec(&BinOp::Le), 3);
    assert_eq!(binop_prec(&BinOp::Sub), 4);
    assert_eq!(binop_prec(&BinOp::Div), 5);
    assert_eq!(binop_prec(&BinOp::Pow), 6);
}

#[test]
fn indentation_is_two_spaces_a_level() {
    assert_eq!(indent(0), "");
    assert_eq!(indent(3), "      ");
}

struct NodeCounter {
    exprs: usize,
    pats: usize,
    bindings: usize,
    bind_pats: usize,
}

impl Visitor<Vec<usize>> for NodeCounter {
    fn after_expr(self, _expr: Expr, mut seen: Vec<usize>) -> (Self, Vec<usize>) {
        let exprs = self.exprs + 1;
        seen.push(exprs);
        (NodeCounter { exprs, ..self }, seen)
    }

    fn after_pat(self, _pat: Pat, seen: Vec<usize>) -> (Self, Vec<usize>) {
        (NodeCounter { pats: self.pats + 1, ..self }, seen)
    }

    fn after_binding(self, _binding: Binding, seen: Vec<usize>) -> (Self, Vec<usize>) {
        (NodeCounter { bindings: self.bindings + 1, ..self }, seen)
    }

    fn after_bind_pat(self, _pat: BindPat, seen: Vec<usize>) -> (Self, Vec<usize>) {
        (NodeCounter { bind_pats: self.bind_pats + 1, ..self }, seen)
    }

    fn visit_expr(&mut self, _expr: &Expr, depth: &mut Vec<usize>) {
        self.exprs += 1;
        depth.push(self.exprs);
    }

    fn visit_pat(&mut self, _pat: &Pat, _ctx: &mut Vec<usize>) {
        self.pats += 1;
    }

    fn visit_binding(&mut self, _binding: &Binding, _ctx: &mut Vec<usize>) {
        self.bindings += 1;
    }

    fn visit_bind_pat(&mut self, _pat: &BindPat, _ctx: &mut Vec<usize>) {
        self.bind_pats += 1;
    }
}

#[test]
fn visitor_walks_every_node_in_order() {
    let (expr, _rodeo) = parse_src("let x = 1 and y = 2 in match (x, y) | (a, b) => a + b");
    let mut counter = NodeCounter { exprs: 0, pats: 0, bindings: 0, bind_pats: 0 };
    let mut seen = Vec::new();
    walk_expr(&mut counter, &expr, &mut seen);
    // let, 1, 2, match, tuple, x, y, a + b, a, b
    assert_eq!(counter.exprs, 10);
    // (a, b), a, b
    assert_eq!(counter.pats, 3);
    assert_eq!(counter.bindings, 2);
    assert_eq!(counter.bind_pats, 2);
    assert_eq!(seen, (1..=10).collect::<Vec<usize>>());
}

#[test]
fn builders_make_the_nodes_they_name() {
    let mut rodeo: Rodeo = Rodeo::new();
    let sp = Span { start: 0, end: 0 };
    let x = Ident { name: rodeo.get_or_intern("x").into_usize(), span: sp };
    let f = Ident { name: rodeo.get_or_intern("f").into_usize(), span: sp };
    let cond = ExprKind::literal(sp, Literal::Bool(true));
    let neg = ExprKind::unaryop(sp, UnaryOp::Neg, ExprKind::ident(sp, x));
    let sum = ExprKind::binop(sp, BinOp::Add, ExprKind::ident(sp, x), ExprKind::literal(sp, Literal::Int(1)));
    let body = ExprKind::if_expr(sp, cond, sum, neg);
    let lam = ExprKind::lambda(sp, x, body);
    let call = ExprKind::app(sp, ExprKind::ident(sp, f), ExprKind::literal(sp, Literal::Int(2)));
    let prog = ExprKind::let_expr(sp, f, lam, call, false);
    assert_eq!(
        prog.display_inline(&rodeo),
        "let f = |x| if true then x + 1 else -x in f 2"
    );
}
