//! Concrete instances of the compiler's quantified properties.

use rust_9cc::ast::GenAssembly;
use rust_9cc::{compile_source, CompileError, Expr, Op, Operation};

/// The net stack movement of a straight-line instruction sequence: pushes
/// up, pops down, a call balanced by its callee.
fn stack_delta(ops: &[Operation]) -> i64 {
    let mut d: i64 = 0;
    for op in ops {
        match op {
            Operation::Push(_) => d += 1,
            Operation::Pop(_) => d -= 1,
            _ => {}
        }
    }
    d
}

#[test]
fn expression_code_pushes_exactly_one_value() {
    // (1 + 2) * 3 - 4 / 2, built by hand
    let e = Expr::BinOp {
        lhs: Box::new(Expr::BinOp {
            lhs: Box::new(Expr::BinOp {
                lhs: Box::new(Expr::Integer(1)),
                op: Op::Add,
                rhs: Box::new(Expr::Integer(2)),
            }),
            op: Op::Mul,
            rhs: Box::new(Expr::Integer(3)),
        }),
        op: Op::Sub,
        rhs: Box::new(Expr::BinOp {
            lhs: Box::new(Expr::Integer(4)),
            op: Op::Div,
            rhs: Box::new(Expr::Integer(2)),
        }),
    };
    let mut out: Vec<Operation> = Vec::new();
    let mut counter: usize = 0;
    e.to_assembly(&mut out, &mut counter).unwrap();
    assert_eq!(stack_delta(&out), 1);
    assert_eq!(counter, 0);
}

#[test]
fn statement_code_is_stack_neutral() {
    // take a statement out of a parsed function and generate its code in
    // isolation: pushes and pops balance exactly
    let fs = rust_9cc::source_to_ast(
        "int main(){ int s; s=0; if (s) s=1; else { s=2; while (s) s=s-1; } }",
    )
    .unwrap();
    for stmt in &fs[0].body {
        let mut out: Vec<Operation> = Vec::new();
        let mut counter: usize = 0;
        stmt.to_assembly(&mut out, &mut counter).unwrap();
        assert_eq!(stack_delta(&out), 0);
    }
}

#[test]
fn labels_are_unique_across_the_file() {
    let out = compile_source(
        "int f(){ if (1) { if (0) return 1; else return 2; } else return 3; return 4; } \
         int main(){ while (0) f(); if (1) return f(); else return 0; }",
    )
    .unwrap();
    let mut labels: Vec<&str> = out
        .lines()
        .filter(|l| l.starts_with(".L") && l.ends_with(':'))
        .collect();
    let total = labels.len();
    labels.sort();
    labels.dedup();
    assert_eq!(labels.len(), total);
}

#[test]
fn nested_if_else_labels_do_not_collide() {
    let out = compile_source(
        "int main(){ if (1) if (2) return 1; else return 2; else return 3; }",
    )
    .unwrap();
    // the outer construct takes label 1, the inner label 2
    assert!(out.contains(".Lelse1:\n"));
    assert!(out.contains(".Lend1:\n"));
    assert!(out.contains(".Lelse2:\n"));
    assert!(out.contains(".Lend2:\n"));
}

#[test]
fn literal_bounds() {
    let out = compile_source("int main(){ return 2147483647; }").unwrap();
    assert!(out.contains("  push 2147483647\n"));
    let out = compile_source("int main(){ return -2147483647; }").unwrap();
    // unary minus lowers to 0 - e
    assert!(out.contains("  push 0\n  push 2147483647\n  pop rdi\n  pop rax\n  sub rax, rdi\n"));
    let err = compile_source("int main(){ return 2147483648; }").unwrap_err();
    assert!(matches!(
        err,
        CompileError::Parse(rust_9cc::ParseError {
            kind: rust_9cc::ParseErrorKind::NumberTooLarge,
            ..
        })
    ));
}

#[test]
fn comparisons_lower_to_set_and_zero_extend() {
    let out = compile_source("int main(){ return 1<2; }").unwrap();
    assert!(out.contains("  cmp rax, rdi\n  setl al\n  movzb rax, al\n"));
    let out = compile_source("int main(){ return 1>2; }").unwrap();
    // greater-than swaps the comparison operands
    assert!(out.contains("  cmp rdi, rax\n  setl al\n  movzb rax, al\n"));
    let out = compile_source("int main(){ return 1==2; }").unwrap();
    assert!(out.contains("  sete al\n"));
    let out = compile_source("int main(){ return 1!=2; }").unwrap();
    assert!(out.contains("  setne al\n"));
    let out = compile_source("int main(){ return 1<=2; }").unwrap();
    assert!(out.contains("  cmp rax, rdi\n  setle al\n"));
    let out = compile_source("int main(){ return 1>=2; }").unwrap();
    assert!(out.contains("  cmp rdi, rax\n  setle al\n"));
}

#[test]
fn division_sign_extends() {
    let out = compile_source("int main(){ return 7/2; }").unwrap();
    assert!(out.contains("  cqo\n  idiv rdi\n"));
}

#[test]
fn empty_frame_still_aligned() {
    // zero parameters and zero locals: the prologue reserves zero bytes,
    // a multiple of 16
    let out = compile_source("int main(){ return 0; }").unwrap();
    assert!(out.contains("  sub rsp, 0\n"));
}

#[test]
fn odd_local_count_rounds_up() {
    let one = compile_source("int main(){ int a; return 0; }").unwrap();
    assert!(one.contains("  sub rsp, 16\n"));
    let two = compile_source("int main(){ int a; int b; return 0; }").unwrap();
    assert!(two.contains("  sub rsp, 16\n"));
    let three = compile_source("int main(){ int a; int b; int c; return 0; }").unwrap();
    assert!(three.contains("  sub rsp, 32\n"));
    // parameters occupy slots too
    let param_and_locals =
        compile_source("int f(int a){ int b; int c; return 0; } int main(){ return 0; }")
            .unwrap();
    assert!(param_and_locals.contains("  sub rsp, 32\n"));
}

#[test]
fn bare_for_is_an_infinite_loop() {
    let out = compile_source("int main(){ for(;;){} return 0; }").unwrap();
    assert!(out.contains(".Lbegin1:\n  jmp .Lbegin1\n.Lend1:\n"));
}

#[test]
fn declarations_inside_loops_allocate_slots() {
    let out = compile_source("int main(){ int i; for(i=0;i<3;i=i+1) { int j; j=i; } return 0; }")
        .unwrap();
    // two slots: i and j
    assert!(out.contains("  sub rsp, 16\n"));
}
