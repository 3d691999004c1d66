//! Unit tests for the public pieces: the type table, the builders, the
//! generators called directly, and the serializer.

use rust_9cc::ast::GenAssembly;
use rust_9cc::binary::assembly_text;
use rust_9cc::{
    get_type, Expr, FuncDef, LabelKind, Op, Operation, RegisterOrNum, Stmt, Type, ValInfo,
};

#[test]
fn get_type_knows_only_int() {
    assert_eq!(get_type("int"), Some(Type::Int));
    assert_eq!(get_type("float"), None);
    assert_eq!(get_type(""), None);
    assert_eq!(get_type("Int"), None);
}

#[test]
fn builders_keep_their_fields() {
    let v = ValInfo::new(16, Type::Ptr(Box::new(Type::Int)));
    assert_eq!(v.offset, 16);
    assert_eq!(v.ty, Type::Ptr(Box::new(Type::Int)));
    let f = FuncDef::new(
        String::from("main"),
        Type::Int,
        vec![(Type::Int, String::from("x"))],
        vec![Stmt::Declare],
        16,
    );
    assert_eq!(f.name, "main");
    assert_eq!(f.res_type, Type::Int);
    assert_eq!(f.args.len(), 1);
    assert_eq!(f.body.len(), 1);
    assert_eq!(f.local_area, 16);
}

#[test]
fn integer_expression_emits_one_push() {
    let mut out: Vec<Operation> = Vec::new();
    let mut counter: usize = 0;
    Expr::Integer(7).to_assembly(&mut out, &mut counter).unwrap();
    assert_eq!(out, vec![Operation::Push(RegisterOrNum::Num(7))]);
}

#[test]
fn variable_load_goes_through_its_slot() {
    let e = Expr::Var { name: String::from("a"), info: ValInfo::new(8, Type::Int) };
    let mut out: Vec<Operation> = Vec::new();
    let mut counter: usize = 0;
    e.to_assembly(&mut out, &mut counter).unwrap();
    assert_eq!(
        out,
        vec![
            Operation::Mov(RegisterOrNum::Rax, RegisterOrNum::Rbp),
            Operation::Sub(RegisterOrNum::Rax, RegisterOrNum::Num(8)),
            Operation::Push(RegisterOrNum::Rax),
            Operation::Pop(RegisterOrNum::Rax),
            Operation::Load(RegisterOrNum::Rax, RegisterOrNum::Rax),
            Operation::Push(RegisterOrNum::Rax),
        ]
    );
}

#[test]
fn while_statement_takes_the_next_label() {
    let s = Stmt::While {
        cond: Expr::Integer(1),
        content: Box::new(Stmt::Calc { content: Expr::Integer(2) }),
    };
    let mut out: Vec<Operation> = Vec::new();
    let mut counter: usize = 4;
    s.to_assembly(&mut out, &mut counter).unwrap();
    assert_eq!(counter, 5);
    assert_eq!(
        out,
        vec![
            Operation::Label(LabelKind::Begin, 5),
            Operation::Push(RegisterOrNum::Num(1)),
            Operation::Pop(RegisterOrNum::Rax),
            Operation::Cmp(RegisterOrNum::Rax, RegisterOrNum::Num(0)),
            Operation::Je(LabelKind::End, 5),
            Operation::Push(RegisterOrNum::Num(2)),
            Operation::Pop(RegisterOrNum::Rax),
            Operation::Jmp(LabelKind::Begin, 5),
            Operation::Label(LabelKind::End, 5),
        ]
    );
}

#[test]
fn assignment_statement_leaves_nothing() {
    let e = Expr::BinOp {
        lhs: Box::new(Expr::Var { name: String::from("a"), info: ValInfo::new(8, Type::Int) }),
        op: Op::Assign,
        rhs: Box::new(Expr::Integer(3)),
    };
    let s = Stmt::Calc { content: e };
    let mut out: Vec<Operation> = Vec::new();
    let mut counter: usize = 0;
    s.to_assembly(&mut out, &mut counter).unwrap();
    let pushes = out.iter().filter(|o| matches!(o, Operation::Push(_))).count();
    let pops = out.iter().filter(|o| matches!(o, Operation::Pop(_))).count();
    assert_eq!(pushes, pops);
}

#[test]
fn non_lvalue_assignment_reports_and_emits_nothing() {
    let e = Expr::BinOp {
        lhs: Box::new(Expr::Integer(1)),
        op: Op::Assign,
        rhs: Box::new(Expr::Integer(2)),
    };
    let mut out: Vec<Operation> = Vec::new();
    let mut counter: usize = 0;
    let r = e.to_assembly(&mut out, &mut counter);
    assert_eq!(r, Err(rust_9cc::CodegenError::NotLvalue));
    assert!(out.is_empty());
    assert_eq!(counter, 0);
}

#[test]
fn gen_lval_pushes_the_address() {
    let e = Expr::Var { name: String::from("a"), info: ValInfo::new(16, Type::Int) };
    let mut out: Vec<Operation> = Vec::new();
    let mut counter: usize = 0;
    e.gen_lval(&mut out, &mut counter).unwrap();
    assert_eq!(
        out,
        vec![
            Operation::Mov(RegisterOrNum::Rax, RegisterOrNum::Rbp),
            Operation::Sub(RegisterOrNum::Rax, RegisterOrNum::Num(16)),
            Operation::Push(RegisterOrNum::Rax),
        ]
    );
    let mut out2: Vec<Operation> = Vec::new();
    let r = Expr::Integer(1).gen_lval(&mut out2, &mut counter);
    assert_eq!(r, Err(rust_9cc::CodegenError::NotLvalue));
    assert!(out2.is_empty());
}

#[test]
fn oversized_offset_reports_and_emits_nothing() {
    let e = Expr::Var {
        name: String::from("a"),
        info: ValInfo::new(3_000_000_000, Type::Int),
    };
    let mut out: Vec<Operation> = Vec::new();
    let mut counter: usize = 0;
    let r = e.to_assembly(&mut out, &mut counter);
    assert_eq!(r, Err(rust_9cc::CodegenError::OffsetTooLarge));
    assert!(out.is_empty());
}

#[test]
fn oversized_local_area_reports_at_the_function() {
    let f = FuncDef::new(
        String::from("main"),
        Type::Int,
        vec![],
        vec![],
        3_000_000_000,
    );
    let mut out: Vec<Operation> = Vec::new();
    let mut counter: usize = 0;
    let r = f.to_assembly(&mut out, &mut counter);
    assert_eq!(r, Err(rust_9cc::CodegenError::OffsetTooLarge));
    assert!(out.is_empty());
}

#[test]
fn parse_errors_carry_the_offending_position() {
    let err = rust_9cc::source_to_ast("int main(){ return nope; }").unwrap_err();
    assert_eq!(err.kind, rust_9cc::ParseErrorKind::Undeclared);
    // `nope` starts at byte 19
    assert_eq!(err.pos, 19);
}

#[test]
fn serializer_prints_the_header_and_lines() {
    let out = assembly_text(&vec![Operation::Ret]);
    assert_eq!(out, ".intel_syntax noprefix\n.globl main\n  ret\n\n");
}

#[test]
fn serializer_prints_negative_immediates() {
    let out = assembly_text(&vec![Operation::Push(RegisterOrNum::Num(-12))]);
    assert_eq!(out, ".intel_syntax noprefix\n.globl main\n  push -12\n\n");
    let out = assembly_text(&vec![Operation::Push(RegisterOrNum::Num(-2147483648))]);
    assert_eq!(out, ".intel_syntax noprefix\n.globl main\n  push -2147483648\n\n");
    let out = assembly_text(&vec![Operation::Push(RegisterOrNum::Num(0))]);
    assert_eq!(out, ".intel_syntax noprefix\n.globl main\n  push 0\n\n");
}

#[test]
fn serializer_prints_labels_and_jumps() {
    let ops = vec![
        Operation::Label(LabelKind::Begin, 10),
        Operation::Je(LabelKind::End, 10),
        Operation::Jmp(LabelKind::Begin, 10),
        Operation::Label(LabelKind::End, 10),
        Operation::Func(String::from("main")),
        Operation::Call(String::from("helper")),
        Operation::Store(RegisterOrNum::Rax, RegisterOrNum::Rdi),
        Operation::Load(RegisterOrNum::Rax, RegisterOrNum::Rax),
    ];
    let out = assembly_text(&ops);
    let expected = "\
.intel_syntax noprefix
.globl main
.Lbegin10:
  je .Lend10
  jmp .Lbegin10
.Lend10:
main:
  call helper
  mov [rax], rdi
  mov rax, [rax]

";
    assert_eq!(out, expected);
}
