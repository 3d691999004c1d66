//! Parser behavior: accepted shapes, rejected shapes, and the error each
//! rejection reports.

use rust_9cc::{
    compile_source, source_to_ast, CodegenError, CompileError, Expr, ParseErrorKind, Stmt,
};

#[test]
fn parses_a_simple_function() {
    let fs = source_to_ast("int main(){ return 42; }").unwrap();
    assert_eq!(fs.len(), 1);
    assert_eq!(fs[0].name, "main");
    assert_eq!(fs[0].args.len(), 0);
    assert_eq!(fs[0].local_area, 0);
    assert_eq!(fs[0].body.len(), 1);
    match &fs[0].body[0] {
        Stmt::Return { expr } => match expr {
            Expr::Integer(n) => assert_eq!(*n, 42),
            _ => panic!("expected an integer literal"),
        },
        _ => panic!("expected a return statement"),
    }
}

#[test]
fn variable_offsets_follow_declaration_order() {
    let fs = source_to_ast("int f(int a, int b){ int c; return c; }").unwrap();
    assert_eq!(fs[0].args.len(), 2);
    assert_eq!(fs[0].local_area, 32);
    match &fs[0].body[1] {
        Stmt::Return { expr } => match expr {
            Expr::Var { name, info } => {
                assert_eq!(name, "c");
                // a -> 8, b -> 16, c -> 24
                assert_eq!(info.offset, 24);
            },
            _ => panic!("expected a variable"),
        },
        _ => panic!("expected a return statement"),
    }
}

#[test]
fn undeclared_identifier_is_an_error() {
    let err = compile_source("int main(){ return x; }").unwrap_err();
    match err {
        CompileError::Parse(p) => assert_eq!(p.kind, ParseErrorKind::Undeclared),
        _ => panic!("expected a parse error"),
    }
}

#[test]
fn unknown_type_name_is_an_error() {
    let err = compile_source("long main(){ return 0; }").unwrap_err();
    match err {
        CompileError::Parse(p) => assert_eq!(p.kind, ParseErrorKind::UnknownType),
        _ => panic!("expected a parse error"),
    }
}

#[test]
fn missing_semicolon_is_a_syntax_error() {
    let err = compile_source("int main(){ return 0 }").unwrap_err();
    match err {
        CompileError::Parse(p) => assert_eq!(p.kind, ParseErrorKind::Syntax),
        _ => panic!("expected a parse error"),
    }
}

#[test]
fn redeclaration_is_an_error() {
    let err = compile_source("int main(){ int a; int a; return 0; }").unwrap_err();
    match err {
        CompileError::Parse(p) => assert_eq!(p.kind, ParseErrorKind::Redeclared),
        _ => panic!("expected a parse error"),
    }
}

#[test]
fn non_ascii_source_is_a_syntax_error() {
    let err = compile_source("int main(){ return à; }").unwrap_err();
    match err {
        CompileError::Parse(p) => assert_eq!(p.kind, ParseErrorKind::Syntax),
        _ => panic!("expected a parse error"),
    }
}

#[test]
fn non_lvalue_assignment_fails_at_codegen() {
    let err = compile_source("int main(){ 1 = 2; return 0; }").unwrap_err();
    assert_eq!(err, CompileError::Codegen(CodegenError::NotLvalue));
}

#[test]
fn seven_arguments_fail_at_codegen() {
    let err = compile_source(
        "int main(){ return f(1,2,3,4,5,6,7); }",
    )
    .unwrap_err();
    assert_eq!(err, CompileError::Codegen(CodegenError::TooManyArgs));
    let err = compile_source(
        "int g(int a,int b,int c,int d,int e,int f,int h){ return 0; } int main(){ return 0; }",
    )
    .unwrap_err();
    assert_eq!(err, CompileError::Codegen(CodegenError::TooManyArgs));
}

#[test]
fn assignment_is_right_associative() {
    let fs = source_to_ast("int main(){ int a; int b; a = b = 1; return a; }").unwrap();
    match &fs[0].body[2] {
        Stmt::Calc { content } => match content {
            Expr::BinOp { lhs, op, rhs } => {
                assert_eq!(*op, rust_9cc::Op::Assign);
                assert!(matches!(**lhs, Expr::Var { .. }));
                assert!(matches!(**rhs, Expr::BinOp { op: rust_9cc::Op::Assign, .. }));
            },
            _ => panic!("expected an assignment"),
        },
        _ => panic!("expected an expression statement"),
    }
}

#[test]
fn subtraction_is_left_associative() {
    let fs = source_to_ast("int main(){ return 10-3-2; }").unwrap();
    match &fs[0].body[0] {
        Stmt::Return { expr } => match expr {
            Expr::BinOp { lhs, op, rhs } => {
                assert_eq!(*op, rust_9cc::Op::Sub);
                assert!(matches!(**rhs, Expr::Integer(2)));
                assert!(matches!(**lhs, Expr::BinOp { op: rust_9cc::Op::Sub, .. }));
            },
            _ => panic!("expected a subtraction"),
        },
        _ => panic!("expected a return statement"),
    }
}

#[test]
fn address_and_deref_build_their_nodes() {
    let fs = source_to_ast("int main(){ int x; int *p; p = &x; return *p; }").unwrap();
    match &fs[0].body[2] {
        Stmt::Calc { content } => match content {
            Expr::BinOp { rhs, .. } => assert!(matches!(**rhs, Expr::Addr(_))),
            _ => panic!("expected an assignment"),
        },
        _ => panic!("expected an expression statement"),
    }
    match &fs[0].body[3] {
        Stmt::Return { expr } => assert!(matches!(expr, Expr::Dref(_))),
        _ => panic!("expected a return statement"),
    }
}

#[test]
fn pointer_types_nest() {
    let fs = source_to_ast("int main(){ int **q; return 0; }").unwrap();
    assert_eq!(fs[0].local_area, 16);
}

#[test]
fn unary_plus_is_a_no_op() {
    let fs = source_to_ast("int main(){ return +5; }").unwrap();
    match &fs[0].body[0] {
        Stmt::Return { expr } => assert!(matches!(expr, Expr::Integer(5))),
        _ => panic!("expected a return statement"),
    }
    // unary minus still lowers to 0 - e
    let fs = source_to_ast("int main(){ return -5; }").unwrap();
    match &fs[0].body[0] {
        Stmt::Return { expr } => match expr {
            Expr::BinOp { lhs, op, rhs } => {
                assert!(matches!(**lhs, Expr::Integer(0)));
                assert_eq!(*op, rust_9cc::Op::Sub);
                assert!(matches!(**rhs, Expr::Integer(5)));
            },
            _ => panic!("expected a subtraction"),
        },
        _ => panic!("expected a return statement"),
    }
}

#[test]
fn non_ascii_error_points_at_the_offending_byte() {
    let err = compile_source("int main(){ return à; }").unwrap_err();
    match err {
        CompileError::Parse(p) => {
            assert_eq!(p.kind, ParseErrorKind::Syntax);
            // the first byte of the two-byte character
            assert_eq!(p.pos, 19);
        },
        _ => panic!("expected a parse error"),
    }
}
