//! End-to-end tests: source text in, assembly text out.

use rust_9cc::compile_source;

#[test]
fn ret_zero_exact_output() {
    let out = compile_source("int main(){ return 0; }").unwrap();
    let expected = "\
.intel_syntax noprefix
.globl main
main:
  push rbp
  mov rbp, rsp
  sub rsp, 0
  mov rax, rbp
  push 0
  pop rax
  mov rsp, rbp
  pop rbp
  ret
  mov rsp, rbp
  pop rbp
  ret

";
    assert_eq!(out, expected);
}

#[test]
fn precedence_mul_before_add() {
    let out = compile_source("int main(){ return 2+3*4; }").unwrap();
    let expected = "\
.intel_syntax noprefix
.globl main
main:
  push rbp
  mov rbp, rsp
  sub rsp, 0
  mov rax, rbp
  push 2
  push 3
  push 4
  pop rdi
  pop rax
  imul rax, rdi
  push rax
  pop rdi
  pop rax
  add rax, rdi
  push rax
  pop rax
  mov rsp, rbp
  pop rbp
  ret
  mov rsp, rbp
  pop rbp
  ret

";
    assert_eq!(out, expected);
}

#[test]
fn locals_and_assignment() {
    let out = compile_source("int main(){ int a; a=5; return a*a-1; }").unwrap();
    // one local rounds the local area up to 16 bytes
    assert!(out.contains("  sub rsp, 16\n"));
    // the slot of `a` is 8 bytes below the frame base
    assert!(out.contains("  mov rax, rbp\n  sub rax, 8\n  push rax\n"));
    // the assignment stores through the computed address
    assert!(out.contains("  mov [rax], rdi\n"));
}

#[test]
fn for_loop_shape() {
    let out =
        compile_source("int main(){ int i; int s; s=0; for(i=0;i<10;i=i+1) s=s+i; return s; }")
            .unwrap();
    assert!(out.contains(".Lbegin1:\n"));
    assert!(out.contains("  je .Lend1\n"));
    assert!(out.contains("  jmp .Lbegin1\n"));
    assert!(out.contains(".Lend1:\n"));
    // two locals: the area stays at 16 bytes
    assert!(out.contains("  sub rsp, 16\n"));
}

#[test]
fn function_call_and_argument_copy() {
    let out = compile_source("int f(int x){ return x+1; } int main(){ return f(41); }").unwrap();
    // both functions are emitted, each with its own entry label
    assert!(out.contains("f:\n"));
    assert!(out.contains("main:\n"));
    // f's prologue copies its one argument register into the first slot
    assert!(out.contains("  mov rax, rbp\n  sub rax, 8\n  mov [rax], rdi\n"));
    // main evaluates the argument, pops it into rdi, and calls f
    assert!(out.contains("  push 41\n"));
    assert!(out.contains("  pop rdi\n  call f\n  push rax\n"));
    // the caller records the argument count in rax before the pops
    assert!(out.contains("  mov rax, 1\n"));
}

#[test]
fn pointers_store_through_deref() {
    let out =
        compile_source("int main(){ int x; int *p; x=7; p=&x; *p=9; return x; }").unwrap();
    // two locals, 16 bytes
    assert!(out.contains("  sub rsp, 16\n"));
    // storing through *p loads the pointer as a value first
    assert!(out.contains("  push 9\n  pop rdi\n  pop rax\n  mov [rax], rdi\n"));
}

#[test]
fn six_arguments_use_all_registers() {
    let out = compile_source(
        "int g(int a,int b,int c,int d,int e,int f){ return a; } \
         int main(){ return g(1,2,3,4,5,6); }",
    )
    .unwrap();
    assert!(out.contains("  mov rax, 6\n"));
    // the pops come in reverse order so the first argument lands in rdi
    assert!(out.contains(
        "  pop r9\n  pop r8\n  pop rcx\n  pop rdx\n  pop rsi\n  pop rdi\n  call g\n"
    ));
}
