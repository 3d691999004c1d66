//! An execution model for the straight-line code of literal arithmetic,
//! and the proof that the generated code computes the right values.
//!
//! Expression code for constant operands uses only `rax`, `rdi`, the `al`
//! byte, the comparison flags and the runtime stack, so a machine state of
//! those five pieces interprets it exactly. Values are the mathematical
//! readings of 64-bit two's-complement words; `wrap64` folds a result back
//! into that range, as the hardware does.

use vstd::prelude::*;

use crate::ast::{op_code, rval_code, Expr, Op};
use crate::binary::{Operation, RegisterOrNum};

verus! {

/// The state of the modeled machine: two general registers, the low byte
/// written by the `set` instructions, the operands of the last comparison,
/// and the runtime stack, top last.
pub struct MachineState {
    pub rax: int,
    pub rdi: int,
    pub al: int,
    pub cmp: Option<(int, int)>,
    pub stack: Seq<int>,
}

/// Is `x` the reading of a 64-bit two's-complement word?
pub open spec fn in64(x: int) -> bool {
    -0x8000_0000_0000_0000 <= x < 0x8000_0000_0000_0000
}

/// A state whose register and stack values are all 64-bit readings.
pub open spec fn state_wf(st: MachineState) -> bool {
    &&& in64(st.rax)
    &&& in64(st.rdi)
    &&& in64(st.al)
    &&& forall|i: int| 0 <= i < st.stack.len() ==> in64(#[trigger] st.stack[i])
}

/// Folds an integer into the 64-bit two's-complement range, as an `add`,
/// `sub` or `imul` result register does.
pub open spec fn wrap64(x: int) -> int {
    let m = x % 0x1_0000_0000_0000_0000;
    if m >= 0x8000_0000_0000_0000 {
        m - 0x1_0000_0000_0000_0000
    } else {
        m
    }
}

/// Signed division truncated toward zero, the quotient `idiv` computes.
pub open spec fn tdiv(a: int, b: int) -> int {
    if (a < 0) != (b < 0) {
        -((if a < 0 {
            -a
        } else {
            a
        }) / (if b < 0 {
            -b
        } else {
            b
        }))
    } else {
        (if a < 0 {
            -a
        } else {
            a
        }) / (if b < 0 {
            -b
        } else {
            b
        })
    }
}

/// One step of the machine on the instructions that literal arithmetic
/// uses. Anything outside the modeled fragment, a pop from an empty
/// stack, a division by zero and the overflowing `idiv` end the run.
/// `cqo` is modeled as part of `idiv`, which the generator always pairs
/// it with.
pub open spec fn step_lin(st: MachineState, op: Operation) -> Option<MachineState> {
    match op {
        Operation::Push(r) => match r {
            RegisterOrNum::Num(n) => Some(MachineState { stack: st.stack.push(n as int), ..st }),
            RegisterOrNum::Rax => Some(MachineState { stack: st.stack.push(st.rax), ..st }),
            RegisterOrNum::Rdi => Some(MachineState { stack: st.stack.push(st.rdi), ..st }),
            _ => None,
        },
        Operation::Pop(r) => if st.stack.len() == 0 {
            None
        } else {
            match r {
                RegisterOrNum::Rax => Some(
                    MachineState { rax: st.stack.last(), stack: st.stack.drop_last(), ..st },
                ),
                RegisterOrNum::Rdi => Some(
                    MachineState { rdi: st.stack.last(), stack: st.stack.drop_last(), ..st },
                ),
                _ => None,
            }
        },
        Operation::Add(RegisterOrNum::Rax, RegisterOrNum::Rdi) => Some(
            MachineState { rax: wrap64(st.rax + st.rdi), ..st },
        ),
        Operation::Sub(RegisterOrNum::Rax, RegisterOrNum::Rdi) => Some(
            MachineState { rax: wrap64(st.rax - st.rdi), ..st },
        ),
        Operation::Imul(RegisterOrNum::Rax, RegisterOrNum::Rdi) => Some(
            MachineState { rax: wrap64(st.rax * st.rdi), ..st },
        ),
        Operation::Cqo => Some(st),
        Operation::Idiv(RegisterOrNum::Rdi) => if st.rdi == 0 || (st.rax == -0x8000_0000_0000_0000
            && st.rdi == -1) {
            None
        } else {
            Some(MachineState { rax: tdiv(st.rax, st.rdi), ..st })
        },
        Operation::Cmp(RegisterOrNum::Rax, RegisterOrNum::Rdi) => Some(
            MachineState { cmp: Some((st.rax, st.rdi)), ..st },
        ),
        Operation::Cmp(RegisterOrNum::Rdi, RegisterOrNum::Rax) => Some(
            MachineState { cmp: Some((st.rdi, st.rax)), ..st },
        ),
        Operation::Sete(RegisterOrNum::Al) => match st.cmp {
            Some((a, b)) => Some(
                MachineState {
                    al: if a == b {
                        1int
                    } else {
                        0int
                    },
                    ..st
                },
            ),
            None => None,
        },
        Operation::Setne(RegisterOrNum::Al) => match st.cmp {
            Some((a, b)) => Some(
                MachineState {
                    al: if a != b {
                        1int
                    } else {
                        0int
                    },
                    ..st
                },
            ),
            None => None,
        },
        Operation::Setl(RegisterOrNum::Al) => match st.cmp {
            Some((a, b)) => Some(
                MachineState {
                    al: if a < b {
                        1int
                    } else {
                        0int
                    },
                    ..st
                },
            ),
            None => None,
        },
        Operation::Setle(RegisterOrNum::Al) => match st.cmp {
            Some((a, b)) => Some(
                MachineState {
                    al: if a <= b {
                        1int
                    } else {
                        0int
                    },
                    ..st
                },
            ),
            None => None,
        },
        Operation::Movzb(RegisterOrNum::Rax, RegisterOrNum::Al) => Some(
            MachineState { rax: st.al, ..st },
        ),
        _ => None,
    }
}

/// Runs a whole instruction sequence, left to right.
pub open spec fn run_lin(ops: Seq<Operation>, st: Option<MachineState>) -> Option<MachineState>
    decreases ops,
{
    if ops.len() == 0 {
        st
    } else {
        match run_lin(ops.drop_last(), st) {
            Some(mid) => step_lin(mid, ops.last()),
            None => None,
        }
    }
}

/// Running a concatenation runs the parts in order.
pub proof fn lemma_run_app(a: Seq<Operation>, b: Seq<Operation>, st: Option<MachineState>)
    ensures
        run_lin(a + b, st) == run_lin(b, run_lin(a, st)),
    decreases b,
{
    if b.len() == 0 {
        assert(a + b =~= a);
    } else {
        assert((a + b).drop_last() =~= a + b.drop_last());
        lemma_run_app(a, b.drop_last(), st);
    }
}

/// Running a one-instruction sequence.
proof fn lemma_run1(x: Operation, st: MachineState)
    ensures
        run_lin(seq![x], Some(st)) == step_lin(st, x),
{
    assert(seq![x].drop_last() =~= Seq::<Operation>::empty());
    assert(seq![x].last() == x);
    assert(run_lin(Seq::<Operation>::empty(), Some(st)) == Some(st));
}

/// An expression whose leaves are all integer literals and whose
/// operators all compute: the fragment the execution model covers.
pub open spec fn lit_only(e: Expr) -> bool
    decreases e,
{
    match e {
        Expr::Integer(n) => true,
        Expr::BinOp { lhs, op, rhs } => op != Op::Assign && lit_only(*lhs) && lit_only(*rhs),
        _ => false,
    }
}

/// The value of a literal expression under 64-bit two's-complement
/// arithmetic with truncated division. Division by zero and the
/// overflowing quotient have no value, as the hardware traps on them.
pub open spec fn op_eval(op: Op, a: int, b: int) -> Option<int> {
    match op {
        Op::Add => Some(wrap64(a + b)),
        Op::Sub => Some(wrap64(a - b)),
        Op::Mul => Some(wrap64(a * b)),
        Op::Div => if b == 0 || (a == -0x8000_0000_0000_0000 && b == -1) {
            None
        } else {
            Some(tdiv(a, b))
        },
        Op::Eq => Some(
            if a == b {
                1int
            } else {
                0int
            },
        ),
        Op::Neq => Some(
            if a != b {
                1int
            } else {
                0int
            },
        ),
        Op::Lt => Some(
            if a < b {
                1int
            } else {
                0int
            },
        ),
        Op::Le => Some(
            if a <= b {
                1int
            } else {
                0int
            },
        ),
        Op::Gt => Some(
            if a > b {
                1int
            } else {
                0int
            },
        ),
        Op::Ge => Some(
            if a >= b {
                1int
            } else {
                0int
            },
        ),
        Op::Assign => None,
    }
}

pub open spec fn eval_expr(e: Expr) -> Option<int>
    decreases e,
{
    match e {
        Expr::Integer(n) => Some(n as int),
        Expr::BinOp { lhs, op, rhs } => match (eval_expr(*lhs), eval_expr(*rhs)) {
            (Some(a), Some(b)) => op_eval(op, a, b),
            _ => None,
        },
        _ => None,
    }
}

/// A computed operator result is a 64-bit reading.
proof fn lemma_op_eval_in64(op: Op, a: int, b: int, v: int)
    requires
        in64(a),
        in64(b),
        op_eval(op, a, b) == Some(v),
    ensures
        in64(v),
{
    match op {
        Op::Add => {
            lemma_wrap64_in64(a + b);
        },
        Op::Sub => {
            lemma_wrap64_in64(a - b);
        },
        Op::Mul => {
            lemma_wrap64_in64(a * b);
        },
        Op::Div => {
            lemma_tdiv_in64(a, b);
        },
        _ => {},
    }
}

/// Running a two-instruction sequence is stepping it twice, a dead end
/// propagating.
proof fn lemma_run2(x: Operation, y: Operation, st: MachineState)
    ensures
        run_lin(seq![x, y], Some(st)) == (match step_lin(st, x) {
            Some(s1) => step_lin(s1, y),
            None => None,
        }),
{
    assert(seq![x, y].drop_last() =~= seq![x]);
    assert(seq![x, y].last() == y);
    lemma_run1(x, st);
}

/// Running a three-instruction sequence is stepping it thrice, dead ends
/// propagating.
proof fn lemma_run3(x: Operation, y: Operation, z: Operation, st: MachineState)
    ensures
        run_lin(seq![x, y, z], Some(st)) == (match step_lin(st, x) {
            Some(s1) => match step_lin(s1, y) {
                Some(s2) => step_lin(s2, z),
                None => None,
            },
            None => None,
        }),
{
    assert(seq![x, y, z].drop_last() =~= seq![x, y]);
    assert(seq![x, y, z].last() == z);
    lemma_run2(x, y, st);
}

/// The three-instruction tail of a comparison operator: compare, set the
/// low byte by the flag, zero-extend into `rax`.
#[verifier::rlimit(100)]
proof fn lemma_combine_cmp(op: Op, st4: MachineState, base: Seq<int>, a: int, b: int, v: int)
    requires
        op == Op::Eq || op == Op::Neq || op == Op::Lt || op == Op::Le || op == Op::Gt || op
            == Op::Ge,
        state_wf(st4),
        st4.rax == a,
        st4.rdi == b,
        st4.stack == base,
        op_eval(op, a, b) == Some(v),
    ensures
        run_lin(op_code(op), Some(st4)) is Some,
        run_lin(op_code(op), Some(st4))->0.rax == v,
        run_lin(op_code(op), Some(st4))->0.stack == base,
        state_wf(run_lin(op_code(op), Some(st4))->0),
{
    let c0 = op_code(op)[0];
    let c1 = op_code(op)[1];
    let c2 = op_code(op)[2];
    match op {
        Op::Eq | Op::Neq | Op::Lt | Op::Le | Op::Gt | Op::Ge => {
            assert(op_code(op) =~= seq![c0, c1, c2]);
            lemma_run3(c0, c1, c2, st4);
            assert(v == 0 || v == 1);
        },
        _ => {},
    }
}

/// The instruction tail of a binary operator, run from a state holding
/// both operand values on top of the stack: both are popped, the
/// operator's value takes their place.
#[verifier::rlimit(100)]
proof fn lemma_combine_op(op: Op, st2: MachineState, base: Seq<int>, a: int, b: int, v: int)
    requires
        state_wf(st2),
        st2.stack == base.push(a).push(b),
        in64(a),
        in64(b),
        op_eval(op, a, b) == Some(v),
    ensures
        ({
            let tail = seq![
                Operation::Pop(RegisterOrNum::Rdi),
                Operation::Pop(RegisterOrNum::Rax),
            ] + op_code(op) + seq![Operation::Push(RegisterOrNum::Rax)];
            let r = run_lin(tail, Some(st2));
            &&& r is Some
            &&& r->0.stack == base.push(v)
            &&& state_wf(r->0)
        }),
{
    let t0 = Operation::Pop(RegisterOrNum::Rdi);
    let t1 = Operation::Pop(RegisterOrNum::Rax);
    assert(seq![t0, t1].drop_last() =~= seq![t0]);
    lemma_run1(t0, st2);
    assert(st2.stack.last() == b && st2.stack.drop_last() =~= base.push(a));
    let st3 = step_lin(st2, t0)->0;
    assert(st3.rdi == b);
    assert(st3.stack.last() == a && st3.stack.drop_last() =~= base);
    let st4 = step_lin(st3, t1)->0;
    assert(st4.rax == a && st4.rdi == b && st4.stack == base);
    lemma_run_app(seq![t0, t1], op_code(op), Some(st2));
    let st5 = run_lin(op_code(op), Some(st4));
    lemma_op_eval_in64(op, a, b, v);
    match op {
        Op::Add => {
            lemma_run1(Operation::Add(RegisterOrNum::Rax, RegisterOrNum::Rdi), st4);
            assert(st5 is Some && st5->0.rax == v && st5->0.stack == base);
        },
        Op::Sub => {
            lemma_run1(Operation::Sub(RegisterOrNum::Rax, RegisterOrNum::Rdi), st4);
            assert(st5 is Some && st5->0.rax == v && st5->0.stack == base);
        },
        Op::Mul => {
            lemma_run1(Operation::Imul(RegisterOrNum::Rax, RegisterOrNum::Rdi), st4);
            assert(st5 is Some && st5->0.rax == v && st5->0.stack == base);
        },
        Op::Div => {
            assert(seq![Operation::Cqo, Operation::Idiv(RegisterOrNum::Rdi)].drop_last() =~= seq![
                Operation::Cqo,
            ]);
            lemma_run1(Operation::Cqo, st4);
            assert(st5 is Some && st5->0.rax == v && st5->0.stack == base);
        },
        Op::Eq | Op::Neq | Op::Lt | Op::Le | Op::Gt | Op::Ge => {
            lemma_combine_cmp(op, st4, base, a, b, v);
            assert(st5 is Some && st5->0.rax == v && st5->0.stack == base);
        },
        Op::Assign => {},
    }
    let st6 = st5->0;
    lemma_run_app(seq![t0, t1] + op_code(op), seq![Operation::Push(RegisterOrNum::Rax)], Some(
        st2,
    ));
    lemma_run1(Operation::Push(RegisterOrNum::Rax), st6);
    let tail = seq![t0, t1] + op_code(op) + seq![Operation::Push(RegisterOrNum::Rax)];
    assert(run_lin(tail, Some(st2)) is Some);
    assert(run_lin(tail, Some(st2))->0.stack =~= base.push(v));
}

/// A wrapped result is a 64-bit reading.
proof fn lemma_wrap64_in64(x: int)
    ensures
        in64(wrap64(x)),
{
}

/// A computed value is a 64-bit reading.
proof fn lemma_eval_in64(e: Expr, v: int)
    requires
        eval_expr(e) == Some(v),
    ensures
        in64(v),
    decreases e,
{
    match e {
        Expr::Integer(n) => {},
        Expr::BinOp { lhs, op, rhs } => {
            let a = eval_expr(*lhs)->0;
            let b = eval_expr(*rhs)->0;
            lemma_eval_in64(*lhs, a);
            lemma_eval_in64(*rhs, b);
            lemma_op_eval_in64(op, a, b, v);
        },
        _ => {},
    }
}

/// A quotient that `idiv` does not trap on is a 64-bit reading.
proof fn lemma_tdiv_in64(a: int, b: int)
    requires
        in64(a),
        in64(b),
        b != 0,
        !(a == -0x8000_0000_0000_0000 && b == -1),
    ensures
        in64(tdiv(a, b)),
{
    let aa = if a < 0 {
        -a
    } else {
        a
    };
    let bb = if b < 0 {
        -b
    } else {
        b
    };
    assert(bb >= 1);
    vstd::arithmetic::div_mod::lemma_div_pos_is_pos(aa, bb);
    vstd::arithmetic::div_mod::lemma_div_nonincreasing(aa, bb);
    if aa == 0x8000_0000_0000_0000 && ((a < 0) == (b < 0)) {
        // the quotient is positive here, so the divisor's magnitude is at
        // least 2 and the quotient at most half the dividend
        assert(bb >= 2);
        vstd::arithmetic::div_mod::lemma_div_is_ordered_by_denominator(aa, 2, bb);
        assert(aa / 2 == 0x4000_0000_0000_0000);
    }
}

/// The executed code of a literal expression pushes exactly its value:
/// running `rval_code(e)` from any well-formed state succeeds and leaves
/// the state with `eval_expr(e)` appended to the stack.
#[verifier::rlimit(100)]
pub proof fn lemma_literal_code_computes(e: Expr, st: MachineState, v: int)
    requires
        lit_only(e),
        eval_expr(e) == Some(v),
        state_wf(st),
    ensures
        ({
            let r = run_lin(rval_code(e), Some(st));
            &&& r is Some
            &&& r->0.stack == st.stack.push(v)
            &&& state_wf(r->0)
        }),
    decreases e,
{
    match e {
        Expr::Integer(n) => {
            lemma_run1(Operation::Push(RegisterOrNum::Num(n)), st);
        },
        Expr::BinOp { lhs, op, rhs } => {
            let a = eval_expr(*lhs)->0;
            let b = eval_expr(*rhs)->0;
            lemma_eval_in64(*lhs, a);
            lemma_eval_in64(*rhs, b);
            lemma_literal_code_computes(*lhs, st, a);
            let st1 = run_lin(rval_code(*lhs), Some(st))->0;
            lemma_literal_code_computes(*rhs, st1, b);
            let st2 = run_lin(rval_code(*rhs), Some(st1))->0;
            let both = rval_code(*lhs) + rval_code(*rhs);
            lemma_run_app(rval_code(*lhs), rval_code(*rhs), Some(st));
            assert(st2.stack == st.stack.push(a).push(b));
            let tail = seq![
                Operation::Pop(RegisterOrNum::Rdi),
                Operation::Pop(RegisterOrNum::Rax),
            ] + op_code(op) + seq![Operation::Push(RegisterOrNum::Rax)];
            lemma_combine_op(op, st2, st.stack, a, b, v);
            lemma_run_app(both, tail, Some(st));
            assert(rval_code(e) =~= both + tail);
        },
        _ => {},
    }
}

/// The value a `return` of a constant expression hands back: after the
/// expression's code and the pop that follows it, `rax` holds exactly the
/// expression's value and the stack stands where it started. What the
/// operating system reports as the process exit code is this value's low
/// byte.
pub proof fn lemma_return_value(e: Expr, st: MachineState, v: int)
    requires
        lit_only(e),
        eval_expr(e) == Some(v),
        state_wf(st),
    ensures
        ({
            let r = run_lin(
                rval_code(e) + seq![Operation::Pop(RegisterOrNum::Rax)],
                Some(st),
            );
            &&& r is Some
            &&& r->0.rax == v
            &&& r->0.stack == st.stack
        }),
{
    lemma_literal_code_computes(e, st, v);
    let st1 = run_lin(rval_code(e), Some(st))->0;
    lemma_run_app(rval_code(e), seq![Operation::Pop(RegisterOrNum::Rax)], Some(st));
    lemma_run1(Operation::Pop(RegisterOrNum::Rax), st1);
    assert(st1.stack.last() == v && st1.stack.drop_last() =~= st.stack);
}

/// A comparison of two computed values is exactly `0` or `1`.
pub proof fn lemma_comparison_is_boolean(e: Expr, v: int)
    requires
        e matches Expr::BinOp { lhs, op, rhs } && (op == Op::Eq || op == Op::Neq || op == Op::Lt
            || op == Op::Le || op == Op::Gt || op == Op::Ge),
        eval_expr(e) == Some(v),
    ensures
        v == 0 || v == 1,
{
}

} // verus!
