//! Proofs of the code generator's global disciplines.
//!
//! The stack discipline is stated over an abstract scan of the emitted
//! instructions that tracks the runtime stack depth relative to a statement's
//! entry: pushes and pops move it, a jump or a generated label is admitted
//! only at the entry depth, and tearing the frame down ends the straight-line
//! flow. A scan that stays `ok` can never underflow the stack, and every
//! label sits at the entry depth, so the depth at any point of an execution
//! is the depth the scan assigns to that point.

use vstd::prelude::*;

use crate::ast::{
    args_code, args_err, arg_pops, block_code, block_err, block_labels, lval_code, lval_err,
    arg_reg, op_code, rval_code, rval_err, stmt_code, stmt_err, stmt_labels, Expr, Op, Stmt,
};
use crate::binary::{LabelKind, Operation, RegisterOrNum};

verus! {

/// The scan state: the stack depth relative to the scanned code's entry
/// (`None` after an unconditional transfer of control), and whether every
/// check so far has passed.
pub open spec fn scan_op(st: (Option<int>, bool), op: Operation) -> (Option<int>, bool) {
    match st.0 {
        None => match op {
            Operation::Label(k, n) => (Some(0int), st.1),
            _ => (None, st.1),
        },
        Some(depth) => match op {
            Operation::Push(r) => (Some(depth + 1), st.1),
            Operation::Pop(r) => (Some(depth - 1), st.1 && depth >= 1),
            Operation::Je(k, n) => (Some(depth), st.1 && depth == 0),
            Operation::Jmp(k, n) => (None, st.1 && depth == 0),
            Operation::Label(k, n) => (Some(0int), st.1 && depth == 0),
            Operation::Ret => (None, st.1),
            Operation::Func(name) => (None, st.1),
            Operation::Mov(r1, r2) => if r1 == RegisterOrNum::Rsp {
                (None, st.1)
            } else {
                (Some(depth), st.1)
            },
            _ => (Some(depth), st.1),
        },
    }
}

/// The scan of a whole instruction sequence, left to right.
pub open spec fn scan_ops(ops: Seq<Operation>, st: (Option<int>, bool)) -> (Option<int>, bool)
    decreases ops,
{
    if ops.len() == 0 {
        st
    } else {
        scan_op(scan_ops(ops.drop_last(), st), ops.last())
    }
}

/// Scanning a concatenation scans the parts in order.
pub proof fn lemma_scan_app(a: Seq<Operation>, b: Seq<Operation>, st: (Option<int>, bool))
    ensures
        scan_ops(a + b, st) == scan_ops(b, scan_ops(a, st)),
    decreases b,
{
    if b.len() == 0 {
        assert(a + b =~= a);
    } else {
        assert((a + b).drop_last() =~= a + b.drop_last());
        lemma_scan_app(a, b.drop_last(), st);
    }
}

/// Scanning a one-instruction sequence.
proof fn lemma_scan1(x: Operation, st: (Option<int>, bool))
    ensures
        scan_ops(seq![x], st) == scan_op(st, x),
{
    assert(seq![x].drop_last() =~= Seq::<Operation>::empty());
    assert(seq![x].last() == x);
    assert(scan_ops(Seq::<Operation>::empty(), st) == st);
}

/// Scanning a two-instruction sequence.
proof fn lemma_scan2(x: Operation, y: Operation, st: (Option<int>, bool))
    ensures
        scan_ops(seq![x, y], st) == scan_op(scan_op(st, x), y),
{
    assert(seq![x, y].drop_last() =~= seq![x]);
    lemma_scan1(x, st);
}

/// Scanning a three-instruction sequence.
proof fn lemma_scan3(x: Operation, y: Operation, z: Operation, st: (Option<int>, bool))
    ensures
        scan_ops(seq![x, y, z], st) == scan_op(scan_op(scan_op(st, x), y), z),
{
    assert(seq![x, y, z].drop_last() =~= seq![x, y]);
    lemma_scan2(x, y, st);
}

/// Scanning a four-instruction sequence.
proof fn lemma_scan4(x: Operation, y: Operation, z: Operation, w: Operation, st: (
    Option<int>,
    bool,
))
    ensures
        scan_ops(seq![x, y, z, w], st) == scan_op(scan_op(scan_op(scan_op(st, x), y), z), w),
{
    assert(seq![x, y, z, w].drop_last() =~= seq![x, y, z]);
    lemma_scan3(x, y, z, st);
}

/// The operator tail of a non-assignment binary operation neither pushes
/// nor pops: the scan passes it unchanged.
proof fn lemma_scan_op_code(op: Op, st: (Option<int>, bool))
    requires
        op != Op::Assign,
        st.0 is Some,
    ensures
        scan_ops(op_code(op), st) == st,
{
    match op {
        Op::Add | Op::Sub | Op::Mul => {
            lemma_scan1(op_code(op)[0], st);
            assert(op_code(op) =~= seq![op_code(op)[0]]);
        },
        Op::Div => {
            lemma_scan2(Operation::Cqo, Operation::Idiv(RegisterOrNum::Rdi), st);
        },
        Op::Eq | Op::Neq | Op::Lt | Op::Le | Op::Gt | Op::Ge => {
            lemma_scan3(op_code(op)[0], op_code(op)[1], op_code(op)[2], st);
            assert(op_code(op) =~= seq![op_code(op)[0], op_code(op)[1], op_code(op)[2]]);
        },
        Op::Assign => {},
    }
}

/// Popping the argument registers lowers the depth by the argument count.
proof fn lemma_scan_arg_pops(n: int, d: int, ok: bool)
    requires
        0 <= n <= d,
    ensures
        scan_ops(arg_pops(n), (Some(d), ok)) == (Some(d - n), ok),
    decreases n,
{
    if n == 0 {
        assert(arg_pops(0) =~= Seq::<Operation>::empty());
    } else {
        let first = Operation::Pop(arg_reg(n - 1));
        assert(arg_pops(n) =~= seq![first] + arg_pops(n - 1));
        lemma_scan1(first, (Some(d), ok));
        lemma_scan_app(seq![first], arg_pops(n - 1), (Some(d), ok));
        lemma_scan_arg_pops(n - 1, d - 1, ok);
    }
}

/// Address generation pushes exactly one value: the operand's address.
pub proof fn lemma_lval_depth(e: Expr, d: int, ok: bool)
    requires
        lval_err(e) is None,
        d >= 0,
    ensures
        scan_ops(lval_code(e), (Some(d), ok)) == (Some(d + 1), ok),
    decreases e, 0int,
{
    match e {
        Expr::Var { name, info } => {
            let m = Operation::Mov(RegisterOrNum::Rax, RegisterOrNum::Rbp);
            let s = Operation::Sub(RegisterOrNum::Rax, RegisterOrNum::Num(info.offset as i32));
            let p = Operation::Push(RegisterOrNum::Rax);
            lemma_scan3(m, s, p, (Some(d), ok));
        },
        Expr::Dref(v) => {
            lemma_rval_depth(*v, d, ok);
        },
        _ => {},
    }
}

/// Value generation pushes exactly one value. This is the stack-machine
/// contract of expressions: whatever the entry depth, the code of an
/// expression raises it by exactly one, never underflows, and contains no
/// control transfer.
pub proof fn lemma_rval_depth(e: Expr, d: int, ok: bool)
    requires
        rval_err(e) is None,
        d >= 0,
    ensures
        scan_ops(rval_code(e), (Some(d), ok)) == (Some(d + 1), ok),
    decreases e, 1int,
{
    match e {
        Expr::Var { name, info } => {
            lemma_lval_depth(e, d, ok);
            lemma_scan_app(lval_code(e), crate::ast::load_top(), (Some(d), ok));
            let t0 = Operation::Pop(RegisterOrNum::Rax);
            let t1 = Operation::Load(RegisterOrNum::Rax, RegisterOrNum::Rax);
            let t2 = Operation::Push(RegisterOrNum::Rax);
            lemma_scan3(t0, t1, t2, (Some(d + 1), ok));
        },
        Expr::Integer(n) => {
            lemma_scan1(Operation::Push(RegisterOrNum::Num(n)), (Some(d), ok));
        },
        Expr::BinOp { lhs, op, rhs } => {
            if op == Op::Assign {
                lemma_lval_depth(*lhs, d, ok);
                lemma_rval_depth(*rhs, d + 1, ok);
                let t0 = Operation::Pop(RegisterOrNum::Rdi);
                let t1 = Operation::Pop(RegisterOrNum::Rax);
                let t2 = Operation::Store(RegisterOrNum::Rax, RegisterOrNum::Rdi);
                let t3 = Operation::Push(RegisterOrNum::Rdi);
                lemma_scan_app(lval_code(*lhs), rval_code(*rhs), (Some(d), ok));
                lemma_scan_app(
                    lval_code(*lhs) + rval_code(*rhs),
                    seq![t0, t1, t2, t3],
                    (Some(d), ok),
                );
                lemma_scan4(t0, t1, t2, t3, (Some(d + 2), ok));
                assert(rval_code(e) == lval_code(*lhs) + rval_code(*rhs) + seq![t0, t1, t2, t3]);
            } else {
                lemma_rval_depth(*lhs, d, ok);
                lemma_rval_depth(*rhs, d + 1, ok);
                let t0 = Operation::Pop(RegisterOrNum::Rdi);
                let t1 = Operation::Pop(RegisterOrNum::Rax);
                let both = rval_code(*lhs) + rval_code(*rhs);
                lemma_scan_app(rval_code(*lhs), rval_code(*rhs), (Some(d), ok));
                lemma_scan_app(both, seq![t0, t1], (Some(d), ok));
                lemma_scan2(t0, t1, (Some(d + 2), ok));
                assert(scan_ops(both + seq![t0, t1], (Some(d), ok)) == (Some(d as int), ok));
                lemma_scan_op_code(op, (Some(d as int), ok));
                lemma_scan_app(both + seq![t0, t1], op_code(op), (Some(d), ok));
                lemma_scan_app(
                    both + seq![t0, t1] + op_code(op),
                    seq![Operation::Push(RegisterOrNum::Rax)],
                    (Some(d), ok),
                );
                lemma_scan1(Operation::Push(RegisterOrNum::Rax), (Some(d as int), ok));
                assert(rval_code(e) == both + seq![t0, t1] + op_code(op) + seq![
                    Operation::Push(RegisterOrNum::Rax),
                ]);
            }
        },
        Expr::FunCall { name, args } => {
            let n = args@.len() as int;
            lemma_args_depth(args@, d, ok);
            let mv = Operation::Mov(RegisterOrNum::Rax, RegisterOrNum::Num(n as i32));
            lemma_scan_app(args_code(args@), seq![mv], (Some(d), ok));
            lemma_scan1(mv, (Some(d + n), ok));
            lemma_scan_app(args_code(args@) + seq![mv], arg_pops(n), (Some(d), ok));
            lemma_scan_arg_pops(n, d + n, ok);
            let c0 = Operation::Call(name);
            let c1 = Operation::Push(RegisterOrNum::Rax);
            lemma_scan_app(args_code(args@) + seq![mv] + arg_pops(n), seq![c0, c1], (Some(d), ok));
            lemma_scan2(c0, c1, (Some(d as int), ok));
            assert(rval_code(e) == args_code(args@) + seq![mv] + arg_pops(n) + seq![c0, c1]);
        },
        Expr::Addr(inner) => {
            lemma_lval_depth(*inner, d, ok);
        },
        Expr::Dref(inner) => {
            lemma_rval_depth(*inner, d, ok);
            lemma_scan_app(rval_code(*inner), crate::ast::load_top(), (Some(d), ok));
            let t0 = Operation::Pop(RegisterOrNum::Rax);
            let t1 = Operation::Load(RegisterOrNum::Rax, RegisterOrNum::Rax);
            let t2 = Operation::Push(RegisterOrNum::Rax);
            lemma_scan3(t0, t1, t2, (Some(d + 1), ok));
        },
    }
}

/// The code of an argument list raises the depth by the number of
/// arguments, one value each.
pub proof fn lemma_args_depth(args: Seq<Expr>, d: int, ok: bool)
    requires
        args_err(args) is None,
        d >= 0,
    ensures
        scan_ops(args_code(args), (Some(d), ok)) == (Some(d + args.len()), ok),
    decreases args, 0int,
{
    if args.len() == 0 {
    } else {
        lemma_args_depth(args.drop_last(), d, ok);
        lemma_rval_depth(args.last(), d + args.len() - 1, ok);
        lemma_scan_app(args_code(args.drop_last()), rval_code(args.last()), (Some(d), ok));
    }
}

/// Expression code contains no label, so scanning it after an unconditional
/// transfer of control stays dead.
proof fn lemma_lval_dead(e: Expr, ok: bool)
    ensures
        scan_ops(lval_code(e), (None, ok)) == (None::<int>, ok),
    decreases e, 0int,
{
    match e {
        Expr::Var { name, info } => {
            let m = Operation::Mov(RegisterOrNum::Rax, RegisterOrNum::Rbp);
            let s = Operation::Sub(RegisterOrNum::Rax, RegisterOrNum::Num(info.offset as i32));
            let p = Operation::Push(RegisterOrNum::Rax);
            lemma_scan3(m, s, p, (None, ok));
        },
        Expr::Dref(v) => {
            lemma_rval_dead(*v, ok);
        },
        _ => {},
    }
}

/// As [`lemma_lval_dead`], for value generation.
proof fn lemma_rval_dead(e: Expr, ok: bool)
    ensures
        scan_ops(rval_code(e), (None, ok)) == (None::<int>, ok),
    decreases e, 1int,
{
    let st = (None::<int>, ok);
    match e {
        Expr::Var { name, info } => {
            lemma_lval_dead(e, ok);
            lemma_scan_app(lval_code(e), crate::ast::load_top(), st);
            let t0 = Operation::Pop(RegisterOrNum::Rax);
            let t1 = Operation::Load(RegisterOrNum::Rax, RegisterOrNum::Rax);
            let t2 = Operation::Push(RegisterOrNum::Rax);
            lemma_scan3(t0, t1, t2, st);
        },
        Expr::Integer(n) => {
            lemma_scan1(Operation::Push(RegisterOrNum::Num(n)), st);
        },
        Expr::BinOp { lhs, op, rhs } => {
            if op == Op::Assign {
                lemma_lval_dead(*lhs, ok);
                lemma_rval_dead(*rhs, ok);
                let t0 = Operation::Pop(RegisterOrNum::Rdi);
                let t1 = Operation::Pop(RegisterOrNum::Rax);
                let t2 = Operation::Store(RegisterOrNum::Rax, RegisterOrNum::Rdi);
                let t3 = Operation::Push(RegisterOrNum::Rdi);
                lemma_scan_app(lval_code(*lhs), rval_code(*rhs), st);
                lemma_scan_app(lval_code(*lhs) + rval_code(*rhs), seq![t0, t1, t2, t3], st);
                lemma_scan4(t0, t1, t2, t3, st);
                assert(rval_code(e) == lval_code(*lhs) + rval_code(*rhs) + seq![t0, t1, t2, t3]);
            } else {
                lemma_rval_dead(*lhs, ok);
                lemma_rval_dead(*rhs, ok);
                let t0 = Operation::Pop(RegisterOrNum::Rdi);
                let t1 = Operation::Pop(RegisterOrNum::Rax);
                let both = rval_code(*lhs) + rval_code(*rhs);
                lemma_scan_app(rval_code(*lhs), rval_code(*rhs), st);
                lemma_scan_app(both, seq![t0, t1], st);
                lemma_scan2(t0, t1, st);
                lemma_op_code_dead(op, ok);
                lemma_scan_app(both + seq![t0, t1], op_code(op), st);
                lemma_scan_app(
                    both + seq![t0, t1] + op_code(op),
                    seq![Operation::Push(RegisterOrNum::Rax)],
                    st,
                );
                lemma_scan1(Operation::Push(RegisterOrNum::Rax), st);
                assert(rval_code(e) == both + seq![t0, t1] + op_code(op) + seq![
                    Operation::Push(RegisterOrNum::Rax),
                ]);
            }
        },
        Expr::FunCall { name, args } => {
            let n = args@.len() as int;
            lemma_args_dead(args@, ok);
            let mv = Operation::Mov(RegisterOrNum::Rax, RegisterOrNum::Num(n as i32));
            lemma_scan_app(args_code(args@), seq![mv], st);
            lemma_scan1(mv, st);
            lemma_scan_app(args_code(args@) + seq![mv], arg_pops(n), st);
            lemma_arg_pops_dead(n, ok);
            let c0 = Operation::Call(name);
            let c1 = Operation::Push(RegisterOrNum::Rax);
            lemma_scan_app(args_code(args@) + seq![mv] + arg_pops(n), seq![c0, c1], st);
            lemma_scan2(c0, c1, st);
            assert(rval_code(e) == args_code(args@) + seq![mv] + arg_pops(n) + seq![c0, c1]);
        },
        Expr::Addr(inner) => {
            lemma_lval_dead(*inner, ok);
        },
        Expr::Dref(inner) => {
            lemma_rval_dead(*inner, ok);
            lemma_scan_app(rval_code(*inner), crate::ast::load_top(), st);
            let t0 = Operation::Pop(RegisterOrNum::Rax);
            let t1 = Operation::Load(RegisterOrNum::Rax, RegisterOrNum::Rax);
            let t2 = Operation::Push(RegisterOrNum::Rax);
            lemma_scan3(t0, t1, t2, st);
        },
    }
}

/// As [`lemma_lval_dead`], for an argument list.
proof fn lemma_args_dead(args: Seq<Expr>, ok: bool)
    ensures
        scan_ops(args_code(args), (None, ok)) == (None::<int>, ok),
    decreases args, 0int,
{
    if args.len() == 0 {
    } else {
        lemma_args_dead(args.drop_last(), ok);
        lemma_rval_dead(args.last(), ok);
        lemma_scan_app(args_code(args.drop_last()), rval_code(args.last()), (None, ok));
    }
}

/// As [`lemma_lval_dead`], for the argument-register pops.
proof fn lemma_arg_pops_dead(n: int, ok: bool)
    requires
        n >= 0,
    ensures
        scan_ops(arg_pops(n), (None, ok)) == (None::<int>, ok),
    decreases n,
{
    if n == 0 {
        assert(arg_pops(0) =~= Seq::<Operation>::empty());
    } else {
        let first = Operation::Pop(arg_reg(n - 1));
        assert(arg_pops(n) =~= seq![first] + arg_pops(n - 1));
        lemma_scan1(first, (None, ok));
        lemma_scan_app(seq![first], arg_pops(n - 1), (None, ok));
        lemma_arg_pops_dead(n - 1, ok);
    }
}

/// As [`lemma_lval_dead`], for an operator tail.
proof fn lemma_op_code_dead(op: Op, ok: bool)
    ensures
        scan_ops(op_code(op), (None, ok)) == (None::<int>, ok),
{
    let st = (None::<int>, ok);
    match op {
        Op::Add | Op::Sub | Op::Mul => {
            lemma_scan1(op_code(op)[0], st);
            assert(op_code(op) =~= seq![op_code(op)[0]]);
        },
        Op::Div => {
            lemma_scan2(Operation::Cqo, Operation::Idiv(RegisterOrNum::Rdi), st);
        },
        Op::Eq | Op::Neq | Op::Lt | Op::Le | Op::Gt | Op::Ge => {
            lemma_scan3(op_code(op)[0], op_code(op)[1], op_code(op)[2], st);
            assert(op_code(op) =~= seq![op_code(op)[0], op_code(op)[1], op_code(op)[2]]);
        },
        Op::Assign => {},
    }
}

/// A scan entry state of a statement: at the statement's entry depth, or
/// dead after an unconditional transfer.
pub open spec fn neutral_depth(d: Option<int>) -> bool {
    d == Some(0int) || d is None
}

/// The stack-machine contract of statements: from its entry depth, the
/// code of a statement passes every scan check and falls through at the
/// entry depth, or not at all. In particular it never underflows the
/// stack, and every generated label and jump sits at the entry depth.
#[verifier::rlimit(100)]
pub proof fn lemma_stmt_neutral(s: Stmt, c: int, d0: Option<int>, ok: bool)
    requires
        stmt_err(s) is None,
        neutral_depth(d0),
    ensures
        neutral_depth(scan_ops(stmt_code(s, c), (d0, ok)).0),
        scan_ops(stmt_code(s, c), (d0, ok)).1 == ok,
    decreases crate::ast::stmt_size(s), 0int,
{
    let st = (d0, ok);
    match s {
        Stmt::Calc { content } => {
            if d0 is None {
                lemma_rval_dead(content, ok);
            } else {
                lemma_rval_depth(content, 0, ok);
            }
            lemma_scan_app(rval_code(content), seq![Operation::Pop(RegisterOrNum::Rax)], st);
            lemma_scan1(Operation::Pop(RegisterOrNum::Rax), scan_ops(rval_code(content), st));
        },
        Stmt::Return { expr } => {
            if d0 is None {
                lemma_rval_dead(expr, ok);
            } else {
                lemma_rval_depth(expr, 0, ok);
            }
            let t0 = Operation::Pop(RegisterOrNum::Rax);
            let t1 = Operation::Mov(RegisterOrNum::Rsp, RegisterOrNum::Rbp);
            let t2 = Operation::Pop(RegisterOrNum::Rbp);
            let t3 = Operation::Ret;
            lemma_scan_app(rval_code(expr), seq![t0] + crate::ast::epilogue_code(), st);
            assert(seq![t0] + crate::ast::epilogue_code() =~= seq![t0, t1, t2, t3]);
            lemma_scan4(t0, t1, t2, t3, scan_ops(rval_code(expr), st));
            assert(stmt_code(s, c) == rval_code(expr) + (seq![t0] + crate::ast::epilogue_code()));
        },
        Stmt::If { cond, t_branch, f_branch } => {
            if d0 is None {
                lemma_rval_dead(cond, ok);
            } else {
                lemma_rval_depth(cond, 0, ok);
            }
            let n = c + 1;
            match f_branch {
                None => {
                    let br = crate::ast::branch_code(LabelKind::End, n);
                    let lb = Operation::Label(LabelKind::End, n as usize);
                    lemma_scan_app(rval_code(cond), br, st);
                    let st1 = scan_ops(rval_code(cond), st);
                    lemma_scan3(br[0], br[1], br[2], st1);
                    let st2 = scan_ops(br, st1);
                    lemma_stmt_neutral(*t_branch, n, st2.0, st2.1);
                    lemma_scan_app(rval_code(cond) + br, stmt_code(*t_branch, n), st);
                    let st3 = scan_ops(stmt_code(*t_branch, n), st2);
                    lemma_scan_app(rval_code(cond) + br + stmt_code(*t_branch, n), seq![lb], st);
                    lemma_scan1(lb, st3);
                    assert(stmt_code(s, c) == rval_code(cond) + br + stmt_code(*t_branch, n)
                        + seq![lb]);
                },
                Some(f) => {
                    let br = crate::ast::branch_code(LabelKind::Else, n);
                    let mid = seq![
                        Operation::Jmp(LabelKind::End, n as usize),
                        Operation::Label(LabelKind::Else, n as usize),
                    ];
                    let lb = Operation::Label(LabelKind::End, n as usize);
                    let n2 = n + stmt_labels(*t_branch);
                    lemma_scan_app(rval_code(cond), br, st);
                    let st1 = scan_ops(rval_code(cond), st);
                    lemma_scan3(br[0], br[1], br[2], st1);
                    let st2 = scan_ops(br, st1);
                    lemma_stmt_neutral(*t_branch, n, st2.0, st2.1);
                    lemma_scan_app(rval_code(cond) + br, stmt_code(*t_branch, n), st);
                    let st3 = scan_ops(stmt_code(*t_branch, n), st2);
                    lemma_scan_app(rval_code(cond) + br + stmt_code(*t_branch, n), mid, st);
                    lemma_scan2(mid[0], mid[1], st3);
                    let st4 = scan_ops(mid, st3);
                    lemma_stmt_neutral(*f, n2, st4.0, st4.1);
                    lemma_scan_app(
                        rval_code(cond) + br + stmt_code(*t_branch, n) + mid,
                        stmt_code(*f, n2),
                        st,
                    );
                    let st5 = scan_ops(stmt_code(*f, n2), st4);
                    lemma_scan_app(
                        rval_code(cond) + br + stmt_code(*t_branch, n) + mid + stmt_code(*f, n2),
                        seq![lb],
                        st,
                    );
                    lemma_scan1(lb, st5);
                    assert(stmt_code(s, c) == rval_code(cond) + br + stmt_code(*t_branch, n) + mid
                        + stmt_code(*f, n2) + seq![lb]);
                },
            }
        },
        Stmt::While { cond, content } => {
            let n = c + 1;
            let hd = Operation::Label(LabelKind::Begin, n as usize);
            let br = crate::ast::branch_code(LabelKind::End, n);
            let tl = seq![
                Operation::Jmp(LabelKind::Begin, n as usize),
                Operation::Label(LabelKind::End, n as usize),
            ];
            lemma_scan1(hd, st);
            lemma_scan_app(seq![hd], rval_code(cond), st);
            let st1 = scan_ops(seq![hd], st);
            lemma_rval_depth(cond, 0, st1.1);
            let st2 = scan_ops(rval_code(cond), st1);
            lemma_scan_app(seq![hd] + rval_code(cond), br, st);
            lemma_scan3(br[0], br[1], br[2], st2);
            let st3 = scan_ops(br, st2);
            lemma_stmt_neutral(*content, n, st3.0, st3.1);
            lemma_scan_app(seq![hd] + rval_code(cond) + br, stmt_code(*content, n), st);
            let st4 = scan_ops(stmt_code(*content, n), st3);
            lemma_scan_app(
                seq![hd] + rval_code(cond) + br + stmt_code(*content, n),
                tl,
                st,
            );
            lemma_scan2(tl[0], tl[1], st4);
            assert(stmt_code(s, c) == seq![hd] + rval_code(cond) + br + stmt_code(*content, n)
                + tl);
        },
        Stmt::For { init, cond, tail, content } => {
            let n = c + 1;
            let ini = crate::ast::opt_discard_code(init);
            let hd = Operation::Label(LabelKind::Begin, n as usize);
            let cnd = match cond {
                Some(ce) => rval_code(ce) + crate::ast::branch_code(LabelKind::End, n),
                None => Seq::<Operation>::empty(),
            };
            let tla = crate::ast::opt_discard_code(tail);
            let tl = seq![
                Operation::Jmp(LabelKind::Begin, n as usize),
                Operation::Label(LabelKind::End, n as usize),
            ];
            lemma_opt_discard_neutral(init, d0, ok);
            lemma_scan_app(ini, seq![hd], st);
            let st1 = scan_ops(ini, st);
            lemma_scan1(hd, st1);
            let st2 = scan_ops(seq![hd], st1);
            lemma_scan_app(ini + seq![hd], cnd, st);
            match cond {
                Some(ce) => {
                    lemma_rval_depth(ce, 0, st2.1);
                    lemma_scan_app(rval_code(ce), crate::ast::branch_code(LabelKind::End, n), st2);
                    let stc = scan_ops(rval_code(ce), st2);
                    let br = crate::ast::branch_code(LabelKind::End, n);
                    lemma_scan3(br[0], br[1], br[2], stc);
                },
                None => {},
            }
            let st3 = scan_ops(cnd, st2);
            lemma_stmt_neutral(*content, n, st3.0, st3.1);
            lemma_scan_app(ini + seq![hd] + cnd, stmt_code(*content, n), st);
            let st4 = scan_ops(stmt_code(*content, n), st3);
            lemma_opt_discard_neutral(tail, st4.0, st4.1);
            lemma_scan_app(ini + seq![hd] + cnd + stmt_code(*content, n), tla, st);
            let st5 = scan_ops(tla, st4);
            lemma_scan_app(ini + seq![hd] + cnd + stmt_code(*content, n) + tla, tl, st);
            lemma_scan2(tl[0], tl[1], st5);
            assert(stmt_code(s, c) == ini + seq![hd] + cnd + stmt_code(*content, n) + tla + tl);
        },
        Stmt::Block(v) => {
            lemma_block_neutral(v@, c, d0, ok);
        },
        Stmt::Declare => {
            assert(stmt_code(s, c) =~= Seq::<Operation>::empty());
        },
    }
}

/// Executing a statement's code leaves the runtime stack depth unchanged:
/// from the entry depth, the scan of the emitted code passes every check
/// and falls through at the entry depth, or transfers control out.
pub proof fn lemma_stmt_stack_neutral(s: Stmt, c: int)
    requires
        stmt_err(s) is None,
    ensures
        neutral_depth(scan_ops(stmt_code(s, c), (Some(0int), true)).0),
        scan_ops(stmt_code(s, c), (Some(0int), true)).1,
{
    lemma_stmt_neutral(s, c, Some(0int), true);
}

/// An optional discarded clause of a `for` is stack-neutral.
proof fn lemma_opt_discard_neutral(e: Option<Expr>, d0: Option<int>, ok: bool)
    requires
        crate::ast::opt_rval_err(e) is None,
        neutral_depth(d0),
    ensures
        scan_ops(crate::ast::opt_discard_code(e), (d0, ok)) == (d0, ok),
{
    let st = (d0, ok);
    match e {
        Some(inner) => {
            if d0 is None {
                lemma_rval_dead(inner, ok);
            } else {
                lemma_rval_depth(inner, 0, ok);
            }
            lemma_scan_app(rval_code(inner), seq![Operation::Pop(RegisterOrNum::Rax)], st);
            lemma_scan1(Operation::Pop(RegisterOrNum::Rax), scan_ops(rval_code(inner), st));
        },
        None => {},
    }
}

/// The generated labels of an instruction sequence, in order of emission.
pub open spec fn labels_of(ops: Seq<Operation>) -> Seq<(LabelKind, int)>
    decreases ops,
{
    if ops.len() == 0 {
        Seq::empty()
    } else {
        labels_of(ops.drop_last()) + (match ops.last() {
            Operation::Label(k, n) => seq![(k, n as int)],
            _ => Seq::empty(),
        })
    }
}

/// No two generated labels of the sequence coincide in both tag and number.
pub open spec fn labels_distinct(sq: Seq<(LabelKind, int)>) -> bool {
    forall|i: int, j: int| 0 <= i < j < sq.len() ==> sq[i] != sq[j]
}

/// Every label number lies in the half-open range `(lo, hi]`.
pub open spec fn labels_in_range(sq: Seq<(LabelKind, int)>, lo: int, hi: int) -> bool {
    forall|i: int| 0 <= i < sq.len() ==> lo < (#[trigger] sq[i]).1 <= hi
}

/// A sequence without `Label` instructions.
pub open spec fn label_free(ops: Seq<Operation>) -> bool {
    forall|i: int| 0 <= i < ops.len() ==> !((#[trigger] ops[i]) is Label)
}

/// The labels of a concatenation are the two parts' labels in order.
proof fn lemma_labels_app(a: Seq<Operation>, b: Seq<Operation>)
    ensures
        labels_of(a + b) == labels_of(a) + labels_of(b),
    decreases b,
{
    if b.len() == 0 {
        assert(a + b =~= a);
        assert(labels_of(a) + labels_of(b) =~= labels_of(a));
    } else {
        assert((a + b).drop_last() =~= a + b.drop_last());
        lemma_labels_app(a, b.drop_last());
        assert(labels_of(a) + labels_of(b) =~= labels_of(a) + labels_of(b.drop_last()) + (
        match b.last() {
            Operation::Label(k, n) => seq![(k, n as int)],
            _ => Seq::empty(),
        }));
    }
}

/// A label-free sequence generates no labels.
proof fn lemma_labels_of_free(ops: Seq<Operation>)
    requires
        label_free(ops),
    ensures
        labels_of(ops) == Seq::<(LabelKind, int)>::empty(),
    decreases ops,
{
    if ops.len() == 0 {
    } else {
        assert(label_free(ops.drop_last()));
        lemma_labels_of_free(ops.drop_last());
        assert(!(ops.last() is Label));
        assert(labels_of(ops) =~= Seq::<(LabelKind, int)>::empty());
    }
}

/// Label-freedom is closed under concatenation.
proof fn lemma_label_free_app(a: Seq<Operation>, b: Seq<Operation>)
    requires
        label_free(a),
        label_free(b),
    ensures
        label_free(a + b),
{
    assert forall|i: int| 0 <= i < (a + b).len() implies !(((a + b)[i]) is Label) by {
        if i < a.len() {
            assert((a + b)[i] == a[i]);
        } else {
            assert((a + b)[i] == b[i - a.len()]);
        }
    }
}

/// Expression code generates no labels.
proof fn lemma_lval_label_free(e: Expr)
    ensures
        label_free(lval_code(e)),
    decreases e, 0int,
{
    match e {
        Expr::Dref(v) => {
            lemma_rval_label_free(*v);
        },
        _ => {},
    }
}

/// Expression code generates no labels.
proof fn lemma_rval_label_free(e: Expr)
    ensures
        label_free(rval_code(e)),
    decreases e, 1int,
{
    match e {
        Expr::Var { name, info } => {
            lemma_lval_label_free(e);
            lemma_label_free_app(lval_code(e), crate::ast::load_top());
        },
        Expr::Integer(n) => {},
        Expr::BinOp { lhs, op, rhs } => {
            if op == Op::Assign {
                lemma_lval_label_free(*lhs);
                lemma_rval_label_free(*rhs);
                lemma_label_free_app(lval_code(*lhs), rval_code(*rhs));
                lemma_label_free_app(
                    lval_code(*lhs) + rval_code(*rhs),
                    seq![
                        Operation::Pop(RegisterOrNum::Rdi),
                        Operation::Pop(RegisterOrNum::Rax),
                        Operation::Store(RegisterOrNum::Rax, RegisterOrNum::Rdi),
                        Operation::Push(RegisterOrNum::Rdi),
                    ],
                );
            } else {
                lemma_rval_label_free(*lhs);
                lemma_rval_label_free(*rhs);
                let both = rval_code(*lhs) + rval_code(*rhs);
                lemma_label_free_app(rval_code(*lhs), rval_code(*rhs));
                lemma_label_free_app(
                    both,
                    seq![Operation::Pop(RegisterOrNum::Rdi), Operation::Pop(RegisterOrNum::Rax)],
                );
                assert(label_free(op_code(op)));
                lemma_label_free_app(
                    both + seq![
                        Operation::Pop(RegisterOrNum::Rdi),
                        Operation::Pop(RegisterOrNum::Rax),
                    ],
                    op_code(op),
                );
                lemma_label_free_app(
                    both + seq![
                        Operation::Pop(RegisterOrNum::Rdi),
                        Operation::Pop(RegisterOrNum::Rax),
                    ] + op_code(op),
                    seq![Operation::Push(RegisterOrNum::Rax)],
                );
            }
        },
        Expr::FunCall { name, args } => {
            let n = args@.len() as int;
            lemma_args_label_free(args@);
            let mv = Operation::Mov(RegisterOrNum::Rax, RegisterOrNum::Num(n as i32));
            lemma_label_free_app(args_code(args@), seq![mv]);
            assert(label_free(arg_pops(n)));
            lemma_label_free_app(args_code(args@) + seq![mv], arg_pops(n));
            lemma_label_free_app(
                args_code(args@) + seq![mv] + arg_pops(n),
                seq![Operation::Call(name), Operation::Push(RegisterOrNum::Rax)],
            );
        },
        Expr::Addr(inner) => {
            lemma_lval_label_free(*inner);
        },
        Expr::Dref(inner) => {
            lemma_rval_label_free(*inner);
            lemma_label_free_app(rval_code(*inner), crate::ast::load_top());
        },
    }
}

/// Argument-list code generates no labels.
proof fn lemma_args_label_free(args: Seq<Expr>)
    ensures
        label_free(args_code(args)),
    decreases args, 0int,
{
    if args.len() == 0 {
    } else {
        lemma_args_label_free(args.drop_last());
        lemma_rval_label_free(args.last());
        lemma_label_free_app(args_code(args.drop_last()), rval_code(args.last()));
    }
}

/// The labels of a one-instruction sequence.
proof fn lemma_labels_of_single(op: Operation)
    ensures
        labels_of(seq![op]) == (match op {
            Operation::Label(k, n) => seq![(k, n as int)],
            _ => Seq::<(LabelKind, int)>::empty(),
        }),
{
    assert(seq![op].drop_last() =~= Seq::<Operation>::empty());
    assert(seq![op].last() == op);
    assert(labels_of(Seq::<Operation>::empty()) =~= Seq::<(LabelKind, int)>::empty());
    assert(labels_of(seq![op]) =~= (match op {
        Operation::Label(k, n) => seq![(k, n as int)],
        _ => Seq::<(LabelKind, int)>::empty(),
    }));
}

/// The labels of a two-instruction sequence.
proof fn lemma_labels_of_pair(a: Operation, b: Operation)
    ensures
        labels_of(seq![a, b]) == labels_of(seq![a]) + labels_of(seq![b]),
{
    assert(seq![a, b] =~= seq![a] + seq![b]);
    lemma_labels_app(seq![a], seq![b]);
}

/// Distinctness is preserved by concatenating label lists whose entries
/// never coincide across the two parts.
proof fn lemma_distinct_app(a: Seq<(LabelKind, int)>, b: Seq<(LabelKind, int)>)
    requires
        labels_distinct(a),
        labels_distinct(b),
        forall|i: int, j: int| 0 <= i < a.len() && 0 <= j < b.len() ==> a[i] != b[j],
    ensures
        labels_distinct(a + b),
{
    assert forall|i: int, j: int| 0 <= i < j < (a + b).len() implies (a + b)[i] != (a + b)[j] by {
        if j < a.len() {
            assert((a + b)[i] == a[i] && (a + b)[j] == a[j]);
        } else if i >= a.len() {
            assert((a + b)[i] == b[i - a.len()] && (a + b)[j] == b[j - a.len()]);
        } else {
            assert((a + b)[i] == a[i] && (a + b)[j] == b[j - a.len()]);
        }
    }
}

/// The labels a statement's code generates: each lies in the window of
/// counter values the statement consumes, and no two coincide.
pub proof fn lemma_stmt_label_window(s: Stmt, c: int)
    requires
        0 <= c,
        c + stmt_labels(s) <= usize::MAX,
    ensures
        labels_in_range(labels_of(stmt_code(s, c)), c, c + stmt_labels(s)),
        labels_distinct(labels_of(stmt_code(s, c))),
    decreases crate::ast::stmt_size(s), 0int,
{
    let lbs = labels_of(stmt_code(s, c));
    match s {
        Stmt::Calc { content } => {
            lemma_rval_label_free(content);
            lemma_label_free_app(
                rval_code(content),
                seq![Operation::Pop(RegisterOrNum::Rax)],
            );
            lemma_labels_of_free(stmt_code(s, c));
        },
        Stmt::Return { expr } => {
            lemma_rval_label_free(expr);
            lemma_label_free_app(
                rval_code(expr),
                seq![Operation::Pop(RegisterOrNum::Rax)] + crate::ast::epilogue_code(),
            );
            assert(stmt_code(s, c) == rval_code(expr) + (seq![Operation::Pop(RegisterOrNum::Rax)]
                + crate::ast::epilogue_code()));
            lemma_labels_of_free(stmt_code(s, c));
        },
        Stmt::If { cond, t_branch, f_branch } => {
            let n = c + 1;
            lemma_rval_label_free(cond);
            lemma_labels_of_free(rval_code(cond));
            match f_branch {
                None => {
                    let br = crate::ast::branch_code(LabelKind::End, n);
                    let lb = Operation::Label(LabelKind::End, n as usize);
                    lemma_labels_of_free(br);
                    lemma_stmt_label_window(*t_branch, n);
                    lemma_labels_app(rval_code(cond), br);
                    lemma_labels_app(rval_code(cond) + br, stmt_code(*t_branch, n));
                    lemma_labels_app(rval_code(cond) + br + stmt_code(*t_branch, n), seq![lb]);
                    lemma_labels_of_single(lb);
                    assert(labels_of(seq![lb]) =~= seq![(LabelKind::End, n)]);
                    assert(stmt_code(s, c) == rval_code(cond) + br + stmt_code(*t_branch, n)
                        + seq![lb]);
                    lemma_distinct_app(
                        labels_of(stmt_code(*t_branch, n)),
                        seq![(LabelKind::End, n)],
                    );
                    assert(lbs =~= labels_of(stmt_code(*t_branch, n)) + seq![(LabelKind::End, n)]);
                },
                Some(f) => {
                    let br = crate::ast::branch_code(LabelKind::Else, n);
                    let mid = seq![
                        Operation::Jmp(LabelKind::End, n as usize),
                        Operation::Label(LabelKind::Else, n as usize),
                    ];
                    let lb = Operation::Label(LabelKind::End, n as usize);
                    let n2 = n + stmt_labels(*t_branch);
                    lemma_labels_of_free(br);
                    lemma_stmt_label_window(*t_branch, n);
                    lemma_stmt_label_window(*f, n2);
                    lemma_labels_app(rval_code(cond), br);
                    lemma_labels_app(rval_code(cond) + br, stmt_code(*t_branch, n));
                    lemma_labels_app(rval_code(cond) + br + stmt_code(*t_branch, n), mid);
                    lemma_labels_of_pair(mid[0], mid[1]);
                    lemma_labels_of_single(mid[0]);
                    lemma_labels_of_single(mid[1]);
                    assert(mid =~= seq![mid[0], mid[1]]);
                    assert(labels_of(mid) =~= seq![(LabelKind::Else, n)]);
                    lemma_labels_app(
                        rval_code(cond) + br + stmt_code(*t_branch, n) + mid,
                        stmt_code(*f, n2),
                    );
                    lemma_labels_app(
                        rval_code(cond) + br + stmt_code(*t_branch, n) + mid + stmt_code(*f, n2),
                        seq![lb],
                    );
                    lemma_labels_of_single(lb);
                    assert(labels_of(seq![lb]) =~= seq![(LabelKind::End, n)]);
                    assert(stmt_code(s, c) == rval_code(cond) + br + stmt_code(*t_branch, n) + mid
                        + stmt_code(*f, n2) + seq![lb]);
                    let lt = labels_of(stmt_code(*t_branch, n));
                    let lf = labels_of(stmt_code(*f, n2));
                    lemma_distinct_app(lt, seq![(LabelKind::Else, n)]);
                    lemma_distinct_app(lt + seq![(LabelKind::Else, n)], lf);
                    lemma_distinct_app(lt + seq![(LabelKind::Else, n)] + lf, seq![
                        (LabelKind::End, n),
                    ]);
                    assert(lbs =~= lt + seq![(LabelKind::Else, n)] + lf + seq![
                        (LabelKind::End, n),
                    ]);
                },
            }
        },
        Stmt::While { cond, content } => {
            let n = c + 1;
            let hd = Operation::Label(LabelKind::Begin, n as usize);
            let br = crate::ast::branch_code(LabelKind::End, n);
            let tl = seq![
                Operation::Jmp(LabelKind::Begin, n as usize),
                Operation::Label(LabelKind::End, n as usize),
            ];
            lemma_rval_label_free(cond);
            lemma_labels_of_free(rval_code(cond));
            lemma_labels_of_free(br);
            lemma_stmt_label_window(*content, n);
            lemma_labels_app(seq![hd], rval_code(cond));
            lemma_labels_of_single(hd);
            assert(labels_of(seq![hd]) =~= seq![(LabelKind::Begin, n)]);
            lemma_labels_app(seq![hd] + rval_code(cond), br);
            lemma_labels_app(seq![hd] + rval_code(cond) + br, stmt_code(*content, n));
            lemma_labels_app(seq![hd] + rval_code(cond) + br + stmt_code(*content, n), tl);
            lemma_labels_of_pair(tl[0], tl[1]);
            lemma_labels_of_single(tl[0]);
            lemma_labels_of_single(tl[1]);
            assert(tl =~= seq![tl[0], tl[1]]);
            assert(labels_of(tl) =~= seq![(LabelKind::End, n)]);
            assert(stmt_code(s, c) == seq![hd] + rval_code(cond) + br + stmt_code(*content, n)
                + tl);
            let lc = labels_of(stmt_code(*content, n));
            lemma_distinct_app(seq![(LabelKind::Begin, n)], lc);
            lemma_distinct_app(seq![(LabelKind::Begin, n)] + lc, seq![(LabelKind::End, n)]);
            assert(lbs =~= seq![(LabelKind::Begin, n)] + lc + seq![(LabelKind::End, n)]);
        },
        Stmt::For { init, cond, tail, content } => {
            let n = c + 1;
            let ini = crate::ast::opt_discard_code(init);
            let hd = Operation::Label(LabelKind::Begin, n as usize);
            let cnd = match cond {
                Some(ce) => rval_code(ce) + crate::ast::branch_code(LabelKind::End, n),
                None => Seq::<Operation>::empty(),
            };
            let tla = crate::ast::opt_discard_code(tail);
            let tl = seq![
                Operation::Jmp(LabelKind::Begin, n as usize),
                Operation::Label(LabelKind::End, n as usize),
            ];
            lemma_opt_discard_label_free(init);
            lemma_opt_discard_label_free(tail);
            lemma_labels_of_free(ini);
            lemma_labels_of_free(tla);
            match cond {
                Some(ce) => {
                    lemma_rval_label_free(ce);
                    lemma_label_free_app(
                        rval_code(ce),
                        crate::ast::branch_code(LabelKind::End, n),
                    );
                    lemma_labels_of_free(cnd);
                },
                None => {},
            }
            lemma_stmt_label_window(*content, n);
            lemma_labels_app(ini, seq![hd]);
            lemma_labels_of_single(hd);
            assert(labels_of(seq![hd]) =~= seq![(LabelKind::Begin, n)]);
            lemma_labels_app(ini + seq![hd], cnd);
            lemma_labels_app(ini + seq![hd] + cnd, stmt_code(*content, n));
            lemma_labels_app(ini + seq![hd] + cnd + stmt_code(*content, n), tla);
            lemma_labels_app(ini + seq![hd] + cnd + stmt_code(*content, n) + tla, tl);
            lemma_labels_of_pair(tl[0], tl[1]);
            lemma_labels_of_single(tl[0]);
            lemma_labels_of_single(tl[1]);
            assert(tl =~= seq![tl[0], tl[1]]);
            assert(labels_of(tl) =~= seq![(LabelKind::End, n)]);
            assert(stmt_code(s, c) == ini + seq![hd] + cnd + stmt_code(*content, n) + tla + tl);
            let lc = labels_of(stmt_code(*content, n));
            lemma_distinct_app(seq![(LabelKind::Begin, n)], lc);
            lemma_distinct_app(seq![(LabelKind::Begin, n)] + lc, seq![(LabelKind::End, n)]);
            assert(lbs =~= seq![(LabelKind::Begin, n)] + lc + seq![(LabelKind::End, n)]);
        },
        Stmt::Block(v) => {
            lemma_block_label_window(v@, c);
        },
        Stmt::Declare => {
            assert(stmt_code(s, c) =~= Seq::<Operation>::empty());
        },
    }
}

/// An optional discarded clause generates no labels.
proof fn lemma_opt_discard_label_free(e: Option<Expr>)
    ensures
        label_free(crate::ast::opt_discard_code(e)),
{
    match e {
        Some(inner) => {
            lemma_rval_label_free(inner);
            lemma_label_free_app(rval_code(inner), seq![Operation::Pop(RegisterOrNum::Rax)]);
        },
        None => {},
    }
}

/// The labels a block's code generates lie in the block's counter window,
/// and no two coincide.
pub proof fn lemma_block_label_window(ss: Seq<Stmt>, c: int)
    requires
        0 <= c,
        c + block_labels(ss) <= usize::MAX,
    ensures
        labels_in_range(labels_of(block_code(ss, c)), c, c + block_labels(ss)),
        labels_distinct(labels_of(block_code(ss, c))),
    decreases crate::ast::block_size(ss), 1int,
{
    if ss.len() == 0 {
    } else {
        let pre = block_code(ss.drop_last(), c);
        let c2 = c + block_labels(ss.drop_last());
        assert(crate::ast::stmt_size(ss.last()) >= 1);
        lemma_block_label_window(ss.drop_last(), c);
        lemma_stmt_label_window(ss.last(), c2);
        lemma_labels_app(pre, stmt_code(ss.last(), c2));
    }
}

/// Argument copying generates no labels.
proof fn lemma_arg_stores_label_free(n: int)
    ensures
        label_free(crate::ast::arg_stores(n)),
    decreases n,
{
    if n <= 0 {
    } else {
        lemma_arg_stores_label_free(n - 1);
        lemma_label_free_app(
            crate::ast::arg_stores(n - 1),
            seq![
                Operation::Sub(RegisterOrNum::Rax, RegisterOrNum::Num(8)),
                Operation::Store(RegisterOrNum::Rax, arg_reg(n - 1)),
            ],
        );
    }
}

/// The labels a function's code generates are exactly its body's: the
/// prologue, argument copying and epilogue generate none.
pub proof fn lemma_func_label_window(f: crate::ast::FuncDef, c: int)
    requires
        0 <= c,
        c + block_labels(f.body@) <= usize::MAX,
    ensures
        labels_in_range(
            labels_of(crate::ast::func_code(f, c)),
            c,
            c + block_labels(f.body@),
        ),
        labels_distinct(labels_of(crate::ast::func_code(f, c))),
{
    let head = seq![
        Operation::Func(f.name),
        Operation::Push(RegisterOrNum::Rbp),
        Operation::Mov(RegisterOrNum::Rbp, RegisterOrNum::Rsp),
        Operation::Sub(RegisterOrNum::Rsp, RegisterOrNum::Num(f.local_area as i32)),
        Operation::Mov(RegisterOrNum::Rax, RegisterOrNum::Rbp),
    ];
    let stores = crate::ast::arg_stores(f.args@.len() as int);
    let body = block_code(f.body@, c);
    let tail = crate::ast::epilogue_code();
    assert(label_free(head));
    lemma_arg_stores_label_free(f.args@.len() as int);
    lemma_label_free_app(head, stores);
    lemma_labels_of_free(head + stores);
    assert(label_free(tail));
    lemma_labels_of_free(tail);
    lemma_block_label_window(f.body@, c);
    lemma_labels_app(head + stores, body);
    lemma_labels_app(head + stores + body, tail);
    assert(crate::ast::func_code(f, c) == head + stores + body + tail);
    assert(labels_of(crate::ast::func_code(f, c)) =~= labels_of(body));
}

/// The labels of a whole program's code lie in the program's counter
/// window, and no two coincide: every generated label number is used for
/// exactly one construct across all functions of the file.
pub proof fn lemma_program_label_window(fs: Seq<crate::ast::FuncDef>, c: int)
    requires
        0 <= c,
        c + crate::ast::program_labels(fs) <= usize::MAX,
    ensures
        labels_in_range(
            labels_of(crate::ast::program_code(fs, c)),
            c,
            c + crate::ast::program_labels(fs),
        ),
        labels_distinct(labels_of(crate::ast::program_code(fs, c))),
    decreases fs,
{
    if fs.len() == 0 {
    } else {
        let pre = crate::ast::program_code(fs.drop_last(), c);
        let c2 = c + crate::ast::program_labels(fs.drop_last());
        lemma_program_label_window(fs.drop_last(), c);
        lemma_func_label_window(fs.last(), c2);
        lemma_labels_app(pre, crate::ast::func_code(fs.last(), c2));
    }
}

/// Every generated label is unique across the entire emitted file: the
/// label numbers of a compilation that starts its counter at zero never
/// repeat for the same tag.
pub proof fn lemma_label_uniqueness(fs: Seq<crate::ast::FuncDef>)
    requires
        crate::ast::program_labels(fs) <= usize::MAX,
    ensures
        labels_distinct(labels_of(crate::ast::program_code(fs, 0))),
{
    lemma_program_label_window(fs, 0);
}

/// A block of statements is stack-neutral.
proof fn lemma_block_neutral(ss: Seq<Stmt>, c: int, d0: Option<int>, ok: bool)
    requires
        block_err(ss) is None,
        neutral_depth(d0),
    ensures
        neutral_depth(scan_ops(block_code(ss, c), (d0, ok)).0),
        scan_ops(block_code(ss, c), (d0, ok)).1 == ok,
    decreases crate::ast::block_size(ss), 1int,
{
    if ss.len() == 0 {
    } else {
        let pre = block_code(ss.drop_last(), c);
        let c2 = c + block_labels(ss.drop_last());
        assert(crate::ast::stmt_size(ss.last()) >= 1);
        lemma_block_neutral(ss.drop_last(), c, d0, ok);
        let st1 = scan_ops(pre, (d0, ok));
        lemma_stmt_neutral(ss.last(), c2, st1.0, st1.1);
        lemma_scan_app(pre, stmt_code(ss.last(), c2), (d0, ok));
    }
}

} // verus!
