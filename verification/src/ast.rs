//! The typed syntax tree and the stack-machine code generator.
//!
//! Code generation follows a stack-machine discipline: the code of every
//! expression leaves exactly one value on the runtime stack, and the code of
//! every statement leaves the stack depth unchanged. The exact instruction
//! sequence emitted for each node is given by the spec functions
//! [`lval_code`], [`rval_code`], [`stmt_code`] and [`func_code`], and each
//! generator's contract states that it appends precisely that sequence.

use vstd::prelude::*;

use crate::binary::{LabelKind, Operation, RegisterOrNum};
use crate::typing::Type;

verus! {

/// What the symbol environment records for one local variable: its stack
/// slot (bytes below the frame base pointer) and its declared type.
#[derive(Debug)]
pub struct ValInfo {
    pub offset: usize,
    pub ty: Type,
}

impl Clone for ValInfo {
    fn clone(&self) -> (r: ValInfo)
        ensures
            r == *self,
    {
        ValInfo { offset: self.offset, ty: self.ty.clone() }
    }
}

impl ValInfo {
    pub fn new(offset: usize, ty: Type) -> (r: ValInfo)
        ensures
            r.offset == offset,
            r.ty == ty,
    {
        ValInfo { offset, ty }
    }
}

/// An expression. `Var` carries the `ValInfo` recorded at its declaration;
/// assignment is a `BinOp` whose operator is `Op::Assign`.
#[derive(Debug)]
pub enum Expr {
    Var { name: String, info: ValInfo },
    Integer(i32),
    BinOp { lhs: Box<Expr>, op: Op, rhs: Box<Expr> },
    FunCall { name: String, args: Vec<Expr> },
    Addr(Box<Expr>),
    Dref(Box<Expr>),
}

/// A statement. `Calc` is an expression statement whose value is discarded;
/// `Declare` allocates a slot at parse time and generates no code.
#[derive(Debug)]
pub enum Stmt {
    Calc { content: Expr },
    Return { expr: Expr },
    If { cond: Expr, t_branch: Box<Stmt>, f_branch: Option<Box<Stmt>> },
    While { cond: Expr, content: Box<Stmt> },
    For { init: Option<Expr>, cond: Option<Expr>, tail: Option<Expr>, content: Box<Stmt> },
    Block(Vec<Stmt>),
    Declare,
}

/// A function definition. `local_area` is the number of bytes the prologue
/// reserves for parameters and locals, always a multiple of 16.
#[derive(Debug)]
pub struct FuncDef {
    pub name: String,
    pub res_type: Type,
    pub args: Vec<(Type, String)>,
    pub body: Vec<Stmt>,
    pub local_area: usize,
}

impl FuncDef {
    pub fn new(
        name: String,
        res_type: Type,
        args: Vec<(Type, String)>,
        body: Vec<Stmt>,
        local_area: usize,
    ) -> (r: FuncDef)
        ensures
            r.name == name,
            r.res_type == res_type,
            r.args == args,
            r.body == body,
            r.local_area == local_area,
    {
        FuncDef { name, res_type, args, body, local_area }
    }
}

/// A binary operator. `Assign` requires its left operand to be an lvalue.
#[derive(Debug, Clone, Copy, PartialEq, Eq, Structural)]
pub enum Op {
    Add,
    Sub,
    Mul,
    Div,
    Eq,
    Neq,
    Lt,
    Le,
    Gt,
    Ge,
    Assign,
}

/// Why code generation rejected a tree.
#[derive(Debug, Clone, Copy, PartialEq, Eq, Structural)]
pub enum CodegenError {
    /// The left operand of an assignment is neither a variable nor a
    /// dereference.
    NotLvalue,
    /// A call or definition involves more than six arguments.
    TooManyArgs,
    /// A variable offset or local area does not fit a 32-bit immediate.
    OffsetTooLarge,
    /// The label counter would overflow.
    TooManyLabels,
}

/// The first of two possible errors, in evaluation order.
pub open spec fn err_or(a: Option<CodegenError>, b: Option<CodegenError>) -> Option<
    CodegenError,
> {
    if a is Some {
        a
    } else {
        b
    }
}

/// The error, if any, that address generation reports for `e`: only
/// variables and dereferences are lvalues.
pub open spec fn lval_err(e: Expr) -> Option<CodegenError>
    decreases e,
{
    match e {
        Expr::Var { name, info } => if info.offset > i32::MAX as usize {
            Some(CodegenError::OffsetTooLarge)
        } else {
            None
        },
        Expr::Dref(v) => rval_err(*v),
        _ => Some(CodegenError::NotLvalue),
    }
}

/// The error, if any, that value generation reports for `e`, in the order
/// the generator walks the tree.
pub open spec fn rval_err(e: Expr) -> Option<CodegenError>
    decreases e,
{
    match e {
        Expr::Var { name, info } => if info.offset > i32::MAX as usize {
            Some(CodegenError::OffsetTooLarge)
        } else {
            None
        },
        Expr::Integer(n) => None,
        Expr::BinOp { lhs, op, rhs } => if op == Op::Assign {
            err_or(lval_err(*lhs), rval_err(*rhs))
        } else {
            err_or(rval_err(*lhs), rval_err(*rhs))
        },
        Expr::FunCall { name, args } => err_or(
            args_err(args@),
            if args@.len() > 6 {
                Some(CodegenError::TooManyArgs)
            } else {
                None
            },
        ),
        Expr::Addr(inner) => lval_err(*inner),
        Expr::Dref(inner) => rval_err(*inner),
    }
}

/// The first error among the argument expressions of a call.
pub open spec fn args_err(args: Seq<Expr>) -> Option<CodegenError>
    decreases args,
{
    if args.len() == 0 {
        None
    } else {
        err_or(args_err(args.drop_last()), rval_err(args.last()))
    }
}

/// The SysV AMD64 integer argument registers, in order.
pub open spec fn arg_reg(i: int) -> RegisterOrNum {
    if i == 0 {
        RegisterOrNum::Rdi
    } else if i == 1 {
        RegisterOrNum::Rsi
    } else if i == 2 {
        RegisterOrNum::Rdx
    } else if i == 3 {
        RegisterOrNum::Rcx
    } else if i == 4 {
        RegisterOrNum::R8
    } else {
        RegisterOrNum::R9
    }
}

/// The instructions that combine the two popped operands of a non-assignment
/// binary operator: left in `rax`, right in `rdi`, result left in `rax`.
pub open spec fn op_code(op: Op) -> Seq<Operation> {
    match op {
        Op::Add => seq![Operation::Add(RegisterOrNum::Rax, RegisterOrNum::Rdi)],
        Op::Sub => seq![Operation::Sub(RegisterOrNum::Rax, RegisterOrNum::Rdi)],
        Op::Mul => seq![Operation::Imul(RegisterOrNum::Rax, RegisterOrNum::Rdi)],
        Op::Div => seq![Operation::Cqo, Operation::Idiv(RegisterOrNum::Rdi)],
        Op::Eq => seq![
            Operation::Cmp(RegisterOrNum::Rax, RegisterOrNum::Rdi),
            Operation::Sete(RegisterOrNum::Al),
            Operation::Movzb(RegisterOrNum::Rax, RegisterOrNum::Al),
        ],
        Op::Neq => seq![
            Operation::Cmp(RegisterOrNum::Rax, RegisterOrNum::Rdi),
            Operation::Setne(RegisterOrNum::Al),
            Operation::Movzb(RegisterOrNum::Rax, RegisterOrNum::Al),
        ],
        Op::Lt => seq![
            Operation::Cmp(RegisterOrNum::Rax, RegisterOrNum::Rdi),
            Operation::Setl(RegisterOrNum::Al),
            Operation::Movzb(RegisterOrNum::Rax, RegisterOrNum::Al),
        ],
        Op::Le => seq![
            Operation::Cmp(RegisterOrNum::Rax, RegisterOrNum::Rdi),
            Operation::Setle(RegisterOrNum::Al),
            Operation::Movzb(RegisterOrNum::Rax, RegisterOrNum::Al),
        ],
        Op::Gt => seq![
            Operation::Cmp(RegisterOrNum::Rdi, RegisterOrNum::Rax),
            Operation::Setl(RegisterOrNum::Al),
            Operation::Movzb(RegisterOrNum::Rax, RegisterOrNum::Al),
        ],
        Op::Ge => seq![
            Operation::Cmp(RegisterOrNum::Rdi, RegisterOrNum::Rax),
            Operation::Setle(RegisterOrNum::Al),
            Operation::Movzb(RegisterOrNum::Rax, RegisterOrNum::Al),
        ],
        Op::Assign => seq![],
    }
}

/// The code that pushes the address of the lvalue `e`.
pub open spec fn lval_code(e: Expr) -> Seq<Operation>
    decreases e, 0int,
{
    match e {
        Expr::Var { name, info } => seq![
            Operation::Mov(RegisterOrNum::Rax, RegisterOrNum::Rbp),
            Operation::Sub(RegisterOrNum::Rax, RegisterOrNum::Num(info.offset as i32)),
            Operation::Push(RegisterOrNum::Rax),
        ],
        Expr::Dref(v) => rval_code(*v),
        _ => seq![],
    }
}

/// The code that loads the 8-byte value at the address on top of the stack.
pub open spec fn load_top() -> Seq<Operation> {
    seq![
        Operation::Pop(RegisterOrNum::Rax),
        Operation::Load(RegisterOrNum::Rax, RegisterOrNum::Rax),
        Operation::Push(RegisterOrNum::Rax),
    ]
}

/// The code that pushes the value of the expression `e`.
pub open spec fn rval_code(e: Expr) -> Seq<Operation>
    decreases e, 1int,
{
    match e {
        Expr::Var { name, info } => lval_code(e) + load_top(),
        Expr::Integer(n) => seq![Operation::Push(RegisterOrNum::Num(n))],
        Expr::BinOp { lhs, op, rhs } => if op == Op::Assign {
            lval_code(*lhs) + rval_code(*rhs) + seq![
                Operation::Pop(RegisterOrNum::Rdi),
                Operation::Pop(RegisterOrNum::Rax),
                Operation::Store(RegisterOrNum::Rax, RegisterOrNum::Rdi),
                Operation::Push(RegisterOrNum::Rdi),
            ]
        } else {
            rval_code(*lhs) + rval_code(*rhs) + seq![
                Operation::Pop(RegisterOrNum::Rdi),
                Operation::Pop(RegisterOrNum::Rax),
            ] + op_code(op) + seq![Operation::Push(RegisterOrNum::Rax)]
        },
        Expr::FunCall { name, args } => args_code(args@) + seq![
            Operation::Mov(RegisterOrNum::Rax, RegisterOrNum::Num(args@.len() as i32)),
        ] + arg_pops(args@.len() as int) + seq![
            Operation::Call(name),
            Operation::Push(RegisterOrNum::Rax),
        ],
        Expr::Addr(inner) => lval_code(*inner),
        Expr::Dref(inner) => rval_code(*inner) + load_top(),
    }
}

/// The code of a call's argument expressions, evaluated left to right.
pub open spec fn args_code(args: Seq<Expr>) -> Seq<Operation>
    decreases args, 0int,
{
    if args.len() == 0 {
        seq![]
    } else {
        args_code(args.drop_last()) + rval_code(args.last())
    }
}

/// The pops that move `n` argument values from the stack into the argument
/// registers, last argument first.
pub open spec fn arg_pops(n: int) -> Seq<Operation> {
    Seq::new(n as nat, |i: int| Operation::Pop(arg_reg(n - 1 - i)))
}

/// How many label numbers the code of `s` consumes.
pub open spec fn stmt_labels(s: Stmt) -> nat
    decreases s,
{
    match s {
        Stmt::If { cond, t_branch, f_branch } => 1 + stmt_labels(*t_branch) + match f_branch {
            Some(f) => stmt_labels(*f),
            None => 0nat,
        },
        Stmt::While { cond, content } => 1 + stmt_labels(*content),
        Stmt::For { init, cond, tail, content } => 1 + stmt_labels(*content),
        Stmt::Block(v) => block_labels(v@),
        _ => 0,
    }
}

/// How many label numbers the statements of a block consume together.
pub open spec fn block_labels(ss: Seq<Stmt>) -> nat
    decreases ss,
{
    if ss.len() == 0 {
        0
    } else {
        block_labels(ss.drop_last()) + stmt_labels(ss.last())
    }
}

/// The error, if any, that generating code for `s` reports, in the order
/// the generator walks the tree.
pub open spec fn stmt_err(s: Stmt) -> Option<CodegenError>
    decreases s,
{
    match s {
        Stmt::Calc { content } => rval_err(content),
        Stmt::Return { expr } => rval_err(expr),
        Stmt::If { cond, t_branch, f_branch } => err_or(
            rval_err(cond),
            err_or(
                stmt_err(*t_branch),
                match f_branch {
                    Some(f) => stmt_err(*f),
                    None => None,
                },
            ),
        ),
        Stmt::While { cond, content } => err_or(rval_err(cond), stmt_err(*content)),
        Stmt::For { init, cond, tail, content } => err_or(
            opt_rval_err(init),
            err_or(opt_rval_err(cond), err_or(stmt_err(*content), opt_rval_err(tail))),
        ),
        Stmt::Block(v) => block_err(v@),
        Stmt::Declare => None,
    }
}

/// The error of an optional clause expression, when it is present.
pub open spec fn opt_rval_err(e: Option<Expr>) -> Option<CodegenError> {
    match e {
        Some(e) => rval_err(e),
        None => None,
    }
}

/// The first error among the statements of a block.
pub open spec fn block_err(ss: Seq<Stmt>) -> Option<CodegenError>
    decreases ss,
{
    if ss.len() == 0 {
        None
    } else {
        err_or(block_err(ss.drop_last()), stmt_err(ss.last()))
    }
}

/// The code that pops a condition value and jumps to `.L<kind><n>` when it
/// is zero.
pub open spec fn branch_code(kind: LabelKind, n: int) -> Seq<Operation> {
    seq![
        Operation::Pop(RegisterOrNum::Rax),
        Operation::Cmp(RegisterOrNum::Rax, RegisterOrNum::Num(0)),
        Operation::Je(kind, n as usize),
    ]
}

/// The function epilogue: restore the caller's frame and return.
pub open spec fn epilogue_code() -> Seq<Operation> {
    seq![
        Operation::Mov(RegisterOrNum::Rsp, RegisterOrNum::Rbp),
        Operation::Pop(RegisterOrNum::Rbp),
        Operation::Ret,
    ]
}

/// The code of the statement `s` when the label counter stands at `c`:
/// every control-flow construct takes the next counter value as its label
/// number and hands the counter on to its substatements. The value of a
/// `for` initializer or tail expression is discarded like an expression
/// statement's, so that every statement leaves the stack depth unchanged.
pub open spec fn stmt_code(s: Stmt, c: int) -> Seq<Operation>
    decreases s,
{
    match s {
        Stmt::Calc { content } => rval_code(content) + seq![Operation::Pop(RegisterOrNum::Rax)],
        Stmt::Return { expr } => rval_code(expr) + seq![Operation::Pop(RegisterOrNum::Rax)]
            + epilogue_code(),
        Stmt::If { cond, t_branch, f_branch } => match f_branch {
            None => rval_code(cond) + branch_code(LabelKind::End, c + 1) + stmt_code(
                *t_branch,
                c + 1,
            ) + seq![Operation::Label(LabelKind::End, (c + 1) as usize)],
            Some(f) => rval_code(cond) + branch_code(LabelKind::Else, c + 1) + stmt_code(
                *t_branch,
                c + 1,
            ) + seq![
                Operation::Jmp(LabelKind::End, (c + 1) as usize),
                Operation::Label(LabelKind::Else, (c + 1) as usize),
            ] + stmt_code(*f, c + 1 + stmt_labels(*t_branch)) + seq![
                Operation::Label(LabelKind::End, (c + 1) as usize),
            ],
        },
        Stmt::While { cond, content } => seq![
            Operation::Label(LabelKind::Begin, (c + 1) as usize),
        ] + rval_code(cond) + branch_code(LabelKind::End, c + 1) + stmt_code(*content, c + 1)
            + seq![
            Operation::Jmp(LabelKind::Begin, (c + 1) as usize),
            Operation::Label(LabelKind::End, (c + 1) as usize),
        ],
        Stmt::For { init, cond, tail, content } => opt_discard_code(init) + seq![
            Operation::Label(LabelKind::Begin, (c + 1) as usize),
        ] + (match cond {
            Some(ce) => rval_code(ce) + branch_code(LabelKind::End, c + 1),
            None => seq![],
        }) + stmt_code(*content, c + 1) + opt_discard_code(tail) + seq![
            Operation::Jmp(LabelKind::Begin, (c + 1) as usize),
            Operation::Label(LabelKind::End, (c + 1) as usize),
        ],
        Stmt::Block(v) => block_code(v@, c),
        Stmt::Declare => seq![],
    }
}

/// The code of an optional clause expression whose value is discarded.
pub open spec fn opt_discard_code(e: Option<Expr>) -> Seq<Operation> {
    match e {
        Some(e) => rval_code(e) + seq![Operation::Pop(RegisterOrNum::Rax)],
        None => seq![],
    }
}

/// The code of a block: each statement's code in order, the counter
/// threaded through.
pub open spec fn block_code(ss: Seq<Stmt>, c: int) -> Seq<Operation>
    decreases ss,
{
    if ss.len() == 0 {
        seq![]
    } else {
        block_code(ss.drop_last(), c) + stmt_code(ss.last(), c + block_labels(ss.drop_last()))
    }
}

/// The stores that copy the first `n` argument registers into the first `n`
/// local slots, `rax` walking down from the frame base.
pub open spec fn arg_stores(n: int) -> Seq<Operation>
    decreases n,
{
    if n <= 0 {
        seq![]
    } else {
        arg_stores(n - 1) + seq![
            Operation::Sub(RegisterOrNum::Rax, RegisterOrNum::Num(8)),
            Operation::Store(RegisterOrNum::Rax, arg_reg(n - 1)),
        ]
    }
}

/// The error, if any, that generating code for the function `f` reports.
pub open spec fn func_err(f: FuncDef) -> Option<CodegenError> {
    if f.args@.len() > 6 {
        Some(CodegenError::TooManyArgs)
    } else if f.local_area > i32::MAX as usize {
        Some(CodegenError::OffsetTooLarge)
    } else {
        block_err(f.body@)
    }
}

/// The code of the function `f` when the label counter stands at `c`:
/// entry label, prologue reserving `local_area` bytes, argument copying,
/// body, and the default epilogue.
pub open spec fn func_code(f: FuncDef, c: int) -> Seq<Operation> {
    seq![
        Operation::Func(f.name),
        Operation::Push(RegisterOrNum::Rbp),
        Operation::Mov(RegisterOrNum::Rbp, RegisterOrNum::Rsp),
        Operation::Sub(RegisterOrNum::Rsp, RegisterOrNum::Num(f.local_area as i32)),
        Operation::Mov(RegisterOrNum::Rax, RegisterOrNum::Rbp),
    ] + arg_stores(f.args@.len() as int) + block_code(f.body@, c) + epilogue_code()
}

/// What a node's `to_assembly` does: `asm_err` is the error it reports for
/// a counter standing at `c`, `asm_labels` how many label numbers it
/// consumes, and `asm_code` the exact instruction sequence it appends.
pub trait GenAssembly {
    spec fn asm_err(&self, c: int) -> Option<CodegenError>;

    spec fn asm_labels(&self) -> nat;

    spec fn asm_code(&self, c: int) -> Seq<Operation>;

    /// Appends this node's code to `out`. Either the whole code is appended
    /// and the label counter advances past every label number the code uses,
    /// or the error is returned and nothing changes.
    fn to_assembly(&self, out: &mut Vec<Operation>, label_counter: &mut usize) -> (r: Result<
        (),
        CodegenError,
    >)
        ensures
            match self.asm_err(*old(label_counter) as int) {
                None => {
                    &&& r is Ok
                    &&& final(out)@ == old(out)@ + self.asm_code(*old(label_counter) as int)
                    &&& *final(label_counter) == *old(label_counter) + self.asm_labels()
                },
                Some(e) => {
                    &&& r == Err::<(), CodegenError>(e)
                    &&& final(out)@ == old(out)@
                    &&& *final(label_counter) == *old(label_counter)
                },
            },
    ;
}

/// The number of nodes in an expression, the measure that the executable
/// recursion over expressions decreases.
pub open spec fn expr_size(e: Expr) -> nat
    decreases e,
{
    match e {
        Expr::BinOp { lhs, op, rhs } => 1 + expr_size(*lhs) + expr_size(*rhs),
        Expr::FunCall { name, args } => 1 + args_size(args@),
        Expr::Addr(inner) => 1 + expr_size(*inner),
        Expr::Dref(inner) => 1 + expr_size(*inner),
        _ => 1,
    }
}

/// The total number of nodes in a list of argument expressions.
pub open spec fn args_size(args: Seq<Expr>) -> nat
    decreases args,
{
    if args.len() == 0 {
        0
    } else {
        args_size(args.drop_last()) + expr_size(args.last())
    }
}

/// Each argument is no larger than the whole argument list.
proof fn lemma_args_size_element(args: Seq<Expr>, i: int)
    requires
        0 <= i < args.len(),
    ensures
        expr_size(args[i]) <= args_size(args),
    decreases args.len(),
{
    if i == args.len() - 1 {
    } else {
        lemma_args_size_element(args.drop_last(), i);
        assert(args.drop_last()[i] == args[i]);
    }
}

/// The SysV argument register for position `i`, as executable code.
fn arg_register(i: usize) -> (r: RegisterOrNum)
    requires
        i < 6,
    ensures
        r == arg_reg(i as int),
{
    if i == 0 {
        RegisterOrNum::Rdi
    } else if i == 1 {
        RegisterOrNum::Rsi
    } else if i == 2 {
        RegisterOrNum::Rdx
    } else if i == 3 {
        RegisterOrNum::Rcx
    } else if i == 4 {
        RegisterOrNum::R8
    } else {
        RegisterOrNum::R9
    }
}

/// Reports the error that address generation would hit on `e`.
fn check_lval(e: &Expr) -> (r: Option<CodegenError>)
    ensures
        r == lval_err(*e),
    decreases expr_size(*e), 0int,
{
    match e {
        Expr::Var { name, info } => {
            if info.offset > 0x7fff_ffff {
                Some(CodegenError::OffsetTooLarge)
            } else {
                None
            }
        },
        Expr::Dref(v) => check_rval(v),
        _ => Some(CodegenError::NotLvalue),
    }
}

/// Reports the error that value generation would hit on `e`.
#[verifier::loop_isolation(false)]
fn check_rval(e: &Expr) -> (r: Option<CodegenError>)
    ensures
        r == rval_err(*e),
    decreases expr_size(*e), 1int,
{
    match e {
        Expr::Var { name, info } => {
            if info.offset > 0x7fff_ffff {
                Some(CodegenError::OffsetTooLarge)
            } else {
                None
            }
        },
        Expr::Integer(n) => None,
        Expr::BinOp { lhs, op, rhs } => {
            let first = if *op == Op::Assign {
                check_lval(lhs)
            } else {
                check_rval(lhs)
            };
            match first {
                Some(er) => Some(er),
                None => check_rval(rhs),
            }
        },
        Expr::FunCall { name, args } => {
            let mut i: usize = 0;
            while i < args.len()
                invariant
                    i <= args@.len(),
                    args_err(args@.take(i as int)) is None,
                decreases args@.len() - i,
            {
                proof {
                    lemma_args_size_element(args@, i as int);
                }
                let r = check_rval(&args[i]);
                proof {
                    assert(args@.take(i + 1).drop_last() =~= args@.take(i as int));
                    assert(args@.take(i + 1).last() == args@[i as int]);
                }
                if let Some(er) = r {
                    proof {
                        lemma_args_err_prefix(args@, i as int);
                    }
                    return Some(er);
                }
                i = i + 1;
            }
            proof {
                assert(args@.take(args@.len() as int) =~= args@);
            }
            if args.len() > 6 {
                Some(CodegenError::TooManyArgs)
            } else {
                None
            }
        },
        Expr::Addr(inner) => check_lval(inner),
        Expr::Dref(inner) => check_rval(inner),
    }
}

/// The number of nodes in a statement, the measure that the executable
/// recursion over statements decreases.
pub open spec fn stmt_size(s: Stmt) -> nat
    decreases s,
{
    match s {
        Stmt::Calc { content } => 1 + expr_size(content),
        Stmt::Return { expr } => 1 + expr_size(expr),
        Stmt::If { cond, t_branch, f_branch } => 1 + expr_size(cond) + stmt_size(*t_branch)
            + match f_branch {
            Some(f) => stmt_size(*f),
            None => 0nat,
        },
        Stmt::While { cond, content } => 1 + expr_size(cond) + stmt_size(*content),
        Stmt::For { init, cond, tail, content } => 1 + opt_expr_size(init) + opt_expr_size(cond)
            + opt_expr_size(tail) + stmt_size(*content),
        Stmt::Block(v) => 1 + block_size(v@),
        Stmt::Declare => 1,
    }
}

/// The number of nodes in an optional clause expression.
pub open spec fn opt_expr_size(e: Option<Expr>) -> nat {
    match e {
        Some(e) => expr_size(e),
        None => 0,
    }
}

/// The total number of nodes in the statements of a block.
pub open spec fn block_size(ss: Seq<Stmt>) -> nat
    decreases ss,
{
    if ss.len() == 0 {
        0
    } else {
        block_size(ss.drop_last()) + stmt_size(ss.last())
    }
}

/// Each statement is no larger than the whole block.
proof fn lemma_block_size_element(ss: Seq<Stmt>, i: int)
    requires
        0 <= i < ss.len(),
    ensures
        stmt_size(ss[i]) <= block_size(ss),
    decreases ss.len(),
{
    if i == ss.len() - 1 {
    } else {
        lemma_block_size_element(ss.drop_last(), i);
        assert(ss.drop_last()[i] == ss[i]);
    }
}

/// A prefix of a block consumes no more label numbers than the whole block.
proof fn lemma_block_labels_take_le(ss: Seq<Stmt>, j: int)
    requires
        0 <= j <= ss.len(),
    ensures
        block_labels(ss.take(j)) <= block_labels(ss),
    decreases ss.len(),
{
    if j == ss.len() {
        assert(ss.take(j) =~= ss);
    } else {
        assert(ss.drop_last().take(j) =~= ss.take(j));
        lemma_block_labels_take_le(ss.drop_last(), j);
    }
}

/// When the first `i` statements are clean and statement `i` is in error,
/// the whole block reports statement `i`'s error.
proof fn lemma_block_err_prefix(ss: Seq<Stmt>, i: int)
    requires
        0 <= i < ss.len(),
        block_err(ss.take(i)) is None,
        stmt_err(ss[i]) is Some,
    ensures
        block_err(ss) == stmt_err(ss[i]),
    decreases ss.len(),
{
    if i == ss.len() - 1 {
        assert(ss.drop_last() =~= ss.take(i));
    } else {
        assert(ss.drop_last().take(i) =~= ss.take(i));
        assert(ss.drop_last()[i] == ss[i]);
        lemma_block_err_prefix(ss.drop_last(), i);
    }
}

/// When the first `i` arguments are clean and argument `i` is in error,
/// the whole argument list reports argument `i`'s error.
proof fn lemma_args_err_prefix(args: Seq<Expr>, i: int)
    requires
        0 <= i < args.len(),
        args_err(args.take(i)) is None,
        rval_err(args[i]) is Some,
    ensures
        args_err(args) == rval_err(args[i]),
    decreases args.len(),
{
    if i == args.len() - 1 {
        assert(args.drop_last() =~= args.take(i));
    } else {
        assert(args.drop_last().take(i) =~= args.take(i));
        assert(args.drop_last()[i] == args[i]);
        lemma_args_err_prefix(args.drop_last(), i);
    }
}

/// When an argument list is clean, so is each of its arguments.
proof fn lemma_args_err_element(args: Seq<Expr>, i: int)
    requires
        0 <= i < args.len(),
        args_err(args) is None,
    ensures
        rval_err(args[i]) is None,
    decreases args.len(),
{
    if i < args.len() - 1 {
        lemma_args_err_element(args.drop_last(), i);
        assert(args.drop_last()[i] == args[i]);
    }
}

/// Appends the code that pushes the address of the lvalue `e`.
fn gen_lval(e: &Expr, out: &mut Vec<Operation>)
    requires
        lval_err(*e) is None,
    ensures
        final(out)@ == old(out)@ + lval_code(*e),
    decreases expr_size(*e), 0int,
{
    match e {
        Expr::Var { name, info } => {
            out.push(Operation::Mov(RegisterOrNum::Rax, RegisterOrNum::Rbp));
            out.push(Operation::Sub(RegisterOrNum::Rax, RegisterOrNum::Num(info.offset as i32)));
            out.push(Operation::Push(RegisterOrNum::Rax));
            assert(out@ =~= old(out)@ + lval_code(*e));
        },
        Expr::Dref(v) => {
            gen_rval(v, out);
        },
        _ => {
            proof {
                assert(false);
            }
        },
    }
}

/// Appends the code that pushes the value of the expression `e`.
#[verifier::loop_isolation(false)]
fn gen_rval(e: &Expr, out: &mut Vec<Operation>)
    requires
        rval_err(*e) is None,
    ensures
        final(out)@ == old(out)@ + rval_code(*e),
    decreases expr_size(*e), 1int,
{
    match e {
        Expr::Var { name, info } => {
            gen_lval(e, out);
            out.push(Operation::Pop(RegisterOrNum::Rax));
            out.push(Operation::Load(RegisterOrNum::Rax, RegisterOrNum::Rax));
            out.push(Operation::Push(RegisterOrNum::Rax));
            assert(out@ =~= old(out)@ + rval_code(*e));
        },
        Expr::Integer(n) => {
            out.push(Operation::Push(RegisterOrNum::Num(*n)));
            assert(out@ =~= old(out)@ + rval_code(*e));
        },
        Expr::BinOp { lhs, op, rhs } => {
            if *op == Op::Assign {
                gen_lval(lhs, out);
                gen_rval(rhs, out);
                out.push(Operation::Pop(RegisterOrNum::Rdi));
                out.push(Operation::Pop(RegisterOrNum::Rax));
                out.push(Operation::Store(RegisterOrNum::Rax, RegisterOrNum::Rdi));
                out.push(Operation::Push(RegisterOrNum::Rdi));
                assert(out@ =~= old(out)@ + rval_code(*e));
            } else {
                gen_rval(lhs, out);
                gen_rval(rhs, out);
                out.push(Operation::Pop(RegisterOrNum::Rdi));
                out.push(Operation::Pop(RegisterOrNum::Rax));
                match op {
                    Op::Add => {
                        out.push(Operation::Add(RegisterOrNum::Rax, RegisterOrNum::Rdi));
                    },
                    Op::Sub => {
                        out.push(Operation::Sub(RegisterOrNum::Rax, RegisterOrNum::Rdi));
                    },
                    Op::Mul => {
                        out.push(Operation::Imul(RegisterOrNum::Rax, RegisterOrNum::Rdi));
                    },
                    Op::Div => {
                        out.push(Operation::Cqo);
                        out.push(Operation::Idiv(RegisterOrNum::Rdi));
                    },
                    Op::Eq => {
                        out.push(Operation::Cmp(RegisterOrNum::Rax, RegisterOrNum::Rdi));
                        out.push(Operation::Sete(RegisterOrNum::Al));
                        out.push(Operation::Movzb(RegisterOrNum::Rax, RegisterOrNum::Al));
                    },
                    Op::Neq => {
                        out.push(Operation::Cmp(RegisterOrNum::Rax, RegisterOrNum::Rdi));
                        out.push(Operation::Setne(RegisterOrNum::Al));
                        out.push(Operation::Movzb(RegisterOrNum::Rax, RegisterOrNum::Al));
                    },
                    Op::Lt => {
                        out.push(Operation::Cmp(RegisterOrNum::Rax, RegisterOrNum::Rdi));
                        out.push(Operation::Setl(RegisterOrNum::Al));
                        out.push(Operation::Movzb(RegisterOrNum::Rax, RegisterOrNum::Al));
                    },
                    Op::Le => {
                        out.push(Operation::Cmp(RegisterOrNum::Rax, RegisterOrNum::Rdi));
                        out.push(Operation::Setle(RegisterOrNum::Al));
                        out.push(Operation::Movzb(RegisterOrNum::Rax, RegisterOrNum::Al));
                    },
                    Op::Gt => {
                        out.push(Operation::Cmp(RegisterOrNum::Rdi, RegisterOrNum::Rax));
                        out.push(Operation::Setl(RegisterOrNum::Al));
                        out.push(Operation::Movzb(RegisterOrNum::Rax, RegisterOrNum::Al));
                    },
                    Op::Ge => {
                        out.push(Operation::Cmp(RegisterOrNum::Rdi, RegisterOrNum::Rax));
                        out.push(Operation::Setle(RegisterOrNum::Al));
                        out.push(Operation::Movzb(RegisterOrNum::Rax, RegisterOrNum::Al));
                    },
                    Op::Assign => {
                        proof {
                            assert(false);
                        }
                    },
                }
                out.push(Operation::Push(RegisterOrNum::Rax));
                assert(out@ =~= old(out)@ + rval_code(*e));
            }
        },
        Expr::FunCall { name, args } => {
            let mut i: usize = 0;
            while i < args.len()
                invariant
                    i <= args@.len(),
                    out@ == old(out)@ + args_code(args@.take(i as int)),
                decreases args@.len() - i,
            {
                proof {
                    lemma_args_size_element(args@, i as int);
                    lemma_args_err_element(args@, i as int);
                }
                gen_rval(&args[i], out);
                proof {
                    assert(args@.take(i + 1).drop_last() =~= args@.take(i as int));
                    assert(args@.take(i + 1).last() == args@[i as int]);
                    assert(args_code(args@.take(i + 1)) == args_code(args@.take(i as int))
                        + rval_code(args@[i as int]));
                }
                i = i + 1;
            }
            proof {
                assert(args@.take(args@.len() as int) =~= args@);
            }
            let n = args.len();
            out.push(Operation::Mov(RegisterOrNum::Rax, RegisterOrNum::Num(n as i32)));
            let ghost pre = out@;
            let mut k: usize = 0;
            while k < n
                invariant
                    k <= n,
                    out@ == pre + arg_pops(n as int).take(k as int),
                decreases n - k,
            {
                out.push(Operation::Pop(arg_register(n - 1 - k)));
                proof {
                    assert(arg_pops(n as int).take(k + 1) =~= arg_pops(n as int).take(
                        k as int,
                    ).push(Operation::Pop(arg_reg(n - 1 - k))));
                }
                k = k + 1;
            }
            proof {
                assert(arg_pops(n as int).take(n as int) =~= arg_pops(n as int));
            }
            out.push(Operation::Call(name.clone()));
            out.push(Operation::Push(RegisterOrNum::Rax));
            assert(out@ =~= old(out)@ + rval_code(*e));
        },
        Expr::Addr(inner) => {
            gen_lval(inner, out);
        },
        Expr::Dref(inner) => {
            gen_rval(inner, out);
            out.push(Operation::Pop(RegisterOrNum::Rax));
            out.push(Operation::Load(RegisterOrNum::Rax, RegisterOrNum::Rax));
            out.push(Operation::Push(RegisterOrNum::Rax));
            assert(out@ =~= old(out)@ + rval_code(*e));
        },
    }
}

/// Reports the error that generating an optional clause expression would hit.
fn check_opt_rval(e: &Option<Expr>) -> (r: Option<CodegenError>)
    ensures
        r == opt_rval_err(*e),
{
    match e {
        Some(inner) => check_rval(inner),
        None => None,
    }
}

/// Reports the error that generating code for `s` would hit.
#[verifier::loop_isolation(false)]
fn check_stmt(s: &Stmt) -> (r: Option<CodegenError>)
    ensures
        r == stmt_err(*s),
    decreases stmt_size(*s), 0int,
{
    match s {
        Stmt::Calc { content } => check_rval(content),
        Stmt::Return { expr } => check_rval(expr),
        Stmt::If { cond, t_branch, f_branch } => {
            match check_rval(cond) {
                Some(er) => Some(er),
                None => match check_stmt(t_branch) {
                    Some(er) => Some(er),
                    None => match f_branch {
                        Some(f) => check_stmt(f),
                        None => None,
                    },
                },
            }
        },
        Stmt::While { cond, content } => {
            match check_rval(cond) {
                Some(er) => Some(er),
                None => check_stmt(content),
            }
        },
        Stmt::For { init, cond, tail, content } => {
            match check_opt_rval(init) {
                Some(er) => Some(er),
                None => match check_opt_rval(cond) {
                    Some(er) => Some(er),
                    None => match check_stmt(content) {
                        Some(er) => Some(er),
                        None => check_opt_rval(tail),
                    },
                },
            }
        },
        Stmt::Block(v) => check_block(v),
        Stmt::Declare => None,
    }
}

/// Reports the first error among the statements of a block.
#[verifier::loop_isolation(false)]
fn check_block(v: &Vec<Stmt>) -> (r: Option<CodegenError>)
    ensures
        r == block_err(v@),
    decreases block_size(v@), 1int,
{
    let mut i: usize = 0;
    while i < v.len()
        invariant
            i <= v@.len(),
            block_err(v@.take(i as int)) is None,
        decreases v@.len() - i,
    {
        proof {
            lemma_block_size_element(v@, i as int);
        }
        let r = check_stmt(&v[i]);
        proof {
            assert(v@.take(i + 1).drop_last() =~= v@.take(i as int));
            assert(v@.take(i + 1).last() == v@[i as int]);
        }
        if let Some(er) = r {
            proof {
                lemma_block_err_prefix(v@, i as int);
            }
            return Some(er);
        }
        i = i + 1;
    }
    proof {
        assert(v@.take(v@.len() as int) =~= v@);
    }
    None
}

/// Counts the label numbers the code of `s` will consume, or reports that
/// the count does not fit a machine word.
#[verifier::loop_isolation(false)]
fn count_stmt_labels(s: &Stmt) -> (r: Option<usize>)
    ensures
        match r {
            Some(n) => n == stmt_labels(*s),
            None => stmt_labels(*s) > usize::MAX,
        },
    decreases stmt_size(*s), 0int,
{
    match s {
        Stmt::If { cond, t_branch, f_branch } => {
            let a = match count_stmt_labels(t_branch) {
                Some(a) => a,
                None => {
                    return None;
                },
            };
            let b = match f_branch {
                Some(f) => match count_stmt_labels(f) {
                    Some(b) => b,
                    None => {
                        return None;
                    },
                },
                None => 0,
            };
            match a.checked_add(b) {
                Some(ab) => ab.checked_add(1),
                None => None,
            }
        },
        Stmt::While { cond, content } => {
            match count_stmt_labels(content) {
                Some(a) => a.checked_add(1),
                None => None,
            }
        },
        Stmt::For { init, cond, tail, content } => {
            match count_stmt_labels(content) {
                Some(a) => a.checked_add(1),
                None => None,
            }
        },
        Stmt::Block(v) => count_block_labels(v),
        _ => Some(0),
    }
}

/// Counts the label numbers the statements of a block consume together.
#[verifier::loop_isolation(false)]
fn count_block_labels(v: &Vec<Stmt>) -> (r: Option<usize>)
    ensures
        match r {
            Some(n) => n == block_labels(v@),
            None => block_labels(v@) > usize::MAX,
        },
    decreases block_size(v@), 1int,
{
    let mut acc: usize = 0;
    let mut i: usize = 0;
    while i < v.len()
        invariant
            i <= v@.len(),
            acc == block_labels(v@.take(i as int)),
        decreases v@.len() - i,
    {
        proof {
            lemma_block_size_element(v@, i as int);
        }
        let n = match count_stmt_labels(&v[i]) {
            Some(n) => n,
            None => {
                proof {
                    lemma_block_labels_prefix_le(v@, i as int);
                }
                return None;
            },
        };
        proof {
            assert(v@.take(i + 1).drop_last() =~= v@.take(i as int));
            assert(v@.take(i + 1).last() == v@[i as int]);
        }
        acc = match acc.checked_add(n) {
            Some(acc) => acc,
            None => {
                proof {
                    lemma_block_labels_take_le(v@, i + 1);
                }
                return None;
            },
        };
        i = i + 1;
    }
    proof {
        assert(v@.take(v@.len() as int) =~= v@);
    }
    Some(acc)
}

/// A block consumes at least as many label numbers as any one of its
/// statements.
proof fn lemma_block_labels_prefix_le(ss: Seq<Stmt>, i: int)
    requires
        0 <= i < ss.len(),
    ensures
        stmt_labels(ss[i]) <= block_labels(ss),
    decreases ss.len(),
{
    if i == ss.len() - 1 {
    } else {
        lemma_block_labels_prefix_le(ss.drop_last(), i);
        assert(ss.drop_last()[i] == ss[i]);
    }
}

/// When a block is clean, so is each of its statements.
proof fn lemma_block_err_element(ss: Seq<Stmt>, i: int)
    requires
        0 <= i < ss.len(),
        block_err(ss) is None,
    ensures
        stmt_err(ss[i]) is None,
    decreases ss.len(),
{
    if i < ss.len() - 1 {
        lemma_block_err_element(ss.drop_last(), i);
        assert(ss.drop_last()[i] == ss[i]);
    }
}

/// Appends the code of the statement `s` and advances the label counter
/// past every label number the code uses.
#[verifier::loop_isolation(false)]
#[verifier::rlimit(60)]
fn gen_stmt(s: &Stmt, out: &mut Vec<Operation>, label_counter: &mut usize)
    requires
        stmt_err(*s) is None,
        *old(label_counter) + stmt_labels(*s) <= usize::MAX,
    ensures
        final(out)@ == old(out)@ + stmt_code(*s, *old(label_counter) as int),
        *final(label_counter) == *old(label_counter) + stmt_labels(*s),
    decreases stmt_size(*s), 0int,
{
    match s {
        Stmt::Calc { content } => {
            gen_rval(content, out);
            out.push(Operation::Pop(RegisterOrNum::Rax));
            assert(out@ =~= old(out)@ + stmt_code(*s, *old(label_counter) as int));
        },
        Stmt::Return { expr } => {
            gen_rval(expr, out);
            out.push(Operation::Pop(RegisterOrNum::Rax));
            out.push(Operation::Mov(RegisterOrNum::Rsp, RegisterOrNum::Rbp));
            out.push(Operation::Pop(RegisterOrNum::Rbp));
            out.push(Operation::Ret);
            assert(out@ =~= old(out)@ + stmt_code(*s, *old(label_counter) as int));
        },
        Stmt::If { cond, t_branch, f_branch } => {
            gen_rval(cond, out);
            out.push(Operation::Pop(RegisterOrNum::Rax));
            out.push(Operation::Cmp(RegisterOrNum::Rax, RegisterOrNum::Num(0)));
            let crr = *label_counter + 1;
            *label_counter = crr;
            match f_branch {
                Some(f) => {
                    out.push(Operation::Je(LabelKind::Else, crr));
                    gen_stmt(t_branch, out, label_counter);
                    out.push(Operation::Jmp(LabelKind::End, crr));
                    out.push(Operation::Label(LabelKind::Else, crr));
                    gen_stmt(f, out, label_counter);
                    out.push(Operation::Label(LabelKind::End, crr));
                    assert(out@ =~= old(out)@ + stmt_code(*s, *old(label_counter) as int));
                },
                None => {
                    out.push(Operation::Je(LabelKind::End, crr));
                    gen_stmt(t_branch, out, label_counter);
                    out.push(Operation::Label(LabelKind::End, crr));
                    assert(out@ =~= old(out)@ + stmt_code(*s, *old(label_counter) as int));
                },
            }
        },
        Stmt::While { cond, content } => {
            let crr = *label_counter + 1;
            *label_counter = crr;
            out.push(Operation::Label(LabelKind::Begin, crr));
            gen_rval(cond, out);
            out.push(Operation::Pop(RegisterOrNum::Rax));
            out.push(Operation::Cmp(RegisterOrNum::Rax, RegisterOrNum::Num(0)));
            out.push(Operation::Je(LabelKind::End, crr));
            gen_stmt(content, out, label_counter);
            out.push(Operation::Jmp(LabelKind::Begin, crr));
            out.push(Operation::Label(LabelKind::End, crr));
            assert(out@ =~= old(out)@ + stmt_code(*s, *old(label_counter) as int));
        },
        Stmt::For { init, cond, tail, content } => {
            let crr = *label_counter + 1;
            *label_counter = crr;
            match init {
                Some(ie) => {
                    gen_rval(ie, out);
                    out.push(Operation::Pop(RegisterOrNum::Rax));
                },
                None => {},
            }
            out.push(Operation::Label(LabelKind::Begin, crr));
            match cond {
                Some(ce) => {
                    gen_rval(ce, out);
                    out.push(Operation::Pop(RegisterOrNum::Rax));
                    out.push(Operation::Cmp(RegisterOrNum::Rax, RegisterOrNum::Num(0)));
                    out.push(Operation::Je(LabelKind::End, crr));
                },
                None => {},
            }
            gen_stmt(content, out, label_counter);
            match tail {
                Some(te) => {
                    gen_rval(te, out);
                    out.push(Operation::Pop(RegisterOrNum::Rax));
                },
                None => {},
            }
            out.push(Operation::Jmp(LabelKind::Begin, crr));
            out.push(Operation::Label(LabelKind::End, crr));
            assert(out@ =~= old(out)@ + stmt_code(*s, *old(label_counter) as int));
        },
        Stmt::Block(v) => {
            gen_block(v, out, label_counter);
        },
        Stmt::Declare => {
            assert(out@ =~= old(out)@ + stmt_code(*s, *old(label_counter) as int));
        },
    }
}

/// Appends the code of each statement of a block in order.
#[verifier::loop_isolation(false)]
fn gen_block(v: &Vec<Stmt>, out: &mut Vec<Operation>, label_counter: &mut usize)
    requires
        block_err(v@) is None,
        *old(label_counter) + block_labels(v@) <= usize::MAX,
    ensures
        final(out)@ == old(out)@ + block_code(v@, *old(label_counter) as int),
        *final(label_counter) == *old(label_counter) + block_labels(v@),
    decreases block_size(v@), 1int,
{
    let ghost c0 = *label_counter;
    let mut i: usize = 0;
    while i < v.len()
        invariant
            i <= v@.len(),
            out@ == old(out)@ + block_code(v@.take(i as int), c0 as int),
            *label_counter == c0 + block_labels(v@.take(i as int)),
        decreases v@.len() - i,
    {
        proof {
            lemma_block_size_element(v@, i as int);
            lemma_block_err_element(v@, i as int);
            assert(v@.take(i + 1).drop_last() =~= v@.take(i as int));
            assert(v@.take(i + 1).last() == v@[i as int]);
            lemma_block_labels_take_le(v@, i + 1);
        }
        gen_stmt(&v[i], out, label_counter);
        i = i + 1;
    }
    proof {
        assert(v@.take(v@.len() as int) =~= v@);
    }
}

/// Appends the code of the function `f`: entry label, prologue, argument
/// copying, body, and the default epilogue.
#[verifier::loop_isolation(false)]
fn gen_func(f: &FuncDef, out: &mut Vec<Operation>, label_counter: &mut usize)
    requires
        func_err(*f) is None,
        *old(label_counter) + block_labels(f.body@) <= usize::MAX,
    ensures
        final(out)@ == old(out)@ + func_code(*f, *old(label_counter) as int),
        *final(label_counter) == *old(label_counter) + block_labels(f.body@),
{
    out.push(Operation::Func(f.name.clone()));
    out.push(Operation::Push(RegisterOrNum::Rbp));
    out.push(Operation::Mov(RegisterOrNum::Rbp, RegisterOrNum::Rsp));
    out.push(Operation::Sub(RegisterOrNum::Rsp, RegisterOrNum::Num(f.local_area as i32)));
    out.push(Operation::Mov(RegisterOrNum::Rax, RegisterOrNum::Rbp));
    let n = f.args.len();
    let ghost pre = out@;
    let mut k: usize = 0;
    while k < n
        invariant
            k <= n,
            out@ == pre + arg_stores(k as int),
        decreases n - k,
    {
        out.push(Operation::Sub(RegisterOrNum::Rax, RegisterOrNum::Num(8)));
        out.push(Operation::Store(RegisterOrNum::Rax, arg_register(k)));
        assert(out@ =~= pre + arg_stores(k + 1));
        k = k + 1;
    }
    gen_block(&f.body, out, label_counter);
    out.push(Operation::Mov(RegisterOrNum::Rsp, RegisterOrNum::Rbp));
    out.push(Operation::Pop(RegisterOrNum::Rbp));
    out.push(Operation::Ret);
    assert(out@ =~= old(out)@ + func_code(*f, *old(label_counter) as int));
}

/// How many label numbers the functions of a program consume together.
pub open spec fn program_labels(fs: Seq<FuncDef>) -> nat
    decreases fs,
{
    if fs.len() == 0 {
        0
    } else {
        program_labels(fs.drop_last()) + block_labels(fs.last().body@)
    }
}

/// The first error among the functions of a program, each judged with the
/// label counter it would see.
pub open spec fn program_err(fs: Seq<FuncDef>, c: int) -> Option<CodegenError>
    decreases fs,
{
    if fs.len() == 0 {
        None
    } else {
        err_or(
            program_err(fs.drop_last(), c),
            fs.last().asm_err(c + program_labels(fs.drop_last())),
        )
    }
}

/// The code of a whole program: each function's code in order, one label
/// counter threaded through all of them.
pub open spec fn program_code(fs: Seq<FuncDef>, c: int) -> Seq<Operation>
    decreases fs,
{
    if fs.len() == 0 {
        seq![]
    } else {
        program_code(fs.drop_last(), c) + func_code(
            fs.last(),
            c + program_labels(fs.drop_last()),
        )
    }
}

/// When the first `i` functions are clean and function `i` is in error at
/// its counter position, the whole program reports function `i`'s error.
proof fn lemma_program_err_prefix(fs: Seq<FuncDef>, i: int, c: int)
    requires
        0 <= i < fs.len(),
        program_err(fs.take(i), c) is None,
        fs[i].asm_err(c + program_labels(fs.take(i))) is Some,
    ensures
        program_err(fs, c) == fs[i].asm_err(c + program_labels(fs.take(i))),
    decreases fs.len(),
{
    if i == fs.len() - 1 {
        assert(fs.drop_last() =~= fs.take(i));
    } else {
        assert(fs.drop_last().take(i) =~= fs.take(i));
        assert(fs.drop_last()[i] == fs[i]);
        lemma_program_err_prefix(fs.drop_last(), i, c);
    }
}

/// Generates the code of a whole program: each function lowered in order,
/// with one label counter threaded through the entire compilation, starting
/// at zero. Succeeds exactly when no function reports an error.
#[verifier::loop_isolation(false)]
pub fn gen_program(funcs: &Vec<FuncDef>) -> (r: Result<Vec<Operation>, CodegenError>)
    ensures
        match program_err(funcs@, 0) {
            None => r matches Ok(ops) && ops@ == program_code(funcs@, 0),
            Some(e) => r == Err::<Vec<Operation>, CodegenError>(e),
        },
{
    let mut out: Vec<Operation> = Vec::new();
    let mut counter: usize = 0;
    let mut i: usize = 0;
    while i < funcs.len()
        invariant
            i <= funcs@.len(),
            program_err(funcs@.take(i as int), 0) is None,
            out@ == program_code(funcs@.take(i as int), 0),
            counter == program_labels(funcs@.take(i as int)),
        decreases funcs@.len() - i,
    {
        let res = funcs[i].to_assembly(&mut out, &mut counter);
        proof {
            assert(funcs@.take(i + 1).drop_last() =~= funcs@.take(i as int));
            assert(funcs@.take(i + 1).last() == funcs@[i as int]);
        }
        match res {
            Ok(()) => {},
            Err(e) => {
                proof {
                    lemma_program_err_prefix(funcs@, i as int, 0);
                }
                return Err(e);
            },
        }
        i = i + 1;
    }
    proof {
        assert(funcs@.take(funcs@.len() as int) =~= funcs@);
    }
    Ok(out)
}

impl Expr {
    /// Appends the code that pushes the address of this expression rather
    /// than its value: the slot address for a variable, the pointer value
    /// for a dereference. Any other node is no assignment target. The
    /// label counter is never consumed.
    pub fn gen_lval(&self, out: &mut Vec<Operation>, label_counter: &mut usize) -> (r: Result<
        (),
        CodegenError,
    >)
        ensures
            match lval_err(*self) {
                None => {
                    &&& r is Ok
                    &&& final(out)@ == old(out)@ + lval_code(*self)
                },
                Some(e) => {
                    &&& r == Err::<(), CodegenError>(e)
                    &&& final(out)@ == old(out)@
                },
            },
            *final(label_counter) == *old(label_counter),
    {
        match check_lval(self) {
            Some(er) => Err(er),
            None => {
                gen_lval(self, out);
                Ok(())
            },
        }
    }
}

impl GenAssembly for Expr {
    /// Expression code never fails for a counter reason and uses no labels.
    open spec fn asm_err(&self, c: int) -> Option<CodegenError> {
        rval_err(*self)
    }

    open spec fn asm_labels(&self) -> nat {
        0
    }

    open spec fn asm_code(&self, c: int) -> Seq<Operation> {
        rval_code(*self)
    }

    fn to_assembly(&self, out: &mut Vec<Operation>, label_counter: &mut usize) -> (r: Result<
        (),
        CodegenError,
    >) {
        match check_rval(self) {
            Some(er) => Err(er),
            None => {
                gen_rval(self, out);
                Ok(())
            },
        }
    }
}

impl GenAssembly for Stmt {
    open spec fn asm_err(&self, c: int) -> Option<CodegenError> {
        err_or(
            stmt_err(*self),
            if c + stmt_labels(*self) > usize::MAX {
                Some(CodegenError::TooManyLabels)
            } else {
                None
            },
        )
    }

    open spec fn asm_labels(&self) -> nat {
        stmt_labels(*self)
    }

    open spec fn asm_code(&self, c: int) -> Seq<Operation> {
        stmt_code(*self, c)
    }

    fn to_assembly(&self, out: &mut Vec<Operation>, label_counter: &mut usize) -> (r: Result<
        (),
        CodegenError,
    >) {
        match check_stmt(self) {
            Some(er) => Err(er),
            None => {
                let n = match count_stmt_labels(self) {
                    Some(n) => n,
                    None => {
                        return Err(CodegenError::TooManyLabels);
                    },
                };
                if *label_counter > usize::MAX - n {
                    Err(CodegenError::TooManyLabels)
                } else {
                    gen_stmt(self, out, label_counter);
                    Ok(())
                }
            },
        }
    }
}

impl GenAssembly for FuncDef {
    open spec fn asm_err(&self, c: int) -> Option<CodegenError> {
        err_or(
            func_err(*self),
            if c + block_labels(self.body@) > usize::MAX {
                Some(CodegenError::TooManyLabels)
            } else {
                None
            },
        )
    }

    open spec fn asm_labels(&self) -> nat {
        block_labels(self.body@)
    }

    open spec fn asm_code(&self, c: int) -> Seq<Operation> {
        func_code(*self, c)
    }

    fn to_assembly(&self, out: &mut Vec<Operation>, label_counter: &mut usize) -> (r: Result<
        (),
        CodegenError,
    >) {
        if self.args.len() > 6 {
            return Err(CodegenError::TooManyArgs);
        }
        if self.local_area > 0x7fff_ffff {
            return Err(CodegenError::OffsetTooLarge);
        }
        match check_block(&self.body) {
            Some(er) => Err(er),
            None => {
                let n = match count_block_labels(&self.body) {
                    Some(n) => n,
                    None => {
                        return Err(CodegenError::TooManyLabels);
                    },
                };
                if *label_counter > usize::MAX - n {
                    Err(CodegenError::TooManyLabels)
                } else {
                    gen_func(self, out, label_counter);
                    Ok(())
                }
            },
        }
    }
}

} // verus!
