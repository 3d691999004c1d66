//! The abstract x86-64 instruction set that code generation targets, and
//! its serialization to Intel-syntax assembly text.

use vstd::prelude::*;

verus! {

/// An instruction operand: a named register, or a 32-bit signed immediate.
#[derive(Debug, Clone, Copy, PartialEq, Eq, Structural)]
pub enum RegisterOrNum {
    Rdi,
    Rdx,
    Rax,
    Rbp,
    Rsp,
    Al,
    Rsi,
    Rcx,
    R8,
    R9,
    Num(i32),
}

/// The tag of a generated local label: `.Lbegin<n>`, `.Lend<n>` or `.Lelse<n>`.
#[derive(Debug, Clone, Copy, PartialEq, Eq, Structural)]
pub enum LabelKind {
    Begin,
    End,
    Else,
}

/// One abstract instruction. `Load` is `mov r1, [r2]`, `Store` is
/// `mov [r1], r2`; `Label` and `Func` mark jump targets and function entries.
#[derive(Debug, Clone, PartialEq)]
pub enum Operation {
    Push(RegisterOrNum),
    Pop(RegisterOrNum),
    Add(RegisterOrNum, RegisterOrNum),
    Sub(RegisterOrNum, RegisterOrNum),
    Imul(RegisterOrNum, RegisterOrNum),
    Cqo,
    Idiv(RegisterOrNum),
    Cmp(RegisterOrNum, RegisterOrNum),
    Sete(RegisterOrNum),
    Setne(RegisterOrNum),
    Setl(RegisterOrNum),
    Setle(RegisterOrNum),
    Mov(RegisterOrNum, RegisterOrNum),
    Load(RegisterOrNum, RegisterOrNum),
    Store(RegisterOrNum, RegisterOrNum),
    Movzb(RegisterOrNum, RegisterOrNum),
    Ret,
    Je(LabelKind, usize),
    Jmp(LabelKind, usize),
    Label(LabelKind, usize),
    Func(String),
    Call(String),
}

/// The decimal digit character for `d`.
pub open spec fn digit_char(d: int) -> char {
    if d == 0 {
        '0'
    } else if d == 1 {
        '1'
    } else if d == 2 {
        '2'
    } else if d == 3 {
        '3'
    } else if d == 4 {
        '4'
    } else if d == 5 {
        '5'
    } else if d == 6 {
        '6'
    } else if d == 7 {
        '7'
    } else if d == 8 {
        '8'
    } else {
        '9'
    }
}

/// The decimal digits of the nonnegative number `n`, most significant first.
pub open spec fn dec_chars(n: int) -> Seq<char>
    decreases n,
{
    if n < 10 {
        seq![digit_char(n)]
    } else {
        dec_chars(n / 10) + seq![digit_char(n % 10)]
    }
}

/// The decimal text of the integer `n`, with a leading minus sign when it
/// is negative.
pub open spec fn int_chars(n: int) -> Seq<char> {
    if n < 0 {
        seq!['-'] + dec_chars(-n)
    } else {
        dec_chars(n)
    }
}

/// The text of an operand: the register's name, or the immediate's decimal
/// digits.
pub open spec fn reg_chars(r: RegisterOrNum) -> Seq<char> {
    match r {
        RegisterOrNum::Rdi => "rdi"@,
        RegisterOrNum::Rdx => "rdx"@,
        RegisterOrNum::Rax => "rax"@,
        RegisterOrNum::Rbp => "rbp"@,
        RegisterOrNum::Rsp => "rsp"@,
        RegisterOrNum::Al => "al"@,
        RegisterOrNum::Rsi => "rsi"@,
        RegisterOrNum::Rcx => "rcx"@,
        RegisterOrNum::R8 => "r8"@,
        RegisterOrNum::R9 => "r9"@,
        RegisterOrNum::Num(n) => int_chars(n as int),
    }
}

/// The tag of a generated label, as it appears after `.L`.
pub open spec fn kind_chars(k: LabelKind) -> Seq<char> {
    match k {
        LabelKind::Begin => "begin"@,
        LabelKind::End => "end"@,
        LabelKind::Else => "else"@,
    }
}

/// The line an instruction prints as: two-space indentation for
/// instructions, none for labels and function entries, which end in a
/// colon; every line ends in a newline.
pub open spec fn op_chars(o: Operation) -> Seq<char> {
    match o {
        Operation::Push(r) => "  push "@ + reg_chars(r) + "\n"@,
        Operation::Pop(r) => "  pop "@ + reg_chars(r) + "\n"@,
        Operation::Add(r1, r2) => "  add "@ + reg_chars(r1) + ", "@ + reg_chars(r2) + "\n"@,
        Operation::Sub(r1, r2) => "  sub "@ + reg_chars(r1) + ", "@ + reg_chars(r2) + "\n"@,
        Operation::Imul(r1, r2) => "  imul "@ + reg_chars(r1) + ", "@ + reg_chars(r2) + "\n"@,
        Operation::Cqo => "  cqo\n"@,
        Operation::Idiv(r) => "  idiv "@ + reg_chars(r) + "\n"@,
        Operation::Cmp(r1, r2) => "  cmp "@ + reg_chars(r1) + ", "@ + reg_chars(r2) + "\n"@,
        Operation::Sete(r) => "  sete "@ + reg_chars(r) + "\n"@,
        Operation::Setne(r) => "  setne "@ + reg_chars(r) + "\n"@,
        Operation::Setl(r) => "  setl "@ + reg_chars(r) + "\n"@,
        Operation::Setle(r) => "  setle "@ + reg_chars(r) + "\n"@,
        Operation::Mov(r1, r2) => "  mov "@ + reg_chars(r1) + ", "@ + reg_chars(r2) + "\n"@,
        Operation::Load(r1, r2) => "  mov "@ + reg_chars(r1) + ", ["@ + reg_chars(r2) + "]\n"@,
        Operation::Store(r1, r2) => "  mov ["@ + reg_chars(r1) + "], "@ + reg_chars(r2) + "\n"@,
        Operation::Movzb(r1, r2) => "  movzb "@ + reg_chars(r1) + ", "@ + reg_chars(r2) + "\n"@,
        Operation::Ret => "  ret\n"@,
        Operation::Je(k, n) => "  je .L"@ + kind_chars(k) + dec_chars(n as int) + "\n"@,
        Operation::Jmp(k, n) => "  jmp .L"@ + kind_chars(k) + dec_chars(n as int) + "\n"@,
        Operation::Label(k, n) => ".L"@ + kind_chars(k) + dec_chars(n as int) + ":\n"@,
        Operation::Func(name) => name@ + ":\n"@,
        Operation::Call(name) => "  call "@ + name@ + "\n"@,
    }
}

/// The lines of a list of instructions, in order.
pub open spec fn ops_chars(ops: Seq<Operation>) -> Seq<char>
    decreases ops,
{
    if ops.len() == 0 {
        Seq::empty()
    } else {
        ops_chars(ops.drop_last()) + op_chars(ops.last())
    }
}

/// The whole assembly file: the fixed header, one line per instruction,
/// and a trailing blank line.
pub open spec fn asm_chars(ops: Seq<Operation>) -> Seq<char> {
    ".intel_syntax noprefix\n"@ + ".globl main\n"@ + ops_chars(ops) + "\n"@
}

/// Appends the decimal digits of `n`.
fn push_dec(out: &mut String, n: u64)
    ensures
        final(out)@ == old(out)@ + dec_chars(n as int),
    decreases n,
{
    if n >= 10 {
        push_dec(out, n / 10);
    }
    let d = n % 10;
    proof {
        reveal_strlit("0");
        reveal_strlit("1");
        reveal_strlit("2");
        reveal_strlit("3");
        reveal_strlit("4");
        reveal_strlit("5");
        reveal_strlit("6");
        reveal_strlit("7");
        reveal_strlit("8");
        reveal_strlit("9");
    }
    if d == 0 {
        out.append("0");
    } else if d == 1 {
        out.append("1");
    } else if d == 2 {
        out.append("2");
    } else if d == 3 {
        out.append("3");
    } else if d == 4 {
        out.append("4");
    } else if d == 5 {
        out.append("5");
    } else if d == 6 {
        out.append("6");
    } else if d == 7 {
        out.append("7");
    } else if d == 8 {
        out.append("8");
    } else {
        out.append("9");
    }
    assert(final(out)@ =~= old(out)@ + dec_chars(n as int));
}

/// Appends the decimal text of the signed immediate `n`.
fn push_i32(out: &mut String, n: i32)
    ensures
        final(out)@ == old(out)@ + int_chars(n as int),
{
    if n < 0 {
        out.append("-");
        proof {
            reveal_strlit("-");
        }
        let m: u64 = if n == -0x8000_0000i32 {
            0x8000_0000u64
        } else {
            (-n) as u64
        };
        push_dec(out, m);
        assert(final(out)@ =~= old(out)@ + int_chars(n as int));
    } else {
        push_dec(out, n as u64);
    }
}

/// Appends the text of an operand.
fn push_reg(out: &mut String, r: &RegisterOrNum)
    ensures
        final(out)@ == old(out)@ + reg_chars(*r),
{
    match r {
        RegisterOrNum::Rdi => out.append("rdi"),
        RegisterOrNum::Rdx => out.append("rdx"),
        RegisterOrNum::Rax => out.append("rax"),
        RegisterOrNum::Rbp => out.append("rbp"),
        RegisterOrNum::Rsp => out.append("rsp"),
        RegisterOrNum::Al => out.append("al"),
        RegisterOrNum::Rsi => out.append("rsi"),
        RegisterOrNum::Rcx => out.append("rcx"),
        RegisterOrNum::R8 => out.append("r8"),
        RegisterOrNum::R9 => out.append("r9"),
        RegisterOrNum::Num(n) => push_i32(out, *n),
    }
}

/// Appends the tag of a generated label.
fn push_kind(out: &mut String, k: &LabelKind)
    ensures
        final(out)@ == old(out)@ + kind_chars(*k),
{
    match k {
        LabelKind::Begin => out.append("begin"),
        LabelKind::End => out.append("end"),
        LabelKind::Else => out.append("else"),
    }
}

/// Appends the line of one instruction.
fn push_op(out: &mut String, o: &Operation)
    ensures
        final(out)@ == old(out)@ + op_chars(*o),
{
    match o {
        Operation::Push(r) => {
            out.append("  push ");
            push_reg(out, r);
            out.append("\n");
        },
        Operation::Pop(r) => {
            out.append("  pop ");
            push_reg(out, r);
            out.append("\n");
        },
        Operation::Add(r1, r2) => {
            out.append("  add ");
            push_reg(out, r1);
            out.append(", ");
            push_reg(out, r2);
            out.append("\n");
        },
        Operation::Sub(r1, r2) => {
            out.append("  sub ");
            push_reg(out, r1);
            out.append(", ");
            push_reg(out, r2);
            out.append("\n");
        },
        Operation::Imul(r1, r2) => {
            out.append("  imul ");
            push_reg(out, r1);
            out.append(", ");
            push_reg(out, r2);
            out.append("\n");
        },
        Operation::Cqo => {
            out.append("  cqo\n");
        },
        Operation::Idiv(r) => {
            out.append("  idiv ");
            push_reg(out, r);
            out.append("\n");
        },
        Operation::Cmp(r1, r2) => {
            out.append("  cmp ");
            push_reg(out, r1);
            out.append(", ");
            push_reg(out, r2);
            out.append("\n");
        },
        Operation::Sete(r) => {
            out.append("  sete ");
            push_reg(out, r);
            out.append("\n");
        },
        Operation::Setne(r) => {
            out.append("  setne ");
            push_reg(out, r);
            out.append("\n");
        },
        Operation::Setl(r) => {
            out.append("  setl ");
            push_reg(out, r);
            out.append("\n");
        },
        Operation::Setle(r) => {
            out.append("  setle ");
            push_reg(out, r);
            out.append("\n");
        },
        Operation::Mov(r1, r2) => {
            out.append("  mov ");
            push_reg(out, r1);
            out.append(", ");
            push_reg(out, r2);
            out.append("\n");
        },
        Operation::Load(r1, r2) => {
            out.append("  mov ");
            push_reg(out, r1);
            out.append(", [");
            push_reg(out, r2);
            out.append("]\n");
        },
        Operation::Store(r1, r2) => {
            out.append("  mov [");
            push_reg(out, r1);
            out.append("], ");
            push_reg(out, r2);
            out.append("\n");
        },
        Operation::Movzb(r1, r2) => {
            out.append("  movzb ");
            push_reg(out, r1);
            out.append(", ");
            push_reg(out, r2);
            out.append("\n");
        },
        Operation::Ret => {
            out.append("  ret\n");
        },
        Operation::Je(k, n) => {
            out.append("  je .L");
            push_kind(out, k);
            push_dec(out, *n as u64);
            out.append("\n");
        },
        Operation::Jmp(k, n) => {
            out.append("  jmp .L");
            push_kind(out, k);
            push_dec(out, *n as u64);
            out.append("\n");
        },
        Operation::Label(k, n) => {
            out.append(".L");
            push_kind(out, k);
            push_dec(out, *n as u64);
            out.append(":\n");
        },
        Operation::Func(name) => {
            out.append(name.as_str());
            out.append(":\n");
        },
        Operation::Call(name) => {
            out.append("  call ");
            out.append(name.as_str());
            out.append("\n");
        },
    }
    assert(final(out)@ =~= old(out)@ + op_chars(*o));
}

/// Serializes a list of instructions as a complete Intel-syntax assembly
/// file: the `.intel_syntax noprefix` and `.globl main` headers, one line
/// per instruction, and a trailing blank line.
#[verifier::loop_isolation(false)]
pub fn assembly_text(ops: &Vec<Operation>) -> (r: String)
    ensures
        r@ == asm_chars(ops@),
{
    let mut out = String::new();
    out.append(".intel_syntax noprefix\n");
    out.append(".globl main\n");
    let mut i: usize = 0;
    while i < ops.len()
        invariant
            i <= ops@.len(),
            out@ == ".intel_syntax noprefix\n"@ + ".globl main\n"@ + ops_chars(
                ops@.take(i as int),
            ),
        decreases ops@.len() - i,
    {
        push_op(&mut out, &ops[i]);
        proof {
            assert(ops@.take(i + 1).drop_last() =~= ops@.take(i as int));
            assert(ops@.take(i + 1).last() == ops@[i as int]);
        }
        i = i + 1;
    }
    proof {
        assert(ops@.take(ops@.len() as int) =~= ops@);
    }
    out.append("\n");
    out
}

} // verus!
