//! The lexer and the recursive-descent parser.
//!
//! The surface grammar, with whitespace insignificant:
//!
//! ```text
//! program      = { func_def } EOF
//! func_def     = type ident "(" [ param { "," param } ] ")" "{" { stmt } "}"
//! param        = type ident
//! type         = "int" { "*" }
//! stmt         = "return" expr ";"
//!              | "if" "(" expr ")" stmt [ "else" stmt ]
//!              | "while" "(" expr ")" stmt
//!              | "for" "(" [expr] ";" [expr] ";" [expr] ")" stmt
//!              | "{" { stmt } "}"
//!              | type ident ";"
//!              | expr ";"
//! assign       = equation [ "=" assign ]
//! equation     = relational { ("=="|"!=") relational }
//! relational   = addminus { ("<"|"<="|">"|">=") addminus }
//! addminus     = factor { ("+"|"-") factor }
//! factor       = unary { ("*"|"/") unary }
//! unary        = atom | "+" unary | "-" unary | "&" unary | "*" unary
//! atom         = num | ident | funccall | "(" assign ")"
//! funccall     = ident "(" [ assign { "," assign } ] ")"
//! ```
//!
//! Identifier resolution happens during parsing: every `Var` node carries
//! the `{offset, type}` recorded when its name was declared.
//!
//! The parser's contract pins the whole parse from the source text alone:
//! [`source_to_ast`] is proved equal to the spec-level parser
//! [`sp_source_to_ast`], a function of `source@` that lexes and derives the
//! grammar exactly as the executable code does, so both the tree a source
//! parses to and the error and position a source is rejected with are fixed
//! by the contract. The layout invariants of the result are stated through
//! [`func_wf`].

use vstd::prelude::*;

use crate::ast::{Expr, FuncDef, Op, Stmt, ValInfo};
use crate::typing::Type;

verus! {

/// One lexical token.
#[derive(Debug, Clone, PartialEq)]
pub enum Token {
    Num(i32),
    Ident(String),
    KwReturn,
    KwIf,
    KwElse,
    KwWhile,
    KwFor,
    KwInt,
    Plus,
    Minus,
    Star,
    Slash,
    Amp,
    EqEq,
    Neq,
    Lt,
    Le,
    Gt,
    Ge,
    Assign,
    Semi,
    Comma,
    LParen,
    RParen,
    LBrace,
    RBrace,
}

/// Why parsing rejected the source, and the byte position it points at.
#[derive(Debug, Clone, Copy, PartialEq, Eq, Structural)]
pub enum ParseErrorKind {
    /// The source does not match the grammar.
    Syntax,
    /// An identifier is used without a prior declaration.
    Undeclared,
    /// A name is declared twice in the same function.
    Redeclared,
    /// A type name other than `int` is named.
    UnknownType,
    /// An integer literal does not fit 32 signed bits.
    NumberTooLarge,
    /// A declaration would push a stack slot past the address range.
    TooManyLocals,
}

/// A parse error: its kind and the byte position of the offending token.
#[derive(Debug, Clone, Copy, PartialEq, Eq, Structural)]
pub struct ParseError {
    pub pos: usize,
    pub kind: ParseErrorKind,
}

/// Is `b` an ASCII decimal digit?
fn is_digit(b: u8) -> (r: bool)
    ensures
        r == (48 <= b <= 57),
{
    48 <= b && b <= 57
}

/// May `b` start an identifier?
fn is_ident_start(b: u8) -> (r: bool)
    ensures
        r == (65 <= b <= 90 || 97 <= b <= 122 || b == 95),
{
    (65 <= b && b <= 90) || (97 <= b && b <= 122) || b == 95
}

/// May `b` continue an identifier?
fn is_ident_cont(b: u8) -> (r: bool)
    ensures
        r == (65 <= b <= 90 || 97 <= b <= 122 || b == 95 || 48 <= b <= 57),
{
    is_ident_start(b) || is_digit(b)
}

/// Turns ASCII source text into tokens, each with the byte position it
/// starts at. Rejects non-ASCII text, anything that fits no token class,
/// and an integer literal beyond 32 signed bits.
#[verifier::loop_isolation(false)]
#[verifier::loop_isolation(false)]
#[verifier::rlimit(100)]
fn tokenize(source: &str) -> (r: Result<Vec<(Token, usize)>, ParseError>)
    ensures
        (match r {
            Ok(ts) => sp_lex(source@) == Ok::<Seq<(SpecTok, int)>, ParseError>(toks_view(ts@)),
            Err(e) => sp_lex(source@) == Err::<Seq<(SpecTok, int)>, ParseError>(e),
        }),
{
    broadcast use vstd::string::is_ascii_spec_bytes;

    let ghost src = source@;
    let b = source.as_bytes_vec();
    if !source.is_ascii() {
        let mut j: usize = 0;
        while j < b.len()
            invariant
                j <= b@.len(),
                sp_first_high_byte(b@, 0) == sp_first_high_byte(b@, j as int),
            decreases b@.len() - j,
        {
            if b[j] >= 128 {
                return Err(ParseError { pos: j, kind: ParseErrorKind::Syntax });
            }
            j = j + 1;
        }
        return Err(ParseError { pos: 0, kind: ParseErrorKind::Syntax });
    }
    let n = b.len();
    assert(n == source@.len());
    assert(forall|k: int| 0 <= k < n ==> b@[k] == (#[trigger] src[k]) as u8);
    let mut toks: Vec<(Token, usize)> = Vec::new();
    let mut i: usize = 0;
    proof {
        assert(toks_view(toks@) =~= Seq::<(SpecTok, int)>::empty());
    }
    while i < n
        invariant
            i <= n,
            sp_tokenize(src, 0, Seq::empty()) == sp_tokenize(src, i as int, toks_view(toks@)),
        decreases n - i,
    {
        let ghost pre_toks = toks@;
        let c = b[i];
        if c == 32 || c == 9 || c == 10 || c == 13 {
            // whitespace
            i = i + 1;
        } else if is_digit(c) {
            let start = i;
            let mut val: u64 = 0;
            while i < n && is_digit(b[i])
                invariant
                    start <= i <= n,
                    val <= 2147483647,
                    sp_scan_num(src, start as int, 0, start as int) == sp_scan_num(
                        src,
                        i as int,
                        val as int,
                        start as int,
                    ),
                decreases n - i,
            {
                val = val * 10 + ((b[i] - 48) as u64);
                if val > 2147483647 {
                    return Err(ParseError { pos: start, kind: ParseErrorKind::NumberTooLarge });
                }
                i = i + 1;
            }
            toks.push((Token::Num(val as i32), start));
            proof {
                assert(toks_view(toks@) =~= toks_view(pre_toks).push(
                    (SpecTok::Num(val as i32), start as int),
                ));
            }
        } else if is_ident_start(c) {
            let start = i;
            i = i + 1;
            while i < n && is_ident_cont(b[i])
                invariant
                    start < i <= n,
                    sp_scan_ident(src, start as int + 1) == sp_scan_ident(src, i as int),
                decreases n - i,
            {
                i = i + 1;
            }
            let word = source.substring_ascii(start, i);
            proof {
                assert(word@ == src.subrange(start as int, i as int));
            }
            let tok = if crate::typing::str_eq(word, "return") {
                Token::KwReturn
            } else if crate::typing::str_eq(word, "if") {
                Token::KwIf
            } else if crate::typing::str_eq(word, "else") {
                Token::KwElse
            } else if crate::typing::str_eq(word, "while") {
                Token::KwWhile
            } else if crate::typing::str_eq(word, "for") {
                Token::KwFor
            } else if crate::typing::str_eq(word, "int") {
                Token::KwInt
            } else {
                Token::Ident(word.to_owned())
            };
            let ghost gtok = tok;
            proof {
                assert(tok_view(gtok) == sp_keyword(src.subrange(start as int, i as int)));
            }
            toks.push((tok, start));
            proof {
                assert(toks_view(toks@) =~= toks_view(pre_toks).push(
                    (tok_view(gtok), start as int),
                ));
            }
        } else if c == 61 {
            // '=' or '=='
            if i + 1 < n && b[i + 1] == 61 {
                toks.push((Token::EqEq, i));
                proof {
                    assert(toks_view(toks@) =~= toks_view(pre_toks).push(
                        (SpecTok::EqEq, i as int),
                    ));
                }
                i = i + 2;
            } else {
                toks.push((Token::Assign, i));
                proof {
                    assert(toks_view(toks@) =~= toks_view(pre_toks).push(
                        (SpecTok::Assign, i as int),
                    ));
                }
                i = i + 1;
            }
        } else if c == 33 {
            // '!=' only
            if i + 1 < n && b[i + 1] == 61 {
                toks.push((Token::Neq, i));
                proof {
                    assert(toks_view(toks@) =~= toks_view(pre_toks).push(
                        (SpecTok::Neq, i as int),
                    ));
                }
                i = i + 2;
            } else {
                return Err(ParseError { pos: i, kind: ParseErrorKind::Syntax });
            }
        } else if c == 60 {
            // '<' or '<='
            if i + 1 < n && b[i + 1] == 61 {
                toks.push((Token::Le, i));
                proof {
                    assert(toks_view(toks@) =~= toks_view(pre_toks).push(
                        (SpecTok::Le, i as int),
                    ));
                }
                i = i + 2;
            } else {
                toks.push((Token::Lt, i));
                proof {
                    assert(toks_view(toks@) =~= toks_view(pre_toks).push(
                        (SpecTok::Lt, i as int),
                    ));
                }
                i = i + 1;
            }
        } else if c == 62 {
            // '>' or '>='
            if i + 1 < n && b[i + 1] == 61 {
                toks.push((Token::Ge, i));
                proof {
                    assert(toks_view(toks@) =~= toks_view(pre_toks).push(
                        (SpecTok::Ge, i as int),
                    ));
                }
                i = i + 2;
            } else {
                toks.push((Token::Gt, i));
                proof {
                    assert(toks_view(toks@) =~= toks_view(pre_toks).push(
                        (SpecTok::Gt, i as int),
                    ));
                }
                i = i + 1;
            }
        } else {
            let tok = if c == 43 {
                // '+'
                Token::Plus
            } else if c == 45 {
                // '-'
                Token::Minus
            } else if c == 42 {
                // '*'
                Token::Star
            } else if c == 47 {
                // '/'
                Token::Slash
            } else if c == 38 {
                // '&'
                Token::Amp
            } else if c == 59 {
                // ';'
                Token::Semi
            } else if c == 44 {
                // ','
                Token::Comma
            } else if c == 40 {
                // '('
                Token::LParen
            } else if c == 41 {
                // ')'
                Token::RParen
            } else if c == 123 {
                // '{'
                Token::LBrace
            } else if c == 125 {
                // '}'
                Token::RBrace
            } else {
                return Err(ParseError { pos: i, kind: ParseErrorKind::Syntax });
            };
            let ghost gtok = tok;
            toks.push((tok, i));
            proof {
                assert(toks_view(toks@) =~= toks_view(pre_toks).push(
                    (tok_view(gtok), i as int),
                ));
            }
            i = i + 1;
        }
    }
    Ok(toks)
}

/// A well-formed symbol environment: bindings stand in declaration order,
/// the `k`-th binding owns stack slot `8 * (k + 1)`, and no name is bound
/// twice.
pub open spec fn env_wf(env: Seq<(String, ValInfo)>) -> bool {
    &&& forall|k: int| 0 <= k < env.len() ==> (#[trigger] env[k]).1.offset == 8 * (k + 1)
    &&& forall|k: int, l: int| 0 <= k < l < env.len() ==> env[k].0@ != env[l].0@
}

/// Every `Var` node of `e` carries exactly a binding of `env`.
pub open spec fn expr_env_ok(e: Expr, env: Seq<(String, ValInfo)>) -> bool
    decreases e,
{
    match e {
        Expr::Var { name, info } => exists|k: int|
            0 <= k < env.len() && (#[trigger] env[k]).0@ == name@ && env[k].1 == info,
        Expr::Integer(n) => true,
        Expr::BinOp { lhs, op, rhs } => expr_env_ok(*lhs, env) && expr_env_ok(*rhs, env),
        Expr::FunCall { name, args } => args_env_ok(args@, env),
        Expr::Addr(inner) => expr_env_ok(*inner, env),
        Expr::Dref(inner) => expr_env_ok(*inner, env),
    }
}

/// As [`expr_env_ok`], for an argument list.
pub open spec fn args_env_ok(args: Seq<Expr>, env: Seq<(String, ValInfo)>) -> bool
    decreases args,
{
    if args.len() == 0 {
        true
    } else {
        args_env_ok(args.drop_last(), env) && expr_env_ok(args.last(), env)
    }
}

/// As [`expr_env_ok`], for an optional clause expression.
pub open spec fn opt_env_ok(e: Option<Expr>, env: Seq<(String, ValInfo)>) -> bool {
    match e {
        Some(inner) => expr_env_ok(inner, env),
        None => true,
    }
}

/// As [`expr_env_ok`], for every expression inside a statement.
pub open spec fn stmt_env_ok(s: Stmt, env: Seq<(String, ValInfo)>) -> bool
    decreases s,
{
    match s {
        Stmt::Calc { content } => expr_env_ok(content, env),
        Stmt::Return { expr } => expr_env_ok(expr, env),
        Stmt::If { cond, t_branch, f_branch } => expr_env_ok(cond, env) && stmt_env_ok(
            *t_branch,
            env,
        ) && match f_branch {
            Some(f) => stmt_env_ok(*f, env),
            None => true,
        },
        Stmt::While { cond, content } => expr_env_ok(cond, env) && stmt_env_ok(*content, env),
        Stmt::For { init, cond, tail, content } => opt_env_ok(init, env) && opt_env_ok(cond, env)
            && opt_env_ok(tail, env) && stmt_env_ok(*content, env),
        Stmt::Block(v) => block_env_ok(v@, env),
        Stmt::Declare => true,
    }
}

/// As [`expr_env_ok`], for the statements of a block.
pub open spec fn block_env_ok(ss: Seq<Stmt>, env: Seq<(String, ValInfo)>) -> bool
    decreases ss,
{
    if ss.len() == 0 {
        true
    } else {
        block_env_ok(ss.drop_last(), env) && stmt_env_ok(ss.last(), env)
    }
}

/// How many declarations a statement holds, at any nesting depth. The
/// symbol environment of a function is flat, so each allocates one slot.
pub open spec fn stmt_decls(s: Stmt) -> nat
    decreases s,
{
    match s {
        Stmt::If { cond, t_branch, f_branch } => stmt_decls(*t_branch) + match f_branch {
            Some(f) => stmt_decls(*f),
            None => 0nat,
        },
        Stmt::While { cond, content } => stmt_decls(*content),
        Stmt::For { init, cond, tail, content } => stmt_decls(*content),
        Stmt::Block(v) => block_decls(v@),
        Stmt::Declare => 1,
        _ => 0,
    }
}

/// The declarations of a block of statements.
pub open spec fn block_decls(ss: Seq<Stmt>) -> nat
    decreases ss,
{
    if ss.len() == 0 {
        0
    } else {
        block_decls(ss.drop_last()) + stmt_decls(ss.last())
    }
}

/// `x` rounded up to the next multiple of 16.
pub open spec fn round_up16(x: nat) -> nat {
    if x % 16 == 0 {
        x
    } else {
        (x + 16 - x % 16) as nat
    }
}

/// The layout invariant that parsing establishes for a function: there is
/// a well-formed environment holding one slot per parameter and per
/// declaration, every `Var` node of the body carries one of its bindings,
/// and the local area is the environment's size in bytes rounded up to a
/// multiple of 16.
pub open spec fn func_env_wf(f: FuncDef, env: Seq<(String, ValInfo)>) -> bool {
    &&& env_wf(env)
    &&& env.len() == f.args@.len() + block_decls(f.body@)
    &&& block_env_ok(f.body@, env)
    &&& f.local_area == round_up16(8 * env.len())
}

/// A function definition as parsing produces it.
pub open spec fn func_wf(f: FuncDef) -> bool {
    exists|env: Seq<(String, ValInfo)>| func_env_wf(f, env)
}

/// A binding of a prefix is a binding of the whole environment.
proof fn lemma_expr_env_ok_prefix(e: Expr, env1: Seq<(String, ValInfo)>, env2: Seq<
    (String, ValInfo),
>)
    requires
        expr_env_ok(e, env1),
        env1.is_prefix_of(env2),
    ensures
        expr_env_ok(e, env2),
    decreases e,
{
    match e {
        Expr::Var { name, info } => {
            let k = choose|k: int|
                0 <= k < env1.len() && (#[trigger] env1[k]).0@ == name@ && env1[k].1 == info;
            assert(env2[k] == env1[k]);
        },
        Expr::BinOp { lhs, op, rhs } => {
            lemma_expr_env_ok_prefix(*lhs, env1, env2);
            lemma_expr_env_ok_prefix(*rhs, env1, env2);
        },
        Expr::FunCall { name, args } => {
            lemma_args_env_ok_prefix(args@, env1, env2);
        },
        Expr::Addr(inner) => {
            lemma_expr_env_ok_prefix(*inner, env1, env2);
        },
        Expr::Dref(inner) => {
            lemma_expr_env_ok_prefix(*inner, env1, env2);
        },
        _ => {},
    }
}

/// As [`lemma_expr_env_ok_prefix`], for an argument list.
proof fn lemma_args_env_ok_prefix(args: Seq<Expr>, env1: Seq<(String, ValInfo)>, env2: Seq<
    (String, ValInfo),
>)
    requires
        args_env_ok(args, env1),
        env1.is_prefix_of(env2),
    ensures
        args_env_ok(args, env2),
    decreases args,
{
    if args.len() == 0 {
    } else {
        lemma_args_env_ok_prefix(args.drop_last(), env1, env2);
        lemma_expr_env_ok_prefix(args.last(), env1, env2);
    }
}

/// As [`lemma_expr_env_ok_prefix`], for a statement.
proof fn lemma_stmt_env_ok_prefix(s: Stmt, env1: Seq<(String, ValInfo)>, env2: Seq<
    (String, ValInfo),
>)
    requires
        stmt_env_ok(s, env1),
        env1.is_prefix_of(env2),
    ensures
        stmt_env_ok(s, env2),
    decreases s,
{
    match s {
        Stmt::Calc { content } => {
            lemma_expr_env_ok_prefix(content, env1, env2);
        },
        Stmt::Return { expr } => {
            lemma_expr_env_ok_prefix(expr, env1, env2);
        },
        Stmt::If { cond, t_branch, f_branch } => {
            lemma_expr_env_ok_prefix(cond, env1, env2);
            lemma_stmt_env_ok_prefix(*t_branch, env1, env2);
            match f_branch {
                Some(f) => {
                    lemma_stmt_env_ok_prefix(*f, env1, env2);
                },
                None => {},
            }
        },
        Stmt::While { cond, content } => {
            lemma_expr_env_ok_prefix(cond, env1, env2);
            lemma_stmt_env_ok_prefix(*content, env1, env2);
        },
        Stmt::For { init, cond, tail, content } => {
            lemma_opt_env_ok_prefix(init, env1, env2);
            lemma_opt_env_ok_prefix(cond, env1, env2);
            lemma_opt_env_ok_prefix(tail, env1, env2);
            lemma_stmt_env_ok_prefix(*content, env1, env2);
        },
        Stmt::Block(v) => {
            lemma_block_env_ok_prefix(v@, env1, env2);
        },
        Stmt::Declare => {},
    }
}

/// As [`lemma_expr_env_ok_prefix`], for an optional clause.
proof fn lemma_opt_env_ok_prefix(e: Option<Expr>, env1: Seq<(String, ValInfo)>, env2: Seq<
    (String, ValInfo),
>)
    requires
        opt_env_ok(e, env1),
        env1.is_prefix_of(env2),
    ensures
        opt_env_ok(e, env2),
{
    match e {
        Some(inner) => {
            lemma_expr_env_ok_prefix(inner, env1, env2);
        },
        None => {},
    }
}

/// As [`lemma_expr_env_ok_prefix`], for a block.
proof fn lemma_block_env_ok_prefix(ss: Seq<Stmt>, env1: Seq<(String, ValInfo)>, env2: Seq<
    (String, ValInfo),
>)
    requires
        block_env_ok(ss, env1),
        env1.is_prefix_of(env2),
    ensures
        block_env_ok(ss, env2),
    decreases ss,
{
    if ss.len() == 0 {
    } else {
        lemma_block_env_ok_prefix(ss.drop_last(), env1, env2);
        lemma_stmt_env_ok_prefix(ss.last(), env1, env2);
    }
}

/// Looks a name up in the environment: the binding recorded when the name
/// was declared, or nothing.
#[verifier::loop_isolation(false)]
fn env_lookup(env: &Vec<(String, ValInfo)>, name: &String) -> (r: Option<ValInfo>)
    ensures
        match r {
            Some(info) => exists|k: int|
                0 <= k < env@.len() && (#[trigger] env@[k]).0@ == name@ && env@[k].1 == info,
            None => forall|k: int| 0 <= k < env@.len() ==> (#[trigger] env@[k]).0@ != name@,
        },
        r == sp_lookup(env_view(env@), name@),
{
    let ghost ev = env_view(env@);
    let mut i: usize = 0;
    while i < env.len()
        invariant
            i <= env@.len(),
            forall|k: int| 0 <= k < i ==> (#[trigger] env@[k]).0@ != name@,
            sp_lookup_from(ev, name@, 0) == sp_lookup_from(ev, name@, i as int),
        decreases env@.len() - i,
    {
        proof {
            assert(ev[i as int] == (env@[i as int].0@, env@[i as int].1));
        }
        if env[i].0 == *name {
            return Some(env[i].1.clone());
        }
        i = i + 1;
    }
    None
}

/// The parse error for the token at `pos`, carrying that token's byte
/// position (or the last token's, at the end of the input).
fn err_at(toks: &Vec<(Token, usize)>, pos: usize, kind: ParseErrorKind) -> (r: ParseError)
    ensures
        r == sp_err_at(toks_view(toks@), pos as int, kind),
{
    let p = if pos < toks.len() {
        toks[pos].1
    } else if toks.len() > 0 {
        toks[toks.len() - 1].1
    } else {
        0
    };
    ParseError { pos: p, kind }
}

/// Parses `assign = equation [ "=" assign ]`, right-associative.
#[verifier::rlimit(100)]
fn parse_assign(toks: &Vec<(Token, usize)>, pos: usize, env: &Vec<(String, ValInfo)>) -> (r:
    Result<(Expr, usize), ParseError>)
    requires
        pos <= toks@.len(),
    ensures
        r matches Ok(v) ==> pos < v.1 <= toks@.len() && expr_env_ok(v.0, env@),
        (match r {
            Ok(v) => sp_assign(toks_view(toks@), pos as int, env_view(env@)) == Ok::<
                (SpecExpr, int),
                ParseError,
            >((expr_view(v.0), v.1 as int)),
            Err(e) => sp_assign(toks_view(toks@), pos as int, env_view(env@)) == Err::<
                (SpecExpr, int),
                ParseError,
            >(e),
        }),
    decreases toks@.len() - pos, 7int,
{
    let ghost tv = toks_view(toks@);
    let (lhs, p) = match parse_equation(toks, pos, env) {
        Ok(v) => v,
        Err(e) => {
            return Err(e);
        },
    };
    proof {
        if p < toks.len() {
            assert(tv[p as int].0 == tok_view(toks@[p as int].0));
        }
    }
    if p < toks.len() && matches!(toks[p].0, Token::Assign) {
        let (rhs, p2) = match parse_assign(toks, p + 1, env) {
            Ok(v) => v,
            Err(e) => {
                return Err(e);
            },
        };
        let ghost glhs = lhs;
        let ghost grhs = rhs;
        let r_expr = Expr::BinOp { lhs: Box::new(lhs), op: Op::Assign, rhs: Box::new(rhs) };
        proof {
            assert(expr_view(r_expr) == SpecExpr::BinOp {
                lhs: Box::new(expr_view(glhs)),
                op: Op::Assign,
                rhs: Box::new(expr_view(grhs)),
            });
        }
        Ok((r_expr, p2))
    } else {
        Ok((lhs, p))
    }
}

/// Parses `equation = relational { ("=="|"!=") relational }`, left-folded.
#[verifier::loop_isolation(false)]
#[verifier::rlimit(100)]
fn parse_equation(toks: &Vec<(Token, usize)>, pos: usize, env: &Vec<(String, ValInfo)>) -> (r:
    Result<(Expr, usize), ParseError>)
    requires
        pos <= toks@.len(),
    ensures
        r matches Ok(v) ==> pos < v.1 <= toks@.len() && expr_env_ok(v.0, env@),
        (match r {
            Ok(v) => sp_equation(toks_view(toks@), pos as int, env_view(env@)) == Ok::<
                (SpecExpr, int),
                ParseError,
            >((expr_view(v.0), v.1 as int)),
            Err(e) => sp_equation(toks_view(toks@), pos as int, env_view(env@)) == Err::<
                (SpecExpr, int),
                ParseError,
            >(e),
        }),
    decreases toks@.len() - pos, 6int,
{
    let ghost tv = toks_view(toks@);
    let ghost ev = env_view(env@);
    let (first, p0) = match parse_relational(toks, pos, env) {
        Ok(v) => v,
        Err(e) => {
            return Err(e);
        },
    };
    let mut cur = first;
    let mut p = p0;
    while p < toks.len() && (matches!(toks[p].0, Token::EqEq) || matches!(toks[p].0, Token::Neq))
        invariant
            pos < p <= toks@.len(),
            expr_env_ok(cur, env@),
            sp_equation(tv, pos as int, ev) == sp_equation_tail(tv, p as int, ev, expr_view(cur)),
        decreases toks@.len() - p,
    {
        proof {
            assert(tv[p as int].0 == tok_view(toks@[p as int].0));
        }
        let op = if matches!(toks[p].0, Token::EqEq) {
            Op::Eq
        } else {
            Op::Neq
        };
        let (rhs, p2) = match parse_relational(toks, p + 1, env) {
            Ok(v) => v,
            Err(e) => {
                return Err(e);
            },
        };
        let ghost gcur = cur;
        let ghost grhs = rhs;
        let ghost gop = op;
        cur = Expr::BinOp { lhs: Box::new(cur), op, rhs: Box::new(rhs) };
        proof {
            assert(expr_view(cur) == SpecExpr::BinOp {
                lhs: Box::new(expr_view(gcur)),
                op: gop,
                rhs: Box::new(expr_view(grhs)),
            });
        }
        p = p2;
    }
    proof {
        if p < toks.len() {
            assert(tv[p as int].0 == tok_view(toks@[p as int].0));
        }
    }
    Ok((cur, p))
}

/// Parses `relational = addminus { ("<"|"<="|">"|">=") addminus }`.
#[verifier::loop_isolation(false)]
#[verifier::rlimit(100)]
fn parse_relational(toks: &Vec<(Token, usize)>, pos: usize, env: &Vec<(String, ValInfo)>) -> (r:
    Result<(Expr, usize), ParseError>)
    requires
        pos <= toks@.len(),
    ensures
        r matches Ok(v) ==> pos < v.1 <= toks@.len() && expr_env_ok(v.0, env@),
        (match r {
            Ok(v) => sp_relational(toks_view(toks@), pos as int, env_view(env@)) == Ok::<
                (SpecExpr, int),
                ParseError,
            >((expr_view(v.0), v.1 as int)),
            Err(e) => sp_relational(toks_view(toks@), pos as int, env_view(env@)) == Err::<
                (SpecExpr, int),
                ParseError,
            >(e),
        }),
    decreases toks@.len() - pos, 5int,
{
    let ghost tv = toks_view(toks@);
    let ghost ev = env_view(env@);
    let (first, p0) = match parse_addminus(toks, pos, env) {
        Ok(v) => v,
        Err(e) => {
            return Err(e);
        },
    };
    let mut cur = first;
    let mut p = p0;
    while p < toks.len() && (matches!(toks[p].0, Token::Lt) || matches!(toks[p].0, Token::Le)
        || matches!(toks[p].0, Token::Gt) || matches!(toks[p].0, Token::Ge))
        invariant
            pos < p <= toks@.len(),
            expr_env_ok(cur, env@),
            sp_relational(tv, pos as int, ev) == sp_relational_tail(tv, p as int, ev, expr_view(cur)),
        decreases toks@.len() - p,
    {
        proof {
            assert(tv[p as int].0 == tok_view(toks@[p as int].0));
        }
        let op = if matches!(toks[p].0, Token::Lt) {
            Op::Lt
        } else if matches!(toks[p].0, Token::Le) {
            Op::Le
        } else if matches!(toks[p].0, Token::Gt) {
            Op::Gt
        } else {
            Op::Ge
        };
        let (rhs, p2) = match parse_addminus(toks, p + 1, env) {
            Ok(v) => v,
            Err(e) => {
                return Err(e);
            },
        };
        let ghost gcur = cur;
        let ghost grhs = rhs;
        let ghost gop = op;
        cur = Expr::BinOp { lhs: Box::new(cur), op, rhs: Box::new(rhs) };
        proof {
            assert(expr_view(cur) == SpecExpr::BinOp {
                lhs: Box::new(expr_view(gcur)),
                op: gop,
                rhs: Box::new(expr_view(grhs)),
            });
        }
        p = p2;
    }
    proof {
        if p < toks.len() {
            assert(tv[p as int].0 == tok_view(toks@[p as int].0));
        }
    }
    Ok((cur, p))
}

/// Parses `addminus = factor { ("+"|"-") factor }`.
#[verifier::loop_isolation(false)]
#[verifier::rlimit(100)]
fn parse_addminus(toks: &Vec<(Token, usize)>, pos: usize, env: &Vec<(String, ValInfo)>) -> (r:
    Result<(Expr, usize), ParseError>)
    requires
        pos <= toks@.len(),
    ensures
        r matches Ok(v) ==> pos < v.1 <= toks@.len() && expr_env_ok(v.0, env@),
        (match r {
            Ok(v) => sp_addminus(toks_view(toks@), pos as int, env_view(env@)) == Ok::<
                (SpecExpr, int),
                ParseError,
            >((expr_view(v.0), v.1 as int)),
            Err(e) => sp_addminus(toks_view(toks@), pos as int, env_view(env@)) == Err::<
                (SpecExpr, int),
                ParseError,
            >(e),
        }),
    decreases toks@.len() - pos, 4int,
{
    let ghost tv = toks_view(toks@);
    let ghost ev = env_view(env@);
    let (first, p0) = match parse_factor(toks, pos, env) {
        Ok(v) => v,
        Err(e) => {
            return Err(e);
        },
    };
    let mut cur = first;
    let mut p = p0;
    while p < toks.len() && (matches!(toks[p].0, Token::Plus) || matches!(toks[p].0, Token::Minus))
        invariant
            pos < p <= toks@.len(),
            expr_env_ok(cur, env@),
            sp_addminus(tv, pos as int, ev) == sp_addminus_tail(tv, p as int, ev, expr_view(cur)),
        decreases toks@.len() - p,
    {
        proof {
            assert(tv[p as int].0 == tok_view(toks@[p as int].0));
        }
        let op = if matches!(toks[p].0, Token::Plus) {
            Op::Add
        } else {
            Op::Sub
        };
        let (rhs, p2) = match parse_factor(toks, p + 1, env) {
            Ok(v) => v,
            Err(e) => {
                return Err(e);
            },
        };
        let ghost gcur = cur;
        let ghost grhs = rhs;
        let ghost gop = op;
        cur = Expr::BinOp { lhs: Box::new(cur), op, rhs: Box::new(rhs) };
        proof {
            assert(expr_view(cur) == SpecExpr::BinOp {
                lhs: Box::new(expr_view(gcur)),
                op: gop,
                rhs: Box::new(expr_view(grhs)),
            });
        }
        p = p2;
    }
    proof {
        if p < toks.len() {
            assert(tv[p as int].0 == tok_view(toks@[p as int].0));
        }
    }
    Ok((cur, p))
}

/// Parses `factor = unary { ("*"|"/") unary }`.
#[verifier::loop_isolation(false)]
#[verifier::rlimit(100)]
fn parse_factor(toks: &Vec<(Token, usize)>, pos: usize, env: &Vec<(String, ValInfo)>) -> (r: Result<
    (Expr, usize),
    ParseError,
>)
    requires
        pos <= toks@.len(),
    ensures
        r matches Ok(v) ==> pos < v.1 <= toks@.len() && expr_env_ok(v.0, env@),
        (match r {
            Ok(v) => sp_factor(toks_view(toks@), pos as int, env_view(env@)) == Ok::<
                (SpecExpr, int),
                ParseError,
            >((expr_view(v.0), v.1 as int)),
            Err(e) => sp_factor(toks_view(toks@), pos as int, env_view(env@)) == Err::<
                (SpecExpr, int),
                ParseError,
            >(e),
        }),
    decreases toks@.len() - pos, 3int,
{
    let ghost tv = toks_view(toks@);
    let ghost ev = env_view(env@);
    let (first, p0) = match parse_unary(toks, pos, env) {
        Ok(v) => v,
        Err(e) => {
            return Err(e);
        },
    };
    let mut cur = first;
    let mut p = p0;
    while p < toks.len() && (matches!(toks[p].0, Token::Star) || matches!(toks[p].0, Token::Slash))
        invariant
            pos < p <= toks@.len(),
            expr_env_ok(cur, env@),
            sp_factor(tv, pos as int, ev) == sp_factor_tail(tv, p as int, ev, expr_view(cur)),
        decreases toks@.len() - p,
    {
        proof {
            assert(tv[p as int].0 == tok_view(toks@[p as int].0));
        }
        let op = if matches!(toks[p].0, Token::Star) {
            Op::Mul
        } else {
            Op::Div
        };
        let (rhs, p2) = match parse_unary(toks, p + 1, env) {
            Ok(v) => v,
            Err(e) => {
                return Err(e);
            },
        };
        let ghost gcur = cur;
        let ghost grhs = rhs;
        let ghost gop = op;
        cur = Expr::BinOp { lhs: Box::new(cur), op, rhs: Box::new(rhs) };
        proof {
            assert(expr_view(cur) == SpecExpr::BinOp {
                lhs: Box::new(expr_view(gcur)),
                op: gop,
                rhs: Box::new(expr_view(grhs)),
            });
        }
        p = p2;
    }
    proof {
        if p < toks.len() {
            assert(tv[p as int].0 == tok_view(toks@[p as int].0));
        }
    }
    Ok((cur, p))
}

/// Parses `unary = atom | "+" unary | "-" unary | "&" unary | "*" unary`.
/// Unary plus is a no-op, unary minus becomes `0 - e`; `&` and `*` build
/// address-of and dereference nodes.
fn parse_unary(toks: &Vec<(Token, usize)>, pos: usize, env: &Vec<(String, ValInfo)>) -> (r: Result<
    (Expr, usize),
    ParseError,
>)
    requires
        pos <= toks@.len(),
    ensures
        r matches Ok(v) ==> pos < v.1 <= toks@.len() && expr_env_ok(v.0, env@),
        (match r {
            Ok(v) => sp_unary(toks_view(toks@), pos as int, env_view(env@)) == Ok::<
                (SpecExpr, int),
                ParseError,
            >((expr_view(v.0), v.1 as int)),
            Err(e) => sp_unary(toks_view(toks@), pos as int, env_view(env@)) == Err::<
                (SpecExpr, int),
                ParseError,
            >(e),
        }),
    decreases toks@.len() - pos, 2int,
{
    let ghost tv = toks_view(toks@);
    if pos >= toks.len() {
        return Err(err_at(toks, pos, ParseErrorKind::Syntax));
    }
    proof {
        assert(tv[pos as int].0 == tok_view(toks@[pos as int].0));
    }
    if matches!(toks[pos].0, Token::Plus) {
        // unary plus is a no-op
        parse_unary(toks, pos + 1, env)
    } else if matches!(toks[pos].0, Token::Minus) {
        let (inner, p) = match parse_unary(toks, pos + 1, env) {
            Ok(v) => v,
            Err(e) => {
                return Err(e);
            },
        };
        let ghost ginner = inner;
        let r_expr = Expr::BinOp {
            lhs: Box::new(Expr::Integer(0)),
            op: Op::Sub,
            rhs: Box::new(inner),
        };
        proof {
            assert(r_expr is BinOp);
            assert(*r_expr->BinOp_lhs == Expr::Integer(0));
            assert(*r_expr->BinOp_rhs == ginner);
            assert(expr_env_ok(Expr::Integer(0), env@));
            assert(expr_env_ok(r_expr, env@));
            assert(expr_view(Expr::Integer(0)) == SpecExpr::Integer(0));
            assert(expr_view(r_expr) == SpecExpr::BinOp {
                lhs: Box::new(SpecExpr::Integer(0)),
                op: Op::Sub,
                rhs: Box::new(expr_view(ginner)),
            });
        }
        Ok((r_expr, p))
    } else if matches!(toks[pos].0, Token::Amp) {
        let (inner, p) = match parse_unary(toks, pos + 1, env) {
            Ok(v) => v,
            Err(e) => {
                return Err(e);
            },
        };
        let ghost ginner = inner;
        let r_expr = Expr::Addr(Box::new(inner));
        proof {
            assert(expr_view(r_expr) == SpecExpr::Addr(Box::new(expr_view(ginner))));
        }
        Ok((r_expr, p))
    } else if matches!(toks[pos].0, Token::Star) {
        let (inner, p) = match parse_unary(toks, pos + 1, env) {
            Ok(v) => v,
            Err(e) => {
                return Err(e);
            },
        };
        let ghost ginner = inner;
        let r_expr = Expr::Dref(Box::new(inner));
        proof {
            assert(expr_view(r_expr) == SpecExpr::Dref(Box::new(expr_view(ginner))));
        }
        Ok((r_expr, p))
    } else {
        parse_atom(toks, pos, env)
    }
}

/// Parses `atom = num | ident | funccall | "(" assign ")"`. An identifier
/// is resolved against the environment here: an undeclared name is a hard
/// error, and one followed by `(` is a call.
#[verifier::loop_isolation(false)]
#[verifier::rlimit(100)]
fn parse_atom(toks: &Vec<(Token, usize)>, pos: usize, env: &Vec<(String, ValInfo)>) -> (r: Result<
    (Expr, usize),
    ParseError,
>)
    requires
        pos <= toks@.len(),
    ensures
        r matches Ok(v) ==> pos < v.1 <= toks@.len() && expr_env_ok(v.0, env@),
        (match r {
            Ok(v) => sp_atom(toks_view(toks@), pos as int, env_view(env@)) == Ok::<
                (SpecExpr, int),
                ParseError,
            >((expr_view(v.0), v.1 as int)),
            Err(e) => sp_atom(toks_view(toks@), pos as int, env_view(env@)) == Err::<
                (SpecExpr, int),
                ParseError,
            >(e),
        }),
    decreases toks@.len() - pos, 1int,
{
    let ghost tv = toks_view(toks@);
    let ghost ev = env_view(env@);
    if pos >= toks.len() {
        return Err(err_at(toks, pos, ParseErrorKind::Syntax));
    }
    proof {
        assert(tv[pos as int].0 == tok_view(toks@[pos as int].0));
        if pos + 1 < toks.len() {
            assert(tv[pos as int + 1].0 == tok_view(toks@[pos as int + 1].0));
        }
        if pos + 2 < toks.len() {
            assert(tv[pos as int + 2].0 == tok_view(toks@[pos as int + 2].0));
        }
    }
    match &toks[pos].0 {
        Token::Num(v) => {
            let r_expr = Expr::Integer(*v);
            proof {
                assert(expr_view(r_expr) == SpecExpr::Integer(*v));
            }
            Ok((r_expr, pos + 1))
        },
        Token::Ident(name) => {
            if pos + 1 < toks.len() && matches!(toks[pos + 1].0, Token::LParen) {
                let mut args: Vec<Expr> = Vec::new();
                let mut p = pos + 2;
                if p < toks.len() && matches!(toks[p].0, Token::RParen) {
                    let r_expr = Expr::FunCall { name: name.clone(), args };
                    proof {
                        assert(r_expr is FunCall);
                        assert(r_expr->FunCall_args@ =~= Seq::<Expr>::empty());
                        assert(args_env_ok(r_expr->FunCall_args@, env@));
                        assert(expr_env_ok(r_expr, env@));
                        assert(exprs_view(r_expr->FunCall_args@) =~= Seq::<SpecExpr>::empty());
                        assert(expr_view(r_expr) == SpecExpr::FunCall {
                            name: name@,
                            args: Seq::empty(),
                        });
                    }
                    return Ok((r_expr, p + 1));
                }
                proof {
                    assert(exprs_view(args@) =~= Seq::<SpecExpr>::empty());
                }
                loop
                    invariant
                        pos + 2 <= p <= toks@.len(),
                        args_env_ok(args@, env@),
                        sp_atom(tv, pos as int, ev) == sp_args(
                            tv,
                            p as int,
                            ev,
                            name@,
                            exprs_view(args@),
                        ),
                    decreases toks@.len() - p,
                {
                    let (a, p2) = match parse_assign(toks, p, env) {
                        Ok(v) => v,
                        Err(e) => {
                            return Err(e);
                        },
                    };
                    let ghost pre_args = args@;
                    let ghost ga = a;
                    args.push(a);
                    proof {
                        assert(args@.drop_last() =~= pre_args);
                        assert(args@.last() == ga);
                        assert(exprs_view(args@) == exprs_view(pre_args).push(expr_view(ga)));
                        if p2 < toks.len() {
                            assert(tv[p2 as int].0 == tok_view(toks@[p2 as int].0));
                        }
                    }
                    if p2 < toks.len() && matches!(toks[p2].0, Token::Comma) {
                        p = p2 + 1;
                    } else if p2 < toks.len() && matches!(toks[p2].0, Token::RParen) {
                        let ghost gargs = args@;
                        let r_expr = Expr::FunCall { name: name.clone(), args };
                        proof {
                            assert(r_expr is FunCall);
                            assert(r_expr->FunCall_args@ == gargs);
                            assert(args_env_ok(r_expr->FunCall_args@, env@));
                            assert(expr_env_ok(r_expr, env@));
                            assert(expr_view(r_expr) == SpecExpr::FunCall {
                                name: name@,
                                args: exprs_view(gargs),
                            });
                        }
                        return Ok((r_expr, p2 + 1));
                    } else {
                        return Err(err_at(toks, p2, ParseErrorKind::Syntax));
                    }
                }
            } else {
                match env_lookup(env, name) {
                    Some(info) => {
                        let ghost ginfo = info;
                        let r_expr = Expr::Var { name: name.clone(), info };
                        proof {
                            assert(expr_view(r_expr) == SpecExpr::Var {
                                name: name@,
                                info: ginfo,
                            });
                        }
                        Ok((r_expr, pos + 1))
                    },
                    None => Err(err_at(toks, pos, ParseErrorKind::Undeclared)),
                }
            }
        },
        Token::LParen => {
            let (inner, p) = match parse_assign(toks, pos + 1, env) {
                Ok(v) => v,
                Err(e) => {
                    return Err(e);
                },
            };
            proof {
                if p < toks.len() {
                    assert(tv[p as int].0 == tok_view(toks@[p as int].0));
                }
            }
            if p < toks.len() && matches!(toks[p].0, Token::RParen) {
                Ok((inner, p + 1))
            } else {
                Err(err_at(toks, p, ParseErrorKind::Syntax))
            }
        },
        _ => Err(err_at(toks, pos, ParseErrorKind::Syntax)),
    }
}

/// A variable's slot lies on an 8-byte boundary inside the local area.
pub open spec fn var_slot_ok(info: ValInfo, area: nat) -> bool {
    info.offset % 8 == 0 && 8 <= info.offset <= area
}

/// Every `Var` node of `e` addresses a slot inside the local area.
pub open spec fn expr_vars_ok(e: Expr, area: nat) -> bool
    decreases e,
{
    match e {
        Expr::Var { name, info } => var_slot_ok(info, area),
        Expr::Integer(n) => true,
        Expr::BinOp { lhs, op, rhs } => expr_vars_ok(*lhs, area) && expr_vars_ok(*rhs, area),
        Expr::FunCall { name, args } => args_vars_ok(args@, area),
        Expr::Addr(inner) => expr_vars_ok(*inner, area),
        Expr::Dref(inner) => expr_vars_ok(*inner, area),
    }
}

/// As [`expr_vars_ok`], for an argument list.
pub open spec fn args_vars_ok(args: Seq<Expr>, area: nat) -> bool
    decreases args,
{
    if args.len() == 0 {
        true
    } else {
        args_vars_ok(args.drop_last(), area) && expr_vars_ok(args.last(), area)
    }
}

/// As [`expr_vars_ok`], for an optional clause expression.
pub open spec fn opt_vars_ok(e: Option<Expr>, area: nat) -> bool {
    match e {
        Some(inner) => expr_vars_ok(inner, area),
        None => true,
    }
}

/// As [`expr_vars_ok`], for a statement.
pub open spec fn stmt_vars_ok(s: Stmt, area: nat) -> bool
    decreases s,
{
    match s {
        Stmt::Calc { content } => expr_vars_ok(content, area),
        Stmt::Return { expr } => expr_vars_ok(expr, area),
        Stmt::If { cond, t_branch, f_branch } => expr_vars_ok(cond, area) && stmt_vars_ok(
            *t_branch,
            area,
        ) && match f_branch {
            Some(f) => stmt_vars_ok(*f, area),
            None => true,
        },
        Stmt::While { cond, content } => expr_vars_ok(cond, area) && stmt_vars_ok(*content, area),
        Stmt::For { init, cond, tail, content } => opt_vars_ok(init, area) && opt_vars_ok(
            cond,
            area,
        ) && opt_vars_ok(tail, area) && stmt_vars_ok(*content, area),
        Stmt::Block(v) => block_vars_ok(v@, area),
        Stmt::Declare => true,
    }
}

/// As [`expr_vars_ok`], for a block.
pub open spec fn block_vars_ok(ss: Seq<Stmt>, area: nat) -> bool
    decreases ss,
{
    if ss.len() == 0 {
        true
    } else {
        block_vars_ok(ss.drop_last(), area) && stmt_vars_ok(ss.last(), area)
    }
}

/// A binding of a well-formed environment addresses a slot inside any
/// area that holds the whole environment, so every variable of the
/// expression does.
proof fn lemma_expr_vars_ok(e: Expr, env: Seq<(String, ValInfo)>, area: nat)
    requires
        env_wf(env),
        8 * env.len() <= area,
        expr_env_ok(e, env),
    ensures
        expr_vars_ok(e, area),
    decreases e,
{
    match e {
        Expr::Var { name, info } => {
            let k = choose|k: int|
                0 <= k < env.len() && (#[trigger] env[k]).0@ == name@ && env[k].1 == info;
        },
        Expr::BinOp { lhs, op, rhs } => {
            lemma_expr_vars_ok(*lhs, env, area);
            lemma_expr_vars_ok(*rhs, env, area);
        },
        Expr::FunCall { name, args } => {
            lemma_args_vars_ok(args@, env, area);
        },
        Expr::Addr(inner) => {
            lemma_expr_vars_ok(*inner, env, area);
        },
        Expr::Dref(inner) => {
            lemma_expr_vars_ok(*inner, env, area);
        },
        _ => {},
    }
}

/// As [`lemma_expr_vars_ok`], for an argument list.
proof fn lemma_args_vars_ok(args: Seq<Expr>, env: Seq<(String, ValInfo)>, area: nat)
    requires
        env_wf(env),
        8 * env.len() <= area,
        args_env_ok(args, env),
    ensures
        args_vars_ok(args, area),
    decreases args,
{
    if args.len() == 0 {
    } else {
        lemma_args_vars_ok(args.drop_last(), env, area);
        lemma_expr_vars_ok(args.last(), env, area);
    }
}

/// As [`lemma_expr_vars_ok`], for a statement.
proof fn lemma_stmt_vars_ok(s: Stmt, env: Seq<(String, ValInfo)>, area: nat)
    requires
        env_wf(env),
        8 * env.len() <= area,
        stmt_env_ok(s, env),
    ensures
        stmt_vars_ok(s, area),
    decreases s,
{
    match s {
        Stmt::Calc { content } => {
            lemma_expr_vars_ok(content, env, area);
        },
        Stmt::Return { expr } => {
            lemma_expr_vars_ok(expr, env, area);
        },
        Stmt::If { cond, t_branch, f_branch } => {
            lemma_expr_vars_ok(cond, env, area);
            lemma_stmt_vars_ok(*t_branch, env, area);
            match f_branch {
                Some(f) => {
                    lemma_stmt_vars_ok(*f, env, area);
                },
                None => {},
            }
        },
        Stmt::While { cond, content } => {
            lemma_expr_vars_ok(cond, env, area);
            lemma_stmt_vars_ok(*content, env, area);
        },
        Stmt::For { init, cond, tail, content } => {
            match init {
                Some(inner) => {
                    lemma_expr_vars_ok(inner, env, area);
                },
                None => {},
            }
            match cond {
                Some(inner) => {
                    lemma_expr_vars_ok(inner, env, area);
                },
                None => {},
            }
            match tail {
                Some(inner) => {
                    lemma_expr_vars_ok(inner, env, area);
                },
                None => {},
            }
            lemma_stmt_vars_ok(*content, env, area);
        },
        Stmt::Block(v) => {
            lemma_block_vars_ok(v@, env, area);
        },
        Stmt::Declare => {},
    }
}

/// As [`lemma_expr_vars_ok`], for a block.
proof fn lemma_block_vars_ok(ss: Seq<Stmt>, env: Seq<(String, ValInfo)>, area: nat)
    requires
        env_wf(env),
        8 * env.len() <= area,
        block_env_ok(ss, env),
    ensures
        block_vars_ok(ss, area),
    decreases ss,
{
    if ss.len() == 0 {
    } else {
        lemma_block_vars_ok(ss.drop_last(), env, area);
        lemma_stmt_vars_ok(ss.last(), env, area);
    }
}

/// The local area of a parsed function is a nonnegative multiple of 16
/// holding one 8-byte slot for each parameter and each declaration.
pub proof fn lemma_local_area(f: FuncDef)
    requires
        func_wf(f),
    ensures
        f.local_area % 16 == 0,
        f.local_area >= 8 * (f.args@.len() + block_decls(f.body@)),
{
    let env = choose|env: Seq<(String, ValInfo)>| func_env_wf(f, env);
}

/// Every variable of a parsed function addresses an 8-byte slot between
/// the first slot and the function's local area, the slot recorded when
/// its name was declared.
pub proof fn lemma_var_offsets(f: FuncDef)
    requires
        func_wf(f),
    ensures
        block_vars_ok(f.body@, f.local_area as nat),
{
    let env = choose|env: Seq<(String, ValInfo)>| func_env_wf(f, env);
    lemma_block_vars_ok(f.body@, env, f.local_area as nat);
}

/// Does `e` contain a `Var` node of this name carrying this binding?
pub open spec fn expr_uses(e: Expr, name: Seq<char>, info: ValInfo) -> bool
    decreases e,
{
    match e {
        Expr::Var { name: n, info: i } => n@ == name && i == info,
        Expr::Integer(n) => false,
        Expr::BinOp { lhs, op, rhs } => expr_uses(*lhs, name, info) || expr_uses(
            *rhs,
            name,
            info,
        ),
        Expr::FunCall { name: n, args } => args_use(args@, name, info),
        Expr::Addr(inner) => expr_uses(*inner, name, info),
        Expr::Dref(inner) => expr_uses(*inner, name, info),
    }
}

/// As [`expr_uses`], for an argument list.
pub open spec fn args_use(args: Seq<Expr>, name: Seq<char>, info: ValInfo) -> bool
    decreases args,
{
    if args.len() == 0 {
        false
    } else {
        args_use(args.drop_last(), name, info) || expr_uses(args.last(), name, info)
    }
}

/// As [`expr_uses`], for an optional clause expression.
pub open spec fn opt_uses(e: Option<Expr>, name: Seq<char>, info: ValInfo) -> bool {
    match e {
        Some(inner) => expr_uses(inner, name, info),
        None => false,
    }
}

/// As [`expr_uses`], for a statement.
pub open spec fn stmt_uses(s: Stmt, name: Seq<char>, info: ValInfo) -> bool
    decreases s,
{
    match s {
        Stmt::Calc { content } => expr_uses(content, name, info),
        Stmt::Return { expr } => expr_uses(expr, name, info),
        Stmt::If { cond, t_branch, f_branch } => expr_uses(cond, name, info) || stmt_uses(
            *t_branch,
            name,
            info,
        ) || match f_branch {
            Some(f) => stmt_uses(*f, name, info),
            None => false,
        },
        Stmt::While { cond, content } => expr_uses(cond, name, info) || stmt_uses(
            *content,
            name,
            info,
        ),
        Stmt::For { init, cond, tail, content } => opt_uses(init, name, info) || opt_uses(
            cond,
            name,
            info,
        ) || opt_uses(tail, name, info) || stmt_uses(*content, name, info),
        Stmt::Block(v) => block_uses(v@, name, info),
        Stmt::Declare => false,
    }
}

/// As [`expr_uses`], for a block.
pub open spec fn block_uses(ss: Seq<Stmt>, name: Seq<char>, info: ValInfo) -> bool
    decreases ss,
{
    if ss.len() == 0 {
        false
    } else {
        block_uses(ss.drop_last(), name, info) || stmt_uses(ss.last(), name, info)
    }
}

/// A used binding is a binding of the environment.
proof fn lemma_expr_uses_env(e: Expr, env: Seq<(String, ValInfo)>, name: Seq<char>, info: ValInfo)
    requires
        expr_env_ok(e, env),
        expr_uses(e, name, info),
    ensures
        exists|k: int| 0 <= k < env.len() && (#[trigger] env[k]).0@ == name && env[k].1 == info,
    decreases e,
{
    match e {
        Expr::Var { name: n, info: i } => {},
        Expr::BinOp { lhs, op, rhs } => {
            if expr_uses(*lhs, name, info) {
                lemma_expr_uses_env(*lhs, env, name, info);
            } else {
                lemma_expr_uses_env(*rhs, env, name, info);
            }
        },
        Expr::FunCall { name: n, args } => {
            lemma_args_use_env(args@, env, name, info);
        },
        Expr::Addr(inner) => {
            lemma_expr_uses_env(*inner, env, name, info);
        },
        Expr::Dref(inner) => {
            lemma_expr_uses_env(*inner, env, name, info);
        },
        _ => {},
    }
}

/// As [`lemma_expr_uses_env`], for an argument list.
proof fn lemma_args_use_env(
    args: Seq<Expr>,
    env: Seq<(String, ValInfo)>,
    name: Seq<char>,
    info: ValInfo,
)
    requires
        args_env_ok(args, env),
        args_use(args, name, info),
    ensures
        exists|k: int| 0 <= k < env.len() && (#[trigger] env[k]).0@ == name && env[k].1 == info,
    decreases args,
{
    if args.len() == 0 {
    } else {
        if args_use(args.drop_last(), name, info) {
            lemma_args_use_env(args.drop_last(), env, name, info);
        } else {
            lemma_expr_uses_env(args.last(), env, name, info);
        }
    }
}

/// As [`lemma_expr_uses_env`], for a statement.
proof fn lemma_stmt_uses_env(s: Stmt, env: Seq<(String, ValInfo)>, name: Seq<char>, info: ValInfo)
    requires
        stmt_env_ok(s, env),
        stmt_uses(s, name, info),
    ensures
        exists|k: int| 0 <= k < env.len() && (#[trigger] env[k]).0@ == name && env[k].1 == info,
    decreases s,
{
    match s {
        Stmt::Calc { content } => {
            lemma_expr_uses_env(content, env, name, info);
        },
        Stmt::Return { expr } => {
            lemma_expr_uses_env(expr, env, name, info);
        },
        Stmt::If { cond, t_branch, f_branch } => {
            if expr_uses(cond, name, info) {
                lemma_expr_uses_env(cond, env, name, info);
            } else if stmt_uses(*t_branch, name, info) {
                lemma_stmt_uses_env(*t_branch, env, name, info);
            } else {
                match f_branch {
                    Some(f) => {
                        lemma_stmt_uses_env(*f, env, name, info);
                    },
                    None => {},
                }
            }
        },
        Stmt::While { cond, content } => {
            if expr_uses(cond, name, info) {
                lemma_expr_uses_env(cond, env, name, info);
            } else {
                lemma_stmt_uses_env(*content, env, name, info);
            }
        },
        Stmt::For { init, cond, tail, content } => {
            if opt_uses(init, name, info) {
                lemma_expr_uses_env(init->0, env, name, info);
            } else if opt_uses(cond, name, info) {
                lemma_expr_uses_env(cond->0, env, name, info);
            } else if opt_uses(tail, name, info) {
                lemma_expr_uses_env(tail->0, env, name, info);
            } else {
                lemma_stmt_uses_env(*content, env, name, info);
            }
        },
        Stmt::Block(v) => {
            lemma_block_uses_env(v@, env, name, info);
        },
        Stmt::Declare => {},
    }
}

/// As [`lemma_expr_uses_env`], for a block.
proof fn lemma_block_uses_env(
    ss: Seq<Stmt>,
    env: Seq<(String, ValInfo)>,
    name: Seq<char>,
    info: ValInfo,
)
    requires
        block_env_ok(ss, env),
        block_uses(ss, name, info),
    ensures
        exists|k: int| 0 <= k < env.len() && (#[trigger] env[k]).0@ == name && env[k].1 == info,
    decreases ss,
{
    if ss.len() == 0 {
    } else {
        if block_uses(ss.drop_last(), name, info) {
            lemma_block_uses_env(ss.drop_last(), env, name, info);
        } else {
            lemma_stmt_uses_env(ss.last(), env, name, info);
        }
    }
}

/// Every use of one name in a parsed function carries one and the same
/// binding: the slot recorded when the name was declared.
pub proof fn lemma_var_bindings_agree(f: FuncDef, name: Seq<char>, i1: ValInfo, i2: ValInfo)
    requires
        func_wf(f),
        block_uses(f.body@, name, i1),
        block_uses(f.body@, name, i2),
    ensures
        i1 == i2,
{
    let env = choose|env: Seq<(String, ValInfo)>| func_env_wf(f, env);
    lemma_block_uses_env(f.body@, env, name, i1);
    lemma_block_uses_env(f.body@, env, name, i2);
    let k1 = choose|k: int|
        0 <= k < env.len() && (#[trigger] env[k]).0@ == name && env[k].1 == i1;
    let k2 = choose|k: int|
        0 <= k < env.len() && (#[trigger] env[k]).0@ == name && env[k].1 == i2;
    if k1 != k2 {
        assert(env[k1].0@ != env[k2].0@);
    }
}

/// Prefix order on environments is transitive.
proof fn lemma_prefix_trans(a: Seq<(String, ValInfo)>, b: Seq<(String, ValInfo)>, c: Seq<
    (String, ValInfo),
>)
    requires
        a.is_prefix_of(b),
        b.is_prefix_of(c),
    ensures
        a.is_prefix_of(c),
{
    assert(a =~= c.subrange(0, a.len() as int));
}

/// Parses `type = "int" { "*" }`. A leading identifier other than `int`
/// is an unknown type name.
#[verifier::loop_isolation(false)]
fn parse_typename(toks: &Vec<(Token, usize)>, pos: usize) -> (r: Result<(Type, usize), ParseError>)
    requires
        pos <= toks@.len(),
    ensures
        r matches Ok(v) ==> pos < v.1 <= toks@.len(),
        (match r {
            Ok(v) => sp_typename(toks_view(toks@), pos as int) == Ok::<(Type, int), ParseError>(
                (v.0, v.1 as int),
            ),
            Err(e) => sp_typename(toks_view(toks@), pos as int) == Err::<(Type, int), ParseError>(
                e,
            ),
        }),
{
    let ghost tv = toks_view(toks@);
    if pos >= toks.len() {
        return Err(err_at(toks, pos, ParseErrorKind::Syntax));
    }
    proof {
        assert(tv[pos as int].0 == tok_view(toks@[pos as int].0));
    }
    match &toks[pos].0 {
        Token::KwInt => {
            let mut ty = Type::Int;
            let mut p = pos + 1;
            while p < toks.len() && matches!(toks[p].0, Token::Star)
                invariant
                    pos < p <= toks@.len(),
                    sp_ty_tail(tv, pos + 1, Type::Int) == sp_ty_tail(tv, p as int, ty),
                decreases toks@.len() - p,
            {
                proof {
                    assert(tv[p as int].0 == tok_view(toks@[p as int].0));
                }
                ty = Type::Ptr(Box::new(ty));
                p = p + 1;
            }
            proof {
                if p < toks.len() {
                    assert(tv[p as int].0 == tok_view(toks@[p as int].0));
                }
            }
            Ok((ty, p))
        },
        Token::Ident(name) => Err(err_at(toks, pos, ParseErrorKind::UnknownType)),
        _ => Err(err_at(toks, pos, ParseErrorKind::Syntax)),
    }
}

/// Declares `name` in the environment: the next free stack slot, or an
/// error when the name is already bound or no slot is left.
fn env_declare(
    env: &mut Vec<(String, ValInfo)>,
    name: &String,
    ty: Type,
    errpos: usize,
) -> (r: Result<(), ParseError>)
    requires
        env_wf(old(env)@),
    ensures
        match r {
            Ok(()) => {
                &&& env_wf(final(env)@)
                &&& old(env)@.is_prefix_of(final(env)@)
                &&& final(env)@.len() == old(env)@.len() + 1
                &&& sp_declare(env_view(old(env)@), name@, ty, errpos as int) == Ok::<
                    Seq<(Seq<char>, ValInfo)>,
                    ParseError,
                >(env_view(final(env)@))
            },
            Err(e) => final(env)@ == old(env)@ && sp_declare(
                env_view(old(env)@),
                name@,
                ty,
                errpos as int,
            ) == Err::<Seq<(Seq<char>, ValInfo)>, ParseError>(e),
        },
{
    match env_lookup(env, name) {
        Some(found) => Err(ParseError { pos: errpos, kind: ParseErrorKind::Redeclared }),
        None => {
            if env.len() >= usize::MAX / 8 - 1 {
                return Err(ParseError { pos: errpos, kind: ParseErrorKind::TooManyLocals });
            }
            let offset = (env.len() + 1) * 8;
            let ghost pre = env@;
            env.push((name.clone(), ValInfo::new(offset, ty)));
            proof {
                assert(env@.drop_last() =~= pre);
                assert(pre.is_prefix_of(env@));
                assert(env_view(env@) =~= env_view(pre).push(
                    (name@, ValInfo { offset: ((pre.len() + 1) * 8) as usize, ty }),
                ));
                assert forall|k: int, l: int| 0 <= k < l < env@.len() implies env@[k].0@
                    != env@[l].0@ by {
                    if l < env@.len() - 1 {
                        assert(env@[k] == pre[k] && env@[l] == pre[l]);
                    } else {
                        assert(env@[k] == pre[k]);
                    }
                }
            }
            Ok(())
        },
    }
}

/// Parses one statement. Declarations extend the function's flat
/// environment; the returned statement's variables all carry bindings of
/// the extended environment, which grows by exactly the statement's
/// declarations.
#[verifier::loop_isolation(false)]
#[verifier::rlimit(100)]
/// Parses an `if` statement, with its optional `else`.
#[verifier::loop_isolation(false)]
#[verifier::rlimit(100)]
fn parse_if_stmt(toks: &Vec<(Token, usize)>, pos: usize, env: &mut Vec<(String, ValInfo)>) -> (r:
    Result<(Stmt, usize), ParseError>)
    requires
        pos < toks@.len(),
        toks@[pos as int].0 is KwIf,
        env_wf(old(env)@),
    ensures
        r matches Ok(v) ==> {
            &&& pos < v.1 <= toks@.len()
            &&& env_wf(final(env)@)
            &&& old(env)@.is_prefix_of(final(env)@)
            &&& final(env)@.len() == old(env)@.len() + stmt_decls(v.0)
            &&& stmt_env_ok(v.0, final(env)@)
        },
        (match r {
            Ok(v) => sp_stmt(toks_view(toks@), pos as int, env_view(old(env)@)) == Ok::<
                (SpecStmt, int, Seq<(Seq<char>, ValInfo)>),
                ParseError,
            >((stmt_view(v.0), v.1 as int, env_view(final(env)@))),
            Err(e) => sp_stmt(toks_view(toks@), pos as int, env_view(old(env)@)) == Err::<
                (SpecStmt, int, Seq<(Seq<char>, ValInfo)>),
                ParseError,
            >(e),
        }),
    decreases toks@.len() - pos, 0int,
{
    let ghost tv = toks_view(toks@);
    let ghost ev0 = env_view(env@);
    proof {
        assert(tv[pos as int].0 == tok_view(toks@[pos as int].0));
        if pos + 1 < toks.len() {
            assert(tv[pos as int + 1].0 == tok_view(toks@[pos as int + 1].0));
        }
    }

    if !(pos + 1 < toks.len() && matches!(toks[pos + 1].0, Token::LParen)) {
        return Err(err_at(toks, pos + 1, ParseErrorKind::Syntax));
    }
    let (c, p) = match parse_assign(toks, pos + 2, env) {
        Ok(v) => v,
        Err(er) => {
            return Err(er);
        },
    };
    proof {
        if p < toks.len() {
            assert(tv[p as int].0 == tok_view(toks@[p as int].0));
        }
    }
    if !(p < toks.len() && matches!(toks[p].0, Token::RParen)) {
        return Err(err_at(toks, p, ParseErrorKind::Syntax));
    }
    let ghost env0 = env@;
    let (t, p2) = match parse_stmt(toks, p + 1, env) {
        Ok(v) => v,
        Err(er) => {
            return Err(er);
        },
    };
    let ghost env1 = env@;
    proof {
        if p2 < toks.len() {
            assert(tv[p2 as int].0 == tok_view(toks@[p2 as int].0));
        }
    }
    if p2 < toks.len() && matches!(toks[p2].0, Token::KwElse) {
        let (f, p3) = match parse_stmt(toks, p2 + 1, env) {
            Ok(v) => v,
            Err(er) => {
                return Err(er);
            },
        };
        let ghost gc = c;
        let ghost gt = t;
        let ghost gf = f;
        let st = Stmt::If {
            cond: c,
            t_branch: Box::new(t),
            f_branch: Some(Box::new(f)),
        };
        proof {
            lemma_prefix_trans(env0, env1, env@);
            lemma_expr_env_ok_prefix(gc, env0, env@);
            lemma_stmt_env_ok_prefix(gt, env1, env@);
            assert(st is If && st->If_cond == gc && *st->If_t_branch == gt
                && st->If_f_branch == Some(Box::new(gf)));
            assert(stmt_env_ok(st, env@));
            assert(stmt_decls(st) == stmt_decls(gt) + stmt_decls(gf));
            assert(stmt_view(st) == SpecStmt::If {
                cond: expr_view(gc),
                t_branch: Box::new(stmt_view(gt)),
                f_branch: Some(Box::new(stmt_view(gf))),
            });
        }
        Ok((st, p3))
    } else {
        let ghost gc = c;
        let ghost gt = t;
        let st = Stmt::If { cond: c, t_branch: Box::new(t), f_branch: None };
        proof {
            lemma_expr_env_ok_prefix(gc, env0, env@);
            assert(st is If && st->If_cond == gc && *st->If_t_branch == gt
                && st->If_f_branch is None);
            assert(stmt_env_ok(st, env@));
            assert(stmt_decls(st) == stmt_decls(gt));
            assert(stmt_view(st) == SpecStmt::If {
                cond: expr_view(gc),
                t_branch: Box::new(stmt_view(gt)),
                f_branch: None,
            });
        }
        Ok((st, p2))
    }

}

/// Parses a `while` statement.
#[verifier::loop_isolation(false)]
#[verifier::rlimit(100)]
fn parse_while_stmt(toks: &Vec<(Token, usize)>, pos: usize, env: &mut Vec<(String, ValInfo)>) -> (r:
    Result<(Stmt, usize), ParseError>)
    requires
        pos < toks@.len(),
        toks@[pos as int].0 is KwWhile,
        env_wf(old(env)@),
    ensures
        r matches Ok(v) ==> {
            &&& pos < v.1 <= toks@.len()
            &&& env_wf(final(env)@)
            &&& old(env)@.is_prefix_of(final(env)@)
            &&& final(env)@.len() == old(env)@.len() + stmt_decls(v.0)
            &&& stmt_env_ok(v.0, final(env)@)
        },
        (match r {
            Ok(v) => sp_stmt(toks_view(toks@), pos as int, env_view(old(env)@)) == Ok::<
                (SpecStmt, int, Seq<(Seq<char>, ValInfo)>),
                ParseError,
            >((stmt_view(v.0), v.1 as int, env_view(final(env)@))),
            Err(e) => sp_stmt(toks_view(toks@), pos as int, env_view(old(env)@)) == Err::<
                (SpecStmt, int, Seq<(Seq<char>, ValInfo)>),
                ParseError,
            >(e),
        }),
    decreases toks@.len() - pos, 0int,
{
    let ghost tv = toks_view(toks@);
    let ghost ev0 = env_view(env@);
    proof {
        assert(tv[pos as int].0 == tok_view(toks@[pos as int].0));
        if pos + 1 < toks.len() {
            assert(tv[pos as int + 1].0 == tok_view(toks@[pos as int + 1].0));
        }
    }

    if !(pos + 1 < toks.len() && matches!(toks[pos + 1].0, Token::LParen)) {
        return Err(err_at(toks, pos + 1, ParseErrorKind::Syntax));
    }
    let (c, p) = match parse_assign(toks, pos + 2, env) {
        Ok(v) => v,
        Err(er) => {
            return Err(er);
        },
    };
    proof {
        if p < toks.len() {
            assert(tv[p as int].0 == tok_view(toks@[p as int].0));
        }
    }
    if !(p < toks.len() && matches!(toks[p].0, Token::RParen)) {
        return Err(err_at(toks, p, ParseErrorKind::Syntax));
    }
    let ghost env0 = env@;
    let (body, p2) = match parse_stmt(toks, p + 1, env) {
        Ok(v) => v,
        Err(er) => {
            return Err(er);
        },
    };
    let ghost gc = c;
    let ghost gb = body;
    let st = Stmt::While { cond: c, content: Box::new(body) };
    proof {
        lemma_expr_env_ok_prefix(gc, env0, env@);
        assert(st is While && st->While_cond == gc && *st->While_content == gb);
        assert(stmt_env_ok(st, env@));
        assert(stmt_decls(st) == stmt_decls(gb));
        assert(stmt_view(st) == SpecStmt::While {
            cond: expr_view(gc),
            content: Box::new(stmt_view(gb)),
        });
    }
    Ok((st, p2))

}

/// Parses a `for` statement with its three optional clauses.
#[verifier::loop_isolation(false)]
#[verifier::rlimit(100)]
fn parse_for_stmt(toks: &Vec<(Token, usize)>, pos: usize, env: &mut Vec<(String, ValInfo)>) -> (r:
    Result<(Stmt, usize), ParseError>)
    requires
        pos < toks@.len(),
        toks@[pos as int].0 is KwFor,
        env_wf(old(env)@),
    ensures
        r matches Ok(v) ==> {
            &&& pos < v.1 <= toks@.len()
            &&& env_wf(final(env)@)
            &&& old(env)@.is_prefix_of(final(env)@)
            &&& final(env)@.len() == old(env)@.len() + stmt_decls(v.0)
            &&& stmt_env_ok(v.0, final(env)@)
        },
        (match r {
            Ok(v) => sp_stmt(toks_view(toks@), pos as int, env_view(old(env)@)) == Ok::<
                (SpecStmt, int, Seq<(Seq<char>, ValInfo)>),
                ParseError,
            >((stmt_view(v.0), v.1 as int, env_view(final(env)@))),
            Err(e) => sp_stmt(toks_view(toks@), pos as int, env_view(old(env)@)) == Err::<
                (SpecStmt, int, Seq<(Seq<char>, ValInfo)>),
                ParseError,
            >(e),
        }),
    decreases toks@.len() - pos, 0int,
{
    let ghost tv = toks_view(toks@);
    let ghost ev0 = env_view(env@);
    proof {
        assert(tv[pos as int].0 == tok_view(toks@[pos as int].0));
        if pos + 1 < toks.len() {
            assert(tv[pos as int + 1].0 == tok_view(toks@[pos as int + 1].0));
        }
    }

    if !(pos + 1 < toks.len() && matches!(toks[pos + 1].0, Token::LParen)) {
        return Err(err_at(toks, pos + 1, ParseErrorKind::Syntax));
    }
    let mut p = pos + 2;
    proof {
        if p < toks.len() {
            assert(tv[p as int].0 == tok_view(toks@[p as int].0));
        }
    }
    let init: Option<Expr> = if p < toks.len() && matches!(toks[p].0, Token::Semi) {
        p = p + 1;
        None
    } else {
        let (e, p2) = match parse_assign(toks, p, env) {
            Ok(v) => v,
            Err(er) => {
                return Err(er);
            },
        };
        proof {
            if p2 < toks.len() {
                assert(tv[p2 as int].0 == tok_view(toks@[p2 as int].0));
            }
        }
        if !(p2 < toks.len() && matches!(toks[p2].0, Token::Semi)) {
            return Err(err_at(toks, p2, ParseErrorKind::Syntax));
        }
        p = p2 + 1;
        Some(e)
    };
    let ghost ginit = init;
    let ghost pa = p as int;
    proof {
        assert(sp_opt_clause(tv, pos + 2, ev0, false) == Ok::<
            (Option<SpecExpr>, int),
            ParseError,
        >((opt_expr_view(ginit), pa)));
        if p < toks.len() {
            assert(tv[p as int].0 == tok_view(toks@[p as int].0));
        }
    }
    let cond: Option<Expr> = if p < toks.len() && matches!(toks[p].0, Token::Semi) {
        p = p + 1;
        None
    } else {
        let (e, p2) = match parse_assign(toks, p, env) {
            Ok(v) => v,
            Err(er) => {
                return Err(er);
            },
        };
        proof {
            if p2 < toks.len() {
                assert(tv[p2 as int].0 == tok_view(toks@[p2 as int].0));
            }
        }
        if !(p2 < toks.len() && matches!(toks[p2].0, Token::Semi)) {
            return Err(err_at(toks, p2, ParseErrorKind::Syntax));
        }
        p = p2 + 1;
        Some(e)
    };
    let ghost gcnd = cond;
    let ghost pb = p as int;
    proof {
        assert(sp_opt_clause(tv, pa, ev0, false) == Ok::<
            (Option<SpecExpr>, int),
            ParseError,
        >((opt_expr_view(gcnd), pb)));
        if p < toks.len() {
            assert(tv[p as int].0 == tok_view(toks@[p as int].0));
        }
    }
    let tail: Option<Expr> = if p < toks.len() && matches!(toks[p].0, Token::RParen) {
        p = p + 1;
        None
    } else {
        let (e, p2) = match parse_assign(toks, p, env) {
            Ok(v) => v,
            Err(er) => {
                return Err(er);
            },
        };
        proof {
            if p2 < toks.len() {
                assert(tv[p2 as int].0 == tok_view(toks@[p2 as int].0));
            }
        }
        if !(p2 < toks.len() && matches!(toks[p2].0, Token::RParen)) {
            return Err(err_at(toks, p2, ParseErrorKind::Syntax));
        }
        p = p2 + 1;
        Some(e)
    };
    let ghost gtl = tail;
    let ghost pc = p as int;
    proof {
        assert(sp_opt_clause(tv, pb, ev0, true) == Ok::<
            (Option<SpecExpr>, int),
            ParseError,
        >((opt_expr_view(gtl), pc)));
    }
    let ghost env0 = env@;
    let (body, p2) = match parse_stmt(toks, p, env) {
        Ok(v) => v,
        Err(er) => {
            return Err(er);
        },
    };
    let ghost gb = body;
    let st = Stmt::For { init, cond, tail, content: Box::new(body) };
    proof {
        lemma_opt_env_ok_prefix(ginit, env0, env@);
        lemma_opt_env_ok_prefix(gcnd, env0, env@);
        lemma_opt_env_ok_prefix(gtl, env0, env@);
        assert(st is For && st->For_init == ginit && st->For_cond == gcnd && st->For_tail
            == gtl && *st->For_content == gb);
        assert(stmt_env_ok(st, env@));
        assert(stmt_decls(st) == stmt_decls(gb));
        assert(stmt_view(st) == SpecStmt::For {
            init: opt_expr_view(ginit),
            cond: opt_expr_view(gcnd),
            tail: opt_expr_view(gtl),
            content: Box::new(stmt_view(gb)),
        });
    }
    Ok((st, p2))

}

/// Parses a braced block of statements.
#[verifier::loop_isolation(false)]
#[verifier::rlimit(100)]
fn parse_block_stmt(toks: &Vec<(Token, usize)>, pos: usize, env: &mut Vec<(String, ValInfo)>) -> (r:
    Result<(Stmt, usize), ParseError>)
    requires
        pos < toks@.len(),
        toks@[pos as int].0 is LBrace,
        env_wf(old(env)@),
    ensures
        r matches Ok(v) ==> {
            &&& pos < v.1 <= toks@.len()
            &&& env_wf(final(env)@)
            &&& old(env)@.is_prefix_of(final(env)@)
            &&& final(env)@.len() == old(env)@.len() + stmt_decls(v.0)
            &&& stmt_env_ok(v.0, final(env)@)
        },
        (match r {
            Ok(v) => sp_stmt(toks_view(toks@), pos as int, env_view(old(env)@)) == Ok::<
                (SpecStmt, int, Seq<(Seq<char>, ValInfo)>),
                ParseError,
            >((stmt_view(v.0), v.1 as int, env_view(final(env)@))),
            Err(e) => sp_stmt(toks_view(toks@), pos as int, env_view(old(env)@)) == Err::<
                (SpecStmt, int, Seq<(Seq<char>, ValInfo)>),
                ParseError,
            >(e),
        }),
    decreases toks@.len() - pos, 0int,
{
    let ghost tv = toks_view(toks@);
    let ghost ev0 = env_view(env@);
    proof {
        assert(tv[pos as int].0 == tok_view(toks@[pos as int].0));
        if pos + 1 < toks.len() {
            assert(tv[pos as int + 1].0 == tok_view(toks@[pos as int + 1].0));
        }
    }

    let mut stmts: Vec<Stmt> = Vec::new();
    let mut p = pos + 1;
    let ghost env0 = env@;
    proof {
        assert(stmts_view(stmts@) =~= Seq::<SpecStmt>::empty());
    }
    loop
        invariant
            pos < p <= toks@.len(),
            env_wf(env@),
            env0.is_prefix_of(env@),
            env@.len() == env0.len() + block_decls(stmts@),
            block_env_ok(stmts@, env@),
            sp_stmts_until(tv, pos + 1, ev0, Seq::empty()) == sp_stmts_until(
                tv,
                p as int,
                env_view(env@),
                stmts_view(stmts@),
            ),
        decreases toks@.len() - p,
    {
        if p >= toks.len() {
            return Err(err_at(toks, p, ParseErrorKind::Syntax));
        }
        proof {
            assert(tv[p as int].0 == tok_view(toks@[p as int].0));
        }
        if matches!(toks[p].0, Token::RBrace) {
            let ghost gss = stmts@;
            let st = Stmt::Block(stmts);
            proof {
                assert(st is Block && st->Block_0@ == gss);
                assert(stmt_env_ok(st, env@));
                assert(stmt_decls(st) == block_decls(gss));
                assert(stmt_view(st) == SpecStmt::Block(stmts_view(gss)));
            }
            return Ok((st, p + 1));
        }
        let ghost env_pre = env@;
        let (s, p2) = match parse_stmt(toks, p, env) {
            Ok(v) => v,
            Err(er) => {
                return Err(er);
            },
        };
        let ghost pre_stmts = stmts@;
        let ghost gs = s;
        stmts.push(s);
        proof {
            lemma_block_env_ok_prefix(pre_stmts, env_pre, env@);
            assert(stmts@.drop_last() =~= pre_stmts);
            assert(stmts@.last() == gs);
            lemma_prefix_trans(env0, env_pre, env@);
            assert(block_decls(stmts@) == block_decls(pre_stmts) + stmt_decls(gs));
            assert(stmts_view(stmts@) == stmts_view(pre_stmts).push(stmt_view(gs)));
        }
        p = p2;
    }

}

fn parse_stmt(toks: &Vec<(Token, usize)>, pos: usize, env: &mut Vec<(String, ValInfo)>) -> (r:
    Result<(Stmt, usize), ParseError>)
    requires
        pos <= toks@.len(),
        env_wf(old(env)@),
    ensures
        r matches Ok(v) ==> {
            &&& pos < v.1 <= toks@.len()
            &&& env_wf(final(env)@)
            &&& old(env)@.is_prefix_of(final(env)@)
            &&& final(env)@.len() == old(env)@.len() + stmt_decls(v.0)
            &&& stmt_env_ok(v.0, final(env)@)
        },
        (match r {
            Ok(v) => sp_stmt(toks_view(toks@), pos as int, env_view(old(env)@)) == Ok::<
                (SpecStmt, int, Seq<(Seq<char>, ValInfo)>),
                ParseError,
            >((stmt_view(v.0), v.1 as int, env_view(final(env)@))),
            Err(e) => sp_stmt(toks_view(toks@), pos as int, env_view(old(env)@)) == Err::<
                (SpecStmt, int, Seq<(Seq<char>, ValInfo)>),
                ParseError,
            >(e),
        }),
    decreases toks@.len() - pos, 1int,
{
    let ghost tv = toks_view(toks@);
    let ghost ev0 = env_view(env@);
    if pos >= toks.len() {
        return Err(err_at(toks, pos, ParseErrorKind::Syntax));
    }
    proof {
        assert(tv[pos as int].0 == tok_view(toks@[pos as int].0));
        if pos + 1 < toks.len() {
            assert(tv[pos as int + 1].0 == tok_view(toks@[pos as int + 1].0));
        }
    }
    match &toks[pos].0 {
        Token::KwReturn => {
            let (e, p) = match parse_assign(toks, pos + 1, env) {
                Ok(v) => v,
                Err(er) => {
                    return Err(er);
                },
            };
            proof {
                if p < toks.len() {
                    assert(tv[p as int].0 == tok_view(toks@[p as int].0));
                }
            }
            if p < toks.len() && matches!(toks[p].0, Token::Semi) {
                let ghost ge = e;
                let st = Stmt::Return { expr: e };
                proof {
                    assert(st is Return && st->Return_expr == ge);
                    assert(stmt_env_ok(st, env@));
                    assert(stmt_decls(st) == 0);
                    assert(stmt_view(st) == SpecStmt::Return { expr: expr_view(ge) });
                }
                Ok((st, p + 1))
            } else {
                Err(err_at(toks, p, ParseErrorKind::Syntax))
            }
        },
        Token::KwIf => parse_if_stmt(toks, pos, env),
        Token::KwWhile => parse_while_stmt(toks, pos, env),
        Token::KwFor => parse_for_stmt(toks, pos, env),
        Token::LBrace => parse_block_stmt(toks, pos, env),
        Token::KwInt => {
            let (ty, p) = match parse_typename(toks, pos) {
                Ok(v) => v,
                Err(er) => {
                    return Err(er);
                },
            };
            if !(p < toks.len()) {
                return Err(err_at(toks, p, ParseErrorKind::Syntax));
            }
            proof {
                assert(tv[p as int].0 == tok_view(toks@[p as int].0));
                assert(tv[p as int].1 == toks@[p as int].1 as int);
                if p + 1 < toks.len() {
                    assert(tv[p as int + 1].0 == tok_view(toks@[p as int + 1].0));
                }
            }
            let (name, errpos) = match &toks[p].0 {
                Token::Ident(name) => (name, toks[p].1),
                _ => {
                    return Err(err_at(toks, p, ParseErrorKind::Syntax));
                },
            };
            if !(p + 1 < toks.len() && matches!(toks[p + 1].0, Token::Semi)) {
                return Err(err_at(toks, p + 1, ParseErrorKind::Syntax));
            }
            match env_declare(env, name, ty, errpos) {
                Ok(()) => {
                    let st = Stmt::Declare;
                    proof {
                        assert(stmt_decls(st) == 1);
                        assert(stmt_env_ok(st, env@));
                        assert(stmt_view(st) == SpecStmt::Declare);
                    }
                    Ok((st, p + 2))
                },
                Err(er) => Err(er),
            }
        },
        _ => {
            let (e, p) = match parse_assign(toks, pos, env) {
                Ok(v) => v,
                Err(er) => {
                    return Err(er);
                },
            };
            proof {
                if p < toks.len() {
                    assert(tv[p as int].0 == tok_view(toks@[p as int].0));
                }
            }
            if p < toks.len() && matches!(toks[p].0, Token::Semi) {
                let ghost ge = e;
                let st = Stmt::Calc { content: e };
                proof {
                    assert(st is Calc && st->Calc_content == ge);
                    assert(stmt_env_ok(st, env@));
                    assert(stmt_decls(st) == 0);
                    assert(stmt_view(st) == SpecStmt::Calc { content: expr_view(ge) });
                }
                Ok((st, p + 1))
            } else {
                Err(err_at(toks, p, ParseErrorKind::Syntax))
            }
        },
    }
}

/// Parses one function definition: return type, name, parameter list,
/// and braced body. Parameters occupy the first stack slots, in order;
/// the local area is the environment's final size in bytes rounded up to
/// a multiple of 16.
#[verifier::loop_isolation(false)]
#[verifier::loop_isolation(false)]
#[verifier::rlimit(100)]
fn parse_funcdef(toks: &Vec<(Token, usize)>, pos: usize) -> (r: Result<(FuncDef, usize), ParseError>)
    requires
        pos <= toks@.len(),
    ensures
        r matches Ok(v) ==> pos < v.1 <= toks@.len() && func_wf(v.0),
        (match r {
            Ok(v) => sp_funcdef(toks_view(toks@), pos as int) == Ok::<
                (SpecFunc, int),
                ParseError,
            >((func_view(v.0), v.1 as int)),
            Err(e) => sp_funcdef(toks_view(toks@), pos as int) == Err::<
                (SpecFunc, int),
                ParseError,
            >(e),
        }),
{
    let ghost tv = toks_view(toks@);
    let (res_ty, p0) = match parse_typename(toks, pos) {
        Ok(v) => v,
        Err(er) => {
            return Err(er);
        },
    };
    if !(p0 < toks.len()) {
        return Err(err_at(toks, p0, ParseErrorKind::Syntax));
    }
    proof {
        assert(tv[p0 as int].0 == tok_view(toks@[p0 as int].0));
        if p0 + 1 < toks.len() {
            assert(tv[p0 as int + 1].0 == tok_view(toks@[p0 as int + 1].0));
        }
        if p0 + 2 < toks.len() {
            assert(tv[p0 as int + 2].0 == tok_view(toks@[p0 as int + 2].0));
        }
    }
    let fname: String = match &toks[p0].0 {
        Token::Ident(name) => name.clone(),
        _ => {
            return Err(err_at(toks, p0, ParseErrorKind::Syntax));
        },
    };
    if !(p0 + 1 < toks.len() && matches!(toks[p0 + 1].0, Token::LParen)) {
        return Err(err_at(toks, p0 + 1, ParseErrorKind::Syntax));
    }
    let mut env: Vec<(String, ValInfo)> = Vec::new();
    let mut params: Vec<(Type, String)> = Vec::new();
    let mut p = p0 + 2;
    proof {
        assert(env_view(env@) =~= Seq::<(Seq<char>, ValInfo)>::empty());
        assert(params_view(params@) =~= Seq::<(Type, Seq<char>)>::empty());
    }
    if p < toks.len() && matches!(toks[p].0, Token::RParen) {
        p = p + 1;
    } else {
        loop
            invariant
                pos < p <= toks@.len(),
                env_wf(env@),
                env@.len() == params@.len(),
                sp_params(tv, p0 as int + 2, Seq::empty(), Seq::empty()) == sp_params(
                    tv,
                    p as int,
                    env_view(env@),
                    params_view(params@),
                ),
            decreases toks@.len() - p,
        {
            let (pty, p2) = match parse_typename(toks, p) {
                Ok(v) => v,
                Err(er) => {
                    return Err(er);
                },
            };
            if !(p2 < toks.len()) {
                return Err(err_at(toks, p2, ParseErrorKind::Syntax));
            }
            proof {
                assert(tv[p2 as int].0 == tok_view(toks@[p2 as int].0));
                assert(tv[p2 as int].1 == toks@[p2 as int].1 as int);
                if p2 + 1 < toks.len() {
                    assert(tv[p2 as int + 1].0 == tok_view(toks@[p2 as int + 1].0));
                }
            }
            let (pname, errpos) = match &toks[p2].0 {
                Token::Ident(name) => (name, toks[p2].1),
                _ => {
                    return Err(err_at(toks, p2, ParseErrorKind::Syntax));
                },
            };
            let ghost pre_params = params@;
            let ghost gty = pty;
            params.push((pty.clone(), pname.clone()));
            proof {
                assert(params@.drop_last() =~= pre_params);
                assert(params_view(params@) =~= params_view(pre_params).push((gty, pname@)));
            }
            match env_declare(&mut env, pname, pty, errpos) {
                Ok(()) => {},
                Err(er) => {
                    return Err(er);
                },
            }
            if p2 + 1 < toks.len() && matches!(toks[p2 + 1].0, Token::Comma) {
                p = p2 + 2;
            } else if p2 + 1 < toks.len() && matches!(toks[p2 + 1].0, Token::RParen) {
                p = p2 + 2;
                break ;
            } else {
                return Err(err_at(toks, p2 + 1, ParseErrorKind::Syntax));
            }
        }
    }
    proof {
        assert((if p0 as int + 2 < tv.len() && tv[p0 as int + 2].0 is RParen {
            Ok::<(Seq<(Type, Seq<char>)>, Seq<(Seq<char>, ValInfo)>, int), ParseError>(
                (Seq::empty(), Seq::empty(), p0 as int + 3),
            )
        } else {
            sp_params(tv, p0 as int + 2, Seq::empty(), Seq::empty())
        }) == Ok::<(Seq<(Type, Seq<char>)>, Seq<(Seq<char>, ValInfo)>, int), ParseError>(
            (params_view(params@), env_view(env@), p as int),
        ));
        if p < toks.len() {
            assert(tv[p as int].0 == tok_view(toks@[p as int].0));
        }
    }
    if !(p < toks.len() && matches!(toks[p].0, Token::LBrace)) {
        return Err(err_at(toks, p, ParseErrorKind::Syntax));
    }
    p = p + 1;
    let ghost env0 = env@;
    let ghost pb0 = p as int;
    let mut body: Vec<Stmt> = Vec::new();
    proof {
        assert(stmts_view(body@) =~= Seq::<SpecStmt>::empty());
    }
    loop
        invariant
            pos < p <= toks@.len(),
            env_wf(env@),
            env0.is_prefix_of(env@),
            env@.len() == env0.len() + block_decls(body@),
            env0.len() == params@.len(),
            block_env_ok(body@, env@),
            sp_stmts_until(tv, pb0, env_view(env0), Seq::empty()) == sp_stmts_until(
                tv,
                p as int,
                env_view(env@),
                stmts_view(body@),
            ),
        decreases toks@.len() - p,
    {
        if p >= toks.len() {
            return Err(err_at(toks, p, ParseErrorKind::Syntax));
        }
        proof {
            assert(tv[p as int].0 == tok_view(toks@[p as int].0));
        }
        if matches!(toks[p].0, Token::RBrace) {
            break ;
        }
        let ghost env_pre = env@;
        let (s, p2) = match parse_stmt(toks, p, &mut env) {
            Ok(v) => v,
            Err(er) => {
                return Err(er);
            },
        };
        let ghost pre_body = body@;
        let ghost gs = s;
        body.push(s);
        proof {
            lemma_block_env_ok_prefix(pre_body, env_pre, env@);
            assert(body@.drop_last() =~= pre_body);
            assert(body@.last() == gs);
            lemma_prefix_trans(env0, env_pre, env@);
            assert(block_decls(body@) == block_decls(pre_body) + stmt_decls(gs));
            assert(stmts_view(body@) == stmts_view(pre_body).push(stmt_view(gs)));
        }
        p = p2;
    }
    // the closing brace
    let p_end = p + 1;
    // align the local area to 16 bytes: one 8-byte slot per entry, padded
    // to an even count
    let n = env.len();
    proof {
        if n > 0 {
            assert(env@[n - 1].1.offset == 8 * n);
        }
        assert(env_view(env@).len() == n);
    }
    let padded = if n % 2 == 1 {
        if n >= usize::MAX / 8 {
            return Err(err_at(toks, p, ParseErrorKind::TooManyLocals));
        }
        n + 1
    } else {
        n
    };
    let local_area = padded * 8;
    proof {
        assert(local_area == round_up16(8 * env@.len()));
    }
    let ghost genv = env@;
    let ghost gbody = body@;
    let ghost gname = fname;
    let ghost gparams = params@;
    let f = FuncDef::new(fname, res_ty, params, body, local_area);
    proof {
        assert(f.body@ == gbody);
        assert(func_env_wf(f, genv));
        assert(func_wf(f));
        assert(func_view(f) =~= SpecFunc {
            name: gname@,
            res_type: res_ty,
            args: params_view(gparams),
            body: stmts_view(gbody),
            local_area: local_area as int,
        });
    }
    Ok((f, p_end))
}

/// Parses a whole program: a sequence of function definitions up to the
/// end of the source. Fails on the first syntax error, undeclared
/// identifier or unknown type name, carrying the offending byte position;
/// every function of a successful parse satisfies [`func_wf`], the layout
/// invariant that code generation's stack addressing rests on.
#[verifier::loop_isolation(false)]
#[verifier::loop_isolation(false)]
pub fn source_to_ast(source: &str) -> (r: Result<Vec<FuncDef>, ParseError>)
    ensures
        r matches Ok(fs) ==> forall|i: int| 0 <= i < fs@.len() ==> func_wf(#[trigger] fs@[i]),
        (match r {
            Ok(fs) => sp_source_to_ast(source@) == Ok::<Seq<SpecFunc>, ParseError>(
                funcs_view(fs@),
            ),
            Err(e) => sp_source_to_ast(source@) == Err::<Seq<SpecFunc>, ParseError>(e),
        }),
{
    let toks = match tokenize(source) {
        Ok(v) => v,
        Err(er) => {
            return Err(er);
        },
    };
    let ghost tv = toks_view(toks@);
    let mut funcs: Vec<FuncDef> = Vec::new();
    let mut pos: usize = 0;
    proof {
        assert(funcs_view(funcs@) =~= Seq::<SpecFunc>::empty());
    }
    while pos < toks.len()
        invariant
            pos <= toks@.len(),
            forall|i: int| 0 <= i < funcs@.len() ==> func_wf(#[trigger] funcs@[i]),
            sp_program(tv, 0, Seq::empty()) == sp_program(tv, pos as int, funcs_view(funcs@)),
        decreases toks@.len() - pos,
    {
        let (f, p) = match parse_funcdef(&toks, pos) {
            Ok(v) => v,
            Err(er) => {
                return Err(er);
            },
        };
        let ghost pre_funcs = funcs@;
        let ghost gf = f;
        funcs.push(f);
        proof {
            assert(funcs_view(funcs@) =~= funcs_view(pre_funcs).push(func_view(gf)));
        }
        pos = p;
    }
    Ok(funcs)
}


/// The mathematical image of a token: identifier text as a character
/// sequence. [`sp_tokenize`] produces these, and [`tok_view`] maps the
/// executable tokens onto them.
pub enum SpecTok {
    Num(i32),
    Ident(Seq<char>),
    KwReturn,
    KwIf,
    KwElse,
    KwWhile,
    KwFor,
    KwInt,
    Plus,
    Minus,
    Star,
    Slash,
    Amp,
    EqEq,
    Neq,
    Lt,
    Le,
    Gt,
    Ge,
    Assign,
    Semi,
    Comma,
    LParen,
    RParen,
    LBrace,
    RBrace,
}

/// The mathematical image of an expression tree.
#[verifier::ext_equal]
pub enum SpecExpr {
    Var { name: Seq<char>, info: ValInfo },
    Integer(i32),
    BinOp { lhs: Box<SpecExpr>, op: Op, rhs: Box<SpecExpr> },
    FunCall { name: Seq<char>, args: Seq<SpecExpr> },
    Addr(Box<SpecExpr>),
    Dref(Box<SpecExpr>),
}

/// The mathematical image of a statement.
#[verifier::ext_equal]
pub enum SpecStmt {
    Calc { content: SpecExpr },
    Return { expr: SpecExpr },
    If { cond: SpecExpr, t_branch: Box<SpecStmt>, f_branch: Option<Box<SpecStmt>> },
    While { cond: SpecExpr, content: Box<SpecStmt> },
    For {
        init: Option<SpecExpr>,
        cond: Option<SpecExpr>,
        tail: Option<SpecExpr>,
        content: Box<SpecStmt>,
    },
    Block(Seq<SpecStmt>),
    Declare,
}

/// The mathematical image of a function definition.
#[verifier::ext_equal]
pub struct SpecFunc {
    pub name: Seq<char>,
    pub res_type: Type,
    pub args: Seq<(Type, Seq<char>)>,
    pub body: Seq<SpecStmt>,
    pub local_area: int,
}

pub open spec fn tok_view(t: Token) -> SpecTok {
    match t {
        Token::Num(n) => SpecTok::Num(n),
        Token::Ident(s) => SpecTok::Ident(s@),
        Token::KwReturn => SpecTok::KwReturn,
        Token::KwIf => SpecTok::KwIf,
        Token::KwElse => SpecTok::KwElse,
        Token::KwWhile => SpecTok::KwWhile,
        Token::KwFor => SpecTok::KwFor,
        Token::KwInt => SpecTok::KwInt,
        Token::Plus => SpecTok::Plus,
        Token::Minus => SpecTok::Minus,
        Token::Star => SpecTok::Star,
        Token::Slash => SpecTok::Slash,
        Token::Amp => SpecTok::Amp,
        Token::EqEq => SpecTok::EqEq,
        Token::Neq => SpecTok::Neq,
        Token::Lt => SpecTok::Lt,
        Token::Le => SpecTok::Le,
        Token::Gt => SpecTok::Gt,
        Token::Ge => SpecTok::Ge,
        Token::Assign => SpecTok::Assign,
        Token::Semi => SpecTok::Semi,
        Token::Comma => SpecTok::Comma,
        Token::LParen => SpecTok::LParen,
        Token::RParen => SpecTok::RParen,
        Token::LBrace => SpecTok::LBrace,
        Token::RBrace => SpecTok::RBrace,
    }
}

pub open spec fn toks_view(ts: Seq<(Token, usize)>) -> Seq<(SpecTok, int)> {
    Seq::new(ts.len(), |i: int| (tok_view(ts[i].0), ts[i].1 as int))
}

pub open spec fn expr_view(e: Expr) -> SpecExpr
    decreases e,
{
    match e {
        Expr::Var { name, info } => SpecExpr::Var { name: name@, info },
        Expr::Integer(n) => SpecExpr::Integer(n),
        Expr::BinOp { lhs, op, rhs } => SpecExpr::BinOp {
            lhs: Box::new(expr_view(*lhs)),
            op,
            rhs: Box::new(expr_view(*rhs)),
        },
        Expr::FunCall { name, args } => SpecExpr::FunCall {
            name: name@,
            args: exprs_view(args@),
        },
        Expr::Addr(inner) => SpecExpr::Addr(Box::new(expr_view(*inner))),
        Expr::Dref(inner) => SpecExpr::Dref(Box::new(expr_view(*inner))),
    }
}

pub open spec fn exprs_view(es: Seq<Expr>) -> Seq<SpecExpr>
    decreases es,
{
    if es.len() == 0 {
        Seq::empty()
    } else {
        exprs_view(es.drop_last()).push(expr_view(es.last()))
    }
}

pub open spec fn opt_expr_view(e: Option<Expr>) -> Option<SpecExpr> {
    match e {
        Some(inner) => Some(expr_view(inner)),
        None => None,
    }
}

pub open spec fn stmt_view(s: Stmt) -> SpecStmt
    decreases s,
{
    match s {
        Stmt::Calc { content } => SpecStmt::Calc { content: expr_view(content) },
        Stmt::Return { expr } => SpecStmt::Return { expr: expr_view(expr) },
        Stmt::If { cond, t_branch, f_branch } => SpecStmt::If {
            cond: expr_view(cond),
            t_branch: Box::new(stmt_view(*t_branch)),
            f_branch: match f_branch {
                Some(f) => Some(Box::new(stmt_view(*f))),
                None => None,
            },
        },
        Stmt::While { cond, content } => SpecStmt::While {
            cond: expr_view(cond),
            content: Box::new(stmt_view(*content)),
        },
        Stmt::For { init, cond, tail, content } => SpecStmt::For {
            init: opt_expr_view(init),
            cond: opt_expr_view(cond),
            tail: opt_expr_view(tail),
            content: Box::new(stmt_view(*content)),
        },
        Stmt::Block(v) => SpecStmt::Block(stmts_view(v@)),
        Stmt::Declare => SpecStmt::Declare,
    }
}

pub open spec fn stmts_view(ss: Seq<Stmt>) -> Seq<SpecStmt>
    decreases ss,
{
    if ss.len() == 0 {
        Seq::empty()
    } else {
        stmts_view(ss.drop_last()).push(stmt_view(ss.last()))
    }
}

pub open spec fn params_view(ps: Seq<(Type, String)>) -> Seq<(Type, Seq<char>)> {
    Seq::new(ps.len(), |i: int| (ps[i].0, ps[i].1@))
}

pub open spec fn func_view(f: FuncDef) -> SpecFunc {
    SpecFunc {
        name: f.name@,
        res_type: f.res_type,
        args: params_view(f.args@),
        body: stmts_view(f.body@),
        local_area: f.local_area as int,
    }
}

pub open spec fn funcs_view(fs: Seq<FuncDef>) -> Seq<SpecFunc> {
    Seq::new(fs.len(), |i: int| func_view(fs[i]))
}

pub open spec fn env_view(env: Seq<(String, ValInfo)>) -> Seq<(Seq<char>, ValInfo)> {
    Seq::new(env.len(), |i: int| (env[i].0@, env[i].1))
}

/// The error [`err_at`] builds, over token views.
pub open spec fn sp_err_at(toks: Seq<(SpecTok, int)>, pos: int, kind: ParseErrorKind) -> ParseError {
    ParseError {
        pos: if 0 <= pos < toks.len() {
            toks[pos].1 as usize
        } else if toks.len() > 0 {
            toks[toks.len() - 1].1 as usize
        } else {
            0
        },
        kind,
    }
}

/// A sentinel for spec branches the executable parser can never reach.
pub open spec fn sp_dead() -> ParseError {
    ParseError { pos: 0, kind: ParseErrorKind::Syntax }
}

/// What [`env_lookup`] returns, scanning bindings first to last.
pub open spec fn sp_lookup_from(env: Seq<(Seq<char>, ValInfo)>, name: Seq<char>, k: int) -> Option<
    ValInfo,
>
    decreases env.len() - k,
{
    if !(0 <= k < env.len()) {
        None
    } else if env[k].0 == name {
        Some(env[k].1)
    } else {
        sp_lookup_from(env, name, k + 1)
    }
}

pub open spec fn sp_lookup(env: Seq<(Seq<char>, ValInfo)>, name: Seq<char>) -> Option<ValInfo> {
    sp_lookup_from(env, name, 0)
}

/// What [`env_declare`] does: the next slot for a fresh name, an error on
/// a rebinding or when no slot is left.
pub open spec fn sp_declare(
    env: Seq<(Seq<char>, ValInfo)>,
    name: Seq<char>,
    ty: Type,
    errpos: int,
) -> Result<Seq<(Seq<char>, ValInfo)>, ParseError> {
    match sp_lookup(env, name) {
        Some(found) => Err(ParseError { pos: errpos as usize, kind: ParseErrorKind::Redeclared }),
        None => if env.len() >= (usize::MAX as int) / 8 - 1 {
            Err(ParseError { pos: errpos as usize, kind: ParseErrorKind::TooManyLocals })
        } else {
            Ok(
                env.push(
                    (name, ValInfo { offset: ((env.len() + 1) * 8) as usize, ty }),
                ),
            )
        },
    }
}


/// The spec image of [`is_digit`], over a source character.
pub open spec fn sp_is_digit(c: char) -> bool {
    48 <= c as u8 <= 57
}

/// The spec image of [`is_ident_start`].
pub open spec fn sp_is_ident_start(c: char) -> bool {
    65 <= c as u8 <= 90 || 97 <= c as u8 <= 122 || c as u8 == 95
}

/// The spec image of [`is_ident_cont`].
pub open spec fn sp_is_ident_cont(c: char) -> bool {
    sp_is_ident_start(c) || sp_is_digit(c)
}

/// The digits of an integer literal starting at `start`: their value, or
/// an overflow error, and the position after the last digit.
pub open spec fn sp_scan_num(src: Seq<char>, i: int, val: int, start: int) -> Result<
    (i32, int),
    ParseError,
>
    decreases src.len() - i,
{
    if 0 <= i < src.len() && sp_is_digit(src[i]) {
        let v2 = val * 10 + (src[i] as u8 - 48);
        if v2 > 2147483647 {
            Err(ParseError { pos: start as usize, kind: ParseErrorKind::NumberTooLarge })
        } else {
            sp_scan_num(src, i + 1, v2, start)
        }
    } else {
        Ok((val as i32, i))
    }
}

/// The position after the last identifier character from `i` on.
pub open spec fn sp_scan_ident(src: Seq<char>, i: int) -> int
    decreases src.len() - i,
{
    if 0 <= i < src.len() && sp_is_ident_cont(src[i]) {
        sp_scan_ident(src, i + 1)
    } else {
        i
    }
}

/// The token an identifier-shaped word lexes as: a keyword, or the word
/// itself.
pub open spec fn sp_keyword(w: Seq<char>) -> SpecTok {
    if w == "return"@ {
        SpecTok::KwReturn
    } else if w == "if"@ {
        SpecTok::KwIf
    } else if w == "else"@ {
        SpecTok::KwElse
    } else if w == "while"@ {
        SpecTok::KwWhile
    } else if w == "for"@ {
        SpecTok::KwFor
    } else if w == "int"@ {
        SpecTok::KwInt
    } else {
        SpecTok::Ident(w)
    }
}

/// The tokens of the source from position `i` on, appended to `acc`: each
/// with the byte position it starts at, mirroring [`tokenize`]'s scan.
pub open spec fn sp_tokenize(src: Seq<char>, i: int, acc: Seq<(SpecTok, int)>) -> Result<
    Seq<(SpecTok, int)>,
    ParseError,
>
    decreases src.len() - i,
{
    if !(0 <= i < src.len()) {
        Ok(acc)
    } else {
        let c = src[i] as u8;
        if c == 32 || c == 9 || c == 10 || c == 13 {
            sp_tokenize(src, i + 1, acc)
        } else if sp_is_digit(src[i]) {
            match sp_scan_num(src, i, 0, i) {
                Ok((v, j)) => if i < j <= src.len() {
                    sp_tokenize(src, j, acc.push((SpecTok::Num(v), i)))
                } else {
                    Err(sp_dead())
                },
                Err(e) => Err(e),
            }
        } else if sp_is_ident_start(src[i]) {
            let j = sp_scan_ident(src, i + 1);
            if i < j <= src.len() {
                sp_tokenize(src, j, acc.push((sp_keyword(src.subrange(i, j)), i)))
            } else {
                Err(sp_dead())
            }
        } else if c == 61 {
            if i + 1 < src.len() && src[i + 1] as u8 == 61 {
                sp_tokenize(src, i + 2, acc.push((SpecTok::EqEq, i)))
            } else {
                sp_tokenize(src, i + 1, acc.push((SpecTok::Assign, i)))
            }
        } else if c == 33 {
            if i + 1 < src.len() && src[i + 1] as u8 == 61 {
                sp_tokenize(src, i + 2, acc.push((SpecTok::Neq, i)))
            } else {
                Err(ParseError { pos: i as usize, kind: ParseErrorKind::Syntax })
            }
        } else if c == 60 {
            if i + 1 < src.len() && src[i + 1] as u8 == 61 {
                sp_tokenize(src, i + 2, acc.push((SpecTok::Le, i)))
            } else {
                sp_tokenize(src, i + 1, acc.push((SpecTok::Lt, i)))
            }
        } else if c == 62 {
            if i + 1 < src.len() && src[i + 1] as u8 == 61 {
                sp_tokenize(src, i + 2, acc.push((SpecTok::Ge, i)))
            } else {
                sp_tokenize(src, i + 1, acc.push((SpecTok::Gt, i)))
            }
        } else if c == 43 {
            sp_tokenize(src, i + 1, acc.push((SpecTok::Plus, i)))
        } else if c == 45 {
            sp_tokenize(src, i + 1, acc.push((SpecTok::Minus, i)))
        } else if c == 42 {
            sp_tokenize(src, i + 1, acc.push((SpecTok::Star, i)))
        } else if c == 47 {
            sp_tokenize(src, i + 1, acc.push((SpecTok::Slash, i)))
        } else if c == 38 {
            sp_tokenize(src, i + 1, acc.push((SpecTok::Amp, i)))
        } else if c == 59 {
            sp_tokenize(src, i + 1, acc.push((SpecTok::Semi, i)))
        } else if c == 44 {
            sp_tokenize(src, i + 1, acc.push((SpecTok::Comma, i)))
        } else if c == 40 {
            sp_tokenize(src, i + 1, acc.push((SpecTok::LParen, i)))
        } else if c == 41 {
            sp_tokenize(src, i + 1, acc.push((SpecTok::RParen, i)))
        } else if c == 123 {
            sp_tokenize(src, i + 1, acc.push((SpecTok::LBrace, i)))
        } else if c == 125 {
            sp_tokenize(src, i + 1, acc.push((SpecTok::RBrace, i)))
        } else {
            Err(ParseError { pos: i as usize, kind: ParseErrorKind::Syntax })
        }
    }
}

/// The position of the first byte outside the ASCII range, from `j` on.
pub open spec fn sp_first_high_byte(bytes: Seq<u8>, j: int) -> Option<int>
    decreases bytes.len() - j,
{
    if !(0 <= j < bytes.len()) {
        None
    } else if bytes[j] >= 128 {
        Some(j)
    } else {
        sp_first_high_byte(bytes, j + 1)
    }
}

/// The token sequence of a source text: a syntax error at the first
/// non-ASCII byte, or the scan from the start.
pub open spec fn sp_lex(src: Seq<char>) -> Result<Seq<(SpecTok, int)>, ParseError> {
    if !vstd::utf8::is_ascii_chars(src) {
        Err(
            ParseError {
                pos: (match sp_first_high_byte(vstd::utf8::encode_utf8(src), 0) {
                    Some(j) => j as usize,
                    None => 0,
                }),
                kind: ParseErrorKind::Syntax,
            },
        )
    } else {
        sp_tokenize(src, 0, Seq::empty())
    }
}

/// The parse of `atom`, over token views. The spec parsers mirror the
/// executable recursive descent function for function; the guards of the
/// form `q < p <= toks.len()` restate the progress every sub-parse makes
/// and justify the recursion.
pub open spec fn sp_atom(
    toks: Seq<(SpecTok, int)>,
    pos: int,
    env: Seq<(Seq<char>, ValInfo)>,
) -> Result<(SpecExpr, int), ParseError>
    decreases toks.len() - pos, 1int,
{
    if !(0 <= pos < toks.len()) {
        Err(sp_err_at(toks, pos, ParseErrorKind::Syntax))
    } else {
        match toks[pos].0 {
            SpecTok::Num(v) => Ok((SpecExpr::Integer(v), pos + 1)),
            SpecTok::Ident(name) => if pos + 1 < toks.len() && toks[pos + 1].0 is LParen {
                if pos + 2 < toks.len() && toks[pos + 2].0 is RParen {
                    Ok((SpecExpr::FunCall { name, args: Seq::empty() }, pos + 3))
                } else {
                    sp_args(toks, pos + 2, env, name, Seq::empty())
                }
            } else {
                match sp_lookup(env, name) {
                    Some(info) => Ok((SpecExpr::Var { name, info }, pos + 1)),
                    None => Err(sp_err_at(toks, pos, ParseErrorKind::Undeclared)),
                }
            },
            SpecTok::LParen => match sp_assign(toks, pos + 1, env) {
                Ok((inner, p)) => if p < toks.len() && toks[p].0 is RParen {
                    Ok((inner, p + 1))
                } else {
                    Err(sp_err_at(toks, p, ParseErrorKind::Syntax))
                },
                Err(e) => Err(e),
            },
            _ => Err(sp_err_at(toks, pos, ParseErrorKind::Syntax)),
        }
    }
}

/// The parse of a call's comma-separated arguments up to `)`.
pub open spec fn sp_args(
    toks: Seq<(SpecTok, int)>,
    p: int,
    env: Seq<(Seq<char>, ValInfo)>,
    name: Seq<char>,
    acc: Seq<SpecExpr>,
) -> Result<(SpecExpr, int), ParseError>
    decreases toks.len() - p, 8int,
{
    match sp_assign(toks, p, env) {
        Ok((a, p2)) => if !(p < p2 <= toks.len()) {
            Err(sp_dead())
        } else if p2 < toks.len() && toks[p2].0 is Comma {
            sp_args(toks, p2 + 1, env, name, acc.push(a))
        } else if p2 < toks.len() && toks[p2].0 is RParen {
            Ok((SpecExpr::FunCall { name, args: acc.push(a) }, p2 + 1))
        } else {
            Err(sp_err_at(toks, p2, ParseErrorKind::Syntax))
        },
        Err(e) => Err(e),
    }
}

/// The parse of `unary`: unary plus is a no-op, unary minus becomes
/// `0 - e`, `&` and `*` build address-of and dereference.
pub open spec fn sp_unary(
    toks: Seq<(SpecTok, int)>,
    pos: int,
    env: Seq<(Seq<char>, ValInfo)>,
) -> Result<(SpecExpr, int), ParseError>
    decreases toks.len() - pos, 2int,
{
    if !(0 <= pos < toks.len()) {
        Err(sp_err_at(toks, pos, ParseErrorKind::Syntax))
    } else if toks[pos].0 is Plus {
        sp_unary(toks, pos + 1, env)
    } else if toks[pos].0 is Minus {
        match sp_unary(toks, pos + 1, env) {
            Ok((inner, p)) => Ok(
                (
                    SpecExpr::BinOp {
                        lhs: Box::new(SpecExpr::Integer(0)),
                        op: Op::Sub,
                        rhs: Box::new(inner),
                    },
                    p,
                ),
            ),
            Err(e) => Err(e),
        }
    } else if toks[pos].0 is Amp {
        match sp_unary(toks, pos + 1, env) {
            Ok((inner, p)) => Ok((SpecExpr::Addr(Box::new(inner)), p)),
            Err(e) => Err(e),
        }
    } else if toks[pos].0 is Star {
        match sp_unary(toks, pos + 1, env) {
            Ok((inner, p)) => Ok((SpecExpr::Dref(Box::new(inner)), p)),
            Err(e) => Err(e),
        }
    } else {
        sp_atom(toks, pos, env)
    }
}

/// The left fold of `factor`'s `*`/`/` chain.
pub open spec fn sp_factor_tail(
    toks: Seq<(SpecTok, int)>,
    p: int,
    env: Seq<(Seq<char>, ValInfo)>,
    acc: SpecExpr,
) -> Result<(SpecExpr, int), ParseError>
    decreases toks.len() - p, 0int,
{
    if 0 <= p < toks.len() && (toks[p].0 is Star || toks[p].0 is Slash) {
        let op = if toks[p].0 is Star {
            Op::Mul
        } else {
            Op::Div
        };
        match sp_unary(toks, p + 1, env) {
            Ok((rhs, p2)) => if !(p < p2 <= toks.len()) {
                Err(sp_dead())
            } else {
                sp_factor_tail(
                    toks,
                    p2,
                    env,
                    SpecExpr::BinOp { lhs: Box::new(acc), op, rhs: Box::new(rhs) },
                )
            },
            Err(e) => Err(e),
        }
    } else {
        Ok((acc, p))
    }
}

/// The parse of `factor`.
pub open spec fn sp_factor(
    toks: Seq<(SpecTok, int)>,
    pos: int,
    env: Seq<(Seq<char>, ValInfo)>,
) -> Result<(SpecExpr, int), ParseError>
    decreases toks.len() - pos, 3int,
{
    match sp_unary(toks, pos, env) {
        Ok((first, p)) => if !(pos < p <= toks.len()) {
            Err(sp_dead())
        } else {
            sp_factor_tail(toks, p, env, first)
        },
        Err(e) => Err(e),
    }
}

/// The left fold of `addminus`'s `+`/`-` chain.
pub open spec fn sp_addminus_tail(
    toks: Seq<(SpecTok, int)>,
    p: int,
    env: Seq<(Seq<char>, ValInfo)>,
    acc: SpecExpr,
) -> Result<(SpecExpr, int), ParseError>
    decreases toks.len() - p, 0int,
{
    if 0 <= p < toks.len() && (toks[p].0 is Plus || toks[p].0 is Minus) {
        let op = if toks[p].0 is Plus {
            Op::Add
        } else {
            Op::Sub
        };
        match sp_factor(toks, p + 1, env) {
            Ok((rhs, p2)) => if !(p < p2 <= toks.len()) {
                Err(sp_dead())
            } else {
                sp_addminus_tail(
                    toks,
                    p2,
                    env,
                    SpecExpr::BinOp { lhs: Box::new(acc), op, rhs: Box::new(rhs) },
                )
            },
            Err(e) => Err(e),
        }
    } else {
        Ok((acc, p))
    }
}

/// The parse of `addminus`.
pub open spec fn sp_addminus(
    toks: Seq<(SpecTok, int)>,
    pos: int,
    env: Seq<(Seq<char>, ValInfo)>,
) -> Result<(SpecExpr, int), ParseError>
    decreases toks.len() - pos, 4int,
{
    match sp_factor(toks, pos, env) {
        Ok((first, p)) => if !(pos < p <= toks.len()) {
            Err(sp_dead())
        } else {
            sp_addminus_tail(toks, p, env, first)
        },
        Err(e) => Err(e),
    }
}

/// The left fold of `relational`'s comparison chain.
pub open spec fn sp_relational_tail(
    toks: Seq<(SpecTok, int)>,
    p: int,
    env: Seq<(Seq<char>, ValInfo)>,
    acc: SpecExpr,
) -> Result<(SpecExpr, int), ParseError>
    decreases toks.len() - p, 0int,
{
    if 0 <= p < toks.len() && (toks[p].0 is Lt || toks[p].0 is Le || toks[p].0 is Gt || toks[p].0
        is Ge) {
        let op = if toks[p].0 is Lt {
            Op::Lt
        } else if toks[p].0 is Le {
            Op::Le
        } else if toks[p].0 is Gt {
            Op::Gt
        } else {
            Op::Ge
        };
        match sp_addminus(toks, p + 1, env) {
            Ok((rhs, p2)) => if !(p < p2 <= toks.len()) {
                Err(sp_dead())
            } else {
                sp_relational_tail(
                    toks,
                    p2,
                    env,
                    SpecExpr::BinOp { lhs: Box::new(acc), op, rhs: Box::new(rhs) },
                )
            },
            Err(e) => Err(e),
        }
    } else {
        Ok((acc, p))
    }
}

/// The parse of `relational`.
pub open spec fn sp_relational(
    toks: Seq<(SpecTok, int)>,
    pos: int,
    env: Seq<(Seq<char>, ValInfo)>,
) -> Result<(SpecExpr, int), ParseError>
    decreases toks.len() - pos, 5int,
{
    match sp_addminus(toks, pos, env) {
        Ok((first, p)) => if !(pos < p <= toks.len()) {
            Err(sp_dead())
        } else {
            sp_relational_tail(toks, p, env, first)
        },
        Err(e) => Err(e),
    }
}

/// The left fold of `equation`'s `==`/`!=` chain.
pub open spec fn sp_equation_tail(
    toks: Seq<(SpecTok, int)>,
    p: int,
    env: Seq<(Seq<char>, ValInfo)>,
    acc: SpecExpr,
) -> Result<(SpecExpr, int), ParseError>
    decreases toks.len() - p, 0int,
{
    if 0 <= p < toks.len() && (toks[p].0 is EqEq || toks[p].0 is Neq) {
        let op = if toks[p].0 is EqEq {
            Op::Eq
        } else {
            Op::Neq
        };
        match sp_relational(toks, p + 1, env) {
            Ok((rhs, p2)) => if !(p < p2 <= toks.len()) {
                Err(sp_dead())
            } else {
                sp_equation_tail(
                    toks,
                    p2,
                    env,
                    SpecExpr::BinOp { lhs: Box::new(acc), op, rhs: Box::new(rhs) },
                )
            },
            Err(e) => Err(e),
        }
    } else {
        Ok((acc, p))
    }
}

/// The parse of `equation`.
pub open spec fn sp_equation(
    toks: Seq<(SpecTok, int)>,
    pos: int,
    env: Seq<(Seq<char>, ValInfo)>,
) -> Result<(SpecExpr, int), ParseError>
    decreases toks.len() - pos, 6int,
{
    match sp_relational(toks, pos, env) {
        Ok((first, p)) => if !(pos < p <= toks.len()) {
            Err(sp_dead())
        } else {
            sp_equation_tail(toks, p, env, first)
        },
        Err(e) => Err(e),
    }
}

/// The parse of `assign`, right-associative.
pub open spec fn sp_assign(
    toks: Seq<(SpecTok, int)>,
    pos: int,
    env: Seq<(Seq<char>, ValInfo)>,
) -> Result<(SpecExpr, int), ParseError>
    decreases toks.len() - pos, 7int,
{
    match sp_equation(toks, pos, env) {
        Ok((lhs, p)) => if !(pos < p <= toks.len()) {
            Err(sp_dead())
        } else if p < toks.len() && toks[p].0 is Assign {
            match sp_assign(toks, p + 1, env) {
                Ok((rhs, p2)) => Ok(
                    (
                        SpecExpr::BinOp {
                            lhs: Box::new(lhs),
                            op: Op::Assign,
                            rhs: Box::new(rhs),
                        },
                        p2,
                    ),
                ),
                Err(e) => Err(e),
            }
        } else {
            Ok((lhs, p))
        },
        Err(e) => Err(e),
    }
}

/// The stars of a type name, folded onto the base type.
pub open spec fn sp_ty_tail(toks: Seq<(SpecTok, int)>, p: int, acc: Type) -> (Type, int)
    decreases toks.len() - p,
{
    if 0 <= p < toks.len() && toks[p].0 is Star {
        sp_ty_tail(toks, p + 1, Type::Ptr(Box::new(acc)))
    } else {
        (acc, p)
    }
}

/// The parse of `type`.
pub open spec fn sp_typename(toks: Seq<(SpecTok, int)>, pos: int) -> Result<
    (Type, int),
    ParseError,
> {
    if !(0 <= pos < toks.len()) {
        Err(sp_err_at(toks, pos, ParseErrorKind::Syntax))
    } else {
        match toks[pos].0 {
            SpecTok::KwInt => Ok(sp_ty_tail(toks, pos + 1, Type::Int)),
            SpecTok::Ident(name) => Err(sp_err_at(toks, pos, ParseErrorKind::UnknownType)),
            _ => Err(sp_err_at(toks, pos, ParseErrorKind::Syntax)),
        }
    }
}

/// One optional `for` clause up to its terminator: `;`, or `)` when
/// `rparen` is set.
pub open spec fn sp_opt_clause(
    toks: Seq<(SpecTok, int)>,
    p: int,
    env: Seq<(Seq<char>, ValInfo)>,
    rparen: bool,
) -> Result<(Option<SpecExpr>, int), ParseError> {
    let hit = 0 <= p < toks.len() && (if rparen {
        toks[p].0 is RParen
    } else {
        toks[p].0 is Semi
    });
    if hit {
        Ok((None, p + 1))
    } else {
        match sp_assign(toks, p, env) {
            Ok((e, p2)) => if p2 < toks.len() && (if rparen {
                toks[p2].0 is RParen
            } else {
                toks[p2].0 is Semi
            }) {
                Ok((Some(e), p2 + 1))
            } else {
                Err(sp_err_at(toks, p2, ParseErrorKind::Syntax))
            },
            Err(e) => Err(e),
        }
    }
}

/// The parse of one statement: the statement, the position after it, and
/// the environment extended by its declarations.
pub open spec fn sp_stmt(
    toks: Seq<(SpecTok, int)>,
    pos: int,
    env: Seq<(Seq<char>, ValInfo)>,
) -> Result<(SpecStmt, int, Seq<(Seq<char>, ValInfo)>), ParseError>
    decreases toks.len() - pos, 0int,
{
    if !(0 <= pos < toks.len()) {
        Err(sp_err_at(toks, pos, ParseErrorKind::Syntax))
    } else {
        match toks[pos].0 {
            SpecTok::KwReturn => match sp_assign(toks, pos + 1, env) {
                Ok((e, p)) => if p < toks.len() && toks[p].0 is Semi {
                    Ok((SpecStmt::Return { expr: e }, p + 1, env))
                } else {
                    Err(sp_err_at(toks, p, ParseErrorKind::Syntax))
                },
                Err(e) => Err(e),
            },
            SpecTok::KwIf => if !(pos + 1 < toks.len() && toks[pos + 1].0 is LParen) {
                Err(sp_err_at(toks, pos + 1, ParseErrorKind::Syntax))
            } else {
                match sp_assign(toks, pos + 2, env) {
                    Ok((c, p)) => if !(p < toks.len() && toks[p].0 is RParen) {
                        Err(sp_err_at(toks, p, ParseErrorKind::Syntax))
                    } else if !(pos + 2 < p + 1 <= toks.len()) {
                        Err(sp_dead())
                    } else {
                        match sp_stmt(toks, p + 1, env) {
                            Ok((t, p2, env1)) => if p2 < toks.len() && toks[p2].0 is KwElse {
                                if !(p + 1 < p2 + 1 <= toks.len()) {
                                    Err(sp_dead())
                                } else {
                                    match sp_stmt(toks, p2 + 1, env1) {
                                        Ok((f, p3, env2)) => Ok(
                                            (
                                                SpecStmt::If {
                                                    cond: c,
                                                    t_branch: Box::new(t),
                                                    f_branch: Some(Box::new(f)),
                                                },
                                                p3,
                                                env2,
                                            ),
                                        ),
                                        Err(e) => Err(e),
                                    }
                                }
                            } else {
                                Ok(
                                    (
                                        SpecStmt::If {
                                            cond: c,
                                            t_branch: Box::new(t),
                                            f_branch: None,
                                        },
                                        p2,
                                        env1,
                                    ),
                                )
                            },
                            Err(e) => Err(e),
                        }
                    },
                    Err(e) => Err(e),
                }
            },
            SpecTok::KwWhile => if !(pos + 1 < toks.len() && toks[pos + 1].0 is LParen) {
                Err(sp_err_at(toks, pos + 1, ParseErrorKind::Syntax))
            } else {
                match sp_assign(toks, pos + 2, env) {
                    Ok((c, p)) => if !(p < toks.len() && toks[p].0 is RParen) {
                        Err(sp_err_at(toks, p, ParseErrorKind::Syntax))
                    } else if !(pos + 2 < p + 1 <= toks.len()) {
                        Err(sp_dead())
                    } else {
                        match sp_stmt(toks, p + 1, env) {
                            Ok((body, p2, env1)) => Ok(
                                (
                                    SpecStmt::While { cond: c, content: Box::new(body) },
                                    p2,
                                    env1,
                                ),
                            ),
                            Err(e) => Err(e),
                        }
                    },
                    Err(e) => Err(e),
                }
            },
            SpecTok::KwFor => if !(pos + 1 < toks.len() && toks[pos + 1].0 is LParen) {
                Err(sp_err_at(toks, pos + 1, ParseErrorKind::Syntax))
            } else {
                match sp_opt_clause(toks, pos + 2, env, false) {
                    Ok((init, pa)) => match sp_opt_clause(toks, pa, env, false) {
                        Ok((cnd, pb)) => match sp_opt_clause(toks, pb, env, true) {
                            Ok((tail, pc)) => if !(pos + 2 < pc <= toks.len()) {
                                Err(sp_dead())
                            } else {
                                match sp_stmt(toks, pc, env) {
                                    Ok((body, p2, env1)) => Ok(
                                        (
                                            SpecStmt::For {
                                                init,
                                                cond: cnd,
                                                tail,
                                                content: Box::new(body),
                                            },
                                            p2,
                                            env1,
                                        ),
                                    ),
                                    Err(e) => Err(e),
                                }
                            },
                            Err(e) => Err(e),
                        },
                        Err(e) => Err(e),
                    },
                    Err(e) => Err(e),
                }
            },
            SpecTok::LBrace => match sp_stmts_until(toks, pos + 1, env, Seq::empty()) {
                Ok((ss, p, env1)) => Ok((SpecStmt::Block(ss), p + 1, env1)),
                Err(e) => Err(e),
            },
            SpecTok::KwInt => match sp_typename(toks, pos) {
                Ok((ty, p)) => if !(p < toks.len()) {
                    Err(sp_err_at(toks, p, ParseErrorKind::Syntax))
                } else {
                    match toks[p].0 {
                        SpecTok::Ident(name) => if !(p + 1 < toks.len() && toks[p + 1].0
                            is Semi) {
                            Err(sp_err_at(toks, p + 1, ParseErrorKind::Syntax))
                        } else {
                            match sp_declare(env, name, ty, toks[p].1) {
                                Ok(env1) => Ok((SpecStmt::Declare, p + 2, env1)),
                                Err(e) => Err(e),
                            }
                        },
                        _ => Err(sp_err_at(toks, p, ParseErrorKind::Syntax)),
                    }
                },
                Err(e) => Err(e),
            },
            _ => match sp_assign(toks, pos, env) {
                Ok((e, p)) => if p < toks.len() && toks[p].0 is Semi {
                    Ok((SpecStmt::Calc { content: e }, p + 1, env))
                } else {
                    Err(sp_err_at(toks, p, ParseErrorKind::Syntax))
                },
                Err(e) => Err(e),
            },
        }
    }
}

/// Statements up to a closing brace, which is not consumed.
pub open spec fn sp_stmts_until(
    toks: Seq<(SpecTok, int)>,
    p: int,
    env: Seq<(Seq<char>, ValInfo)>,
    acc: Seq<SpecStmt>,
) -> Result<(Seq<SpecStmt>, int, Seq<(Seq<char>, ValInfo)>), ParseError>
    decreases toks.len() - p, 1int,
{
    if !(0 <= p < toks.len()) {
        Err(sp_err_at(toks, p, ParseErrorKind::Syntax))
    } else if toks[p].0 is RBrace {
        Ok((acc, p, env))
    } else {
        match sp_stmt(toks, p, env) {
            Ok((s, p2, env1)) => if !(p < p2 <= toks.len()) {
                Err(sp_dead())
            } else {
                sp_stmts_until(toks, p2, env1, acc.push(s))
            },
            Err(e) => Err(e),
        }
    }
}

/// The parameter list after the opening parenthesis: the parameters, the
/// environment holding them, and the position after the `)`.
pub open spec fn sp_params(
    toks: Seq<(SpecTok, int)>,
    p: int,
    env: Seq<(Seq<char>, ValInfo)>,
    params: Seq<(Type, Seq<char>)>,
) -> Result<(Seq<(Type, Seq<char>)>, Seq<(Seq<char>, ValInfo)>, int), ParseError>
    decreases toks.len() - p,
{
    match sp_typename(toks, p) {
        Ok((pty, p2)) => if !(p < p2 <= toks.len()) {
            Err(sp_dead())
        } else if !(p2 < toks.len()) {
            Err(sp_err_at(toks, p2, ParseErrorKind::Syntax))
        } else {
            match toks[p2].0 {
                SpecTok::Ident(pname) => {
                    let params2 = params.push((pty, pname));
                    match sp_declare(env, pname, pty, toks[p2].1) {
                        Ok(env2) => if p2 + 1 < toks.len() && toks[p2 + 1].0 is Comma {
                            sp_params(toks, p2 + 2, env2, params2)
                        } else if p2 + 1 < toks.len() && toks[p2 + 1].0 is RParen {
                            Ok((params2, env2, p2 + 2))
                        } else {
                            Err(sp_err_at(toks, p2 + 1, ParseErrorKind::Syntax))
                        },
                        Err(e) => Err(e),
                    }
                },
                _ => Err(sp_err_at(toks, p2, ParseErrorKind::Syntax)),
            }
        },
        Err(e) => Err(e),
    }
}

/// The parse of one function definition.
pub open spec fn sp_funcdef(toks: Seq<(SpecTok, int)>, pos: int) -> Result<
    (SpecFunc, int),
    ParseError,
> {
    match sp_typename(toks, pos) {
        Ok((res_ty, p0)) => if !(p0 < toks.len()) {
            Err(sp_err_at(toks, p0, ParseErrorKind::Syntax))
        } else {
            match toks[p0].0 {
                SpecTok::Ident(fname) => if !(p0 + 1 < toks.len() && toks[p0 + 1].0
                    is LParen) {
                    Err(sp_err_at(toks, p0 + 1, ParseErrorKind::Syntax))
                } else {
                    let prm = if p0 + 2 < toks.len() && toks[p0 + 2].0 is RParen {
                        Ok(
                            (
                                Seq::<(Type, Seq<char>)>::empty(),
                                Seq::<(Seq<char>, ValInfo)>::empty(),
                                p0 + 3,
                            ),
                        )
                    } else {
                        sp_params(toks, p0 + 2, Seq::empty(), Seq::empty())
                    };
                    match prm {
                        Ok((params, env0, p)) => if !(p < toks.len() && toks[p].0 is LBrace) {
                            Err(sp_err_at(toks, p, ParseErrorKind::Syntax))
                        } else {
                            match sp_stmts_until(toks, p + 1, env0, Seq::empty()) {
                                Ok((body, pr, env1)) => {
                                    let n = env1.len() as int;
                                    if n % 2 == 1 && n >= (usize::MAX as int) / 8 {
                                        Err(sp_err_at(toks, pr, ParseErrorKind::TooManyLocals))
                                    } else {
                                        let padded = if n % 2 == 1 {
                                            n + 1
                                        } else {
                                            n
                                        };
                                        Ok(
                                            (
                                                SpecFunc {
                                                    name: fname,
                                                    res_type: res_ty,
                                                    args: params,
                                                    body,
                                                    local_area: padded * 8,
                                                },
                                                pr + 1,
                                            ),
                                        )
                                    }
                                },
                                Err(e) => Err(e),
                            }
                        },
                        Err(e) => Err(e),
                    }
                },
                _ => Err(sp_err_at(toks, p0, ParseErrorKind::Syntax)),
            }
        },
        Err(e) => Err(e),
    }
}

/// The function definitions from `pos` to the end of the tokens.
pub open spec fn sp_program(toks: Seq<(SpecTok, int)>, pos: int, acc: Seq<SpecFunc>) -> Result<
    Seq<SpecFunc>,
    ParseError,
>
    decreases toks.len() - pos,
{
    if !(0 <= pos < toks.len()) {
        Ok(acc)
    } else {
        match sp_funcdef(toks, pos) {
            Ok((f, p)) => if !(pos < p <= toks.len()) {
                Err(sp_dead())
            } else {
                sp_program(toks, p, acc.push(f))
            },
            Err(e) => Err(e),
        }
    }
}

/// The whole parse of a source text: lex, then one function definition
/// after another up to the end. This is the function [`source_to_ast`] is
/// proved equal to.
pub open spec fn sp_source_to_ast(src: Seq<char>) -> Result<Seq<SpecFunc>, ParseError> {
    match sp_lex(src) {
        Ok(toks) => sp_program(toks, 0, Seq::empty()),
        Err(e) => Err(e),
    }
}


} // verus!
