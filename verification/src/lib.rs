//! A small ahead-of-time compiler for a C-like language: source text is
//! parsed into a typed syntax tree, lowered by a stack-machine code
//! generator to abstract x86-64 instructions, and serialized as Intel-syntax
//! assembly text.

use vstd::prelude::*;

pub mod typing;
pub mod binary;
pub mod ast;
pub mod discipline;
pub mod semantics;
pub mod parse;

pub use crate::ast::{CodegenError, Expr, FuncDef, GenAssembly, Op, Stmt, ValInfo};
pub use crate::binary::{LabelKind, Operation, RegisterOrNum};
pub use crate::parse::{source_to_ast, ParseError, ParseErrorKind};
pub use crate::typing::{get_type, Type};

verus! {

/// Why a compilation failed: the source did not parse, or code generation
/// rejected the tree.
#[derive(Debug, Clone, Copy, PartialEq, Eq, Structural)]
pub enum CompileError {
    Parse(crate::parse::ParseError),
    Codegen(crate::ast::CodegenError),
}

/// Runs the whole pipeline on one source string: parse, generate code with
/// one label counter threaded through every function, and serialize. The
/// result is pinned by the source text alone: on success the text renders
/// the generated program of exactly the function list the grammar derives
/// from the source, a parse error is returned exactly when the spec-level
/// parse fails with that error, and a code-generation error is the first
/// error code generation reports on the parsed program.
pub fn compile_source(source: &str) -> (r: Result<String, CompileError>)
    ensures
        (match r {
            Ok(text) => exists|fs: Seq<FuncDef>|
                {
                    &&& crate::parse::sp_source_to_ast(source@) == Ok::<
                        Seq<crate::parse::SpecFunc>,
                        crate::parse::ParseError,
                    >(crate::parse::funcs_view(fs))
                    &&& (forall|i: int|
                        0 <= i < fs.len() ==> crate::parse::func_wf(#[trigger] fs[i]))
                    &&& crate::ast::program_err(fs, 0) is None
                    &&& text@ == crate::binary::asm_chars(crate::ast::program_code(fs, 0))
                },
            Err(CompileError::Parse(e)) => crate::parse::sp_source_to_ast(source@) == Err::<
                Seq<crate::parse::SpecFunc>,
                crate::parse::ParseError,
            >(e),
            Err(CompileError::Codegen(ce)) => exists|fs: Seq<FuncDef>|
                {
                    &&& crate::parse::sp_source_to_ast(source@) == Ok::<
                        Seq<crate::parse::SpecFunc>,
                        crate::parse::ParseError,
                    >(crate::parse::funcs_view(fs))
                    &&& (forall|i: int|
                        0 <= i < fs.len() ==> crate::parse::func_wf(#[trigger] fs[i]))
                    &&& crate::ast::program_err(fs, 0) == Some(ce)
                },
        }),
{
    let funcs = match crate::parse::source_to_ast(source) {
        Ok(v) => v,
        Err(e) => {
            return Err(CompileError::Parse(e));
        },
    };
    let ops = match crate::ast::gen_program(&funcs) {
        Ok(v) => v,
        Err(e) => {
            proof {
                let fs = funcs@;
                assert({
                    &&& crate::parse::sp_source_to_ast(source@) == Ok::<
                        Seq<crate::parse::SpecFunc>,
                        crate::parse::ParseError,
                    >(crate::parse::funcs_view(fs))
                    &&& (forall|i: int|
                        0 <= i < fs.len() ==> crate::parse::func_wf(#[trigger] fs[i]))
                    &&& crate::ast::program_err(fs, 0) == Some(e)
                });
            }
            return Err(CompileError::Codegen(e));
        },
    };
    let text = crate::binary::assembly_text(&ops);
    proof {
        let fs = funcs@;
        assert({
            &&& crate::parse::sp_source_to_ast(source@) == Ok::<
                Seq<crate::parse::SpecFunc>,
                crate::parse::ParseError,
            >(crate::parse::funcs_view(fs))
            &&& (forall|i: int| 0 <= i < fs.len() ==> crate::parse::func_wf(#[trigger] fs[i]))
            &&& crate::ast::program_err(fs, 0) is None
            &&& text@ == crate::binary::asm_chars(crate::ast::program_code(fs, 0))
        });
    }
    Ok(text)
}

} // verus!
