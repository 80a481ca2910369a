pub mod ast;
pub mod codegen;
pub mod lexer;
pub mod parser;
pub mod text;
pub mod token;

use vstd::prelude::*;

use crate::ast::pairs_view;
use crate::codegen::{CodeGenerator, gen_program, header_text, render};
use crate::lexer::{Lexer, spec_lex};
use crate::parser::{Parser, spec_parse};

verus! {

/// The outcome of one compilation: the emitted text, or none when the
/// source is rejected at any stage.  The whole pipeline's result is a
/// function of the source text alone, so compiling the same text twice
/// yields byte-identical output.
pub open spec fn spec_compile(src: Seq<char>) -> Option<Seq<char>> {
    match spec_lex(src, 0, 1, 1) {
        Some(toks) => match spec_parse(toks, 0) {
            Some(prog) => match gen_program(prog, 0, 0) {
                Some(res) => if res.1 <= usize::MAX as nat && res.2 <= usize::MAX as nat {
                    Some(header_text() + render(res.0) + "}\n"@)
                } else {
                    None
                },
                None => None,
            },
            None => None,
        },
        None => None,
    }
}

/// Compiles one source text through the whole pipeline: scan, parse,
/// lower.  Stops at the first error; no partial output.
pub fn compile_umjunsik(source: &str) -> (r: Result<String, String>)
    ensures
        (r is Ok <==> spec_compile(source@) is Some),
        r is Ok ==> r->Ok_0@ == spec_compile(source@)->Some_0,
{
    let mut lexer = Lexer::new(source);
    let tokens = match lexer.tokenize() {
        Ok(t) => t,
        Err(e) => {
            return Err(e);
        },
    };

    let mut parser = Parser::new(tokens);
    let program = match parser.parse() {
        Ok(p) => p,
        Err(e) => {
            return Err(e);
        },
    };

    let mut codegen = CodeGenerator::new();
    let lamina_ir = match codegen.generate(&program) {
        Ok(ir) => ir,
        Err(e) => {
            return Err(e);
        },
    };

    proof {
        assert(pairs_view(program.statements@) == crate::ast::prog_view(&program));
        match spec_compile(source@) {
            Some(text) => {
                assert(lamina_ir@ =~= text);
            },
            None => {
                assert(false);
            },
        }
    }
    Ok(lamina_ir)
}

} // verus!
