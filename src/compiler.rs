use vstd::prelude::*;

use crate::asm_generator::{generate_asm, program_code};
use crate::ast::{parse_program, program_view, Program};
use crate::error::CompileError;
use crate::lexxer::{
    all_defined, first_undefined, lex, line_words, lines_view, source_words,
    tokens_of_words, LexToken,
};

verus! {

/// The assembly text of the program that `tokens` spell, or the parse error.
pub fn compile_tokens(tokens: &Vec<LexToken>) -> (r: Result<String, CompileError>)
    ensures
        match (r, parse_program(tokens@)) {
            (Ok(text), Ok(m)) => text@ == program_code(m),
            (Err(a), Err(b)) => a == b,
            _ => false,
        },
{
    match Program::new(tokens) {
        Ok(program) => Ok(generate_asm(&program)),
        Err(err) => Err(err),
    }
}

/// The lexical error that `lex` reports for `lines`, as its contract states it.
pub open spec fn is_lex_error(lines: Seq<Seq<char>>, e: CompileError) -> bool {
    match e {
        CompileError::Lexical { line, word } => {
            &&& line < lines.len()
            &&& forall|k: int| 0 <= k < line ==> all_defined(line_words(#[trigger] lines[k]))
            &&& first_undefined(line_words(lines[line as int]), word as int)
        },
        _ => false,
    }
}

/// Compiles a source text given as its lines: lexing, then parsing, then
/// code generation. Any failure stops the whole pipeline and no text is made.
pub fn compile(lines: &Vec<String>) -> (r: Result<String, CompileError>)
    ensures
        match r {
            Ok(text) => exists|toks: Seq<LexToken>|
                tokens_of_words(source_words(lines_view(lines@)), toks) && #[trigger] parse_program(
                    toks,
                ) is Ok && text@ == program_code(parse_program(toks)->Ok_0),
            Err(e) => is_lex_error(lines_view(lines@), e) || exists|toks: Seq<LexToken>|
                tokens_of_words(source_words(lines_view(lines@)), toks) && #[trigger] parse_program(
                    toks,
                ) == Err::<crate::ast::ProgramModel, CompileError>(e),
        },
{
    let tokens = match lex(lines) {
        Ok(t) => t,
        Err(err) => return Err(err),
    };
    compile_tokens(&tokens)
}

} // verus!
