//! The whole pipeline: text to tokens, tokens to a program, the program to
//! a module.
use vstd::prelude::*;
use crate::codegen::{module_code, CodeGenerator};
use crate::error::{Error, ErrorView};
use crate::lexer::{initial_state, lemma_lex_ends_with_eof, lex, Lexer};
use crate::parser::{parse, Failure, Parsed, Parser};
use crate::wexp::{render, Wexp, WexpView};

verus! {

/// What compiling a source text comes to.
pub enum Compiled {
    /// The module for the program that the text spells.
    Module(WexpView),
    /// The lexer or the parser rejects the text.
    Rejected(ErrorView),
    /// The parser finds the token stream of the text broken.
    Malformed,
}

/// What compiling `text` comes to: the tokens of the text, the program of
/// the tokens, the module of the program; the first failure ends it.
pub open spec fn compiled(text: Seq<char>) -> Compiled {
    match lex(text) {
        Err(e) => Compiled::Rejected(e),
        Ok(tokens) => match parse(tokens) {
            Parsed::Done { value: program, .. } => Compiled::Module(module_code(program)),
            Parsed::Rejected(e) => Compiled::Rejected(e),
            Parsed::Malformed => Compiled::Malformed,
        },
    }
}

/// `r` is what `compile` owes for `text`.
pub open spec fn compiles_to(text: Seq<char>, r: Result<Wexp, Error>) -> bool {
    match r {
        Ok(module) => compiled(text) == Compiled::Module(module@),
        Err(e) => compiled(text) == Compiled::Rejected(e@),
    }
}

/// Compiles `text`, whatever it holds.
pub fn try_compile(text: &str) -> (r: Result<Wexp, Failure>)
    requires
        4 * text@.len() <= u64::MAX,
    ensures
        match r {
            Ok(module) => compiled(text@) == Compiled::Module(module@),
            Err(Failure::Rejected(e)) => compiled(text@) == Compiled::Rejected(e@),
            Err(Failure::Malformed) => compiled(text@) is Malformed,
        },
{
    let lexer = Lexer::new(text);
    let tokens = match lexer.lex() {
        Ok(tokens) => tokens,
        Err(e) => {
            return Err(Failure::Rejected(e));
        },
    };
    proof {
        lemma_lex_ends_with_eof(text@, initial_state());
    }
    let parser = Parser::new(tokens);
    let program = parser.try_parse_program()?;
    let codegenerator = CodeGenerator::new(program);
    Ok(codegenerator.codegen())
}

/// Compiles `text` to a module, or says why the text is rejected.
pub fn compile(text: &str) -> (r: Result<Wexp, Error>)
    requires
        4 * text@.len() <= u64::MAX,
        !(compiled(text@) is Malformed),
    ensures
        compiles_to(text@, r),
{
    match try_compile(text) {
        Ok(module) => Ok(module),
        Err(Failure::Rejected(e)) => Err(e),
        Err(Failure::Malformed) => vstd::pervasive::unreached(),
    }
}

/// Compiling is a function of the text: whatever `compile` returns for a
/// text, it returns the same module, with the same rendering, or the same
/// error, every time.
pub proof fn lemma_compile_deterministic(
    text: Seq<char>,
    first: Result<Wexp, Error>,
    second: Result<Wexp, Error>,
)
    requires
        compiles_to(text, first),
        compiles_to(text, second),
    ensures
        first is Ok <==> second is Ok,
        first matches Ok(a) ==> second matches Ok(b) ==> a@ == b@ && render(a@) == render(b@),
        first matches Err(a) ==> second matches Err(b) ==> a@ == b@,
{
}

} // verus!
