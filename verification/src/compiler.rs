//! The compilation pipeline: tokenize the source, then hand the token
//! sequence to the syntax-tree builder.

pub mod components;

use crate::compiler::components::lex_spec::spec_lex;
use crate::compiler::components::parser::Parser;
use crate::compiler::components::tokenizer::Tokenizer;
use crate::language_features::{LexError, SpecLexError, SpecToken};
use vstd::prelude::*;

verus! {

/// Drives one compilation attempt over an in-memory source text.
pub struct PseudoCodeCompiler {
    code: String,
}

impl PseudoCodeCompiler {
    /// The source text held for the current attempt.
    pub closed spec fn spec_code(&self) -> Seq<char> {
        self.code@
    }

    pub fn ini() -> (c: PseudoCodeCompiler)
        ensures
            c.spec_code() == Seq::<char>::empty(),
    {
        PseudoCodeCompiler { code: String::new() }
    }

    /// Goes through the compilation steps: a fresh tokenizer scans the source,
    /// and on success the parser walks the token sequence. The attempt fails
    /// exactly when the lexical pass does, with the same error.
    pub fn compile(&mut self, code: &String) -> (r: Result<(), LexError>)
        ensures
            final(self).spec_code() == code@,
            match r {
                Ok(_) => spec_lex(code@) is Ok,
                Err(e) => spec_lex(code@) == Err::<Seq<SpecToken>, SpecLexError>(e@),
            },
    {
        self.code = code.clone();
        let tokenizer = Tokenizer::ini();
        match tokenizer.tokenize(code) {
            Ok(tokens) => {
                let mut parser = Parser::ini();
                let _tree = parser.parse(&tokens);
                Ok(())
            },
            Err(e) => Err(e),
        }
    }
}

} // verus!
