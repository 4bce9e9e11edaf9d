pub mod lex_spec;
pub mod parser;
pub mod tokenizer;
