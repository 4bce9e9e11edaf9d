use pseudocode::compiler::components::parser::Parser;
use pseudocode::compiler::components::tokenizer::Tokenizer;
use pseudocode::compiler::PseudoCodeCompiler;
use pseudocode::language_features::LexErrorKind;

#[test]
fn compile_accepts_a_well_formed_source() {
    let mut compiler = PseudoCodeCompiler::ini();
    let outcome = compiler.compile(&"x <- 1 + 2".to_string());
    assert!(outcome.is_ok());
}

#[test]
fn compile_passes_the_lexical_error_through() {
    let mut compiler = PseudoCodeCompiler::ini();
    let err = compiler
        .compile(&"\n\"open".to_string())
        .expect_err("the unterminated string must fail the attempt");
    assert_eq!(err.kind, LexErrorKind::UnterminatedString);
    assert_eq!(err.line, 2);
}

#[test]
fn compile_twice_on_one_instance() {
    let mut compiler = PseudoCodeCompiler::ini();
    assert!(compiler.compile(&"a <- 1".to_string()).is_ok());
    assert!(compiler.compile(&"3.1.4".to_string()).is_err());
    assert!(compiler.compile(&"a <- 1".to_string()).is_ok());
}

#[test]
fn parser_builds_no_tree_yet() {
    let tokenizer = Tokenizer::ini();
    let tokens = tokenizer
        .tokenize(&"Variables x : entier".to_string())
        .expect("a clean source");
    let mut parser = Parser::ini();
    let tree = parser.parse(&tokens);
    assert_eq!(tree.nodes.len(), 0);
}

#[test]
fn keyword_table_has_twenty_unambiguous_entries() {
    let tokenizer = Tokenizer::ini();
    let table = tokenizer.generate_keywords();
    assert_eq!(table.len(), 20);
    for (i, (_, a)) in table.iter().enumerate() {
        assert!(a.chars().all(|c| c.is_alphabetic()), "spelling {:?}", a);
        for (_, b) in table.iter().skip(i + 1) {
            assert_ne!(a, b, "two entries share the spelling {:?}", a);
        }
    }
}

#[test]
fn error_descriptions() {
    assert_eq!(
        LexErrorKind::MalformedNumber.description(),
        "Number contains more than one dot"
    );
    assert_eq!(
        LexErrorKind::UnterminatedString.description(),
        "String is unterminated"
    );
}
