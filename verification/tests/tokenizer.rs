use pseudocode::compiler::components::tokenizer::Tokenizer;
use pseudocode::language_features::{LexError, LexErrorKind, Token, TokenType};

fn lex(src: &str) -> Result<Vec<Token>, LexError> {
    let tokenizer = Tokenizer::ini();
    tokenizer.tokenize(&src.to_string())
}

fn lex_ok(src: &str) -> Vec<Token> {
    lex(src).expect("expected a successful pass")
}

#[test]
fn single_char_punctuation() {
    let cases = [
        (",", TokenType::COMMA),
        (":", TokenType::COLON),
        ("=", TokenType::EQUALS),
        ("+", TokenType::OP_PLUS),
        ("-", TokenType::OP_MINUS),
        ("*", TokenType::OP_STAR),
        ("/", TokenType::OP_DIVIDE),
        ("(", TokenType::LEFT_PARENTHESIS),
        (")", TokenType::RIGHT_PARENTHESIS),
    ];
    for (src, expected) in cases {
        let tokens = lex_ok(src);
        assert_eq!(tokens.len(), 1, "input {:?}", src);
        assert_eq!(tokens[0].token_type, expected, "input {:?}", src);
        assert_eq!(tokens[0].content, src, "input {:?}", src);
    }
}

#[test]
fn assign_operator() {
    let tokens = lex_ok("<-");
    assert_eq!(tokens.len(), 1);
    assert_eq!(tokens[0].token_type, TokenType::OP_ASSIGN);
    assert_eq!(tokens[0].content, "<-");
}

#[test]
fn less_than_or_equal_operator() {
    let tokens = lex_ok("<=");
    assert_eq!(tokens.len(), 1);
    assert_eq!(tokens[0].token_type, TokenType::OP_LESS_THAN_OR_EQUAL);
    assert_eq!(tokens[0].content, "<=");
}

#[test]
fn less_than_alone() {
    let tokens = lex_ok("<");
    assert_eq!(tokens.len(), 1);
    assert_eq!(tokens[0].token_type, TokenType::OP_LESS_THAN);
    assert_eq!(tokens[0].content, "<");
}

#[test]
fn less_than_before_other_character() {
    let tokens = lex_ok("<5");
    assert_eq!(tokens.len(), 2);
    assert_eq!(tokens[0].token_type, TokenType::OP_LESS_THAN);
    assert_eq!(tokens[1].token_type, TokenType::NUMBER);
    assert_eq!(tokens[1].content, "5");
}

#[test]
fn greater_than_alone() {
    let tokens = lex_ok(">");
    assert_eq!(tokens.len(), 1);
    assert_eq!(tokens[0].token_type, TokenType::OP_GREATER_THAN);
    assert_eq!(tokens[0].content, ">");
}

#[test]
fn greater_than_or_equal_operator() {
    let tokens = lex_ok(">=");
    assert_eq!(tokens.len(), 1);
    assert_eq!(tokens[0].token_type, TokenType::OP_GREATER_THAN_OR_EQUAL);
    assert_eq!(tokens[0].content, ">=");
}

#[test]
fn program_separator_of_five() {
    let tokens = lex_ok("_____");
    assert_eq!(tokens.len(), 1);
    assert_eq!(tokens[0].token_type, TokenType::PROGRAM_SEPARATOR);
    assert_eq!(tokens[0].content, "_____");
}

#[test]
fn program_separator_of_eight() {
    let tokens = lex_ok("________");
    assert_eq!(tokens.len(), 1);
    assert_eq!(tokens[0].token_type, TokenType::PROGRAM_SEPARATOR);
    assert_eq!(tokens[0].content, "________");
}

#[test]
fn three_underscores_make_no_separator() {
    let tokens = lex_ok("___");
    assert!(tokens
        .iter()
        .all(|t| t.token_type != TokenType::PROGRAM_SEPARATOR));
    assert_eq!(tokens.len(), 0);
}

#[test]
fn separator_consumes_only_the_run() {
    let tokens = lex_ok("_____(");
    assert_eq!(tokens.len(), 2);
    assert_eq!(tokens[0].token_type, TokenType::PROGRAM_SEPARATOR);
    assert_eq!(tokens[0].content, "_____");
    assert_eq!(tokens[1].token_type, TokenType::LEFT_PARENTHESIS);
}

#[test]
fn keyword_si_is_recognized() {
    let tokens = lex_ok("SI");
    assert_eq!(tokens.len(), 1);
    assert_eq!(tokens[0].token_type, TokenType::KW_IF);
    assert_eq!(tokens[0].content, "SI");
}

#[test]
fn six_is_a_plain_identifier() {
    let tokens = lex_ok("SIX");
    assert_eq!(tokens.len(), 1);
    assert_eq!(tokens[0].token_type, TokenType::IDENTIFIER);
    assert_eq!(tokens[0].content, "SIX");
}

#[test]
fn every_table_spelling_resolves_to_its_keyword() {
    let tokenizer = Tokenizer::ini();
    for (token_type, spelling) in tokenizer.generate_keywords() {
        let tokens = lex_ok(&spelling);
        assert_eq!(tokens.len(), 1, "spelling {:?}", spelling);
        assert_eq!(tokens[0].token_type, token_type, "spelling {:?}", spelling);
        assert_eq!(tokens[0].content, spelling);
    }
}

#[test]
fn accented_type_name_is_recognized() {
    let tokens = lex_ok("réel");
    assert_eq!(tokens.len(), 1);
    assert_eq!(tokens[0].token_type, TokenType::TY_REAL);
    assert_eq!(tokens[0].content, "réel");
}

#[test]
fn accented_identifier_scans_whole_run() {
    let tokens = lex_ok("café");
    assert_eq!(tokens.len(), 1);
    assert_eq!(tokens[0].token_type, TokenType::IDENTIFIER);
    assert_eq!(tokens[0].content, "café");
}

#[test]
fn underscore_does_not_join_identifiers() {
    let tokens = lex_ok("ab_cd");
    assert_eq!(tokens.len(), 2);
    assert_eq!(tokens[0].token_type, TokenType::IDENTIFIER);
    assert_eq!(tokens[0].content, "ab");
    assert_eq!(tokens[1].token_type, TokenType::IDENTIFIER);
    assert_eq!(tokens[1].content, "cd");
}

#[test]
fn number_with_one_dot() {
    let tokens = lex_ok("3.14");
    assert_eq!(tokens.len(), 1);
    assert_eq!(tokens[0].token_type, TokenType::NUMBER);
    assert_eq!(tokens[0].content, "3.14");
}

#[test]
fn number_with_trailing_dot() {
    let tokens = lex_ok("3.");
    assert_eq!(tokens.len(), 1);
    assert_eq!(tokens[0].token_type, TokenType::NUMBER);
    assert_eq!(tokens[0].content, "3.");
}

#[test]
fn number_with_two_dots_is_fatal() {
    let err = lex("3.1.4").expect_err("two dots must be fatal");
    assert_eq!(err.kind, LexErrorKind::MalformedNumber);
    assert_eq!(err.line, 1);
}

#[test]
fn number_with_adjacent_dots_is_fatal() {
    let err = lex("1..2").expect_err("two dots must be fatal");
    assert_eq!(err.kind, LexErrorKind::MalformedNumber);
    assert_eq!(err.line, 1);
}

#[test]
fn leading_dot_is_skipped_not_part_of_number() {
    let tokens = lex_ok(".5");
    assert_eq!(tokens.len(), 1);
    assert_eq!(tokens[0].token_type, TokenType::NUMBER);
    assert_eq!(tokens[0].content, "5");
}

#[test]
fn string_literal_strips_quotes() {
    let tokens = lex_ok("\"hello\"");
    assert_eq!(tokens.len(), 1);
    assert_eq!(tokens[0].token_type, TokenType::STRING);
    assert_eq!(tokens[0].content, "hello");
}

#[test]
fn unterminated_string_is_fatal() {
    let err = lex("\"unterminated").expect_err("missing quote must be fatal");
    assert_eq!(err.kind, LexErrorKind::UnterminatedString);
    assert_eq!(err.line, 1);
}

#[test]
fn string_keeps_embedded_newline() {
    let tokens = lex_ok("\"a\nb\"");
    assert_eq!(tokens.len(), 1);
    assert_eq!(tokens[0].token_type, TokenType::STRING);
    assert_eq!(tokens[0].content, "a\nb");
}

#[test]
fn empty_string_literal() {
    let tokens = lex_ok("\"\"");
    assert_eq!(tokens.len(), 1);
    assert_eq!(tokens[0].token_type, TokenType::STRING);
    assert_eq!(tokens[0].content, "");
}

#[test]
fn empty_input_yields_no_tokens() {
    assert_eq!(lex_ok("").len(), 0);
}

#[test]
fn unknown_characters_are_skipped() {
    assert_eq!(lex_ok("@#$%&;!").len(), 0);
}

#[test]
fn whitespace_separates_identifiers() {
    let tokens = lex_ok("a b\tc");
    assert_eq!(tokens.len(), 3);
    assert_eq!(tokens[0].content, "a");
    assert_eq!(tokens[1].content, "b");
    assert_eq!(tokens[2].content, "c");
}

#[test]
fn two_fresh_instances_agree() {
    let src = "SI x <= 3.14 FAIRE\nECRIRE(\"ok\")\nFIN".to_string();
    let first = Tokenizer::ini();
    let second = Tokenizer::ini();
    let a = first.tokenize(&src).expect("first pass");
    let b = second.tokenize(&src).expect("second pass");
    assert_eq!(a.len(), b.len());
    for (x, y) in a.iter().zip(b.iter()) {
        assert_eq!(x.token_type, y.token_type);
        assert_eq!(x.content, y.content);
    }
}

#[test]
fn small_program_token_sequence() {
    let tokens = lex_ok("SI x <= 3.14 FAIRE\nECRIRE(\"ok\")\nFIN");
    let expected = [
        (TokenType::KW_IF, "SI"),
        (TokenType::IDENTIFIER, "x"),
        (TokenType::OP_LESS_THAN_OR_EQUAL, "<="),
        (TokenType::NUMBER, "3.14"),
        (TokenType::KW_DO, "FAIRE"),
        (TokenType::KW_WRITE, "ECRIRE"),
        (TokenType::LEFT_PARENTHESIS, "("),
        (TokenType::STRING, "ok"),
        (TokenType::RIGHT_PARENTHESIS, ")"),
        (TokenType::KW_END, "FIN"),
    ];
    assert_eq!(tokens.len(), expected.len());
    for (token, (expected_type, expected_content)) in tokens.iter().zip(expected.iter()) {
        assert_eq!(token.token_type, *expected_type);
        assert_eq!(token.content, *expected_content);
    }
}

#[test]
fn error_line_counts_newlines_outside_strings() {
    let err = lex("\n\n3.1.4").expect_err("two dots must be fatal");
    assert_eq!(err.kind, LexErrorKind::MalformedNumber);
    assert_eq!(err.line, 3);
}

#[test]
fn error_line_counts_newlines_inside_strings() {
    let err = lex("\"a\nb\" 1.2.3").expect_err("two dots must be fatal");
    assert_eq!(err.kind, LexErrorKind::MalformedNumber);
    assert_eq!(err.line, 2);
}

#[test]
fn unterminated_string_reports_line_of_input_end() {
    let err = lex("x\n\"abc\ndef").expect_err("missing quote must be fatal");
    assert_eq!(err.kind, LexErrorKind::UnterminatedString);
    assert_eq!(err.line, 3);
}
