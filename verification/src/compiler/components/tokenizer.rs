//! The lexical analyzer: a single left-to-right pass over the source text that
//! emits the token sequence `spec_lex` describes, or stops at the first fatal
//! error with its 1-based line number.

use crate::compiler::components::lex_spec::{
    dots_in, find_quote, is_digit_char, is_letter, keyword_count, keyword_entry,
    keyword_lookup_from, lemma_dots_in_snoc, lemma_letter_run_end_bounds, lemma_lex_end,
    lemma_lex_step_greater, lemma_lex_step_letter, lemma_lex_step_less, lemma_lex_step_newline,
    lemma_lex_step_number, lemma_lex_step_punct, lemma_lex_step_skip, lemma_lex_step_string,
    lemma_lex_step_underscore, lemma_newlines_in_snoc, lemma_number_run_end_bounds,
    lemma_prepend_step, letter_run_end, newlines_in, number_run_end, prepend, punct_token_type,
    spec_keyword_type, spec_lex, spec_lex_from, toks_view, underscore_run_end,
};
use crate::language_features::{LexError, LexErrorKind, SpecLexError, SpecToken, Token, TokenType};
use vstd::prelude::*;

verus! {

/// Turns raw source text into a sequence of typed tokens. Holds only the
/// keyword table; scan state lives and dies within one `tokenize` call.
pub struct Tokenizer {
    keywords: Vec<(TokenType, String)>,
}

/// The exec result of a pass, seen as its mathematical value.
pub open spec fn lex_result_view(r: Result<Vec<Token>, LexError>) -> Result<
    Seq<SpecToken>,
    SpecLexError,
> {
    match r {
        Ok(ts) => Ok(toks_view(ts@)),
        Err(e) => Err(e@),
    }
}

/// Law: tokenizing one source twice, with any two instances, yields identical
/// outcomes — the same token values on success, the same error otherwise. Any
/// two results that `tokenize`'s contract admits for the same text are equal,
/// so no hidden state can leak from one call into the next.
pub proof fn lemma_tokenize_deterministic(
    s: Seq<char>,
    r1: Result<Vec<Token>, LexError>,
    r2: Result<Vec<Token>, LexError>,
)
    requires
        lex_result_view(r1) == spec_lex(s),
        lex_result_view(r2) == spec_lex(s),
    ensures
        lex_result_view(r1) == lex_result_view(r2),
        r1 is Ok <==> r2 is Ok,
        r1 is Ok ==> toks_view(r1->Ok_0@) == toks_view(r2->Ok_0@),
        r1 is Err ==> r1->Err_0 == r2->Err_0,
{
    if r1 is Err && r2 is Err {
        let e1 = r1->Err_0;
        let e2 = r2->Err_0;
        assert(e1@ == e2@);
        assert(e1.line == e2.line) by {
            assert(e1.line as int == e2.line as int);
        }
    }
}

/// One scan step that emitted token `t` keeps the pass on course: if lexing
/// from `(i, l)` yields `t` followed by lexing from `(i2, l2)`, the tokens so
/// far extended with `t` still prefix the whole source's outcome.
proof fn lemma_loop_step(
    s: Seq<char>,
    tv0: Seq<Token>,
    t: Token,
    i: int,
    l: int,
    i2: int,
    l2: int,
)
    requires
        prepend(toks_view(tv0), spec_lex_from(s, i, l)) == spec_lex(s),
        spec_lex_from(s, i, l) == prepend(seq![t@], spec_lex_from(s, i2, l2)),
    ensures
        prepend(toks_view(tv0.push(t)), spec_lex_from(s, i2, l2)) == spec_lex(s),
{
    assert(toks_view(tv0.push(t)) =~= toks_view(tv0).push(t@));
    lemma_prepend_step(toks_view(tv0), t@, spec_lex_from(s, i2, l2));
}

/// Relies on char::is_alphabetic: whether the character has the Unicode
/// `Alphabetic` property, a classification of the character alone, here named
/// `is_letter`.
#[verifier::external_body]
fn char_is_alphabetic(c: char) -> (r: bool)
    ensures
        r == is_letter(c),
{
    c.is_alphabetic()
}

/// An ASCII decimal digit.
fn char_is_digit(c: char) -> (r: bool)
    ensures
        r == is_digit_char(c),
{
    let u = c as u32;
    48 <= u && u <= 57
}

/// The token a single character produces on its own, if any.
fn punct_type(c: char) -> (r: Option<TokenType>)
    ensures
        r == punct_token_type(c),
{
    if c == ',' {
        Some(TokenType::COMMA)
    } else if c == ':' {
        Some(TokenType::COLON)
    } else if c == '+' {
        Some(TokenType::OP_PLUS)
    } else if c == '-' {
        Some(TokenType::OP_MINUS)
    } else if c == '*' {
        Some(TokenType::OP_STAR)
    } else if c == '/' {
        Some(TokenType::OP_DIVIDE)
    } else if c == '=' {
        Some(TokenType::EQUALS)
    } else if c == '(' {
        Some(TokenType::LEFT_PARENTHESIS)
    } else if c == ')' {
        Some(TokenType::RIGHT_PARENTHESIS)
    } else {
        None
    }
}

impl Tokenizer {
    /// The tokenizer carries the keyword table `keyword_entry` describes.
    pub closed spec fn wf(&self) -> bool {
        &&& self.keywords@.len() == keyword_count()
        &&& forall|k: int|
            0 <= k < keyword_count() ==> ((#[trigger] self.keywords@[k]).0 == keyword_entry(k).0
                && self.keywords@[k].1@ == keyword_entry(k).1)
    }

    pub fn ini() -> (t: Tokenizer)
        ensures
            t.wf(),
    {
        let mut t = Tokenizer { keywords: Vec::new() };
        let keywords = t.generate_keywords();
        t.keywords = keywords;
        t
    }

    /// The keyword table: each keyword, type name and section header paired
    /// with its surface spelling.
    pub fn generate_keywords(&self) -> (r: Vec<(TokenType, String)>)
        ensures
            r@.len() == keyword_count(),
            forall|k: int|
                0 <= k < keyword_count() ==> ((#[trigger] r@[k]).0 == keyword_entry(k).0
                    && r@[k].1@ == keyword_entry(k).1),
    {
        let mut r: Vec<(TokenType, String)> = Vec::new();
        r.push((TokenType::KW_AND, String::from_str("ET")));
        r.push((TokenType::KW_CASE, String::from_str("CAS")));
        r.push((TokenType::KW_DEFAULT, String::from_str("AUTRE")));
        r.push((TokenType::KW_DO, String::from_str("FAIRE")));
        r.push((TokenType::KW_ELSE, String::from_str("SINON")));
        r.push((TokenType::KW_END, String::from_str("FIN")));
        r.push((TokenType::KW_FOR, String::from_str("POUR")));
        r.push((TokenType::KW_IF, String::from_str("SI")));
        r.push((TokenType::KW_OR, String::from_str("OU")));
        r.push((TokenType::KW_NOT, String::from_str("NON")));
        r.push((TokenType::KW_READ, String::from_str("LIRE")));
        r.push((TokenType::KW_TYPE, String::from_str("TYPE")));
        r.push((TokenType::KW_WHILE, String::from_str("TANTQUE")));
        r.push((TokenType::KW_WRITE, String::from_str("ECRIRE")));
        r.push((TokenType::TY_BOOL, String::from_str("bool")));
        r.push((TokenType::TY_INT, String::from_str("entier")));
        r.push((TokenType::TY_REAL, String::from_str("réel")));
        r.push((TokenType::TY_STRING, String::from_str("chaine")));
        r.push((TokenType::DEF_TY_CONSTANTS, String::from_str("Constantes")));
        r.push((TokenType::DEF_TY_VARIABLES, String::from_str("Variables")));
        r
    }

    /// One full pass over `code`: the token sequence, or the first fatal
    /// error with its 1-based line. The outcome is exactly `spec_lex(code@)`.
    #[verifier::loop_isolation(false)]
    pub fn tokenize(&self, code: &String) -> (r: Result<Vec<Token>, LexError>)
        requires
            self.wf(),
        ensures
            lex_result_view(r) == spec_lex(code@),
    {
        let ghost s = code@;
        let text: &str = code.as_str();
        let n: usize = text.unicode_len();
        let mut ptr: usize = 0;
        let mut line: u128 = 1;
        let mut tokens: Vec<Token> = Vec::new();
        while ptr < n
            invariant
                ptr <= n,
                1 <= line,
                line as int <= 1 + ptr as int,
                prepend(toks_view(tokens@), spec_lex_from(s, ptr as int, line as int)) == spec_lex(
                    s,
                ),
            decreases n - ptr,
        {
            let ghost i = ptr as int;
            let ghost l = line as int;
            let c = text.get_char(ptr);
            let pt = punct_type(c);
            if let Some(tt) = pt {
                let content = String::from_str(text.substring_char(ptr, ptr + 1));
                let tok = Token { content, token_type: tt };
                proof {
                    lemma_lex_step_punct(s, i, l);
                    lemma_loop_step(s, tokens@, tok, i, l, i + 1, l);
                }
                tokens.push(tok);
                ptr = ptr + 1;
            } else if c == '<' {
                let mut compound: Option<TokenType> = None;
                if n - ptr >= 2 {
                    let c2 = text.get_char(ptr + 1);
                    if c2 == '-' {
                        compound = Some(TokenType::OP_ASSIGN);
                    } else if c2 == '=' {
                        compound = Some(TokenType::OP_LESS_THAN_OR_EQUAL);
                    }
                }
                if let Some(ct) = compound {
                    let content = String::from_str(text.substring_char(ptr, ptr + 2));
                    let tok = Token { content, token_type: ct };
                    proof {
                        lemma_lex_step_less(s, i, l);
                        lemma_loop_step(s, tokens@, tok, i, l, i + 2, l);
                    }
                    tokens.push(tok);
                    ptr = ptr + 2;
                } else {
                    let content = String::from_str(text.substring_char(ptr, ptr + 1));
                    let tok = Token { content, token_type: TokenType::OP_LESS_THAN };
                    proof {
                        lemma_lex_step_less(s, i, l);
                        lemma_loop_step(s, tokens@, tok, i, l, i + 1, l);
                    }
                    tokens.push(tok);
                    ptr = ptr + 1;
                }
            } else if c == '>' {
                let mut compound: bool = false;
                if n - ptr >= 2 {
                    let c2 = text.get_char(ptr + 1);
                    if c2 == '=' {
                        compound = true;
                    }
                }
                if compound {
                    let content = String::from_str(text.substring_char(ptr, ptr + 2));
                    let tok = Token { content, token_type: TokenType::OP_GREATER_THAN_OR_EQUAL };
                    proof {
                        lemma_lex_step_greater(s, i, l);
                        lemma_loop_step(s, tokens@, tok, i, l, i + 2, l);
                    }
                    tokens.push(tok);
                    ptr = ptr + 2;
                } else {
                    let content = String::from_str(text.substring_char(ptr, ptr + 1));
                    let tok = Token { content, token_type: TokenType::OP_GREATER_THAN };
                    proof {
                        lemma_lex_step_greater(s, i, l);
                        lemma_loop_step(s, tokens@, tok, i, l, i + 1, l);
                    }
                    tokens.push(tok);
                    ptr = ptr + 1;
                }
            } else if c == '_' {
                let mut j = ptr;
                while j < n && text.get_char(j) == '_'
                    invariant
                        ptr <= j <= n,
                        underscore_run_end(s, i) == underscore_run_end(s, j as int),
                    decreases n - j,
                {
                    proof {
                        assert(underscore_run_end(s, j as int) == underscore_run_end(
                            s,
                            j as int + 1,
                        ));
                    }
                    j = j + 1;
                }
                proof {
                    assert(underscore_run_end(s, j as int) == j as int);
                }
                if j - ptr >= 5 {
                    let content = String::from_str(text.substring_char(ptr, j));
                    let tok = Token { content, token_type: TokenType::PROGRAM_SEPARATOR };
                    proof {
                        lemma_lex_step_underscore(s, i, l);
                        lemma_loop_step(s, tokens@, tok, i, l, j as int, l);
                    }
                    tokens.push(tok);
                    ptr = j;
                } else {
                    proof {
                        lemma_lex_step_underscore(s, i, l);
                    }
                    ptr = ptr + 1;
                }
            } else if c == '\n' {
                proof {
                    lemma_lex_step_newline(s, i, l);
                }
                line = line + 1;
                ptr = ptr + 1;
            } else if char_is_alphabetic(c) {
                let mut j = ptr;
                while j < n && text.get_char(j) != '\n' && char_is_alphabetic(text.get_char(j))
                    invariant
                        ptr <= j <= n,
                        letter_run_end(s, i) == letter_run_end(s, j as int),
                    decreases n - j,
                {
                    proof {
                        assert(letter_run_end(s, j as int) == letter_run_end(s, j as int + 1));
                    }
                    j = j + 1;
                }
                proof {
                    assert(letter_run_end(s, j as int) == j as int);
                    assert(letter_run_end(s, i) == letter_run_end(s, i + 1));
                    lemma_letter_run_end_bounds(s, i + 1);
                }
                let content = String::from_str(text.substring_char(ptr, j));
                let looked = self.lookup_keyword(&content);
                let tt = match looked {
                    Some(t) => t,
                    None => TokenType::IDENTIFIER,
                };
                let tok = Token { content, token_type: tt };
                proof {
                    lemma_lex_step_letter(s, i, l);
                    lemma_loop_step(s, tokens@, tok, i, l, j as int, l);
                }
                tokens.push(tok);
                ptr = j;
            } else if char_is_digit(c) {
                let mut j = ptr;
                let mut dots: usize = 0;
                while j < n && (char_is_digit(text.get_char(j)) || text.get_char(j) == '.')
                    invariant
                        ptr <= j <= n,
                        number_run_end(s, i) == number_run_end(s, j as int),
                        dots as int == dots_in(s, i, j as int),
                        dots as int <= j as int - i,
                    decreases n - j,
                {
                    let cj = text.get_char(j);
                    proof {
                        assert(number_run_end(s, j as int) == number_run_end(s, j as int + 1));
                        lemma_dots_in_snoc(s, i, j as int);
                    }
                    if cj == '.' {
                        dots = dots + 1;
                    }
                    j = j + 1;
                }
                proof {
                    assert(number_run_end(s, j as int) == j as int);
                    assert(number_run_end(s, i) == number_run_end(s, i + 1));
                    lemma_number_run_end_bounds(s, i + 1);
                }
                if dots >= 2 {
                    let e = LexError { kind: LexErrorKind::MalformedNumber, line };
                    proof {
                        lemma_lex_step_number(s, i, l);
                    }
                    return Err(e);
                }
                let content = String::from_str(text.substring_char(ptr, j));
                let tok = Token { content, token_type: TokenType::NUMBER };
                proof {
                    lemma_lex_step_number(s, i, l);
                    lemma_loop_step(s, tokens@, tok, i, l, j as int, l);
                }
                tokens.push(tok);
                ptr = j;
            } else if c == '"' {
                let mut j = ptr + 1;
                let mut nl: usize = 0;
                while j < n && text.get_char(j) != '"'
                    invariant
                        ptr as int + 1 <= j as int <= n as int,
                        find_quote(s, i + 1) == find_quote(s, j as int),
                        nl as int == newlines_in(s, i + 1, j as int),
                        nl as int <= j as int - i - 1,
                    decreases n - j,
                {
                    let cj = text.get_char(j);
                    proof {
                        assert(find_quote(s, j as int) == find_quote(s, j as int + 1));
                        lemma_newlines_in_snoc(s, i + 1, j as int);
                    }
                    if cj == '\n' {
                        nl = nl + 1;
                    }
                    j = j + 1;
                }
                if j >= n {
                    let e = LexError {
                        kind: LexErrorKind::UnterminatedString,
                        line: line + nl as u128,
                    };
                    proof {
                        assert(find_quote(s, j as int) is None);
                        lemma_lex_step_string(s, i, l);
                    }
                    return Err(e);
                }
                let content = String::from_str(text.substring_char(ptr + 1, j));
                let tok = Token { content, token_type: TokenType::STRING };
                proof {
                    assert(find_quote(s, j as int) == Some(j as int));
                    lemma_lex_step_string(s, i, l);
                    lemma_loop_step(s, tokens@, tok, i, l, j as int + 1, l + nl as int);
                }
                tokens.push(tok);
                line = line + nl as u128;
                ptr = j + 1;
            } else {
                proof {
                    lemma_lex_step_skip(s, i, l);
                }
                ptr = ptr + 1;
            }
        }
        proof {
            lemma_lex_end(s, ptr as int, line as int);
            assert(toks_view(tokens@) + Seq::<SpecToken>::empty() =~= toks_view(tokens@));
        }
        Ok(tokens)
    }

    /// Reverse lookup of a scanned identifier in the keyword table.
    fn lookup_keyword(&self, text: &String) -> (r: Option<TokenType>)
        requires
            self.wf(),
        ensures
            r == spec_keyword_type(text@),
    {
        let ghost t = text@;
        let mut k: usize = 0;
        while k < self.keywords.len()
            invariant
                self.wf(),
                k <= self.keywords@.len(),
                keyword_lookup_from(t, 0) == keyword_lookup_from(t, k as int),
                t == text@,
            decreases self.keywords@.len() - k,
        {
            let pair = &self.keywords[k];
            if pair.1 == *text {
                return Some(pair.0);
            }
            k = k + 1;
        }
        None
    }
}

} // verus!
