//! The mathematical model of the lexical pass: a recursive function from the
//! source character sequence to the token sequence (or the first fatal error),
//! together with the keyword table and the lemmas the scanner's proof uses.

use crate::language_features::{LexErrorKind, SpecLexError, SpecToken, Token, TokenType};
use vstd::prelude::*;

verus! {

/// Whether `char::is_alphabetic` holds of `c`: the Unicode `Alphabetic`
/// property, a fixed classification of the character alone. It is given no
/// definition here; the scanner learns it one character at a time through its
/// trusted wrapper.
pub uninterp spec fn is_letter(c: char) -> bool;

/// An ASCII decimal digit.
pub open spec fn is_digit_char(c: char) -> bool {
    48 <= (c as u32) && (c as u32) <= 57
}

/// The token a single character produces on its own, if any.
pub open spec fn punct_token_type(c: char) -> Option<TokenType> {
    if c == ',' {
        Some(TokenType::COMMA)
    } else if c == ':' {
        Some(TokenType::COLON)
    } else if c == '+' {
        Some(TokenType::OP_PLUS)
    } else if c == '-' {
        Some(TokenType::OP_MINUS)
    } else if c == '*' {
        Some(TokenType::OP_STAR)
    } else if c == '/' {
        Some(TokenType::OP_DIVIDE)
    } else if c == '=' {
        Some(TokenType::EQUALS)
    } else if c == '(' {
        Some(TokenType::LEFT_PARENTHESIS)
    } else if c == ')' {
        Some(TokenType::RIGHT_PARENTHESIS)
    } else {
        None
    }
}

/// First position at or after `i` where the run of letters ends. A newline
/// never continues a run: `is_letter` is left open, and line counting must not
/// depend on what it says of `'\n'`.
pub open spec fn letter_run_end(s: Seq<char>, i: int) -> int
    decreases s.len() - i,
{
    if i < 0 || i >= s.len() {
        i
    } else if is_letter(s[i]) && s[i] != '\n' {
        letter_run_end(s, i + 1)
    } else {
        i
    }
}

/// First position at or after `i` where the run of underscores ends.
pub open spec fn underscore_run_end(s: Seq<char>, i: int) -> int
    decreases s.len() - i,
{
    if i < 0 || i >= s.len() {
        i
    } else if s[i] == '_' {
        underscore_run_end(s, i + 1)
    } else {
        i
    }
}

/// First position at or after `i` where the run of digits and dots ends.
pub open spec fn number_run_end(s: Seq<char>, i: int) -> int
    decreases s.len() - i,
{
    if i < 0 || i >= s.len() {
        i
    } else if is_digit_char(s[i]) || s[i] == '.' {
        number_run_end(s, i + 1)
    } else {
        i
    }
}

/// Position of the first double quote at or after `i`, if any.
pub open spec fn find_quote(s: Seq<char>, i: int) -> Option<int>
    decreases s.len() - i,
{
    if i < 0 || i >= s.len() {
        None
    } else if s[i] == '"' {
        Some(i)
    } else {
        find_quote(s, i + 1)
    }
}

/// How many newlines `s` holds in the half-open range `[from, to)`.
pub open spec fn newlines_in(s: Seq<char>, from: int, to: int) -> int
    decreases to - from,
{
    if from < 0 || from >= to || to > s.len() {
        0
    } else {
        (if s[from] == '\n' {
            1int
        } else {
            0int
        }) + newlines_in(s, from + 1, to)
    }
}

/// How many dots `s` holds in the half-open range `[from, to)`.
pub open spec fn dots_in(s: Seq<char>, from: int, to: int) -> int
    decreases to - from,
{
    if from < 0 || from >= to || to > s.len() {
        0
    } else {
        (if s[from] == '.' {
            1int
        } else {
            0int
        }) + dots_in(s, from + 1, to)
    }
}

/// Number of entries in the keyword table.
pub open spec fn keyword_count() -> int {
    20
}

/// The keyword table: each keyword, type name and section header with its
/// surface spelling. No two entries share a spelling.
pub open spec fn keyword_entry(k: int) -> (TokenType, Seq<char>) {
    if k == 0 {
        (TokenType::KW_AND, "ET"@)
    } else if k == 1 {
        (TokenType::KW_CASE, "CAS"@)
    } else if k == 2 {
        (TokenType::KW_DEFAULT, "AUTRE"@)
    } else if k == 3 {
        (TokenType::KW_DO, "FAIRE"@)
    } else if k == 4 {
        (TokenType::KW_ELSE, "SINON"@)
    } else if k == 5 {
        (TokenType::KW_END, "FIN"@)
    } else if k == 6 {
        (TokenType::KW_FOR, "POUR"@)
    } else if k == 7 {
        (TokenType::KW_IF, "SI"@)
    } else if k == 8 {
        (TokenType::KW_OR, "OU"@)
    } else if k == 9 {
        (TokenType::KW_NOT, "NON"@)
    } else if k == 10 {
        (TokenType::KW_READ, "LIRE"@)
    } else if k == 11 {
        (TokenType::KW_TYPE, "TYPE"@)
    } else if k == 12 {
        (TokenType::KW_WHILE, "TANTQUE"@)
    } else if k == 13 {
        (TokenType::KW_WRITE, "ECRIRE"@)
    } else if k == 14 {
        (TokenType::TY_BOOL, "bool"@)
    } else if k == 15 {
        (TokenType::TY_INT, "entier"@)
    } else if k == 16 {
        (TokenType::TY_REAL, "réel"@)
    } else if k == 17 {
        (TokenType::TY_STRING, "chaine"@)
    } else if k == 18 {
        (TokenType::DEF_TY_CONSTANTS, "Constantes"@)
    } else {
        (TokenType::DEF_TY_VARIABLES, "Variables"@)
    }
}

/// Reverse lookup in the keyword table, scanning entries from `k` on.
pub open spec fn keyword_lookup_from(text: Seq<char>, k: int) -> Option<TokenType>
    decreases keyword_count() - k,
{
    if k < 0 || k >= keyword_count() {
        None
    } else if keyword_entry(k).1 == text {
        Some(keyword_entry(k).0)
    } else {
        keyword_lookup_from(text, k + 1)
    }
}

/// The token type a full identifier run resolves to, if its text is the
/// spelling of some table entry.
pub open spec fn spec_keyword_type(text: Seq<char>) -> Option<TokenType> {
    keyword_lookup_from(text, 0)
}

pub open spec fn spec_token(token_type: TokenType, content: Seq<char>) -> SpecToken {
    SpecToken { token_type, content }
}

/// Prefixes `ts` to the tokens of `r`; an error passes through unchanged.
pub open spec fn prepend(ts: Seq<SpecToken>, r: Result<Seq<SpecToken>, SpecLexError>) -> Result<
    Seq<SpecToken>,
    SpecLexError,
> {
    match r {
        Ok(rest) => Ok(ts + rest),
        Err(e) => Err(e),
    }
}

/// The tokens of the source from position `i` on, the line counter standing at
/// `line`; or the first fatal error. One recursive step consumes one token,
/// one newline or one skipped character.
pub open spec fn spec_lex_from(s: Seq<char>, i: int, line: int) -> Result<
    Seq<SpecToken>,
    SpecLexError,
>
    decreases s.len() - i,
        via spec_lex_from_dec
{
    if i < 0 || i >= s.len() {
        Ok(Seq::empty())
    } else {
        let c = s[i];
        if punct_token_type(c) is Some {
            prepend(
                seq![spec_token(punct_token_type(c)->Some_0, s.subrange(i, i + 1))],
                spec_lex_from(s, i + 1, line),
            )
        } else if c == '<' {
            if i + 2 <= s.len() && s[i + 1] == '-' {
                prepend(
                    seq![spec_token(TokenType::OP_ASSIGN, s.subrange(i, i + 2))],
                    spec_lex_from(s, i + 2, line),
                )
            } else if i + 2 <= s.len() && s[i + 1] == '=' {
                prepend(
                    seq![spec_token(TokenType::OP_LESS_THAN_OR_EQUAL, s.subrange(i, i + 2))],
                    spec_lex_from(s, i + 2, line),
                )
            } else {
                prepend(
                    seq![spec_token(TokenType::OP_LESS_THAN, s.subrange(i, i + 1))],
                    spec_lex_from(s, i + 1, line),
                )
            }
        } else if c == '>' {
            if i + 2 <= s.len() && s[i + 1] == '=' {
                prepend(
                    seq![spec_token(TokenType::OP_GREATER_THAN_OR_EQUAL, s.subrange(i, i + 2))],
                    spec_lex_from(s, i + 2, line),
                )
            } else {
                prepend(
                    seq![spec_token(TokenType::OP_GREATER_THAN, s.subrange(i, i + 1))],
                    spec_lex_from(s, i + 1, line),
                )
            }
        } else if c == '_' {
            let j = underscore_run_end(s, i);
            if j - i >= 5 {
                prepend(
                    seq![spec_token(TokenType::PROGRAM_SEPARATOR, s.subrange(i, j))],
                    spec_lex_from(s, j, line),
                )
            } else {
                spec_lex_from(s, i + 1, line)
            }
        } else if c == '\n' {
            spec_lex_from(s, i + 1, line + 1)
        } else if is_letter(c) {
            let j = letter_run_end(s, i);
            let text = s.subrange(i, j);
            let tt = match spec_keyword_type(text) {
                Some(k) => k,
                None => TokenType::IDENTIFIER,
            };
            prepend(seq![spec_token(tt, text)], spec_lex_from(s, j, line))
        } else if is_digit_char(c) {
            let j = number_run_end(s, i);
            if dots_in(s, i, j) >= 2 {
                Err(SpecLexError { kind: LexErrorKind::MalformedNumber, line })
            } else {
                prepend(
                    seq![spec_token(TokenType::NUMBER, s.subrange(i, j))],
                    spec_lex_from(s, j, line),
                )
            }
        } else if c == '"' {
            match find_quote(s, i + 1) {
                Some(j) => prepend(
                    seq![spec_token(TokenType::STRING, s.subrange(i + 1, j))],
                    spec_lex_from(s, j + 1, line + newlines_in(s, i + 1, j)),
                ),
                None => Err(
                    SpecLexError {
                        kind: LexErrorKind::UnterminatedString,
                        line: line + newlines_in(s, i + 1, s.len() as int),
                    },
                ),
            }
        } else {
            spec_lex_from(s, i + 1, line)
        }
    }
}

#[via_fn]
proof fn spec_lex_from_dec(s: Seq<char>, i: int, line: int) {
    if 0 <= i && i < s.len() {
        let c = s[i];
        if c == '_' {
            assert(underscore_run_end(s, i) == underscore_run_end(s, i + 1));
            lemma_underscore_run_end_bounds(s, i + 1);
        }
        if is_letter(c) && c != '\n' {
            assert(letter_run_end(s, i) == letter_run_end(s, i + 1));
            lemma_letter_run_end_bounds(s, i + 1);
        }
        if is_digit_char(c) {
            assert(number_run_end(s, i) == number_run_end(s, i + 1));
            lemma_number_run_end_bounds(s, i + 1);
        }
        if c == '"' {
            lemma_find_quote_bounds(s, i + 1);
        }
    }
}

/// The token sequence of a whole source, the line counter starting at 1.
pub open spec fn spec_lex(s: Seq<char>) -> Result<Seq<SpecToken>, SpecLexError> {
    spec_lex_from(s, 0, 1)
}

/// The values of a sequence of emitted tokens.
pub open spec fn toks_view(ts: Seq<Token>) -> Seq<SpecToken> {
    ts.map_values(|t: Token| t@)
}

pub proof fn lemma_letter_run_end_bounds(s: Seq<char>, i: int)
    ensures
        i <= letter_run_end(s, i),
        0 <= i <= s.len() ==> letter_run_end(s, i) <= s.len(),
    decreases s.len() - i,
{
    if 0 <= i && i < s.len() && is_letter(s[i]) && s[i] != '\n' {
        lemma_letter_run_end_bounds(s, i + 1);
    }
}

pub proof fn lemma_underscore_run_end_bounds(s: Seq<char>, i: int)
    ensures
        i <= underscore_run_end(s, i),
        0 <= i <= s.len() ==> underscore_run_end(s, i) <= s.len(),
    decreases s.len() - i,
{
    if 0 <= i && i < s.len() && s[i] == '_' {
        lemma_underscore_run_end_bounds(s, i + 1);
    }
}

pub proof fn lemma_number_run_end_bounds(s: Seq<char>, i: int)
    ensures
        i <= number_run_end(s, i),
        0 <= i <= s.len() ==> number_run_end(s, i) <= s.len(),
    decreases s.len() - i,
{
    if 0 <= i && i < s.len() && (is_digit_char(s[i]) || s[i] == '.') {
        lemma_number_run_end_bounds(s, i + 1);
    }
}

pub proof fn lemma_newlines_in_snoc(s: Seq<char>, from: int, to: int)
    requires
        0 <= from <= to < s.len(),
    ensures
        newlines_in(s, from, to + 1) == newlines_in(s, from, to) + (if s[to] == '\n' {
            1int
        } else {
            0int
        }),
    decreases to - from,
{
    if from < to {
        lemma_newlines_in_snoc(s, from + 1, to);
    } else {
        assert(newlines_in(s, from + 1, to + 1) == 0);
    }
}

pub proof fn lemma_dots_in_snoc(s: Seq<char>, from: int, to: int)
    requires
        0 <= from <= to < s.len(),
    ensures
        dots_in(s, from, to + 1) == dots_in(s, from, to) + (if s[to] == '.' {
            1int
        } else {
            0int
        }),
    decreases to - from,
{
    if from < to {
        lemma_dots_in_snoc(s, from + 1, to);
    } else {
        assert(dots_in(s, from + 1, to + 1) == 0);
    }
}

/// Prefixing one more token commutes with `prepend`.
pub proof fn lemma_prepend_step(
    tv: Seq<SpecToken>,
    tk: SpecToken,
    r: Result<Seq<SpecToken>, SpecLexError>,
)
    ensures
        prepend(tv, prepend(seq![tk], r)) == prepend(tv.push(tk), r),
{
    match r {
        Ok(rest) => {
            assert(tv + (seq![tk] + rest) =~= tv.push(tk) + rest);
        },
        Err(_) => {
        },
    }
}

/// The newline count of a single cell.
pub proof fn lemma_newlines_in_single(s: Seq<char>, i: int)
    requires
        0 <= i < s.len(),
    ensures
        newlines_in(s, i, i + 1) == (if s[i] == '\n' {
            1int
        } else {
            0int
        }),
{
    assert(newlines_in(s, i + 1, i + 1) == 0);
}

pub proof fn lemma_newlines_in_concat(s: Seq<char>, a: int, b: int, c: int)
    requires
        0 <= a <= b <= c <= s.len(),
    ensures
        newlines_in(s, a, c) == newlines_in(s, a, b) + newlines_in(s, b, c),
    decreases b - a,
{
    if a < b {
        lemma_newlines_in_concat(s, a + 1, b, c);
    } else {
        assert(newlines_in(s, a, b) == 0);
    }
}

/// A run of letters holds no newline: the run is cut at `'\n'` by definition.
pub proof fn lemma_letter_run_no_newline(s: Seq<char>, i: int)
    ensures
        newlines_in(s, i, letter_run_end(s, i)) == 0,
    decreases s.len() - i,
{
    if 0 <= i && i < s.len() && is_letter(s[i]) && s[i] != '\n' {
        lemma_letter_run_no_newline(s, i + 1);
        lemma_letter_run_end_bounds(s, i + 1);
    }
}

/// A run of underscores holds no newline.
pub proof fn lemma_underscore_run_no_newline(s: Seq<char>, i: int)
    ensures
        newlines_in(s, i, underscore_run_end(s, i)) == 0,
    decreases s.len() - i,
{
    if 0 <= i && i < s.len() && s[i] == '_' {
        lemma_underscore_run_no_newline(s, i + 1);
        lemma_underscore_run_end_bounds(s, i + 1);
    }
}

/// A run of digits and dots holds no newline.
pub proof fn lemma_number_run_no_newline(s: Seq<char>, i: int)
    ensures
        newlines_in(s, i, number_run_end(s, i)) == 0,
    decreases s.len() - i,
{
    if 0 <= i && i < s.len() && (is_digit_char(s[i]) || s[i] == '.') {
        lemma_number_run_no_newline(s, i + 1);
        lemma_number_run_end_bounds(s, i + 1);
    }
}

// What one scan step yields, branch by branch: each lemma unfolds
// `spec_lex_from` once under the conditions of its branch, so that the
// scanner's loop can reason about a step without opening the whole
// definition in place.
pub proof fn lemma_lex_step_punct(s: Seq<char>, i: int, line: int)
    requires
        0 <= i < s.len(),
        punct_token_type(s[i]) is Some,
    ensures
        spec_lex_from(s, i, line) == prepend(
            seq![spec_token(punct_token_type(s[i])->Some_0, s.subrange(i, i + 1))],
            spec_lex_from(s, i + 1, line),
        ),
{
}

pub proof fn lemma_lex_step_less(s: Seq<char>, i: int, line: int)
    requires
        0 <= i < s.len(),
        s[i] == '<',
    ensures
        i + 2 <= s.len() && s[i + 1] == '-' ==> spec_lex_from(s, i, line) == prepend(
            seq![spec_token(TokenType::OP_ASSIGN, s.subrange(i, i + 2))],
            spec_lex_from(s, i + 2, line),
        ),
        i + 2 <= s.len() && s[i + 1] != '-' && s[i + 1] == '=' ==> spec_lex_from(s, i, line)
            == prepend(
            seq![spec_token(TokenType::OP_LESS_THAN_OR_EQUAL, s.subrange(i, i + 2))],
            spec_lex_from(s, i + 2, line),
        ),
        i + 2 > s.len() || (s[i + 1] != '-' && s[i + 1] != '=') ==> spec_lex_from(s, i, line)
            == prepend(
            seq![spec_token(TokenType::OP_LESS_THAN, s.subrange(i, i + 1))],
            spec_lex_from(s, i + 1, line),
        ),
{
}

pub proof fn lemma_lex_step_greater(s: Seq<char>, i: int, line: int)
    requires
        0 <= i < s.len(),
        s[i] == '>',
    ensures
        i + 2 <= s.len() && s[i + 1] == '=' ==> spec_lex_from(s, i, line) == prepend(
            seq![spec_token(TokenType::OP_GREATER_THAN_OR_EQUAL, s.subrange(i, i + 2))],
            spec_lex_from(s, i + 2, line),
        ),
        i + 2 > s.len() || s[i + 1] != '=' ==> spec_lex_from(s, i, line) == prepend(
            seq![spec_token(TokenType::OP_GREATER_THAN, s.subrange(i, i + 1))],
            spec_lex_from(s, i + 1, line),
        ),
{
}

pub proof fn lemma_lex_step_underscore(s: Seq<char>, i: int, line: int)
    requires
        0 <= i < s.len(),
        s[i] == '_',
    ensures
        underscore_run_end(s, i) - i >= 5 ==> spec_lex_from(s, i, line) == prepend(
            seq![spec_token(TokenType::PROGRAM_SEPARATOR, s.subrange(i, underscore_run_end(s, i)))],
            spec_lex_from(s, underscore_run_end(s, i), line),
        ),
        underscore_run_end(s, i) - i < 5 ==> spec_lex_from(s, i, line) == spec_lex_from(
            s,
            i + 1,
            line,
        ),
{
}

pub proof fn lemma_lex_step_newline(s: Seq<char>, i: int, line: int)
    requires
        0 <= i < s.len(),
        s[i] == '\n',
    ensures
        spec_lex_from(s, i, line) == spec_lex_from(s, i + 1, line + 1),
{
}

pub proof fn lemma_lex_step_letter(s: Seq<char>, i: int, line: int)
    requires
        0 <= i < s.len(),
        punct_token_type(s[i]) is None,
        s[i] != '<' && s[i] != '>' && s[i] != '_' && s[i] != '\n',
        is_letter(s[i]),
    ensures
        spec_lex_from(s, i, line) == prepend(
            seq![
                spec_token(
                    match spec_keyword_type(s.subrange(i, letter_run_end(s, i))) {
                        Some(k) => k,
                        None => TokenType::IDENTIFIER,
                    },
                    s.subrange(i, letter_run_end(s, i)),
                ),
            ],
            spec_lex_from(s, letter_run_end(s, i), line),
        ),
{
}

pub proof fn lemma_lex_step_number(s: Seq<char>, i: int, line: int)
    requires
        0 <= i < s.len(),
        punct_token_type(s[i]) is None,
        s[i] != '<' && s[i] != '>' && s[i] != '_' && s[i] != '\n',
        !is_letter(s[i]),
        is_digit_char(s[i]),
    ensures
        dots_in(s, i, number_run_end(s, i)) >= 2 ==> spec_lex_from(s, i, line) == Err::<
            Seq<SpecToken>,
            SpecLexError,
        >((SpecLexError { kind: LexErrorKind::MalformedNumber, line })),
        dots_in(s, i, number_run_end(s, i)) < 2 ==> spec_lex_from(s, i, line) == prepend(
            seq![spec_token(TokenType::NUMBER, s.subrange(i, number_run_end(s, i)))],
            spec_lex_from(s, number_run_end(s, i), line),
        ),
{
}

pub proof fn lemma_lex_step_string(s: Seq<char>, i: int, line: int)
    requires
        0 <= i < s.len(),
        punct_token_type(s[i]) is None,
        s[i] != '<' && s[i] != '>' && s[i] != '_' && s[i] != '\n',
        !is_letter(s[i]),
        !is_digit_char(s[i]),
        s[i] == '"',
    ensures
        find_quote(s, i + 1) matches Some(j) ==> spec_lex_from(s, i, line) == prepend(
            seq![spec_token(TokenType::STRING, s.subrange(i + 1, j))],
            spec_lex_from(s, j + 1, line + newlines_in(s, i + 1, j)),
        ),
        find_quote(s, i + 1) is None ==> spec_lex_from(s, i, line) == Err::<
            Seq<SpecToken>,
            SpecLexError,
        >(
            (SpecLexError {
                kind: LexErrorKind::UnterminatedString,
                line: line + newlines_in(s, i + 1, s.len() as int),
            }),
        ),
{
}

pub proof fn lemma_lex_step_skip(s: Seq<char>, i: int, line: int)
    requires
        0 <= i < s.len(),
        punct_token_type(s[i]) is None,
        s[i] != '<' && s[i] != '>' && s[i] != '_' && s[i] != '\n',
        !is_letter(s[i]),
        !is_digit_char(s[i]),
        s[i] != '"',
    ensures
        spec_lex_from(s, i, line) == spec_lex_from(s, i + 1, line),
{
}

pub proof fn lemma_lex_end(s: Seq<char>, i: int, line: int)
    requires
        i >= s.len(),
    ensures
        spec_lex_from(s, i, line) == Ok::<Seq<SpecToken>, SpecLexError>(Seq::empty()),
{
}

pub proof fn lemma_find_quote_bounds(s: Seq<char>, i: int)
    ensures
        match find_quote(s, i) {
            Some(j) => i <= j < s.len() && s[j] == '"',
            None => true,
        },
    decreases s.len() - i,
{
    if 0 <= i && i < s.len() && s[i] != '"' {
        lemma_find_quote_bounds(s, i + 1);
    }
}

/// Law: no two entries of the keyword table share a spelling, so the
/// identifier-matching rule can never be ambiguous.
pub proof fn lemma_keyword_table_unambiguous()
    ensures
        forall|p: int, q: int|
            0 <= p < q < keyword_count() ==> (#[trigger] keyword_entry(p)).1 != (
            #[trigger] keyword_entry(q)).1,
{
    reveal_strlit("ET");
    reveal_strlit("CAS");
    reveal_strlit("AUTRE");
    reveal_strlit("FAIRE");
    reveal_strlit("SINON");
    reveal_strlit("FIN");
    reveal_strlit("POUR");
    reveal_strlit("SI");
    reveal_strlit("OU");
    reveal_strlit("NON");
    reveal_strlit("LIRE");
    reveal_strlit("TYPE");
    reveal_strlit("TANTQUE");
    reveal_strlit("ECRIRE");
    reveal_strlit("bool");
    reveal_strlit("entier");
    reveal_strlit("réel");
    reveal_strlit("chaine");
    reveal_strlit("Constantes");
    reveal_strlit("Variables");
    assert("ET"@.len() == 2 && "ET"@[0] == 'E');
    assert("CAS"@.len() == 3 && "CAS"@[0] == 'C');
    assert("AUTRE"@.len() == 5 && "AUTRE"@[0] == 'A');
    assert("FAIRE"@.len() == 5 && "FAIRE"@[0] == 'F');
    assert("SINON"@.len() == 5 && "SINON"@[0] == 'S');
    assert("FIN"@.len() == 3 && "FIN"@[0] == 'F');
    assert("POUR"@.len() == 4 && "POUR"@[0] == 'P');
    assert("SI"@.len() == 2 && "SI"@[0] == 'S');
    assert("OU"@.len() == 2 && "OU"@[0] == 'O');
    assert("NON"@.len() == 3 && "NON"@[0] == 'N');
    assert("LIRE"@.len() == 4 && "LIRE"@[0] == 'L');
    assert("TYPE"@.len() == 4 && "TYPE"@[0] == 'T');
    assert("TANTQUE"@.len() == 7 && "TANTQUE"@[0] == 'T');
    assert("ECRIRE"@.len() == 6 && "ECRIRE"@[0] == 'E');
    assert("bool"@.len() == 4 && "bool"@[0] == 'b');
    assert("entier"@.len() == 6 && "entier"@[0] == 'e');
    assert("réel"@.len() == 4 && "réel"@[0] == 'r');
    assert("chaine"@.len() == 6 && "chaine"@[0] == 'c');
    assert("Constantes"@.len() == 10 && "Constantes"@[0] == 'C');
    assert("Variables"@.len() == 9 && "Variables"@[0] == 'V');
}

proof fn lemma_keyword_lookup_skip(text: Seq<char>, j: int, k: int)
    requires
        0 <= j <= k < keyword_count(),
        keyword_entry(k).1 == text,
        forall|p: int| j <= p < k ==> (#[trigger] keyword_entry(p)).1 != text,
    ensures
        keyword_lookup_from(text, j) == Some(keyword_entry(k).0),
    decreases k - j,
{
    if j < k {
        lemma_keyword_lookup_skip(text, j + 1, k);
    }
}

/// Law: a reverse lookup by an entry's spelling yields exactly that entry's
/// key — each spelling resolves to one token type and no other.
pub proof fn lemma_keyword_lookup_exact(k: int)
    requires
        0 <= k < keyword_count(),
    ensures
        spec_keyword_type(keyword_entry(k).1) == Some(keyword_entry(k).0),
{
    lemma_keyword_table_unambiguous();
    lemma_keyword_lookup_skip(keyword_entry(k).1, 0, k);
}

/// Law: a source of one single character that is punctuation or a
/// one-character operator yields exactly one token, of the matching type,
/// whose content is that character.
pub proof fn lemma_single_char_token(c: char)
    requires
        punct_token_type(c) is Some,
    ensures
        spec_lex(seq![c]) == Ok::<Seq<SpecToken>, SpecLexError>(
            seq![spec_token(punct_token_type(c)->Some_0, seq![c])],
        ),
{
    let s = seq![c];
    lemma_lex_step_punct(s, 0, 1);
    lemma_lex_end(s, 1, 1);
    assert(s.subrange(0, 1) =~= s);
    assert(seq![spec_token(punct_token_type(c)->Some_0, s)] + Seq::<SpecToken>::empty()
        =~= seq![spec_token(punct_token_type(c)->Some_0, s)]);
}

/// Law: a fatal error is tagged with the line that the newlines scanned
/// before the failure point dictate — some prefix of the remaining input,
/// holding N newlines, puts the error on line `line + N`.
pub proof fn lemma_error_line_from(s: Seq<char>, i: int, line: int)
    requires
        0 <= i <= s.len(),
        spec_lex_from(s, i, line) is Err,
    ensures
        exists|p: int|
            i <= p <= s.len() && spec_lex_from(s, i, line)->Err_0.line == line + (
            #[trigger] newlines_in(s, i, p)),
    decreases s.len() - i,
{
    if i == s.len() {
        lemma_lex_end(s, i, line);
    } else {
        let c = s[i];
        if punct_token_type(c) is Some {
            lemma_lex_step_punct(s, i, line);
            lemma_error_line_from(s, i + 1, line);
            let p = choose|p: int|
                i + 1 <= p <= s.len() && spec_lex_from(s, i + 1, line)->Err_0.line == line + (
                #[trigger] newlines_in(s, i + 1, p));
            lemma_newlines_in_concat(s, i, i + 1, p);
            lemma_newlines_in_single(s, i);
            assert(spec_lex_from(s, i, line)->Err_0.line == line + newlines_in(s, i, p));
        } else if c == '<' || c == '>' {
            if c == '<' {
                lemma_lex_step_less(s, i, line);
            } else {
                lemma_lex_step_greater(s, i, line);
            }
            let step: int = if i + 2 <= s.len() && (s[i + 1] == '=' || (c == '<' && s[i + 1]
                == '-')) {
                2
            } else {
                1
            };
            lemma_error_line_from(s, i + step, line);
            let p = choose|p: int|
                i + step <= p <= s.len() && spec_lex_from(s, i + step, line)->Err_0.line == line + (
                #[trigger] newlines_in(s, i + step, p));
            lemma_newlines_in_concat(s, i, i + step, p);
            lemma_newlines_in_single(s, i);
            if step == 2 {
                lemma_newlines_in_single(s, i + 1);
                lemma_newlines_in_concat(s, i, i + 1, i + 2);
            }
            assert(newlines_in(s, i, i + step) == 0);
            assert(spec_lex_from(s, i, line)->Err_0.line == line + newlines_in(s, i, p));
        } else if c == '_' {
            lemma_lex_step_underscore(s, i, line);
            lemma_underscore_run_end_bounds(s, i + 1);
            let next: int = if underscore_run_end(s, i) - i >= 5 {
                underscore_run_end(s, i)
            } else {
                i + 1
            };
            lemma_error_line_from(s, next, line);
            let p = choose|p: int|
                next <= p <= s.len() && spec_lex_from(s, next, line)->Err_0.line == line + (
                #[trigger] newlines_in(s, next, p));
            lemma_underscore_run_no_newline(s, i);
            lemma_newlines_in_concat(s, i, next, p);
            lemma_newlines_in_single(s, i);
            assert(spec_lex_from(s, i, line)->Err_0.line == line + newlines_in(s, i, p));
        } else if c == '\n' {
            lemma_lex_step_newline(s, i, line);
            lemma_error_line_from(s, i + 1, line + 1);
            let p = choose|p: int|
                i + 1 <= p <= s.len() && spec_lex_from(s, i + 1, line + 1)->Err_0.line == line + 1
                    + (#[trigger] newlines_in(s, i + 1, p));
            lemma_newlines_in_concat(s, i, i + 1, p);
            lemma_newlines_in_single(s, i);
            assert(spec_lex_from(s, i, line)->Err_0.line == line + newlines_in(s, i, p));
        } else if is_letter(c) {
            lemma_lex_step_letter(s, i, line);
            lemma_letter_run_end_bounds(s, i + 1);
            let next = letter_run_end(s, i);
            lemma_error_line_from(s, next, line);
            let p = choose|p: int|
                next <= p <= s.len() && spec_lex_from(s, next, line)->Err_0.line == line + (
                #[trigger] newlines_in(s, next, p));
            lemma_letter_run_no_newline(s, i);
            lemma_newlines_in_concat(s, i, next, p);
            assert(spec_lex_from(s, i, line)->Err_0.line == line + newlines_in(s, i, p));
        } else if is_digit_char(c) {
            lemma_lex_step_number(s, i, line);
            if dots_in(s, i, number_run_end(s, i)) >= 2 {
                assert(newlines_in(s, i, i) == 0);
                assert(spec_lex_from(s, i, line)->Err_0.line == line + newlines_in(s, i, i));
            } else {
                lemma_number_run_end_bounds(s, i + 1);
                let next = number_run_end(s, i);
                lemma_error_line_from(s, next, line);
                let p = choose|p: int|
                    next <= p <= s.len() && spec_lex_from(s, next, line)->Err_0.line == line + (
                    #[trigger] newlines_in(s, next, p));
                lemma_number_run_no_newline(s, i);
                lemma_newlines_in_concat(s, i, next, p);
                assert(spec_lex_from(s, i, line)->Err_0.line == line + newlines_in(s, i, p));
            }
        } else if c == '"' {
            lemma_lex_step_string(s, i, line);
            lemma_find_quote_bounds(s, i + 1);
            match find_quote(s, i + 1) {
                Some(j) => {
                    let l2 = line + newlines_in(s, i + 1, j);
                    lemma_error_line_from(s, j + 1, l2);
                    let p = choose|p: int|
                        j + 1 <= p <= s.len() && spec_lex_from(s, j + 1, l2)->Err_0.line == l2 + (
                        #[trigger] newlines_in(s, j + 1, p));
                    lemma_newlines_in_concat(s, i + 1, j, j + 1);
                    lemma_newlines_in_concat(s, i, i + 1, j + 1);
                    lemma_newlines_in_concat(s, i, j + 1, p);
                    lemma_newlines_in_single(s, i);
                    lemma_newlines_in_single(s, j);
                    assert(spec_lex_from(s, i, line)->Err_0.line == line + newlines_in(s, i, p));
                },
                None => {
                    lemma_newlines_in_concat(s, i, i + 1, s.len() as int);
                    lemma_newlines_in_single(s, i);
                    assert(spec_lex_from(s, i, line)->Err_0.line == line + newlines_in(
                        s,
                        i,
                        s.len() as int,
                    ));
                },
            }
        } else {
            lemma_lex_step_skip(s, i, line);
            lemma_error_line_from(s, i + 1, line);
            let p = choose|p: int|
                i + 1 <= p <= s.len() && spec_lex_from(s, i + 1, line)->Err_0.line == line + (
                #[trigger] newlines_in(s, i + 1, p));
            lemma_newlines_in_concat(s, i, i + 1, p);
            assert(newlines_in(s, i, i + 1) == 0);
            assert(spec_lex_from(s, i, line)->Err_0.line == line + newlines_in(s, i, p));
        }
    }
}

/// Law: line tracking. Newlines scanned before the failure point — inside
/// string literals and outside alike — each raise the reported line by one:
/// an error after a prefix holding N newlines is tagged line N + 1.
pub proof fn lemma_error_line_tracks_newlines(s: Seq<char>)
    requires
        spec_lex(s) is Err,
    ensures
        exists|p: int|
            0 <= p <= s.len() && spec_lex(s)->Err_0.line == 1 + (#[trigger] newlines_in(s, 0, p)),
{
    lemma_error_line_from(s, 0, 1);
}

} // verus!
