use vstd::prelude::*;

verus! {

/// The closed classification a token carries. Five families: punctuation,
/// arithmetic and relational operators, keywords, type names, and the
/// literal/identifier/structural kinds.
#[allow(non_camel_case_types)]
#[derive(Debug, Hash, PartialEq, Eq, Clone, Copy, Structural)]
pub enum TokenType {
    COMMA,
    COLON,
    EQUALS,
    LEFT_PARENTHESIS,
    RIGHT_PARENTHESIS,
    // Operators
    OP_PLUS,
    OP_MINUS,
    OP_STAR,
    OP_DIVIDE,
    OP_ASSIGN,
    OP_LESS_THAN_OR_EQUAL,
    OP_LESS_THAN,
    OP_GREATER_THAN_OR_EQUAL,
    OP_GREATER_THAN,
    // Keywords
    KW_AND,
    KW_CASE,
    KW_DO,
    KW_DEFAULT,
    KW_ELSE,
    KW_END,
    KW_FOR,
    KW_IF,
    KW_NOT,
    KW_OR,
    KW_READ,
    KW_TYPE,
    KW_WHILE,
    KW_WRITE,
    // Types
    TY_INT,
    TY_REAL,
    TY_STRING,
    TY_BOOL,
    // Declaration-section headers
    DEF_TY_VARIABLES,
    DEF_TY_CONSTANTS,
    IDENTIFIER,
    NUMBER,
    STRING,
    PROGRAM_SEPARATOR,
}

/// One classified unit of source text: its kind and the exact source slice
/// that produced it (for a string literal, the body without the quotes).
#[derive(Debug)]
pub struct Token {
    pub content: String,
    pub token_type: TokenType,
}

/// The mathematical value of a `Token`: its kind and its text as a `Seq<char>`.
pub ghost struct SpecToken {
    pub token_type: TokenType,
    pub content: Seq<char>,
}

impl View for Token {
    type V = SpecToken;

    open spec fn view(&self) -> SpecToken {
        SpecToken { token_type: self.token_type, content: self.content@ }
    }
}

/// The two fatal lexical faults: a numeric run holding two or more dots, and a
/// string literal that reaches end of input without its closing quote.
#[derive(Debug, PartialEq, Eq, Clone, Copy, Structural)]
pub enum LexErrorKind {
    MalformedNumber,
    UnterminatedString,
}

/// A fatal lexical error, tagged with the 1-based source line it was raised on.
/// The pass stops at the first such error and returns no token sequence.
#[derive(Debug, PartialEq, Eq, Clone, Copy, Structural)]
pub struct LexError {
    pub kind: LexErrorKind,
    pub line: u128,
}

/// The mathematical value of a `LexError`.
pub ghost struct SpecLexError {
    pub kind: LexErrorKind,
    pub line: int,
}

impl View for LexError {
    type V = SpecLexError;

    open spec fn view(&self) -> SpecLexError {
        SpecLexError { kind: self.kind, line: self.line as int }
    }
}

impl LexErrorKind {
    /// A short human-readable description of the fault.
    pub fn description(&self) -> (r: String)
        ensures
            self is MalformedNumber ==> r@ == "Number contains more than one dot"@,
            self is UnterminatedString ==> r@ == "String is unterminated"@,
    {
        match self {
            LexErrorKind::MalformedNumber => String::from_str("Number contains more than one dot"),
            LexErrorKind::UnterminatedString => String::from_str("String is unterminated"),
        }
    }
}

/// The one operation the syntax-tree builder knows of.
#[allow(non_camel_case_types)]
#[derive(Debug)]
pub enum OperationType {
    SYMBOL_DECLARATION,
}

/// A node of the (not yet constructed) syntax tree.
#[derive(Debug)]
pub struct TreeNode {
    pub operation_type: OperationType,
    pub children: Vec<TreeNode>,
}

/// The syntax tree the parser will eventually build.
#[derive(Debug)]
pub struct SyntaxTree {
    pub nodes: Vec<TreeNode>,
}

} // verus!
