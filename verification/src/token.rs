//! Token data: token categories, literal payloads, tokens, and the
//! diagnostics a scan can report.

use vstd::prelude::*;

verus! {

/// The closed set of lexeme categories.
#[derive(Clone, Copy, Debug, PartialEq, Eq, Structural)]
pub enum TokenType {
    // Single-character tokens.
    LeftParen,
    RightParen,
    LeftBrace,
    RightBrace,
    Comma,
    Dot,
    Minus,
    Plus,
    Semicolon,
    Slash,
    Star,
    // One or two character tokens.
    Bang,
    BangEqual,
    Equal,
    EqualEqual,
    Greater,
    GreaterEqual,
    Less,
    LessEqual,
    // Literals.
    Identifier,
    Str,
    Number,
    // Keywords.
    And,
    Class,
    Else,
    False,
    Fun,
    For,
    If,
    Nil,
    Or,
    Print,
    Return,
    Super,
    This,
    True,
    Var,
    While,
    Eof,
}

/// Typed payload attached to `Number` and `Str` tokens.  A number keeps the
/// exact decimal text it was scanned from (digits, with an optional fraction);
/// a string keeps its content with the surrounding quotes stripped.
#[derive(Clone, Debug, PartialEq, Eq)]
pub enum Literal {
    Number(Vec<char>),
    Str(Vec<char>),
    Bool(bool),
    Nil,
}

/// Mathematical value of a `Literal`.
pub ghost enum SpecLiteral {
    Number(Seq<char>),
    Str(Seq<char>),
    Bool(bool),
    Nil,
}

impl View for Literal {
    type V = SpecLiteral;

    open spec fn view(&self) -> SpecLiteral {
        match self {
            Literal::Number(digits) => SpecLiteral::Number(digits@),
            Literal::Str(content) => SpecLiteral::Str(content@),
            Literal::Bool(b) => SpecLiteral::Bool(*b),
            Literal::Nil => SpecLiteral::Nil,
        }
    }
}

/// Mathematical value of an `Option<Literal>`.
pub open spec fn literal_option_view(l: Option<Literal>) -> Option<SpecLiteral> {
    match l {
        Some(lit) => Some(lit@),
        None => None,
    }
}

/// One scanned token: its category, the exact source text it matched,
/// its payload (for literal tokens), and the line it started on.
#[derive(Clone, Debug, PartialEq, Eq)]
pub struct Token {
    pub token_type: TokenType,
    pub lexeme: Vec<char>,
    pub literal: Option<Literal>,
    pub line: u32,
}

/// Mathematical value of a `Token`.
pub ghost struct SpecToken {
    pub token_type: TokenType,
    pub lexeme: Seq<char>,
    pub literal: Option<SpecLiteral>,
    pub line: int,
}

impl View for Token {
    type V = SpecToken;

    open spec fn view(&self) -> SpecToken {
        SpecToken {
            token_type: self.token_type,
            lexeme: self.lexeme@,
            literal: literal_option_view(self.literal),
            line: self.line as int,
        }
    }
}

impl Token {
    pub fn new(token_type: TokenType, lexeme: Vec<char>, literal: Option<Literal>, line: u32) -> (t: Token)
        ensures
            t@ == (SpecToken {
                token_type,
                lexeme: lexeme@,
                literal: literal_option_view(literal),
                line: line as int,
            }),
    {
        Token { token_type, lexeme, literal, line }
    }
}

/// The kinds of malformed input a scan can report.  All are recoverable:
/// the scan continues past each occurrence.
#[derive(Clone, Copy, Debug, PartialEq, Eq, Structural)]
pub enum ErrorKind {
    UnterminatedString,
    UnrecognizedCharacter,
    MalformedNumberLiteral,
}

/// One malformed-input report, tied to the line it was detected on
/// (for an unterminated string, the line the string began on).
#[derive(Clone, Copy, Debug, PartialEq, Eq)]
pub struct Diagnostic {
    pub kind: ErrorKind,
    pub line: u32,
}

/// Mathematical value of a `Diagnostic`.
pub ghost struct SpecDiagnostic {
    pub kind: ErrorKind,
    pub line: int,
}

impl View for Diagnostic {
    type V = SpecDiagnostic;

    open spec fn view(&self) -> SpecDiagnostic {
        SpecDiagnostic { kind: self.kind, line: self.line as int }
    }
}

/// Mathematical value of a sequence of tokens.
pub open spec fn tokens_view(ts: Seq<Token>) -> Seq<SpecToken> {
    ts.map_values(|t: Token| t@)
}

/// Mathematical value of a sequence of diagnostics.
pub open spec fn diags_view(ds: Seq<Diagnostic>) -> Seq<SpecDiagnostic> {
    ds.map_values(|d: Diagnostic| d@)
}

/// Appending one token appends its value.
pub proof fn lemma_tokens_view_push(ts: Seq<Token>, t: Token)
    ensures
        tokens_view(ts.push(t)) == tokens_view(ts).push(t@),
{
    assert(tokens_view(ts.push(t)) =~= tokens_view(ts).push(t@));
}

/// Appending one diagnostic appends its value.
pub proof fn lemma_diags_view_push(ds: Seq<Diagnostic>, d: Diagnostic)
    ensures
        diags_view(ds.push(d)) == diags_view(ds).push(d@),
{
    assert(diags_view(ds.push(d)) =~= diags_view(ds).push(d@));
}

/// One diagnostic report recorded by a `Lox` session: a line number and a
/// human-readable message.
pub struct Report {
    pub line: u32,
    pub message: String,
}

} // verus!
