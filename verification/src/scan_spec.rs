//! Mathematical model of the scan: character classes, lexeme-boundary
//! helpers, and a recursive specification of the whole token stream.

use vstd::prelude::*;

verus! {

use crate::token::ErrorKind;
use crate::token::SpecDiagnostic;
use crate::token::SpecLiteral;
use crate::token::SpecToken;
use crate::token::TokenType;

/// Whitespace that is skipped without effect (newline is handled separately,
/// since it advances the line count).
pub open spec fn is_blank_char(c: char) -> bool {
    c == ' ' || c == '\r' || c == '\t'
}

/// ASCII decimal digit.
pub open spec fn is_ascii_digit(c: char) -> bool {
    ('0' as u32) <= (c as u32) && (c as u32) <= ('9' as u32)
}

/// ASCII letter.
pub open spec fn is_ascii_alpha(c: char) -> bool {
    ((('a' as u32) <= (c as u32) && (c as u32) <= ('z' as u32)) || (('A' as u32) <= (c as u32)
        && (c as u32) <= ('Z' as u32)))
}

/// A character that may begin an identifier.
pub open spec fn is_ident_start(c: char) -> bool {
    is_ascii_alpha(c) || c == '_'
}

/// A character that may continue an identifier: ASCII alphanumeric.
pub open spec fn is_ident_cont(c: char) -> bool {
    is_ascii_alpha(c) || is_ascii_digit(c)
}

/// End of the maximal run of ASCII digits beginning at `i`.
pub open spec fn digit_run_end(src: Seq<char>, i: int) -> int
    decreases src.len() - i
        when 0 <= i <= src.len()
{
    if i >= src.len() {
        i
    } else if is_ascii_digit(src[i]) {
        digit_run_end(src, i + 1)
    } else {
        i
    }
}

/// End of the maximal run of identifier-continuation characters beginning at `i`.
pub open spec fn ident_run_end(src: Seq<char>, i: int) -> int
    decreases src.len() - i
        when 0 <= i <= src.len()
{
    if i >= src.len() {
        i
    } else if is_ident_cont(src[i]) {
        ident_run_end(src, i + 1)
    } else {
        i
    }
}

/// Position of the first occurrence of `c` at or after `i`, or the length of
/// the source when there is none.
pub open spec fn find_char(src: Seq<char>, i: int, c: char) -> int
    decreases src.len() - i
        when 0 <= i <= src.len()
{
    if i >= src.len() {
        i
    } else if src[i] == c {
        i
    } else {
        find_char(src, i + 1, c)
    }
}

/// Number of newline characters in `src[i .. j]`.
pub open spec fn newline_count(src: Seq<char>, i: int, j: int) -> int
    decreases j - i
        when 0 <= i <= j <= src.len()
{
    if j <= i {
        0
    } else {
        newline_count(src, i, j - 1) + if src[j - 1] == '\n' {
            1int
        } else {
            0int
        }
    }
}

/// The category of a punctuation mark that forms a token on its own, with no
/// look-ahead (`/` is excluded: it may begin a comment).
pub open spec fn single_char_type(c: char) -> Option<TokenType> {
    if c == '(' {
        Some(TokenType::LeftParen)
    } else if c == ')' {
        Some(TokenType::RightParen)
    } else if c == '{' {
        Some(TokenType::LeftBrace)
    } else if c == '}' {
        Some(TokenType::RightBrace)
    } else if c == ',' {
        Some(TokenType::Comma)
    } else if c == '.' {
        Some(TokenType::Dot)
    } else if c == '-' {
        Some(TokenType::Minus)
    } else if c == '+' {
        Some(TokenType::Plus)
    } else if c == ';' {
        Some(TokenType::Semicolon)
    } else if c == '*' {
        Some(TokenType::Star)
    } else {
        None
    }
}

/// Whether `c` begins a one-or-two-character operator.
pub open spec fn is_operator_start(c: char) -> bool {
    c == '!' || c == '=' || c == '<' || c == '>'
}

/// The one-character operator for `c`.
pub open spec fn operator_single_type(c: char) -> TokenType {
    if c == '!' {
        TokenType::Bang
    } else if c == '=' {
        TokenType::Equal
    } else if c == '<' {
        TokenType::Less
    } else {
        TokenType::Greater
    }
}

/// The two-character operator for `c` followed by `=`.
pub open spec fn operator_double_type(c: char) -> TokenType {
    if c == '!' {
        TokenType::BangEqual
    } else if c == '=' {
        TokenType::EqualEqual
    } else if c == '<' {
        TokenType::LessEqual
    } else {
        TokenType::GreaterEqual
    }
}

/// The keyword table: the token type reserved for `s`, if any.  Lookup is by
/// exact, case-sensitive spelling.
pub open spec fn keyword_type_of(s: Seq<char>) -> Option<TokenType> {
    if s == seq!['a', 'n', 'd'] {
        Some(TokenType::And)
    } else if s == seq!['c', 'l', 'a', 's', 's'] {
        Some(TokenType::Class)
    } else if s == seq!['e', 'l', 's', 'e'] {
        Some(TokenType::Else)
    } else if s == seq!['f', 'a', 'l', 's', 'e'] {
        Some(TokenType::False)
    } else if s == seq!['f', 'o', 'r'] {
        Some(TokenType::For)
    } else if s == seq!['f', 'u', 'n'] {
        Some(TokenType::Fun)
    } else if s == seq!['i', 'f'] {
        Some(TokenType::If)
    } else if s == seq!['n', 'i', 'l'] {
        Some(TokenType::Nil)
    } else if s == seq!['o', 'r'] {
        Some(TokenType::Or)
    } else if s == seq!['p', 'r', 'i', 'n', 't'] {
        Some(TokenType::Print)
    } else if s == seq!['r', 'e', 't', 'u', 'r', 'n'] {
        Some(TokenType::Return)
    } else if s == seq!['s', 'u', 'p', 'e', 'r'] {
        Some(TokenType::Super)
    } else if s == seq!['t', 'h', 'i', 's'] {
        Some(TokenType::This)
    } else if s == seq!['t', 'r', 'u', 'e'] {
        Some(TokenType::True)
    } else if s == seq!['v', 'a', 'r'] {
        Some(TokenType::Var)
    } else if s == seq!['w', 'h', 'i', 'l', 'e'] {
        Some(TokenType::While)
    } else {
        None
    }
}

/// A token without payload whose lexeme is `src[i .. j]`.
pub open spec fn plain_token(ty: TokenType, src: Seq<char>, i: int, j: int, line: int) -> SpecToken {
    SpecToken { token_type: ty, lexeme: src.subrange(i, j), literal: None, line }
}

/// The end-of-input token: empty lexeme, no payload.
pub open spec fn eof_token(line: int) -> SpecToken {
    SpecToken { token_type: TokenType::Eof, lexeme: Seq::empty(), literal: None, line }
}

/// Effect of scanning one lexeme: where the cursor and line counter move,
/// and which token or diagnostic (at most one of each) is produced.
pub ghost struct StepResult {
    pub next: int,
    pub next_line: int,
    pub tokens: Seq<SpecToken>,
    pub diags: Seq<SpecDiagnostic>,
}

/// A step that only moves the cursor.
pub open spec fn skip_step(next: int, next_line: int) -> StepResult {
    StepResult { next, next_line, tokens: seq![], diags: seq![] }
}

/// A step that produces one token.
pub open spec fn token_step(next: int, next_line: int, t: SpecToken) -> StepResult {
    StepResult { next, next_line, tokens: seq![t], diags: seq![] }
}

/// A step that produces one diagnostic.
pub open spec fn diag_step(next: int, next_line: int, kind: ErrorKind, line: int) -> StepResult {
    StepResult { next, next_line, tokens: seq![], diags: seq![SpecDiagnostic { kind, line }] }
}

/// One scanning step at position `i` (which must be in range) on line `line`:
/// classifies `src[i]` and consumes exactly one lexeme, comment, or
/// whitespace character, applying maximal munch where two lengths could match.
pub open spec fn scan_step(src: Seq<char>, i: int, line: int) -> StepResult
    recommends
        0 <= i < src.len(),
{
    let c = src[i];
    if single_char_type(c) is Some {
        token_step(i + 1, line, plain_token(single_char_type(c).unwrap(), src, i, i + 1, line))
    } else if is_operator_start(c) {
        if i + 1 < src.len() && src[i + 1] == '=' {
            token_step(i + 2, line, plain_token(operator_double_type(c), src, i, i + 2, line))
        } else {
            token_step(i + 1, line, plain_token(operator_single_type(c), src, i, i + 1, line))
        }
    } else if c == '/' {
        if i + 1 < src.len() && src[i + 1] == '/' {
            // A comment runs to the next newline (exclusive) or to end of input.
            skip_step(find_char(src, i + 2, '\n'), line)
        } else {
            token_step(i + 1, line, plain_token(TokenType::Slash, src, i, i + 1, line))
        }
    } else if is_blank_char(c) {
        skip_step(i + 1, line)
    } else if c == '\n' {
        skip_step(i + 1, line + 1)
    } else if c == '"' {
        let close = find_char(src, i + 1, '"');
        if close >= src.len() {
            // Unterminated: reported against the line the string began on;
            // newlines inside still advance the line counter.
            diag_step(
                src.len() as int,
                line + newline_count(src, i + 1, src.len() as int),
                ErrorKind::UnterminatedString,
                line,
            )
        } else {
            token_step(
                close + 1,
                line + newline_count(src, i + 1, close),
                SpecToken {
                    token_type: TokenType::Str,
                    lexeme: src.subrange(i, close + 1),
                    literal: Some(SpecLiteral::Str(src.subrange(i + 1, close))),
                    line,
                },
            )
        }
    } else if is_ascii_digit(c) {
        let j = digit_run_end(src, i);
        let k = if j < src.len() && src[j] == '.' && j + 1 < src.len() && is_ascii_digit(
            src[j + 1],
        ) {
            digit_run_end(src, j + 1)
        } else {
            j
        };
        token_step(
            k,
            line,
            SpecToken {
                token_type: TokenType::Number,
                lexeme: src.subrange(i, k),
                literal: Some(SpecLiteral::Number(src.subrange(i, k))),
                line,
            },
        )
    } else if is_ident_start(c) {
        let j = ident_run_end(src, i + 1);
        let lexeme = src.subrange(i, j);
        let ty = if keyword_type_of(lexeme) is Some {
            keyword_type_of(lexeme).unwrap()
        } else {
            TokenType::Identifier
        };
        token_step(j, line, SpecToken { token_type: ty, lexeme, literal: None, line })
    } else {
        diag_step(i + 1, line, ErrorKind::UnrecognizedCharacter, line)
    }
}

/// Everything a scan produces: the ordered tokens and the diagnostics, in
/// the order they were encountered.
pub ghost struct ScanOutput {
    pub tokens: Seq<SpecToken>,
    pub diags: Seq<SpecDiagnostic>,
}

/// The token stream and diagnostics of scanning from position `i` on line
/// `line` to the end of the input.  The stream always ends with exactly one
/// end-of-input token carrying the line the scan ended on.
pub open spec fn scan_from(src: Seq<char>, i: int, line: int) -> ScanOutput
    decreases src.len() - i
        when 0 <= i <= src.len()
        via scan_from_decreases
{
    if i >= src.len() {
        ScanOutput { tokens: seq![eof_token(line)], diags: seq![] }
    } else {
        let st = scan_step(src, i, line);
        let rest = scan_from(src, st.next, st.next_line);
        ScanOutput { tokens: st.tokens + rest.tokens, diags: st.diags + rest.diags }
    }
}

#[via_fn]
proof fn scan_from_decreases(src: Seq<char>, i: int, line: int) {
    if i < src.len() {
        lemma_scan_step_bounds(src, i, line);
    }
}

/// The whole scan: from the start of the source, on line 1.
pub open spec fn scan_spec(src: Seq<char>) -> ScanOutput {
    scan_from(src, 0, 1)
}

/// `digit_run_end` stays in range, covers only digits, and stops at the
/// first non-digit.
pub proof fn lemma_digit_run_end(src: Seq<char>, i: int)
    requires
        0 <= i <= src.len(),
    ensures
        i <= digit_run_end(src, i) <= src.len(),
        forall|k: int| i <= k < digit_run_end(src, i) ==> is_ascii_digit(src[k]),
        digit_run_end(src, i) < src.len() ==> !is_ascii_digit(src[digit_run_end(src, i)]),
    decreases src.len() - i,
{
    if i < src.len() && is_ascii_digit(src[i]) {
        lemma_digit_run_end(src, i + 1);
    }
}

/// `ident_run_end` stays in range, covers only identifier characters, and
/// stops at the first character that cannot continue an identifier.
pub proof fn lemma_ident_run_end(src: Seq<char>, i: int)
    requires
        0 <= i <= src.len(),
    ensures
        i <= ident_run_end(src, i) <= src.len(),
        forall|k: int| i <= k < ident_run_end(src, i) ==> is_ident_cont(src[k]),
        ident_run_end(src, i) < src.len() ==> !is_ident_cont(src[ident_run_end(src, i)]),
    decreases src.len() - i,
{
    if i < src.len() && is_ident_cont(src[i]) {
        lemma_ident_run_end(src, i + 1);
    }
}

/// `find_char` stays in range, skips no occurrence, and lands on one when
/// there is one.
pub proof fn lemma_find_char(src: Seq<char>, i: int, c: char)
    requires
        0 <= i <= src.len(),
    ensures
        i <= find_char(src, i, c) <= src.len(),
        forall|k: int| i <= k < find_char(src, i, c) ==> src[k] != c,
        find_char(src, i, c) < src.len() ==> src[find_char(src, i, c)] == c,
    decreases src.len() - i,
{
    if i < src.len() && src[i] != c {
        lemma_find_char(src, i + 1, c);
    }
}

/// The newline count of a range is between 0 and the range's width.
pub proof fn lemma_newline_count_bounds(src: Seq<char>, i: int, j: int)
    requires
        0 <= i <= j <= src.len(),
    ensures
        0 <= newline_count(src, i, j) <= j - i,
    decreases j - i,
{
    if i < j {
        lemma_newline_count_bounds(src, i, j - 1);
    }
}

/// A range without newline characters counts zero newlines.
pub proof fn lemma_newline_count_zero(src: Seq<char>, i: int, j: int)
    requires
        0 <= i <= j <= src.len(),
        forall|k: int| i <= k < j ==> src[k] != '\n',
    ensures
        newline_count(src, i, j) == 0,
    decreases j - i,
{
    if i < j {
        lemma_newline_count_zero(src, i, j - 1);
    }
}

/// `find_char` finds exactly the known first occurrence.
pub proof fn lemma_find_char_at(src: Seq<char>, i: int, j: int, c: char)
    requires
        0 <= i <= j <= src.len(),
        forall|k: int| i <= k < j ==> src[k] != c,
        j == src.len() || src[j] == c,
    ensures
        find_char(src, i, c) == j,
    decreases j - i,
{
    if i < j {
        lemma_find_char_at(src, i + 1, j, c);
    }
}

/// `digit_run_end` ends exactly where the digits are known to end.
pub proof fn lemma_digit_run_exact(src: Seq<char>, i: int, j: int)
    requires
        0 <= i <= j <= src.len(),
        forall|k: int| i <= k < j ==> is_ascii_digit(src[k]),
        j == src.len() || !is_ascii_digit(src[j]),
    ensures
        digit_run_end(src, i) == j,
    decreases j - i,
{
    if i < j {
        lemma_digit_run_exact(src, i + 1, j);
    }
}

/// `ident_run_end` ends exactly where the identifier characters are known to end.
pub proof fn lemma_ident_run_exact(src: Seq<char>, i: int, j: int)
    requires
        0 <= i <= j <= src.len(),
        forall|k: int| i <= k < j ==> is_ident_cont(src[k]),
        j == src.len() || !is_ident_cont(src[j]),
    ensures
        ident_run_end(src, i) == j,
    decreases j - i,
{
    if i < j {
        lemma_ident_run_exact(src, i + 1, j);
    }
}

/// Every step moves the cursor forward, stays within the input, and advances
/// the line counter by at most one per character consumed.
pub proof fn lemma_scan_step_bounds(src: Seq<char>, i: int, line: int)
    requires
        0 <= i < src.len(),
    ensures
        i < scan_step(src, i, line).next <= src.len(),
        line <= scan_step(src, i, line).next_line,
        scan_step(src, i, line).next_line - line <= scan_step(src, i, line).next - i,
{
    let c = src[i];
    if single_char_type(c) is Some || is_operator_start(c) || is_blank_char(c) || c == '\n' {
    } else if c == '/' {
        if i + 1 < src.len() && src[i + 1] == '/' {
            lemma_find_char(src, i + 2, '\n');
        }
    } else if c == '"' {
        lemma_find_char(src, i + 1, '"');
        let close = find_char(src, i + 1, '"');
        if close >= src.len() {
            lemma_newline_count_bounds(src, i + 1, src.len() as int);
        } else {
            lemma_newline_count_bounds(src, i + 1, close);
        }
    } else if is_ascii_digit(c) {
        lemma_digit_run_end(src, i);
        let j = digit_run_end(src, i);
        assert(digit_run_end(src, i) == digit_run_end(src, i + 1));
        if j < src.len() && src[j] == '.' && j + 1 < src.len() && is_ascii_digit(src[j + 1]) {
            lemma_digit_run_end(src, j + 1);
        }
    } else if is_ident_start(c) {
        lemma_ident_run_end(src, i + 1);
    }
}

} // verus!

