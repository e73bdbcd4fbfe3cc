//! The scanner: a single left-to-right pass over the source text, proved to
//! produce exactly the token stream and diagnostics of the model in
//! `scan_spec`.

use vstd::prelude::*;
use vstd::string::StrSliceExecFns;

verus! {

use crate::scan_spec::digit_run_end;
use crate::scan_spec::eof_token;
use crate::scan_spec::find_char;
use crate::scan_spec::ident_run_end;
use crate::scan_spec::is_ascii_digit;
use crate::scan_spec::is_ident_cont;
use crate::scan_spec::is_ident_start;
use crate::scan_spec::keyword_type_of;
use crate::scan_spec::lemma_digit_run_end;
use crate::scan_spec::lemma_find_char;
use crate::scan_spec::lemma_ident_run_end;
use crate::scan_spec::lemma_newline_count_bounds;
use crate::scan_spec::lemma_scan_step_bounds;
use crate::scan_spec::newline_count;
use crate::scan_spec::scan_from;
use crate::scan_spec::scan_spec;
use crate::scan_spec::scan_step;
use crate::token::Diagnostic;
use crate::token::ErrorKind;
use crate::token::SpecDiagnostic;
use crate::token::Literal;
use crate::token::SpecToken;
use crate::token::Token;
use crate::token::TokenType;
use crate::token::diags_view;
use crate::token::lemma_diags_view_push;
use crate::token::lemma_tokens_view_push;
use crate::token::tokens_view;

/// Whether `c` is an ASCII decimal digit.
pub fn is_digit_char(c: char) -> (b: bool)
    ensures
        b == is_ascii_digit(c),
{
    let u = c as u32;
    48 <= u && u <= 57
}

/// Whether `c` may continue an identifier (ASCII alphanumeric).
pub fn is_ident_cont_char(c: char) -> (b: bool)
    ensures
        b == is_ident_cont(c),
{
    let u = c as u32;
    (97 <= u && u <= 122) || (65 <= u && u <= 90) || (48 <= u && u <= 57)
}

/// Whether `c` may begin an identifier (ASCII letter or underscore).
pub fn is_ident_start_char(c: char) -> (b: bool)
    ensures
        b == is_ident_start(c),
{
    let u = c as u32;
    (97 <= u && u <= 122) || (65 <= u && u <= 90) || c == '_'
}

/// A copy of `v[a .. b]`.
fn copy_range(v: &Vec<char>, a: usize, b: usize) -> (r: Vec<char>)
    requires
        a <= b <= v@.len(),
    ensures
        r@ == v@.subrange(a as int, b as int),
{
    let mut r: Vec<char> = Vec::new();
    proof {
        assert(r@ =~= v@.subrange(a as int, a as int));
    }
    let mut k: usize = a;
    while k < b
        invariant
            a <= k <= b <= v@.len(),
            r@ == v@.subrange(a as int, k as int),
        decreases b - k,
    {
        r.push(v[k]);
        k = k + 1;
        proof {
            assert(v@.subrange(a as int, k as int) =~= v@.subrange(a as int, k - 1).push(
                v@[k - 1],
            ));
        }
    }
    r
}

/// The keyword table lookup: the reserved token type spelled exactly by
/// `lexeme`, if any.
pub fn keyword_type(lexeme: &Vec<char>) -> (r: Option<TokenType>)
    ensures
        r == keyword_type_of(lexeme@),
{
    let n: usize = lexeme.len();
    if n == 3 && lexeme[0] == 'a' && lexeme[1] == 'n' && lexeme[2] == 'd' {
        proof {
            assert(lexeme@ =~= seq!['a', 'n', 'd']);
        }
        return Some(TokenType::And);
    }
    if n == 5 && lexeme[0] == 'c' && lexeme[1] == 'l' && lexeme[2] == 'a' && lexeme[3] == 's'
        && lexeme[4] == 's' {
        proof {
            assert(lexeme@ =~= seq!['c', 'l', 'a', 's', 's']);
        }
        return Some(TokenType::Class);
    }
    if n == 4 && lexeme[0] == 'e' && lexeme[1] == 'l' && lexeme[2] == 's' && lexeme[3] == 'e' {
        proof {
            assert(lexeme@ =~= seq!['e', 'l', 's', 'e']);
        }
        return Some(TokenType::Else);
    }
    if n == 5 && lexeme[0] == 'f' && lexeme[1] == 'a' && lexeme[2] == 'l' && lexeme[3] == 's'
        && lexeme[4] == 'e' {
        proof {
            assert(lexeme@ =~= seq!['f', 'a', 'l', 's', 'e']);
        }
        return Some(TokenType::False);
    }
    if n == 3 && lexeme[0] == 'f' && lexeme[1] == 'o' && lexeme[2] == 'r' {
        proof {
            assert(lexeme@ =~= seq!['f', 'o', 'r']);
        }
        return Some(TokenType::For);
    }
    if n == 3 && lexeme[0] == 'f' && lexeme[1] == 'u' && lexeme[2] == 'n' {
        proof {
            assert(lexeme@ =~= seq!['f', 'u', 'n']);
        }
        return Some(TokenType::Fun);
    }
    if n == 2 && lexeme[0] == 'i' && lexeme[1] == 'f' {
        proof {
            assert(lexeme@ =~= seq!['i', 'f']);
        }
        return Some(TokenType::If);
    }
    if n == 3 && lexeme[0] == 'n' && lexeme[1] == 'i' && lexeme[2] == 'l' {
        proof {
            assert(lexeme@ =~= seq!['n', 'i', 'l']);
        }
        return Some(TokenType::Nil);
    }
    if n == 2 && lexeme[0] == 'o' && lexeme[1] == 'r' {
        proof {
            assert(lexeme@ =~= seq!['o', 'r']);
        }
        return Some(TokenType::Or);
    }
    if n == 5 && lexeme[0] == 'p' && lexeme[1] == 'r' && lexeme[2] == 'i' && lexeme[3] == 'n'
        && lexeme[4] == 't' {
        proof {
            assert(lexeme@ =~= seq!['p', 'r', 'i', 'n', 't']);
        }
        return Some(TokenType::Print);
    }
    if n == 6 && lexeme[0] == 'r' && lexeme[1] == 'e' && lexeme[2] == 't' && lexeme[3] == 'u'
        && lexeme[4] == 'r' && lexeme[5] == 'n' {
        proof {
            assert(lexeme@ =~= seq!['r', 'e', 't', 'u', 'r', 'n']);
        }
        return Some(TokenType::Return);
    }
    if n == 5 && lexeme[0] == 's' && lexeme[1] == 'u' && lexeme[2] == 'p' && lexeme[3] == 'e'
        && lexeme[4] == 'r' {
        proof {
            assert(lexeme@ =~= seq!['s', 'u', 'p', 'e', 'r']);
        }
        return Some(TokenType::Super);
    }
    if n == 4 && lexeme[0] == 't' && lexeme[1] == 'h' && lexeme[2] == 'i' && lexeme[3] == 's' {
        proof {
            assert(lexeme@ =~= seq!['t', 'h', 'i', 's']);
        }
        return Some(TokenType::This);
    }
    if n == 4 && lexeme[0] == 't' && lexeme[1] == 'r' && lexeme[2] == 'u' && lexeme[3] == 'e' {
        proof {
            assert(lexeme@ =~= seq!['t', 'r', 'u', 'e']);
        }
        return Some(TokenType::True);
    }
    if n == 3 && lexeme[0] == 'v' && lexeme[1] == 'a' && lexeme[2] == 'r' {
        proof {
            assert(lexeme@ =~= seq!['v', 'a', 'r']);
        }
        return Some(TokenType::Var);
    }
    if n == 5 && lexeme[0] == 'w' && lexeme[1] == 'h' && lexeme[2] == 'i' && lexeme[3] == 'l'
        && lexeme[4] == 'e' {
        proof {
            assert(lexeme@ =~= seq!['w', 'h', 'i', 'l', 'e']);
        }
        return Some(TokenType::While);
    }
    None
}

/// Owns one source text and a cursor into it while scanning it into tokens.
pub struct Scanner {
    pub source: Vec<char>,
    pub tokens: Vec<Token>,
    pub diagnostics: Vec<Diagnostic>,
    pub start: usize,
    pub current: usize,
    pub line: u32,
}

impl Scanner {
    /// Cursor well-formedness: the lexeme start never passes the cursor, the
    /// cursor never passes the end of the source, and the line counter has
    /// room for one increment per remaining character.
    pub open spec fn inv(&self) -> bool {
        &&& self.start <= self.current <= self.source@.len()
        &&& 1 <= self.line
        &&& self.line - 1 + (self.source@.len() - self.current) < u32::MAX
    }

    /// A scanner that has not consumed anything yet.
    pub open spec fn fresh(&self) -> bool {
        &&& self.inv()
        &&& self.start == 0
        &&& self.current == 0
        &&& self.line == 1
        &&& self.tokens@ == Seq::<Token>::empty()
        &&& self.diagnostics@ == Seq::<Diagnostic>::empty()
    }

    /// A scanner over `source`, positioned at its beginning, on line 1.
    /// Line numbers are 32-bit, so the source must leave every possible
    /// line count representable.
    pub fn new(source: String) -> (s: Scanner)
        requires
            source@.len() < u32::MAX,
        ensures
            s.source@ == source@,
            s.fresh(),
    {
        let sref: &str = source.as_str();
        let n: usize = sref.unicode_len();
        let mut chars: Vec<char> = Vec::new();
        let mut idx: usize = 0;
        while idx < n
            invariant
                idx <= n,
                n == source@.len(),
                sref@ == source@,
                chars@ == source@.subrange(0, idx as int),
            decreases n - idx,
        {
            let c = sref.get_char(idx);
            chars.push(c);
            idx = idx + 1;
            proof {
                assert(source@.subrange(0, idx as int) =~= source@.subrange(0, idx - 1).push(
                    source@[idx - 1],
                ));
            }
        }
        proof {
            assert(chars@ =~= source@);
        }
        Scanner {
            source: chars,
            tokens: Vec::new(),
            diagnostics: Vec::new(),
            start: 0,
            current: 0,
            line: 1,
        }
    }

    /// Whether the cursor has reached the end of the source.
    fn is_at_end(&self) -> (b: bool)
        ensures
            b == (self.current >= self.source@.len()),
    {
        self.current >= self.source.len()
    }

    /// Consume and return the next character.
    fn advance(&mut self) -> (c: char)
        requires
            old(self).current < old(self).source@.len(),
        ensures
            final(self).current == old(self).current + 1,
            c == old(self).source@[old(self).current as int],
            final(self).source@ == old(self).source@,
            final(self).tokens == old(self).tokens,
            final(self).diagnostics == old(self).diagnostics,
            final(self).start == old(self).start,
            final(self).line == old(self).line,
    {
        let n: usize = self.source.len();
        let c = self.source[self.current];
        assert(self.current < n);
        self.current = self.current + 1;
        c
    }

    /// Consume the next character exactly when it equals `expected`.
    fn match_token(&mut self, expected: char) -> (r: bool)
        ensures
            r == (old(self).current < old(self).source@.len() && old(self).source@[old(
                self,
            ).current as int] == expected),
            final(self).current == if r {
                old(self).current + 1
            } else {
                old(self).current as int
            },
            final(self).source@ == old(self).source@,
            final(self).tokens == old(self).tokens,
            final(self).diagnostics == old(self).diagnostics,
            final(self).start == old(self).start,
            final(self).line == old(self).line,
    {
        let n: usize = self.source.len();
        if self.current >= n {
            return false;
        }
        if self.source[self.current] != expected {
            return false;
        }
        assert(self.current < n);
        self.current = self.current + 1;
        true
    }

    /// Append a token of the given category whose lexeme is the source text
    /// from `start` to the cursor, on the current line, with no payload.
    fn add_token(&mut self, token_type: TokenType)
        requires
            old(self).start <= old(self).current <= old(self).source@.len(),
        ensures
            tokens_view(final(self).tokens@) == tokens_view(old(self).tokens@) + seq![
                (SpecToken {
                    token_type,
                    lexeme: old(self).source@.subrange(
                        old(self).start as int,
                        old(self).current as int,
                    ),
                    literal: None,
                    line: old(self).line as int,
                }),
            ],
            final(self).source@ == old(self).source@,
            final(self).diagnostics == old(self).diagnostics,
            final(self).start == old(self).start,
            final(self).current == old(self).current,
            final(self).line == old(self).line,
    {
        let lexeme = copy_range(&self.source, self.start, self.current);
        let t = Token::new(token_type, lexeme, None, self.line);
        proof {
            lemma_tokens_view_push(self.tokens@, t);
            assert(tokens_view(self.tokens@).push(t@) =~= tokens_view(self.tokens@) + seq![t@]);
        }
        self.tokens.push(t);
    }

    /// Append a token with a literal payload, again with the source text from
    /// `start` to the cursor as its lexeme, at an explicitly given line (a
    /// string token reports the line it began on).
    fn add_token_literal(&mut self, token_type: TokenType, literal: Option<Literal>, line: u32)
        requires
            old(self).start <= old(self).current <= old(self).source@.len(),
        ensures
            tokens_view(final(self).tokens@) == tokens_view(old(self).tokens@) + seq![
                (SpecToken {
                    token_type,
                    lexeme: old(self).source@.subrange(
                        old(self).start as int,
                        old(self).current as int,
                    ),
                    literal: crate::token::literal_option_view(literal),
                    line: line as int,
                }),
            ],
            final(self).source@ == old(self).source@,
            final(self).diagnostics == old(self).diagnostics,
            final(self).start == old(self).start,
            final(self).current == old(self).current,
            final(self).line == old(self).line,
    {
        let lexeme = copy_range(&self.source, self.start, self.current);
        let t = Token::new(token_type, lexeme, literal, line);
        proof {
            lemma_tokens_view_push(self.tokens@, t);
            assert(tokens_view(self.tokens@).push(t@) =~= tokens_view(self.tokens@) + seq![t@]);
        }
        self.tokens.push(t);
    }

    /// Append a diagnostic.
    fn add_diagnostic(&mut self, d: Diagnostic)
        ensures
            diags_view(final(self).diagnostics@) == diags_view(old(self).diagnostics@) + seq![d@],
            final(self).source@ == old(self).source@,
            final(self).tokens == old(self).tokens,
            final(self).start == old(self).start,
            final(self).current == old(self).current,
            final(self).line == old(self).line,
    {
        proof {
            lemma_diags_view_push(self.diagnostics@, d);
            assert(diags_view(self.diagnostics@).push(d@) =~= diags_view(self.diagnostics@) + seq![
                d@,
            ]);
        }
        self.diagnostics.push(d);
    }

    /// Scan a string literal.  The opening quote is at `start` and has been
    /// consumed; its line is the token's (and, if unterminated, the error's)
    /// line, however many newlines the literal itself spans.
    fn string(&mut self)
        requires
            old(self).inv(),
            old(self).current == old(self).start + 1,
            old(self).start < old(self).source@.len(),
            old(self).source@[old(self).start as int] == '"',
        ensures
            final(self).source@ == old(self).source@,
            final(self).start == old(self).start,
            ({
                let st = scan_step(old(self).source@, old(self).start as int, old(self).line as int);
                &&& final(self).current == st.next
                &&& final(self).line == st.next_line
                &&& tokens_view(final(self).tokens@) == tokens_view(old(self).tokens@) + st.tokens
                &&& diags_view(final(self).diagnostics@) == diags_view(old(self).diagnostics@)
                    + st.diags
                &&& final(self).inv()
            }),
    {
        let ghost src = self.source@;
        let ghost i = self.start as int;
        let ghost line0 = self.line as int;
        let line_start: u32 = self.line;
        proof {
            lemma_find_char(src, i + 1, '"');
        }
        let n: usize = self.source.len();
        while self.current < n && self.source[self.current] != '"'
            invariant
                self.source@ == src,
                self.start == old(self).start,
                self.tokens@ == old(self).tokens@,
                self.diagnostics@ == old(self).diagnostics@,
                n == src.len(),
                i == self.start as int,
                i + 1 <= self.current <= src.len(),
                find_char(src, i + 1, '"') == find_char(src, self.current as int, '"'),
                self.line as int == line0 + newline_count(src, i + 1, self.current as int),
                1 <= line0 <= self.line,
                self.line - 1 + (src.len() - self.current) < u32::MAX,
            decreases src.len() - self.current,
        {
            let c = self.source[self.current];
            if c == '\n' {
                self.line = self.line + 1;
            }
            self.current = self.current + 1;
            proof {
                assert(find_char(src, self.current - 1, '"') == find_char(
                    src,
                    self.current as int,
                    '"',
                ));
            }
        }
        if self.current >= n {
            proof {
                assert(find_char(src, self.current as int, '"') == src.len());
                lemma_newline_count_bounds(src, i + 1, src.len() as int);
            }
            self.add_diagnostic(
                Diagnostic { kind: ErrorKind::UnterminatedString, line: line_start },
            );
            proof {
                assert(tokens_view(self.tokens@) =~= tokens_view(old(self).tokens@)
                    + Seq::<SpecToken>::empty());
            }
        } else {
            proof {
                assert(find_char(src, self.current as int, '"') == self.current as int);
            }
            let close: usize = self.current;
            self.current = self.current + 1;
            let content = copy_range(&self.source, self.start + 1, close);
            self.add_token_literal(TokenType::Str, Some(Literal::Str(content)), line_start);
            proof {
                assert(diags_view(self.diagnostics@) =~= diags_view(old(self).diagnostics@)
                    + Seq::<SpecDiagnostic>::empty());
            }
        }
    }

    /// Scan a number literal: a maximal digit run, with a fractional part
    /// taken only when a `.` is directly followed by another digit.
    fn number(&mut self)
        requires
            old(self).inv(),
            old(self).current == old(self).start + 1,
            old(self).start < old(self).source@.len(),
            is_ascii_digit(old(self).source@[old(self).start as int]),
        ensures
            final(self).source@ == old(self).source@,
            final(self).start == old(self).start,
            ({
                let st = scan_step(old(self).source@, old(self).start as int, old(self).line as int);
                &&& final(self).current == st.next
                &&& final(self).line == st.next_line
                &&& tokens_view(final(self).tokens@) == tokens_view(old(self).tokens@) + st.tokens
                &&& diags_view(final(self).diagnostics@) == diags_view(old(self).diagnostics@)
                    + st.diags
                &&& final(self).inv()
            }),
    {
        let ghost src = self.source@;
        let ghost i = self.start as int;
        proof {
            lemma_digit_run_end(src, i);
            assert(digit_run_end(src, i) == digit_run_end(src, i + 1));
        }
        let n: usize = self.source.len();
        while self.current < n && is_digit_char(self.source[self.current])
            invariant
                self.source@ == src,
                self.start == old(self).start,
                self.tokens@ == old(self).tokens@,
                self.diagnostics@ == old(self).diagnostics@,
                self.line == old(self).line,
                n == src.len(),
                i == self.start as int,
                i + 1 <= self.current <= src.len(),
                digit_run_end(src, i) == digit_run_end(src, self.current as int),
            decreases src.len() - self.current,
        {
            self.current = self.current + 1;
            proof {
                assert(digit_run_end(src, self.current - 1) == digit_run_end(
                    src,
                    self.current as int,
                ));
            }
        }
        let ghost j = self.current as int;
        proof {
            assert(j == digit_run_end(src, i));
        }
        if self.current < n && self.source[self.current] == '.' && self.current + 1 < n
            && is_digit_char(self.source[self.current + 1]) {
            // Consume the '.' and the fractional digit run.
            self.current = self.current + 1;
            proof {
                lemma_digit_run_end(src, j + 1);
                assert(digit_run_end(src, j + 1) == digit_run_end(src, j + 2));
            }
            while self.current < n && is_digit_char(self.source[self.current])
                invariant
                    self.source@ == src,
                    self.start == old(self).start,
                    self.tokens@ == old(self).tokens@,
                    self.diagnostics@ == old(self).diagnostics@,
                    self.line == old(self).line,
                    n == src.len(),
                    i == self.start as int,
                    j + 1 <= self.current <= src.len(),
                    digit_run_end(src, j + 1) == digit_run_end(src, self.current as int),
                decreases src.len() - self.current,
            {
                self.current = self.current + 1;
                proof {
                    assert(digit_run_end(src, self.current - 1) == digit_run_end(
                        src,
                        self.current as int,
                    ));
                }
            }
            proof {
                assert(self.current as int == digit_run_end(src, j + 1));
            }
        }
        let digits = copy_range(&self.source, self.start, self.current);
        self.add_token_literal(TokenType::Number, Some(Literal::Number(digits)), self.line);
        proof {
            assert(diags_view(self.diagnostics@) =~= diags_view(old(self).diagnostics@)
                + Seq::<SpecDiagnostic>::empty());
        }
    }

    /// Scan an identifier or keyword: a maximal alphanumeric run starting at
    /// `start`, resolved against the keyword table by exact spelling.
    fn identifier(&mut self)
        requires
            old(self).inv(),
            old(self).current == old(self).start + 1,
            old(self).start < old(self).source@.len(),
            is_ident_start(old(self).source@[old(self).start as int]),
        ensures
            final(self).source@ == old(self).source@,
            final(self).start == old(self).start,
            ({
                let st = scan_step(old(self).source@, old(self).start as int, old(self).line as int);
                &&& final(self).current == st.next
                &&& final(self).line == st.next_line
                &&& tokens_view(final(self).tokens@) == tokens_view(old(self).tokens@) + st.tokens
                &&& diags_view(final(self).diagnostics@) == diags_view(old(self).diagnostics@)
                    + st.diags
                &&& final(self).inv()
            }),
    {
        let ghost src = self.source@;
        let ghost i = self.start as int;
        proof {
            lemma_ident_run_end(src, i + 1);
        }
        let n: usize = self.source.len();
        while self.current < n && is_ident_cont_char(self.source[self.current])
            invariant
                self.source@ == src,
                self.start == old(self).start,
                self.tokens@ == old(self).tokens@,
                self.diagnostics@ == old(self).diagnostics@,
                self.line == old(self).line,
                n == src.len(),
                i == self.start as int,
                i + 1 <= self.current <= src.len(),
                ident_run_end(src, i + 1) == ident_run_end(src, self.current as int),
            decreases src.len() - self.current,
        {
            self.current = self.current + 1;
            proof {
                assert(ident_run_end(src, self.current - 1) == ident_run_end(
                    src,
                    self.current as int,
                ));
            }
        }
        proof {
            assert(self.current as int == ident_run_end(src, i + 1));
        }
        let lexeme = copy_range(&self.source, self.start, self.current);
        let looked_up = keyword_type(&lexeme);
        match looked_up {
            Some(ty) => self.add_token(ty),
            None => self.add_token(TokenType::Identifier),
        }
        proof {
            assert(diags_view(self.diagnostics@) =~= diags_view(old(self).diagnostics@)
                + Seq::<SpecDiagnostic>::empty());
        }
    }

    /// Scan one lexeme beginning at the cursor (which equals `start`),
    /// with the effect the model's `scan_step` specifies.
    fn scan_token(&mut self)
        requires
            old(self).inv(),
            old(self).start == old(self).current,
            old(self).current < old(self).source@.len(),
        ensures
            final(self).source@ == old(self).source@,
            ({
                let st = scan_step(old(self).source@, old(self).current as int, old(self).line as int);
                &&& final(self).current == st.next
                &&& final(self).line == st.next_line
                &&& tokens_view(final(self).tokens@) == tokens_view(old(self).tokens@) + st.tokens
                &&& diags_view(final(self).diagnostics@) == diags_view(old(self).diagnostics@)
                    + st.diags
                &&& final(self).inv()
            }),
    {
        let ghost src = self.source@;
        let ghost i = self.current as int;
        let ghost line0 = self.line as int;
        let c = self.advance();
        if c == '(' {
            self.add_token(TokenType::LeftParen);
        } else if c == ')' {
            self.add_token(TokenType::RightParen);
        } else if c == '{' {
            self.add_token(TokenType::LeftBrace);
        } else if c == '}' {
            self.add_token(TokenType::RightBrace);
        } else if c == ',' {
            self.add_token(TokenType::Comma);
        } else if c == '.' {
            self.add_token(TokenType::Dot);
        } else if c == '-' {
            self.add_token(TokenType::Minus);
        } else if c == '+' {
            self.add_token(TokenType::Plus);
        } else if c == ';' {
            self.add_token(TokenType::Semicolon);
        } else if c == '*' {
            self.add_token(TokenType::Star);
        } else if c == '!' || c == '=' || c == '<' || c == '>' {
            let two = self.match_token('=');
            let ty = if c == '!' {
                if two {
                    TokenType::BangEqual
                } else {
                    TokenType::Bang
                }
            } else if c == '=' {
                if two {
                    TokenType::EqualEqual
                } else {
                    TokenType::Equal
                }
            } else if c == '<' {
                if two {
                    TokenType::LessEqual
                } else {
                    TokenType::Less
                }
            } else {
                if two {
                    TokenType::GreaterEqual
                } else {
                    TokenType::Greater
                }
            };
            self.add_token(ty);
        } else if c == '/' {
            if self.match_token('/') {
                // A comment: consume up to (not including) the next newline.
                proof {
                    lemma_find_char(src, i + 2, '\n');
                }
                let n: usize = self.source.len();
                while self.current < n && self.source[self.current] != '\n'
                    invariant
                        self.source@ == src,
                        self.start == old(self).start,
                        self.tokens@ == old(self).tokens@,
                        self.diagnostics@ == old(self).diagnostics@,
                        self.line == old(self).line,
                        n == src.len(),
                        i + 2 <= self.current <= src.len(),
                        find_char(src, i + 2, '\n') == find_char(src, self.current as int, '\n'),
                    decreases src.len() - self.current,
                {
                    self.current = self.current + 1;
                    proof {
                        assert(find_char(src, self.current - 1, '\n') == find_char(
                            src,
                            self.current as int,
                            '\n',
                        ));
                    }
                }
                proof {
                    assert(find_char(src, self.current as int, '\n') == self.current as int);
                }
            } else {
                self.add_token(TokenType::Slash);
            }
        } else if c == ' ' || c == '\r' || c == '\t' {
            // Whitespace: consumed, no token.
        } else if c == '\n' {
            self.line = self.line + 1;
        } else if c == '"' {
            self.string();
        } else if is_digit_char(c) {
            self.number();
        } else if is_ident_start_char(c) {
            self.identifier();
        } else {
            self.add_diagnostic(
                Diagnostic { kind: ErrorKind::UnrecognizedCharacter, line: self.line },
            );
        }
        proof {
            let st = scan_step(src, i, line0);
            if st.tokens.len() == 0 {
                assert(tokens_view(self.tokens@) =~= tokens_view(old(self).tokens@) + st.tokens);
            }
            if st.diags.len() == 0 {
                assert(diags_view(self.diagnostics@) =~= diags_view(old(self).diagnostics@)
                    + st.diags);
            }
        }
    }

    /// Scan the whole source in one pass.  The result is exactly the token
    /// stream and diagnostic list of the model: tokens in source order, ended
    /// by one end-of-input token on the line the scan ended on, and one
    /// diagnostic per malformed occurrence, in order of occurrence.
    pub fn scan_tokens(self) -> (r: (Vec<Token>, Vec<Diagnostic>))
        requires
            self.fresh(),
        ensures
            tokens_view(r.0@) == scan_spec(self.source@).tokens,
            diags_view(r.1@) == scan_spec(self.source@).diags,
    {
        let mut s = self;
        let ghost src = s.source@;
        proof {
            assert(tokens_view(s.tokens@) =~= Seq::<SpecToken>::empty());
            assert(diags_view(s.diagnostics@) =~= Seq::<SpecDiagnostic>::empty());
            assert(Seq::<SpecToken>::empty() + scan_from(src, 0, 1).tokens =~= scan_from(
                src,
                0,
                1,
            ).tokens);
            assert(Seq::<SpecDiagnostic>::empty() + scan_from(src, 0, 1).diags =~= scan_from(
                src,
                0,
                1,
            ).diags);
        }
        while !s.is_at_end()
            invariant
                s.inv(),
                s.source@ == src,
                scan_spec(src).tokens == tokens_view(s.tokens@) + scan_from(
                    src,
                    s.current as int,
                    s.line as int,
                ).tokens,
                scan_spec(src).diags == diags_view(s.diagnostics@) + scan_from(
                    src,
                    s.current as int,
                    s.line as int,
                ).diags,
            decreases src.len() - s.current,
        {
            let ghost cur0 = s.current as int;
            let ghost l0 = s.line as int;
            let ghost toks0 = tokens_view(s.tokens@);
            let ghost dgs0 = diags_view(s.diagnostics@);
            s.start = s.current;
            s.scan_token();
            proof {
                let st = scan_step(src, cur0, l0);
                lemma_scan_step_bounds(src, cur0, l0);
                let rest = scan_from(src, st.next, st.next_line);
                assert(scan_from(src, cur0, l0).tokens == st.tokens + rest.tokens);
                assert(scan_from(src, cur0, l0).diags == st.diags + rest.diags);
                assert(toks0 + (st.tokens + rest.tokens) =~= (toks0 + st.tokens) + rest.tokens);
                assert(dgs0 + (st.diags + rest.diags) =~= (dgs0 + st.diags) + rest.diags);
            }
        }
        proof {
            assert(s.current as int == src.len());
            assert(scan_from(src, s.current as int, s.line as int).tokens == seq![
                eof_token(s.line as int),
            ]);
        }
        let ghost toks_before = tokens_view(s.tokens@);
        let eof_lexeme: Vec<char> = Vec::new();
        let t = Token::new(TokenType::Eof, eof_lexeme, None, s.line);
        proof {
            lemma_tokens_view_push(s.tokens@, t);
            assert(tokens_view(s.tokens@).push(t@) =~= tokens_view(s.tokens@) + seq![t@]);
            assert(t@ == eof_token(s.line as int));
        }
        s.tokens.push(t);
        proof {
            assert(diags_view(s.diagnostics@) + scan_from(
                src,
                s.current as int,
                s.line as int,
            ).diags =~= diags_view(s.diagnostics@));
        }
        (s.tokens, s.diagnostics)
    }
}

} // verus!
