//! Laws of the scanner, proved against the model in `scan_spec`: what whole
//! classes of inputs scan to.

use vstd::prelude::*;

verus! {

use crate::scan_spec::eof_token;
use crate::scan_spec::find_char;
use crate::scan_spec::ident_run_end;
use crate::scan_spec::is_ascii_digit;
use crate::scan_spec::is_blank_char;
use crate::scan_spec::is_ident_cont;
use crate::scan_spec::is_ident_start;
use crate::scan_spec::is_operator_start;
use crate::scan_spec::keyword_type_of;
use crate::scan_spec::lemma_digit_run_exact;
use crate::scan_spec::lemma_find_char;
use crate::scan_spec::lemma_find_char_at;
use crate::scan_spec::lemma_ident_run_exact;
use crate::scan_spec::lemma_newline_count_zero;
use crate::scan_spec::lemma_scan_step_bounds;
use crate::scan_spec::newline_count;
use crate::scan_spec::operator_double_type;
use crate::scan_spec::operator_single_type;
use crate::scan_spec::plain_token;
use crate::scan_spec::scan_from;
use crate::scan_spec::scan_spec;
use crate::scan_spec::scan_step;
use crate::token::ErrorKind;
use crate::token::SpecDiagnostic;
use crate::token::SpecLiteral;
use crate::token::SpecToken;
use crate::token::TokenType;

/// The input from position `i` on consists of nothing but whitespace,
/// newlines and line comments.
pub open spec fn blank_from(src: Seq<char>, i: int) -> bool
    decreases src.len() - i
        when 0 <= i <= src.len()
        via blank_from_decreases
{
    if i >= src.len() {
        true
    } else if is_blank_char(src[i]) || src[i] == '\n' {
        blank_from(src, i + 1)
    } else if src[i] == '/' && i + 1 < src.len() && src[i + 1] == '/' {
        blank_from(src, find_char(src, i + 2, '\n'))
    } else {
        false
    }
}

#[via_fn]
proof fn blank_from_decreases(src: Seq<char>, i: int) {
    if i + 1 < src.len() {
        lemma_find_char(src, i + 2, '\n');
    }
}

proof fn lemma_scan_blank_from(src: Seq<char>, i: int, line: int)
    requires
        0 <= i <= src.len(),
        blank_from(src, i),
    ensures
        scan_from(src, i, line).tokens.len() == 1,
        scan_from(src, i, line).tokens[0].token_type == TokenType::Eof,
        scan_from(src, i, line).diags == Seq::<SpecDiagnostic>::empty(),
    decreases src.len() - i,
{
    if i < src.len() {
        let st = scan_step(src, i, line);
        lemma_scan_step_bounds(src, i, line);
        lemma_scan_blank_from(src, st.next, st.next_line);
        let rest = scan_from(src, st.next, st.next_line);
        assert(st.tokens + rest.tokens =~= rest.tokens);
        assert(st.diags + rest.diags =~= rest.diags);
    }
}

/// For an input of nothing but whitespace and comments, the scan yields
/// exactly one token, the end-of-input token, and no diagnostics.  A comment
/// closed by the end of the input rather than a newline counts.
pub proof fn lemma_blank_input_scans_to_eof_only(src: Seq<char>)
    requires
        blank_from(src, 0),
    ensures
        scan_spec(src).tokens.len() == 1,
        scan_spec(src).tokens[0].token_type == TokenType::Eof,
        scan_spec(src).diags == Seq::<SpecDiagnostic>::empty(),
{
    lemma_scan_blank_from(src, 0, 1);
}

/// Maximal munch, long side: an operator character directly followed by `=`
/// always produces the single two-character token, never two one-character
/// tokens; the cursor passes both characters.
pub proof fn lemma_maximal_munch_double(src: Seq<char>, i: int, line: int)
    requires
        0 <= i,
        i + 1 < src.len(),
        is_operator_start(src[i]),
        src[i + 1] == '=',
    ensures
        scan_step(src, i, line).tokens == seq![
            plain_token(operator_double_type(src[i]), src, i, i + 2, line),
        ],
        scan_step(src, i, line).next == i + 2,
        scan_step(src, i, line).diags == Seq::<SpecDiagnostic>::empty(),
{
}

/// Maximal munch, short side: an operator character not followed by `=`
/// produces the one-character token.
pub proof fn lemma_maximal_munch_single(src: Seq<char>, i: int, line: int)
    requires
        0 <= i < src.len(),
        is_operator_start(src[i]),
        i + 1 == src.len() || src[i + 1] != '=',
    ensures
        scan_step(src, i, line).tokens == seq![
            plain_token(operator_single_type(src[i]), src, i, i + 1, line),
        ],
        scan_step(src, i, line).next == i + 1,
        scan_step(src, i, line).diags == Seq::<SpecDiagnostic>::empty(),
{
}

/// A quoted string whose content has no embedded quote and no newline scans
/// to exactly one string token whose literal is the content, exactly as
/// written, followed by the end-of-input token; no diagnostics.
pub proof fn lemma_simple_string_literal(s: Seq<char>, line: int)
    requires
        forall|k: int| 0 <= k < s.len() ==> s[k] != '"' && s[k] != '\n',
    ensures
        ({
            let src = seq!['"'] + s + seq!['"'];
            &&& scan_from(src, 0, line).tokens == seq![
                (SpecToken {
                    token_type: TokenType::Str,
                    lexeme: src,
                    literal: Some(SpecLiteral::Str(s)),
                    line,
                }),
                eof_token(line),
            ]
            &&& scan_from(src, 0, line).diags == Seq::<SpecDiagnostic>::empty()
        }),
{
    let src = seq!['"'] + s + seq!['"'];
    let close = s.len() as int + 1;
    assert(src.len() == s.len() + 2);
    assert(src[0] == '"');
    assert(src[close] == '"');
    assert forall|k: int| 1 <= k < close implies src[k] != '"' by {
        assert(src[k] == s[k - 1]);
    }
    lemma_find_char_at(src, 1, close, '"');
    assert forall|k: int| 1 <= k < close implies src[k] != '\n' by {
        assert(src[k] == s[k - 1]);
    }
    lemma_newline_count_zero(src, 1, close);
    let st = scan_step(src, 0, line);
    assert(src.subrange(0, close + 1) =~= src);
    assert(src.subrange(1, close) =~= s);
    assert(st.next == src.len());
    let rest = scan_from(src, st.next, st.next_line);
    assert(st.tokens + rest.tokens =~= seq![
        (SpecToken {
            token_type: TokenType::Str,
            lexeme: src,
            literal: Some(SpecLiteral::Str(s)),
            line,
        }),
        eof_token(line),
    ]);
    assert(st.diags + rest.diags =~= Seq::<SpecDiagnostic>::empty());
}

/// A digit run, a dot, and another digit run scan to exactly one number
/// token whose literal is the whole decimal text, followed by the
/// end-of-input token; no diagnostics.
pub proof fn lemma_number_with_fraction(d1: Seq<char>, d2: Seq<char>, line: int)
    requires
        d1.len() > 0,
        d2.len() > 0,
        forall|k: int| 0 <= k < d1.len() ==> is_ascii_digit(d1[k]),
        forall|k: int| 0 <= k < d2.len() ==> is_ascii_digit(d2[k]),
    ensures
        ({
            let src = d1 + seq!['.'] + d2;
            &&& scan_from(src, 0, line).tokens == seq![
                (SpecToken {
                    token_type: TokenType::Number,
                    lexeme: src,
                    literal: Some(SpecLiteral::Number(src)),
                    line,
                }),
                eof_token(line),
            ]
            &&& scan_from(src, 0, line).diags == Seq::<SpecDiagnostic>::empty()
        }),
{
    let src = d1 + seq!['.'] + d2;
    let j = d1.len() as int;
    assert(src.len() == d1.len() + 1 + d2.len());
    assert forall|k: int| 0 <= k < j implies is_ascii_digit(src[k]) by {
        assert(src[k] == d1[k]);
    }
    assert(src[j] == '.');
    assert(!is_ascii_digit('.'));
    lemma_digit_run_exact(src, 0, j);
    assert forall|k: int| j + 1 <= k < src.len() implies is_ascii_digit(src[k]) by {
        assert(src[k] == d2[k - j - 1]);
    }
    lemma_digit_run_exact(src, j + 1, src.len() as int);
    assert(is_ascii_digit(src[j + 1]));
    let st = scan_step(src, 0, line);
    assert(st.next == src.len());
    assert(src.subrange(0, src.len() as int) =~= src);
    let rest = scan_from(src, st.next, st.next_line);
    assert(st.tokens + rest.tokens =~= seq![
        (SpecToken {
            token_type: TokenType::Number,
            lexeme: src,
            literal: Some(SpecLiteral::Number(src)),
            line,
        }),
        eof_token(line),
    ]);
    assert(st.diags + rest.diags =~= Seq::<SpecDiagnostic>::empty());
}

/// A digit run followed by a dot with no digit after it scans to a number
/// token for the digits alone, then a separate dot token, then the
/// end-of-input token; the dot is never folded into the number.
pub proof fn lemma_number_then_dot(d1: Seq<char>, line: int)
    requires
        d1.len() > 0,
        forall|k: int| 0 <= k < d1.len() ==> is_ascii_digit(d1[k]),
    ensures
        ({
            let src = d1 + seq!['.'];
            &&& scan_from(src, 0, line).tokens == seq![
                (SpecToken {
                    token_type: TokenType::Number,
                    lexeme: d1,
                    literal: Some(SpecLiteral::Number(d1)),
                    line,
                }),
                plain_token(TokenType::Dot, src, d1.len() as int, d1.len() as int + 1, line),
                eof_token(line),
            ]
            &&& scan_from(src, 0, line).diags == Seq::<SpecDiagnostic>::empty()
        }),
{
    let src = d1 + seq!['.'];
    let j = d1.len() as int;
    assert(src.len() == d1.len() + 1);
    assert forall|k: int| 0 <= k < j implies is_ascii_digit(src[k]) by {
        assert(src[k] == d1[k]);
    }
    assert(src[j] == '.');
    assert(!is_ascii_digit('.'));
    lemma_digit_run_exact(src, 0, j);
    let st = scan_step(src, 0, line);
    assert(st.next == j);
    assert(src.subrange(0, j) =~= d1);
    let st2 = scan_step(src, j, line);
    assert(st2.next == src.len());
    let rest = scan_from(src, st2.next, st2.next_line);
    assert(scan_from(src, j, line).tokens == st2.tokens + rest.tokens);
    assert(st.tokens + (st2.tokens + rest.tokens) =~= seq![
        (SpecToken {
            token_type: TokenType::Number,
            lexeme: d1,
            literal: Some(SpecLiteral::Number(d1)),
            line,
        }),
        plain_token(TokenType::Dot, src, j, j + 1, line),
        eof_token(line),
    ]);
    assert(st.diags + (st2.diags + rest.diags) =~= Seq::<SpecDiagnostic>::empty());
}

/// Every reserved word consists of identifier characters and starts with a
/// letter.
proof fn lemma_keyword_chars(s: Seq<char>)
    requires
        keyword_type_of(s) is Some,
    ensures
        s.len() >= 2,
        is_ident_start(s[0]),
        forall|k: int| 0 <= k < s.len() ==> is_ident_cont(s[k]),
{
    assert forall|k: int| 0 <= k < s.len() implies is_ident_cont(s[k]) by {
        reveal_with_fuel(ident_run_end, 8);
    }
}

/// Keywords are whole words: a reserved spelling extended by any non-empty
/// text is no longer a reserved spelling.
pub proof fn lemma_keyword_extended_not_keyword(s: Seq<char>, t: Seq<char>)
    requires
        keyword_type_of(s) is Some,
        t.len() > 0,
    ensures
        keyword_type_of(s + t) is None,
{
    assert((s + t).len() > s.len());
    assert forall|k: int| 0 <= k < s.len() implies (s + t)[k] == s[k] by {}
}

/// A reserved word spelled exactly, as the whole input, scans to its own
/// keyword token followed by the end-of-input token; no diagnostics.
pub proof fn lemma_keyword_exact_scan(s: Seq<char>, line: int)
    requires
        keyword_type_of(s) is Some,
    ensures
        scan_from(s, 0, line).tokens == seq![
            (SpecToken {
                token_type: keyword_type_of(s).unwrap(),
                lexeme: s,
                literal: None,
                line,
            }),
            eof_token(line),
        ],
        scan_from(s, 0, line).diags == Seq::<SpecDiagnostic>::empty(),
{
    lemma_keyword_chars(s);
    lemma_ident_run_exact(s, 1, s.len() as int);
    let st = scan_step(s, 0, line);
    assert(s.subrange(0, s.len() as int) =~= s);
    assert(st.next == s.len());
    let rest = scan_from(s, st.next, st.next_line);
    assert(st.tokens + rest.tokens =~= seq![
        (SpecToken {
            token_type: keyword_type_of(s).unwrap(),
            lexeme: s,
            literal: None,
            line,
        }),
        eof_token(line),
    ]);
    assert(st.diags + rest.diags =~= Seq::<SpecDiagnostic>::empty());
}

/// A reserved spelling with extra trailing identifier characters scans as a
/// single identifier token covering the whole word, never as the keyword
/// followed by the rest.
pub proof fn lemma_keyword_extended_scans_identifier(s: Seq<char>, t: Seq<char>, line: int)
    requires
        keyword_type_of(s) is Some,
        t.len() > 0,
        forall|k: int| 0 <= k < t.len() ==> is_ident_cont(t[k]),
    ensures
        ({
            let src = s + t;
            &&& scan_from(src, 0, line).tokens == seq![
                (SpecToken { token_type: TokenType::Identifier, lexeme: src, literal: None, line }),
                eof_token(line),
            ]
            &&& scan_from(src, 0, line).diags == Seq::<SpecDiagnostic>::empty()
        }),
{
    let src = s + t;
    lemma_keyword_chars(s);
    assert(src[0] == s[0]);
    assert forall|k: int| 1 <= k < src.len() implies is_ident_cont(src[k]) by {
        if k < s.len() {
            assert(src[k] == s[k]);
        } else {
            assert(src[k] == t[k - s.len()]);
        }
    }
    lemma_ident_run_exact(src, 1, src.len() as int);
    lemma_keyword_extended_not_keyword(s, t);
    assert(src.subrange(0, src.len() as int) =~= src);
    let st = scan_step(src, 0, line);
    assert(st.next == src.len());
    let rest = scan_from(src, st.next, st.next_line);
    assert(st.tokens + rest.tokens =~= seq![
        (SpecToken { token_type: TokenType::Identifier, lexeme: src, literal: None, line }),
        eof_token(line),
    ]);
    assert(st.diags + rest.diags =~= Seq::<SpecDiagnostic>::empty());
}

/// Line numbering: scanning past `n - i` leading newline characters leaves
/// exactly the scan of the rest, started `n - i` lines later.  In
/// particular, a token after `n` newlines reports line `n + 1` when the scan
/// begins on line 1.
pub proof fn lemma_newline_prefix(src: Seq<char>, i: int, n: int, line: int)
    requires
        0 <= i <= n <= src.len(),
        forall|k: int| i <= k < n ==> src[k] == '\n',
    ensures
        scan_from(src, i, line) == scan_from(src, n, line + (n - i)),
    decreases n - i,
{
    if i < n {
        assert(src[i] == '\n');
        lemma_newline_prefix(src, i + 1, n, line + 1);
        let st = scan_step(src, i, line);
        let rest = scan_from(src, i + 1, line + 1);
        assert(st.tokens + rest.tokens =~= rest.tokens);
        assert(st.diags + rest.diags =~= rest.diags);
        assert(scan_from(src, i, line) == scan_from(src, i + 1, line + 1));
    }
}

/// An unterminated string: the scan reports exactly one diagnostic, against
/// the line the string began on, not the line the input ended on, and still
/// terminates with the end-of-input token.
pub proof fn lemma_unterminated_string(src: Seq<char>, i: int, line: int)
    requires
        0 <= i < src.len(),
        src[i] == '"',
        find_char(src, i + 1, '"') == src.len(),
    ensures
        scan_from(src, i, line).diags == seq![
            (SpecDiagnostic { kind: ErrorKind::UnterminatedString, line }),
        ],
        scan_from(src, i, line).tokens == seq![
            eof_token(line + newline_count(src, i + 1, src.len() as int)),
        ],
{
    let st = scan_step(src, i, line);
    assert(st.next == src.len());
    let rest = scan_from(src, st.next, st.next_line);
    assert(st.diags + rest.diags =~= seq![
        (SpecDiagnostic { kind: ErrorKind::UnterminatedString, line }),
    ]);
    assert(st.tokens + rest.tokens =~= seq![
        eof_token(line + newline_count(src, i + 1, src.len() as int)),
    ]);
}

proof fn lemma_single_eof_from(src: Seq<char>, i: int, line: int)
    requires
        0 <= i <= src.len(),
    ensures
        scan_from(src, i, line).tokens.len() >= 1,
        scan_from(src, i, line).tokens.last().token_type == TokenType::Eof,
        forall|k: int|
            0 <= k < scan_from(src, i, line).tokens.len() - 1 ==> (#[trigger] scan_from(
                src,
                i,
                line,
            ).tokens[k]).token_type != TokenType::Eof,
    decreases src.len() - i,
{
    if i < src.len() {
        let st = scan_step(src, i, line);
        lemma_scan_step_bounds(src, i, line);
        lemma_single_eof_from(src, st.next, st.next_line);
        let rest = scan_from(src, st.next, st.next_line);
        let out = scan_from(src, i, line);
        assert(out.tokens == st.tokens + rest.tokens);
        assert(forall|k: int|
            0 <= k < st.tokens.len() ==> (#[trigger] st.tokens[k]).token_type != TokenType::Eof);
        assert(out.tokens.last() == rest.tokens.last());
        assert forall|k: int| 0 <= k < out.tokens.len() - 1 implies (#[trigger] out.tokens[k]).token_type
            != TokenType::Eof by {
            if k >= st.tokens.len() {
                assert(out.tokens[k] == rest.tokens[k - st.tokens.len()]);
            }
        }
    }
}

/// The token stream of a whole scan holds exactly one end-of-input token:
/// the last one, whatever the input.
pub proof fn lemma_exactly_one_eof(src: Seq<char>)
    ensures
        scan_spec(src).tokens.len() >= 1,
        scan_spec(src).tokens.last().token_type == TokenType::Eof,
        forall|k: int|
            0 <= k < scan_spec(src).tokens.len() - 1 ==> (#[trigger] scan_spec(
                src,
            ).tokens[k]).token_type != TokenType::Eof,
{
    lemma_single_eof_from(src, 0, 1);
}

proof fn lemma_diag_kinds_from(src: Seq<char>, i: int, line: int)
    requires
        0 <= i <= src.len(),
    ensures
        forall|k: int|
            0 <= k < scan_from(src, i, line).diags.len() ==> (#[trigger] scan_from(
                src,
                i,
                line,
            ).diags[k]).kind != ErrorKind::MalformedNumberLiteral,
    decreases src.len() - i,
{
    if i < src.len() {
        let st = scan_step(src, i, line);
        lemma_scan_step_bounds(src, i, line);
        lemma_diag_kinds_from(src, st.next, st.next_line);
        let rest = scan_from(src, st.next, st.next_line);
        let out = scan_from(src, i, line);
        assert(out.diags == st.diags + rest.diags);
        assert forall|k: int| 0 <= k < out.diags.len() implies (#[trigger] out.diags[k]).kind
            != ErrorKind::MalformedNumberLiteral by {
            if k >= st.diags.len() {
                assert(out.diags[k] == rest.diags[k - st.diags.len()]);
            }
        }
    }
}

/// The malformed-number condition is defensive and never arises: a number
/// token's literal is by construction its digit lexeme, so every diagnostic
/// a scan reports is an unterminated string or an unrecognized character.
pub proof fn lemma_no_malformed_number_diagnostics(src: Seq<char>)
    ensures
        forall|k: int|
            0 <= k < scan_spec(src).diags.len() ==> (#[trigger] scan_spec(src).diags[k]).kind
                != ErrorKind::MalformedNumberLiteral,
{
    lemma_diag_kinds_from(src, 0, 1);
}

/// The scan output is a function of the source text alone: equal inputs
/// scan to equal token streams and diagnostics, so repeated scans of one
/// input always agree.
pub proof fn lemma_scan_deterministic(a: Seq<char>, b: Seq<char>)
    requires
        a == b,
    ensures
        scan_spec(a) == scan_spec(b),
{
}

} // verus!
