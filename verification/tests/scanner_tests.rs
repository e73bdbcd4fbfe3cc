use lox::Lox;
use lox::scanner::Scanner;
use lox::token::Diagnostic;
use lox::token::ErrorKind;
use lox::token::Literal;
use lox::token::Token;
use lox::token::TokenType;

fn chars(s: &str) -> Vec<char> {
    s.chars().collect()
}

fn scan(s: &str) -> (Vec<Token>, Vec<Diagnostic>) {
    Scanner::new(s.to_string()).scan_tokens()
}

fn types(tokens: &[Token]) -> Vec<TokenType> {
    tokens.iter().map(|t| t.token_type).collect()
}

#[test]
fn empty_input_is_one_eof() {
    let (tokens, diags) = scan("");
    assert_eq!(types(&tokens), vec![TokenType::Eof]);
    assert_eq!(tokens[0].line, 1);
    assert_eq!(tokens[0].lexeme, chars(""));
    assert!(diags.is_empty());
}

#[test]
fn whitespace_only_is_one_eof() {
    let (tokens, diags) = scan("  \t\r   \t");
    assert_eq!(types(&tokens), vec![TokenType::Eof]);
    assert!(diags.is_empty());
}

#[test]
fn whitespace_and_comments_only_is_one_eof() {
    let (tokens, diags) = scan("  // first comment\n\t// second\n   ");
    assert_eq!(types(&tokens), vec![TokenType::Eof]);
    assert_eq!(tokens[0].line, 3);
    assert!(diags.is_empty());
}

#[test]
fn comment_unclosed_by_newline_is_valid() {
    // A final comment needs no trailing newline to be closed by end of input.
    let (tokens, diags) = scan("// no newline after this");
    assert_eq!(types(&tokens), vec![TokenType::Eof]);
    assert!(diags.is_empty());
}

#[test]
fn punctuation_single_characters() {
    let (tokens, diags) = scan("(){},.-+;*");
    assert_eq!(
        types(&tokens),
        vec![
            TokenType::LeftParen,
            TokenType::RightParen,
            TokenType::LeftBrace,
            TokenType::RightBrace,
            TokenType::Comma,
            TokenType::Dot,
            TokenType::Minus,
            TokenType::Plus,
            TokenType::Semicolon,
            TokenType::Star,
            TokenType::Eof,
        ]
    );
    assert_eq!(tokens[0].lexeme, chars("("));
    assert!(diags.is_empty());
}

#[test]
fn slash_alone_is_a_token() {
    let (tokens, diags) = scan("/");
    assert_eq!(types(&tokens), vec![TokenType::Slash, TokenType::Eof]);
    assert!(diags.is_empty());
}

#[test]
fn equal_equal_is_one_token() {
    // Maximal munch: never two Equal tokens.
    let (tokens, diags) = scan("==");
    assert_eq!(types(&tokens), vec![TokenType::EqualEqual, TokenType::Eof]);
    assert_eq!(tokens[0].lexeme, chars("=="));
    assert!(diags.is_empty());
}

#[test]
fn single_equal_is_one_token() {
    let (tokens, diags) = scan("=");
    assert_eq!(types(&tokens), vec![TokenType::Equal, TokenType::Eof]);
    assert!(diags.is_empty());
}

#[test]
fn operator_pairs_munch_maximally() {
    let (tokens, _) = scan("!= <= >= ! < >");
    assert_eq!(
        types(&tokens),
        vec![
            TokenType::BangEqual,
            TokenType::LessEqual,
            TokenType::GreaterEqual,
            TokenType::Bang,
            TokenType::Less,
            TokenType::Greater,
            TokenType::Eof,
        ]
    );
}

#[test]
fn three_equals_munch_two_then_one() {
    let (tokens, _) = scan("===");
    assert_eq!(
        types(&tokens),
        vec![TokenType::EqualEqual, TokenType::Equal, TokenType::Eof]
    );
}

#[test]
fn string_literal_content_is_exact() {
    let (tokens, diags) = scan("\"hello\"");
    assert_eq!(types(&tokens), vec![TokenType::Str, TokenType::Eof]);
    assert_eq!(tokens[0].lexeme, chars("\"hello\""));
    assert_eq!(tokens[0].literal, Some(Literal::Str(chars("hello"))));
    assert_eq!(tokens[0].line, 1);
    assert!(diags.is_empty());
}

#[test]
fn string_literal_keeps_spaces_and_punctuation() {
    let (tokens, _) = scan("\"a b!=c // not a comment\"");
    assert_eq!(types(&tokens), vec![TokenType::Str, TokenType::Eof]);
    assert_eq!(
        tokens[0].literal,
        Some(Literal::Str(chars("a b!=c // not a comment")))
    );
}

#[test]
fn string_spanning_lines_reports_start_line() {
    let (tokens, diags) = scan("\"a\nb\"");
    assert_eq!(types(&tokens), vec![TokenType::Str, TokenType::Eof]);
    assert_eq!(tokens[0].literal, Some(Literal::Str(chars("a\nb"))));
    assert_eq!(tokens[0].line, 1);
    assert_eq!(tokens[1].line, 2);
    assert!(diags.is_empty());
}

#[test]
fn number_with_fraction() {
    let (tokens, diags) = scan("12.5");
    assert_eq!(types(&tokens), vec![TokenType::Number, TokenType::Eof]);
    assert_eq!(tokens[0].lexeme, chars("12.5"));
    match &tokens[0].literal {
        Some(Literal::Number(digits)) => {
            let text: String = digits.iter().collect();
            assert_eq!(text.parse::<f64>().unwrap(), 12.5);
        }
        other => panic!("expected a number literal, got {:?}", other),
    }
    assert!(diags.is_empty());
}

#[test]
fn number_without_fraction() {
    let (tokens, diags) = scan("123");
    assert_eq!(types(&tokens), vec![TokenType::Number, TokenType::Eof]);
    assert_eq!(tokens[0].literal, Some(Literal::Number(chars("123"))));
    assert!(diags.is_empty());
}

#[test]
fn trailing_dot_is_a_separate_token() {
    let (tokens, diags) = scan("12.");
    assert_eq!(
        types(&tokens),
        vec![TokenType::Number, TokenType::Dot, TokenType::Eof]
    );
    assert_eq!(tokens[0].literal, Some(Literal::Number(chars("12"))));
    assert_eq!(tokens[1].lexeme, chars("."));
    assert!(diags.is_empty());
}

#[test]
fn dot_then_identifier_after_number() {
    let (tokens, _) = scan("12.abs");
    assert_eq!(
        types(&tokens),
        vec![
            TokenType::Number,
            TokenType::Dot,
            TokenType::Identifier,
            TokenType::Eof,
        ]
    );
    assert_eq!(tokens[0].literal, Some(Literal::Number(chars("12"))));
}

#[test]
fn every_keyword_has_its_own_type() {
    let cases = [
        ("and", TokenType::And),
        ("class", TokenType::Class),
        ("else", TokenType::Else),
        ("false", TokenType::False),
        ("for", TokenType::For),
        ("fun", TokenType::Fun),
        ("if", TokenType::If),
        ("nil", TokenType::Nil),
        ("or", TokenType::Or),
        ("print", TokenType::Print),
        ("return", TokenType::Return),
        ("super", TokenType::Super),
        ("this", TokenType::This),
        ("true", TokenType::True),
        ("var", TokenType::Var),
        ("while", TokenType::While),
    ];
    for (word, expected) in cases {
        let (tokens, diags) = scan(word);
        assert_eq!(types(&tokens), vec![expected, TokenType::Eof], "keyword {}", word);
        assert_eq!(tokens[0].lexeme, chars(word));
        assert_eq!(tokens[0].literal, None);
        assert!(diags.is_empty());
    }
}

#[test]
fn keyword_with_trailing_characters_is_identifier() {
    let (tokens, _) = scan("fortune");
    assert_eq!(types(&tokens), vec![TokenType::Identifier, TokenType::Eof]);
    assert_eq!(tokens[0].lexeme, chars("fortune"));
    let (tokens, _) = scan("classy or2");
    assert_eq!(
        types(&tokens),
        vec![TokenType::Identifier, TokenType::Identifier, TokenType::Eof]
    );
    assert_eq!(tokens[1].lexeme, chars("or2"));
}

#[test]
fn keywords_are_case_sensitive() {
    let (tokens, _) = scan("Var VAR");
    assert_eq!(
        types(&tokens),
        vec![TokenType::Identifier, TokenType::Identifier, TokenType::Eof]
    );
}

#[test]
fn underscore_starts_an_identifier() {
    let (tokens, diags) = scan("_x9");
    assert_eq!(types(&tokens), vec![TokenType::Identifier, TokenType::Eof]);
    assert_eq!(tokens[0].lexeme, chars("_x9"));
    assert!(diags.is_empty());
}

#[test]
fn token_after_newlines_reports_next_line() {
    let (tokens, diags) = scan("\n\nfoo");
    assert_eq!(types(&tokens), vec![TokenType::Identifier, TokenType::Eof]);
    assert_eq!(tokens[0].line, 3);
    assert_eq!(tokens[1].line, 3);
    assert!(diags.is_empty());
}

#[test]
fn unterminated_string_reports_its_starting_line() {
    let (tokens, diags) = scan("\"a\nb");
    assert_eq!(types(&tokens), vec![TokenType::Eof]);
    assert_eq!(diags.len(), 1);
    assert_eq!(diags[0].kind, ErrorKind::UnterminatedString);
    assert_eq!(diags[0].line, 1);
    assert_eq!(tokens[0].line, 2);
}

#[test]
fn var_statement_with_comment_scenario() {
    let (tokens, diags) = scan("var x = 12.5; // comment\nprint x;");
    assert_eq!(
        types(&tokens),
        vec![
            TokenType::Var,
            TokenType::Identifier,
            TokenType::Equal,
            TokenType::Number,
            TokenType::Semicolon,
            TokenType::Print,
            TokenType::Identifier,
            TokenType::Semicolon,
            TokenType::Eof,
        ]
    );
    assert_eq!(tokens[1].lexeme, chars("x"));
    assert_eq!(tokens[3].literal, Some(Literal::Number(chars("12.5"))));
    assert_eq!(tokens[0].line, 1);
    assert_eq!(tokens[5].line, 2);
    assert_eq!(tokens[8].line, 2);
    assert!(diags.is_empty());
}

#[test]
fn unterminated_string_scenario() {
    let (tokens, diags) = scan("\"unterminated");
    assert!(tokens.iter().all(|t| t.token_type != TokenType::Str));
    assert_eq!(diags.len(), 1);
    assert_eq!(diags[0].kind, ErrorKind::UnterminatedString);
    assert_eq!(diags[0].line, 1);
    assert_eq!(tokens.last().unwrap().token_type, TokenType::Eof);
}

#[test]
fn scanning_twice_yields_identical_output() {
    let input = "var x = 12.5; // comment\nprint \"x\"; @";
    let first = scan(input);
    let second = scan(input);
    assert_eq!(first.0, second.0);
    assert_eq!(first.1, second.1);
}

#[test]
fn unrecognized_character_is_reported_and_skipped() {
    let (tokens, diags) = scan("@x");
    assert_eq!(types(&tokens), vec![TokenType::Identifier, TokenType::Eof]);
    assert_eq!(tokens[0].lexeme, chars("x"));
    assert_eq!(diags.len(), 1);
    assert_eq!(diags[0].kind, ErrorKind::UnrecognizedCharacter);
    assert_eq!(diags[0].line, 1);
}

#[test]
fn each_bad_character_is_reported_once() {
    let (tokens, diags) = scan("#\n#");
    assert_eq!(types(&tokens), vec![TokenType::Eof]);
    assert_eq!(diags.len(), 2);
    assert_eq!(diags[0].line, 1);
    assert_eq!(diags[1].line, 2);
}

#[test]
fn expression_mixing_everything() {
    let (tokens, diags) = scan("(1+2.75)*x / \"s\" // end\n");
    assert_eq!(
        types(&tokens),
        vec![
            TokenType::LeftParen,
            TokenType::Number,
            TokenType::Plus,
            TokenType::Number,
            TokenType::RightParen,
            TokenType::Star,
            TokenType::Identifier,
            TokenType::Slash,
            TokenType::Str,
            TokenType::Eof,
        ]
    );
    assert_eq!(tokens[3].literal, Some(Literal::Number(chars("2.75"))));
    assert_eq!(tokens[9].line, 2);
    assert!(diags.is_empty());
}

#[test]
fn lox_session_records_errors() {
    let mut lox = Lox::new();
    assert!(!lox.had_error);
    assert!(lox.reports.is_empty());
    lox.error(3, "unexpected character".to_string());
    assert!(lox.had_error);
    assert_eq!(lox.reports.len(), 1);
    assert_eq!(lox.reports[0].line, 3);
    assert_eq!(lox.reports[0].message, "unexpected character");
}
