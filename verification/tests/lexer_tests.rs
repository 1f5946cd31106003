use new_compiler::Span;
use new_compiler::errors::{Error, ErrorImpl, ErrorTip};
use new_compiler::lexer::lex::{Lexer, tokenize};
use new_compiler::lexer::token::{Token, TokenKind, reserved_lookup};

fn kinds(tokens: &[Token]) -> Vec<TokenKind> {
    tokens.iter().map(|t| t.kind).collect()
}

#[test]
fn scenario_let_statement() {
    let tokens = tokenize("let x = 10;".to_string()).unwrap();
    assert_eq!(
        kinds(&tokens),
        vec![
            TokenKind::Let,
            TokenKind::Identifier,
            TokenKind::Assignment,
            TokenKind::Number,
            TokenKind::Semicolon,
            TokenKind::EOF,
        ]
    );
    assert_eq!(tokens[0].lexeme, "let");
    assert_eq!(tokens[1].lexeme, "x");
    assert_eq!(tokens[2].lexeme, "=");
    assert_eq!(tokens[3].lexeme, "10");
    assert_eq!(tokens[4].lexeme, ";");
}

#[test]
fn scenario_let_statement_spans() {
    let tokens = tokenize("let x = 10;".to_string()).unwrap();
    assert_eq!(tokens[0].span, Span { start: 0, end: 3 });
    assert_eq!(tokens[1].span, Span { start: 4, end: 5 });
    assert_eq!(tokens[2].span, Span { start: 6, end: 7 });
    assert_eq!(tokens[3].span, Span { start: 8, end: 10 });
    assert_eq!(tokens[4].span, Span { start: 10, end: 11 });
    assert_eq!(tokens[5].span, Span { start: 11, end: 11 });
}

#[test]
fn scenario_string_with_newline_escape() {
    let tokens = tokenize("\"a\\nb\"".to_string()).unwrap();
    assert_eq!(tokens.len(), 2);
    assert_eq!(tokens[0].kind, TokenKind::String);
    assert_eq!(tokens[0].lexeme, "a\nb");
    // the span covers the original matched region, not the decoded text
    assert_eq!(tokens[0].span, Span { start: 0, end: 6 });
    assert_eq!(tokens[1].kind, TokenKind::EOF);
}

#[test]
fn scenario_maximal_munch_less_equals_and() {
    let tokens = tokenize("x <= 5 && y".to_string()).unwrap();
    let ks = kinds(&tokens);
    assert_eq!(
        ks,
        vec![
            TokenKind::Identifier,
            TokenKind::LessEquals,
            TokenKind::Number,
            TokenKind::And,
            TokenKind::Identifier,
            TokenKind::EOF,
        ]
    );
    assert_eq!(ks.iter().filter(|k| **k == TokenKind::Less).count(), 0);
    assert_eq!(ks.iter().filter(|k| **k == TokenKind::Assignment).count(), 0);
    assert_eq!(ks.iter().filter(|k| **k == TokenKind::Not).count(), 0);
}

#[test]
fn scenario_comment_skipped() {
    let tokens = tokenize("// comment\nlet".to_string()).unwrap();
    assert_eq!(kinds(&tokens), vec![TokenKind::Let, TokenKind::EOF]);
    assert_eq!(tokens[0].lexeme, "let");
}

#[test]
fn scenario_hex_escape() {
    let tokens = tokenize("\"\\x41\"".to_string()).unwrap();
    assert_eq!(tokens[0].kind, TokenKind::String);
    assert_eq!(tokens[0].lexeme, "A");
}

#[test]
fn scenario_stray_hash_fails() {
    let err = tokenize("#".to_string()).unwrap_err();
    assert_eq!(err.get_error_name(), "UnrecognisedToken");
    assert_eq!(*err.get_span(), Span { start: 0, end: 1 });
    match err.get_tip() {
        ErrorTip::Suggestion(s) => {
            assert_eq!(s, "Check for typos or unsupported characters.")
        },
        ErrorTip::NoTip => panic!("expected a suggestion"),
    }
}

#[test]
fn empty_input_gives_only_eof() {
    let tokens = tokenize(String::new()).unwrap();
    assert_eq!(tokens.len(), 1);
    assert_eq!(tokens[0].kind, TokenKind::EOF);
    assert_eq!(tokens[0].lexeme, "EOF");
    assert_eq!(tokens[0].span, Span { start: 0, end: 0 });
}

#[test]
fn single_unscannable_character() {
    let err = tokenize("@".to_string()).unwrap_err();
    assert_eq!(err.get_error_name(), "UnrecognisedToken");
    assert_eq!(*err.get_span(), Span { start: 0, end: 1 });
}

#[test]
fn failure_position_mid_input() {
    let err = tokenize("let @x".to_string()).unwrap_err();
    assert_eq!(*err.get_span(), Span { start: 4, end: 5 });
}

#[test]
fn unterminated_string_fails_at_quote() {
    let err = tokenize("\"abc".to_string()).unwrap_err();
    assert_eq!(err.get_error_name(), "UnrecognisedToken");
    assert_eq!(*err.get_span(), Span { start: 0, end: 1 });
}

#[test]
fn lone_quote_after_string_fails_there() {
    let err = tokenize("\"a\" \"b".to_string()).unwrap_err();
    assert_eq!(*err.get_span(), Span { start: 4, end: 5 });
}

#[test]
fn string_without_escapes_is_unchanged() {
    let tokens = tokenize("\"hello world\"".to_string()).unwrap();
    assert_eq!(tokens[0].kind, TokenKind::String);
    assert_eq!(tokens[0].lexeme, "hello world");
}

#[test]
fn all_named_escapes_decode() {
    let tokens = tokenize("\"\\n\\t\\\\\\r\\0\"".to_string()).unwrap();
    assert_eq!(tokens[0].lexeme, "\n\t\\\r\0");
}

#[test]
fn escaped_quote_ends_raw_match() {
    // the raw match knows nothing of escapes: the quote of `\"` closes the
    // literal, leaving a lone trailing backslash in the interior
    let tokens = tokenize("\"a\\\"".to_string()).unwrap();
    assert_eq!(tokens[0].kind, TokenKind::String);
    assert_eq!(tokens[0].lexeme, "a\\");
}

#[test]
fn hex_escape_single_digit() {
    let tokens = tokenize("\"\\x9;\"".to_string()).unwrap();
    // only one hex digit present: uses just that digit, then ';' is literal
    assert_eq!(tokens[0].lexeme, "\t;");
}

#[test]
fn hex_escape_no_digits_gives_nul() {
    let tokens = tokenize("\"\\xg\"".to_string()).unwrap();
    assert_eq!(tokens[0].lexeme, "\0g");
}

#[test]
fn hex_escape_high_byte() {
    let tokens = tokenize("\"\\xFF\"".to_string()).unwrap();
    assert_eq!(tokens[0].lexeme, "\u{ff}");
}

#[test]
fn unknown_escape_keeps_backslash() {
    let tokens = tokenize("\"\\q\"".to_string()).unwrap();
    assert_eq!(tokens[0].lexeme, "\\q");
}

#[test]
fn trailing_backslash_kept() {
    let tokens = tokenize("\"ab\\\\\"".to_string()).unwrap();
    assert_eq!(tokens[0].lexeme, "ab\\");
    let tokens = tokenize("\"ab\\\"".to_string()).unwrap();
    // interior is `ab\` with a lone trailing backslash
    assert_eq!(tokens[0].lexeme, "ab\\");
}

#[test]
fn number_with_fraction() {
    let tokens = tokenize("12.5".to_string()).unwrap();
    assert_eq!(kinds(&tokens), vec![TokenKind::Number, TokenKind::EOF]);
    assert_eq!(tokens[0].lexeme, "12.5");
}

#[test]
fn number_with_trailing_dot_splits() {
    let tokens = tokenize("12.".to_string()).unwrap();
    assert_eq!(kinds(&tokens), vec![TokenKind::Number, TokenKind::Dot, TokenKind::EOF]);
    assert_eq!(tokens[0].lexeme, "12");
}

#[test]
fn number_double_dot_splits() {
    let tokens = tokenize("1..2".to_string()).unwrap();
    assert_eq!(
        kinds(&tokens),
        vec![TokenKind::Number, TokenKind::Dot, TokenKind::Dot, TokenKind::Number, TokenKind::EOF]
    );
}

#[test]
fn all_keywords_classified() {
    let cases = [
        ("let", TokenKind::Let),
        ("const", TokenKind::Const),
        ("new", TokenKind::New),
        ("import", TokenKind::Import),
        ("from", TokenKind::From),
        ("return", TokenKind::Return),
        ("fn", TokenKind::Fn),
        ("if", TokenKind::If),
        ("else", TokenKind::Else),
        ("foreach", TokenKind::Foreach),
        ("while", TokenKind::While),
        ("for", TokenKind::For),
        ("export", TokenKind::Export),
        ("typeof", TokenKind::Typeof),
        ("in", TokenKind::In),
        ("struct", TokenKind::Struct),
    ];
    for (spelling, kind) in cases {
        let tokens = tokenize(spelling.to_string()).unwrap();
        assert_eq!(tokens[0].kind, kind, "keyword {}", spelling);
        assert_eq!(tokens[0].lexeme, spelling);
        assert_eq!(tokens[1].kind, TokenKind::EOF);
    }
}

#[test]
fn keyword_lookup_is_exact_and_case_sensitive() {
    let tokens = tokenize("Let letx lets".to_string()).unwrap();
    assert_eq!(
        kinds(&tokens),
        vec![
            TokenKind::Identifier,
            TokenKind::Identifier,
            TokenKind::Identifier,
            TokenKind::EOF,
        ]
    );
}

#[test]
fn identifiers_with_underscores_and_digits() {
    let tokens = tokenize("_x9 __ a_b_c".to_string()).unwrap();
    assert_eq!(tokens[0].lexeme, "_x9");
    assert_eq!(tokens[1].lexeme, "__");
    assert_eq!(tokens[2].lexeme, "a_b_c");
    assert_eq!(tokens[0].kind, TokenKind::Identifier);
}

#[test]
fn all_operators_tokenized() {
    let cases = [
        ("[", TokenKind::OpenBracket),
        ("]", TokenKind::CloseBracket),
        ("{", TokenKind::OpenCurly),
        ("}", TokenKind::CloseCurly),
        ("(", TokenKind::OpenParen),
        (")", TokenKind::CloseParen),
        ("==", TokenKind::Equals),
        ("!=", TokenKind::NotEquals),
        ("!", TokenKind::Not),
        ("=", TokenKind::Assignment),
        ("<=", TokenKind::LessEquals),
        ("<", TokenKind::Less),
        (">=", TokenKind::GreaterEquals),
        (">", TokenKind::Greater),
        ("||", TokenKind::Or),
        ("&&", TokenKind::And),
        (".", TokenKind::Dot),
        (";", TokenKind::Semicolon),
        (":", TokenKind::Colon),
        ("?", TokenKind::Question),
        (",", TokenKind::Comma),
        ("++", TokenKind::PlusPlus),
        ("->", TokenKind::Arrow),
        ("--", TokenKind::MinusMinus),
        ("+=", TokenKind::PlusEquals),
        ("-=", TokenKind::MinusEquals),
        ("+", TokenKind::Plus),
        ("-", TokenKind::Dash),
        ("/", TokenKind::Slash),
        ("*", TokenKind::Star),
        ("%", TokenKind::Percent),
    ];
    for (spelling, kind) in cases {
        let tokens = tokenize(spelling.to_string()).unwrap();
        assert_eq!(tokens.len(), 2, "operator {}", spelling);
        assert_eq!(tokens[0].kind, kind, "operator {}", spelling);
        assert_eq!(tokens[0].lexeme, spelling);
    }
}

#[test]
fn maximal_munch_pairs_stay_single() {
    let expected = [
        ("==", TokenKind::Equals),
        ("!=", TokenKind::NotEquals),
        ("<=", TokenKind::LessEquals),
        (">=", TokenKind::GreaterEquals),
        ("||", TokenKind::Or),
        ("&&", TokenKind::And),
        ("++", TokenKind::PlusPlus),
        ("->", TokenKind::Arrow),
        ("--", TokenKind::MinusMinus),
        ("+=", TokenKind::PlusEquals),
        ("-=", TokenKind::MinusEquals),
    ];
    for (spelling, kind) in expected {
        let tokens = tokenize(spelling.to_string()).unwrap();
        assert_eq!(tokens.len(), 2, "operator {}", spelling);
        assert_eq!(tokens[0].kind, kind, "operator {}", spelling);
    }
}

#[test]
fn whitespace_variants_skipped() {
    let tokens = tokenize(" \t\r\n x \u{b}\u{c} ".to_string()).unwrap();
    assert_eq!(kinds(&tokens), vec![TokenKind::Identifier, TokenKind::EOF]);
}

#[test]
fn comment_at_end_without_newline() {
    let tokens = tokenize("let // trailing".to_string()).unwrap();
    assert_eq!(kinds(&tokens), vec![TokenKind::Let, TokenKind::EOF]);
}

#[test]
fn slash_alone_is_division() {
    let tokens = tokenize("a / b".to_string()).unwrap();
    assert_eq!(
        kinds(&tokens),
        vec![TokenKind::Identifier, TokenKind::Slash, TokenKind::Identifier, TokenKind::EOF]
    );
}

#[test]
fn single_pipe_or_ampersand_fails() {
    let err = tokenize("a | b".to_string()).unwrap_err();
    assert_eq!(*err.get_span(), Span { start: 2, end: 3 });
    let err = tokenize("a & b".to_string()).unwrap_err();
    assert_eq!(*err.get_span(), Span { start: 2, end: 3 });
}

#[test]
fn eof_span_sits_at_input_length() {
    let tokens = tokenize("foreach".to_string()).unwrap();
    let last = tokens.last().unwrap();
    assert_eq!(last.kind, TokenKind::EOF);
    assert_eq!(last.span, Span { start: 7, end: 7 });
}

#[test]
fn spans_are_ordered_and_non_overlapping() {
    let tokens = tokenize("fn f(a, b) -> c { return a + b; }".to_string()).unwrap();
    for w in tokens.windows(2) {
        assert!(w[0].span.end <= w[1].span.start);
        assert!(w[0].span.start <= w[0].span.end);
    }
}

#[test]
fn lexer_cursor_methods() {
    let mut lex = Lexer::new("ab".to_string());
    assert!(!lex.is_at_eof());
    assert_eq!(lex.at(), 'a');
    assert_eq!(lex.remainder(), vec!['a', 'b']);
    lex.advance_n(1);
    assert_eq!(lex.at(), 'b');
    assert_eq!(lex.remainder(), vec!['b']);
    lex.advance_n(1);
    assert!(lex.is_at_eof());
    assert_eq!(lex.remainder(), Vec::<char>::new());
    lex.push(Token {
        kind: TokenKind::Identifier,
        lexeme: "ab".to_string(),
        span: Span { start: 0, end: 2 },
    });
}

#[test]
fn error_accessors() {
    let err = Error::new(
        ErrorImpl::UnrecognisedToken { token: "~".to_string() },
        Span { start: 3, end: 4 },
    );
    assert_eq!(*err.get_span(), Span { start: 3, end: 4 });
    assert_eq!(err.get_error_name(), "UnrecognisedToken");
    assert_eq!(err.get_tip().text(), "Check for typos or unsupported characters.");
    assert_eq!(ErrorTip::NoTip.text(), "");
}

#[test]
fn reserved_lookup_hits_and_misses() {
    assert_eq!(reserved_lookup(&"while".to_string()), Some(TokenKind::While));
    assert_eq!(reserved_lookup(&"struct".to_string()), Some(TokenKind::Struct));
    assert_eq!(reserved_lookup(&"whilst".to_string()), None);
    assert_eq!(reserved_lookup(&"LET".to_string()), None);
    assert_eq!(reserved_lookup(&"".to_string()), None);
}
