use m_translate::{empty_string, ScanError, Scanner, Token, TokenType, UnexpectedChar};

fn tok(ttype: TokenType, lexeme: &str, literal: &str, line: usize) -> Token {
    Token::new(ttype, lexeme.to_string(), literal.to_string(), line)
}

fn scan_ok(src: &str) -> Vec<Token> {
    let mut scanner = Scanner::from_string(src.to_string());
    assert_eq!(scanner.scan_tokens(), Ok(()));
    scanner.into_tokens()
}

#[test]
fn step_thru_chars() {
    let s = String::from("Hello World");
    assert_eq!('H', s.chars().nth(0).unwrap());
}

#[test]
fn make_scanner() {
    let s = String::from("Hello World");
    let scanner = Scanner::from_string(s.clone());

    assert_eq!(s, String::from(scanner.get_source()));
}

#[test]
fn test_advance() {
    let s = String::from("Hello World");
    let mut scanner = Scanner::from_string(s.clone());

    for i in 0..s.len() {
        let c = scanner.advance().unwrap();
        assert_eq!(c, s.chars().nth(i).unwrap());
    }
}

#[test]
fn basic_token_gen() {
    let s = String::from("()[]");
    let mut scanner = Scanner::from_string(s);

    let _ = scanner.scan_tokens();
    let compare = vec![
        Token::new(TokenType::LEFT_PAREN, String::from("("), empty_string(), 1),
        Token::new(TokenType::RIGHT_PAREN, String::from(")"), empty_string(), 1),
        Token::new(TokenType::LEFT_SQBR, String::from("["), empty_string(), 1),
        Token::new(TokenType::RIGHT_SQBR, String::from("]"), empty_string(), 1),
        Token::new(TokenType::EOF, empty_string(), empty_string(), 1),
    ];

    assert_eq!(scanner.into_tokens(), compare);
}

#[test]
fn string_parse() {
    let s = String::from("\"This is a string\"");
    let mut scanner = Scanner::from_string(s);

    let _ = scanner.scan_tokens();
    let tokens = scanner.into_tokens();
    let first = tokens[0].get_literal();

    assert_eq!(first, "This is a string".to_string());
}

#[test]
fn advance_past_end_gives_none() {
    let mut scanner = Scanner::from_string("a".to_string());
    assert_eq!(scanner.advance(), Some('a'));
    assert_eq!(scanner.advance(), None);
    assert_eq!(scanner.advance(), None);
}

#[test]
fn eof_is_always_last() {
    for src in ["", "   ", "()", "!= == <= >=", "\"s\" // c", "@#$", "a\nb\n"] {
        let tokens = scan_ok(src);
        let last = tokens.last().unwrap();
        assert_eq!(last.ttype(), TokenType::EOF);
        assert_eq!(last.lexeme(), "");
        assert_eq!(last.get_literal(), "");
        let eofs = tokens.iter().filter(|t| t.ttype() == TokenType::EOF).count();
        assert_eq!(eofs, 1);
    }
}

#[test]
fn empty_source_gives_only_eof() {
    assert_eq!(scan_ok(""), vec![tok(TokenType::EOF, "", "", 1)]);
}

#[test]
fn bang_eq_is_one_token() {
    assert_eq!(
        scan_ok("!="),
        vec![tok(TokenType::BANG_EQ, "!=", "", 1), tok(TokenType::EOF, "", "", 1)]
    );
}

#[test]
fn bang_then_space_is_one_token() {
    assert_eq!(
        scan_ok("! "),
        vec![tok(TokenType::BANG, "!", "", 1), tok(TokenType::EOF, "", "", 1)]
    );
}

#[test]
fn operators_with_and_without_eq() {
    assert_eq!(
        scan_ok("==<=>=!<>=="),
        vec![
            tok(TokenType::EQ_EQ, "==", "", 1),
            tok(TokenType::LESS_EQ, "<=", "", 1),
            tok(TokenType::GREATER_EQ, ">=", "", 1),
            tok(TokenType::BANG, "!", "", 1),
            tok(TokenType::LESS, "<", "", 1),
            tok(TokenType::GREATER_EQ, ">=", "", 1),
            tok(TokenType::EQ, "=", "", 1),
            tok(TokenType::EOF, "", "", 1),
        ]
    );
}

#[test]
fn single_character_tokens() {
    let types: Vec<TokenType> = scan_ok("(){}[],.-+;*/").iter().map(|t| t.ttype()).collect();
    assert_eq!(
        types,
        vec![
            TokenType::LEFT_PAREN,
            TokenType::RIGHT_PAREN,
            TokenType::LEFT_BRACE,
            TokenType::RIGHT_BRACE,
            TokenType::LEFT_SQBR,
            TokenType::RIGHT_SQBR,
            TokenType::COMMA,
            TokenType::DOT,
            TokenType::MINUS,
            TokenType::PLUS,
            TokenType::SEMICOLON,
            TokenType::STAR,
            TokenType::SLASH,
            TokenType::EOF,
        ]
    );
}

#[test]
fn blanks_make_no_tokens() {
    assert_eq!(
        scan_ok(" \t+\r "),
        vec![tok(TokenType::PLUS, "+", "", 1), tok(TokenType::EOF, "", "", 1)]
    );
}

#[test]
fn newline_counting() {
    assert_eq!(
        scan_ok("(\n)"),
        vec![
            tok(TokenType::LEFT_PAREN, "(", "", 1),
            tok(TokenType::NEWLINE, "\n", "", 1),
            tok(TokenType::RIGHT_PAREN, ")", "", 2),
            tok(TokenType::EOF, "", "", 2),
        ]
    );
}

#[test]
fn comment_skipping() {
    assert_eq!(
        scan_ok("// ignored\n+"),
        vec![
            tok(TokenType::NEWLINE, "\n", "", 1),
            tok(TokenType::PLUS, "+", "", 2),
            tok(TokenType::EOF, "", "", 2),
        ]
    );
}

#[test]
fn comment_to_end_of_input() {
    assert_eq!(
        scan_ok("-// (\"unclosed"),
        vec![tok(TokenType::MINUS, "-", "", 1), tok(TokenType::EOF, "", "", 1)]
    );
}

#[test]
fn string_round_trip() {
    assert_eq!(
        scan_ok("\"hi\""),
        vec![tok(TokenType::STRING, "\"hi\"", "hi", 1), tok(TokenType::EOF, "", "", 1)]
    );
}

#[test]
fn escaped_quote_preserved_raw() {
    assert_eq!(
        scan_ok("\"a\\\"b\""),
        vec![
            tok(TokenType::STRING, "\"a\\\"b\"", "a\\\"b", 1),
            tok(TokenType::EOF, "", "", 1),
        ]
    );
}

#[test]
fn multi_line_string_keeps_opening_line() {
    assert_eq!(
        scan_ok("+\"a\nb\"+"),
        vec![
            tok(TokenType::PLUS, "+", "", 1),
            tok(TokenType::STRING, "\"a\nb\"", "a\nb", 1),
            tok(TokenType::PLUS, "+", "", 2),
            tok(TokenType::EOF, "", "", 2),
        ]
    );
}

#[test]
fn escaped_newline_in_string_is_counted() {
    let tokens = scan_ok("\"a\\\n\"\n");
    assert_eq!(tokens[0], tok(TokenType::STRING, "\"a\\\n\"", "a\\\n", 1));
    assert_eq!(tokens[1], tok(TokenType::NEWLINE, "\n", "", 2));
    assert_eq!(tokens[2], tok(TokenType::EOF, "", "", 3));
}

#[test]
fn unclosed_string_is_fatal() {
    let mut scanner = Scanner::from_string("\"abc".to_string());
    assert_eq!(scanner.scan_tokens(), Err(ScanError::UnclosedString { line: 1 }));
    assert_eq!(scanner.into_tokens(), vec![]);
}

#[test]
fn unclosed_string_keeps_earlier_tokens() {
    let mut scanner = Scanner::from_string("(\n\"ab\\\"".to_string());
    assert_eq!(scanner.scan_tokens(), Err(ScanError::UnclosedString { line: 2 }));
    assert_eq!(
        scanner.into_tokens(),
        vec![tok(TokenType::LEFT_PAREN, "(", "", 1), tok(TokenType::NEWLINE, "\n", "", 1)]
    );
}

#[test]
fn backslash_at_end_leaves_string_open() {
    let mut scanner = Scanner::from_string("\"ab\\".to_string());
    assert_eq!(scanner.scan_tokens(), Err(ScanError::UnclosedString { line: 1 }));
}

#[test]
fn unexpected_character_is_advisory() {
    let mut scanner = Scanner::from_string("(@)".to_string());
    assert_eq!(scanner.scan_tokens(), Ok(()));
    assert_eq!(scanner.diagnostics(), &[UnexpectedChar { ch: '@', line: 1 }]);
    assert_eq!(
        scanner.into_tokens(),
        vec![
            tok(TokenType::LEFT_PAREN, "(", "", 1),
            tok(TokenType::RIGHT_PAREN, ")", "", 1),
            tok(TokenType::EOF, "", "", 1),
        ]
    );
}

#[test]
fn unexpected_characters_report_their_lines() {
    let mut scanner = Scanner::from_string("a\n\u{e9}+".to_string());
    assert_eq!(scanner.scan_tokens(), Ok(()));
    assert_eq!(
        scanner.diagnostics(),
        &[UnexpectedChar { ch: 'a', line: 1 }, UnexpectedChar { ch: '\u{e9}', line: 2 }]
    );
    assert_eq!(
        scanner.into_tokens(),
        vec![
            tok(TokenType::NEWLINE, "\n", "", 1),
            tok(TokenType::PLUS, "+", "", 2),
            tok(TokenType::EOF, "", "", 2),
        ]
    );
}

#[test]
fn non_ascii_string_literal() {
    assert_eq!(
        scan_ok("\"\u{e9}t\u{e9}\"("),
        vec![
            tok(TokenType::STRING, "\"\u{e9}t\u{e9}\"", "\u{e9}t\u{e9}", 1),
            tok(TokenType::LEFT_PAREN, "(", "", 1),
            tok(TokenType::EOF, "", "", 1),
        ]
    );
}

#[test]
fn scan_continues_from_the_cursor() {
    let mut scanner = Scanner::from_string("@(".to_string());
    assert_eq!(scanner.advance(), Some('@'));
    assert_eq!(scanner.scan_tokens(), Ok(()));
    assert!(scanner.diagnostics().is_empty());
    assert_eq!(
        scanner.into_tokens(),
        vec![tok(TokenType::LEFT_PAREN, "(", "", 1), tok(TokenType::EOF, "", "", 1)]
    );
}
