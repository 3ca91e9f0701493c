//! The meaning of scanning, as spec functions over the source characters.
//!
//! `lex_step` says what the scanner does at one position; `scan_from` says what
//! a whole scan produces from a position and a line number onwards.
use vstd::prelude::*;
use crate::token::TokenView;
use crate::ttypes::TokenType;

verus! {

/// The number of newline characters in `s`.
pub open spec fn newlines(s: Seq<char>) -> nat
    decreases s.len(),
{
    if s.len() == 0 {
        0
    } else {
        newlines(s.drop_last()) + if s.last() == '\n' { 1nat } else { 0nat }
    }
}

/// The category of a character that is a token on its own.
pub open spec fn single_char_type(c: char) -> Option<TokenType> {
    if c == '(' { Some(TokenType::LEFT_PAREN) }
    else if c == ')' { Some(TokenType::RIGHT_PAREN) }
    else if c == '{' { Some(TokenType::LEFT_BRACE) }
    else if c == '}' { Some(TokenType::RIGHT_BRACE) }
    else if c == '[' { Some(TokenType::LEFT_SQBR) }
    else if c == ']' { Some(TokenType::RIGHT_SQBR) }
    else if c == ',' { Some(TokenType::COMMA) }
    else if c == '.' { Some(TokenType::DOT) }
    else if c == '-' { Some(TokenType::MINUS) }
    else if c == '+' { Some(TokenType::PLUS) }
    else if c == ';' { Some(TokenType::SEMICOLON) }
    else if c == '*' { Some(TokenType::STAR) }
    else { None }
}

/// For an operator character, its category alone and its category when
/// followed by `=`.
pub open spec fn operator_types(c: char) -> Option<(TokenType, TokenType)> {
    if c == '!' { Some((TokenType::BANG, TokenType::BANG_EQ)) }
    else if c == '=' { Some((TokenType::EQ, TokenType::EQ_EQ)) }
    else if c == '<' { Some((TokenType::LESS, TokenType::LESS_EQ)) }
    else if c == '>' { Some((TokenType::GREATER, TokenType::GREATER_EQ)) }
    else { None }
}

/// Characters that separate tokens and make none.
pub open spec fn is_blank(c: char) -> bool {
    c == ' ' || c == '\r' || c == '\t'
}

/// Where a line comment whose text starts at `j` ends: at the next newline,
/// which it does not include, or at the end of the source.
pub open spec fn comment_end(src: Seq<char>, j: int) -> int
    decreases src.len() - j,
{
    if j >= src.len() {
        src.len() as int
    } else if src[j] == '\n' {
        j
    } else {
        comment_end(src, j + 1)
    }
}

/// The position of the quote that closes a string literal whose contents
/// start at `j`, if any. The character after a backslash never closes it.
pub open spec fn closing_quote(src: Seq<char>, j: int) -> Option<int>
    decreases src.len() + 1 - j,
{
    if j >= src.len() {
        None
    } else if src[j] == '"' {
        Some(j)
    } else if src[j] == '\\' {
        closing_quote(src, j + 2)
    } else {
        closing_quote(src, j + 1)
    }
}

/// What the scanner does with the text that starts at one position.
pub enum Lexed {
    /// A token made of the text up to `end`, carrying `literal`.
    Emit { ttype: TokenType, end: int, literal: Seq<char> },
    /// Text up to `end` that makes no token: a blank or a comment.
    Skip { end: int },
    /// A character that no rule accepts: it is reported and passed over.
    Unexpected,
    /// A string literal that the source ends inside.
    Unclosed,
}

/// One step of the scanner at position `i` of `src`.
pub open spec fn lex_step(src: Seq<char>, i: int) -> Lexed {
    let c = src[i];
    let next_is = |x: char| i + 1 < src.len() && src[i + 1] == x;
    if single_char_type(c) is Some {
        Lexed::Emit { ttype: single_char_type(c)->0, end: i + 1, literal: Seq::empty() }
    } else if operator_types(c) is Some {
        if next_is('=') {
            Lexed::Emit { ttype: (operator_types(c)->0).1, end: i + 2, literal: Seq::empty() }
        } else {
            Lexed::Emit { ttype: (operator_types(c)->0).0, end: i + 1, literal: Seq::empty() }
        }
    } else if is_blank(c) {
        Lexed::Skip { end: i + 1 }
    } else if c == '\n' {
        Lexed::Emit { ttype: TokenType::NEWLINE, end: i + 1, literal: Seq::empty() }
    } else if c == '/' {
        if next_is('/') {
            Lexed::Skip { end: comment_end(src, i + 2) }
        } else {
            Lexed::Emit { ttype: TokenType::SLASH, end: i + 1, literal: Seq::empty() }
        }
    } else if c == '"' {
        match closing_quote(src, i + 1) {
            Some(q) => Lexed::Emit { ttype: TokenType::STRING, end: q + 1, literal: src.subrange(i + 1, q) },
            None => Lexed::Unclosed,
        }
    } else {
        Lexed::Unexpected
    }
}

/// What a scan produces: the tokens, the reports of unexpected characters
/// (each with its line), and, where a string literal is left open, the line
/// on which it began.
pub struct Scan {
    pub tokens: Seq<TokenView>,
    pub reports: Seq<(char, nat)>,
    pub unclosed: Option<nat>,
}

/// The end-of-input token on a line.
pub open spec fn eof_view(line: nat) -> TokenView {
    TokenView { ttype: TokenType::EOF, lexeme: Seq::empty(), literal: Seq::empty(), line }
}

/// The scan of `src` from position `i`, which lies on line `line`.
/// A token's line is the line on which its text begins. Once the source is
/// exhausted a single end-of-input token is added; an open string literal
/// stops the scan with no such token.
pub open spec fn scan_from(src: Seq<char>, i: int, line: nat) -> Scan
    decreases src.len() - i,
    via scan_from_decreases
{
    if i >= src.len() {
        Scan { tokens: seq![eof_view(line)], reports: Seq::empty(), unclosed: None }
    } else {
        match lex_step(src, i) {
            Lexed::Emit { ttype, end, literal } => {
                let tok = TokenView { ttype, lexeme: src.subrange(i, end), literal, line };
                let rest = scan_from(src, end, line + newlines(src.subrange(i, end)));
                Scan { tokens: seq![tok] + rest.tokens, reports: rest.reports, unclosed: rest.unclosed }
            },
            Lexed::Skip { end } => scan_from(src, end, line + newlines(src.subrange(i, end))),
            Lexed::Unexpected => {
                let rest = scan_from(src, i + 1, line);
                Scan {
                    tokens: rest.tokens,
                    reports: seq![(src[i], line)] + rest.reports,
                    unclosed: rest.unclosed,
                }
            },
            Lexed::Unclosed => Scan { tokens: Seq::empty(), reports: Seq::empty(), unclosed: Some(line) },
        }
    }
}

/// The scan of a whole source, from its first character on line 1.
pub open spec fn scan(src: Seq<char>) -> Scan {
    scan_from(src, 0, 1)
}

pub proof fn lemma_comment_end_bounds(src: Seq<char>, j: int)
    requires
        j <= src.len(),
    ensures
        j <= comment_end(src, j) <= src.len(),
    decreases src.len() - j,
{
    if j < src.len() && src[j] != '\n' {
        lemma_comment_end_bounds(src, j + 1);
    }
}

pub proof fn lemma_closing_quote_bounds(src: Seq<char>, j: int)
    ensures
        closing_quote(src, j) matches Some(q) ==> j <= q < src.len() && src[q] == '"',
    decreases src.len() + 1 - j,
{
    if j < src.len() && src[j] != '"' {
        if src[j] == '\\' {
            lemma_closing_quote_bounds(src, j + 2);
        } else {
            lemma_closing_quote_bounds(src, j + 1);
        }
    }
}

/// Every step that does not fail moves past at least one character and stays
/// within the source.
pub proof fn lemma_lex_step_progress(src: Seq<char>, i: int)
    requires
        0 <= i < src.len(),
    ensures
        lex_step(src, i) matches Lexed::Emit { end, .. } ==> i < end <= src.len(),
        lex_step(src, i) matches Lexed::Skip { end } ==> i < end <= src.len(),
{
    if i + 1 < src.len() {
        lemma_comment_end_bounds(src, i + 2);
    }
    lemma_closing_quote_bounds(src, i + 1);
}

#[via_fn]
proof fn scan_from_decreases(src: Seq<char>, i: int, line: nat) {
    if i < src.len() {
        if i < 0 {
            if i + 1 < src.len() {
                lemma_comment_end_bounds(src, i + 2);
            }
            lemma_closing_quote_bounds(src, i + 1);
        } else {
            lemma_lex_step_progress(src, i);
        }
    }
}

/// Counting newlines one character further.
pub proof fn lemma_newlines_extend(src: Seq<char>, a: int, b: int)
    requires
        0 <= a <= b < src.len(),
    ensures
        newlines(src.subrange(a, b + 1)) == newlines(src.subrange(a, b))
            + if src[b] == '\n' { 1nat } else { 0nat },
{
    assert(src.subrange(a, b + 1).drop_last() =~= src.subrange(a, b));
}

} // verus!
