//! The closed set of lexical categories.
use vstd::prelude::*;

verus! {

/// Every category a token can belong to.
#[allow(non_camel_case_types)]
#[derive(Debug, Clone, Copy, PartialEq, Eq, Structural)]
pub enum TokenType {
    // Literals
    NUMBER,
    STRING,
    // Single-character punctuation
    PLUS,
    MINUS,
    LEFT_PAREN,
    RIGHT_PAREN,
    LEFT_BRACE,
    RIGHT_BRACE,
    LEFT_SQBR,
    RIGHT_SQBR,
    COMMA,
    DOT,
    SEMICOLON,
    SLASH,
    STAR,
    // One- or two-character operators
    BANG,
    BANG_EQ,
    EQ,
    EQ_EQ,
    GREATER,
    GREATER_EQ,
    LESS,
    LESS_EQ,
    // Keywords
    FOR,
    GLOBAL,
    LET,
    // Structural markers
    NEWLINE,
    EOF,
}

/// The printed name of a category: the identifier of its variant.
pub open spec fn category_name(t: TokenType) -> Seq<char> {
    match t {
        TokenType::NUMBER => "NUMBER"@,
        TokenType::STRING => "STRING"@,
        TokenType::PLUS => "PLUS"@,
        TokenType::MINUS => "MINUS"@,
        TokenType::LEFT_PAREN => "LEFT_PAREN"@,
        TokenType::RIGHT_PAREN => "RIGHT_PAREN"@,
        TokenType::LEFT_BRACE => "LEFT_BRACE"@,
        TokenType::RIGHT_BRACE => "RIGHT_BRACE"@,
        TokenType::LEFT_SQBR => "LEFT_SQBR"@,
        TokenType::RIGHT_SQBR => "RIGHT_SQBR"@,
        TokenType::COMMA => "COMMA"@,
        TokenType::DOT => "DOT"@,
        TokenType::SEMICOLON => "SEMICOLON"@,
        TokenType::SLASH => "SLASH"@,
        TokenType::STAR => "STAR"@,
        TokenType::BANG => "BANG"@,
        TokenType::BANG_EQ => "BANG_EQ"@,
        TokenType::EQ => "EQ"@,
        TokenType::EQ_EQ => "EQ_EQ"@,
        TokenType::GREATER => "GREATER"@,
        TokenType::GREATER_EQ => "GREATER_EQ"@,
        TokenType::LESS => "LESS"@,
        TokenType::LESS_EQ => "LESS_EQ"@,
        TokenType::FOR => "FOR"@,
        TokenType::GLOBAL => "GLOBAL"@,
        TokenType::LET => "LET"@,
        TokenType::NEWLINE => "NEWLINE"@,
        TokenType::EOF => "EOF"@,
    }
}

impl TokenType {
    /// The printed name of this category, as `category_name` gives it.
    pub fn name(&self) -> (r: &'static str)
        ensures
            r@ == category_name(*self),
    {
        match self {
            TokenType::NUMBER => "NUMBER",
            TokenType::STRING => "STRING",
            TokenType::PLUS => "PLUS",
            TokenType::MINUS => "MINUS",
            TokenType::LEFT_PAREN => "LEFT_PAREN",
            TokenType::RIGHT_PAREN => "RIGHT_PAREN",
            TokenType::LEFT_BRACE => "LEFT_BRACE",
            TokenType::RIGHT_BRACE => "RIGHT_BRACE",
            TokenType::LEFT_SQBR => "LEFT_SQBR",
            TokenType::RIGHT_SQBR => "RIGHT_SQBR",
            TokenType::COMMA => "COMMA",
            TokenType::DOT => "DOT",
            TokenType::SEMICOLON => "SEMICOLON",
            TokenType::SLASH => "SLASH",
            TokenType::STAR => "STAR",
            TokenType::BANG => "BANG",
            TokenType::BANG_EQ => "BANG_EQ",
            TokenType::EQ => "EQ",
            TokenType::EQ_EQ => "EQ_EQ",
            TokenType::GREATER => "GREATER",
            TokenType::GREATER_EQ => "GREATER_EQ",
            TokenType::LESS => "LESS",
            TokenType::LESS_EQ => "LESS_EQ",
            TokenType::FOR => "FOR",
            TokenType::GLOBAL => "GLOBAL",
            TokenType::LET => "LET",
            TokenType::NEWLINE => "NEWLINE",
            TokenType::EOF => "EOF",
        }
    }
}

} // verus!
