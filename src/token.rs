//! Tokens: classified lexemes with their source line.
use vstd::prelude::*;
use crate::text::{decimal, push_decimal};
use crate::ttypes::{category_name, TokenType};

verus! {

/// What a token holds, as mathematical values.
pub struct TokenView {
    pub ttype: TokenType,
    /// The exact source text the token was made from.
    pub lexeme: Seq<char>,
    /// The decoded payload of a literal token; empty for the others.
    pub literal: Seq<char>,
    /// The 1-based line on which the token begins.
    pub line: nat,
}

/// A classified lexeme. Tokens are built once and never changed.
#[derive(PartialEq, Debug)]
pub struct Token {
    ttype: TokenType,
    lexeme: String,
    literal: String,
    line: usize,
}

impl View for Token {
    type V = TokenView;

    closed spec fn view(&self) -> TokenView {
        TokenView {
            ttype: self.ttype,
            lexeme: self.lexeme@,
            literal: self.literal@,
            line: self.line as nat,
        }
    }
}

/// The textual rendering of a token:
/// `Token(<category>, <lexeme>, <literal or None>, <line>)`.
pub open spec fn token_repr(t: TokenView) -> Seq<char> {
    "Token("@ + category_name(t.ttype) + ", "@ + t.lexeme + ", "@
        + (if t.literal.len() == 0 { "None"@ } else { t.literal }) + ", "@
        + decimal(t.line) + ")"@
}

impl Token {
    pub fn new(ttype: TokenType, lexeme: String, literal: String, line: usize) -> (r: Self)
        ensures
            r@ == (TokenView { ttype, lexeme: lexeme@, literal: literal@, line: line as nat }),
    {
        Token { ttype, lexeme, literal, line }
    }

    /// Renders the token as `token_repr` describes.
    pub fn repr(&self) -> (r: String)
        ensures
            r@ == token_repr(self@),
    {
        let mut s = String::from_str("Token(");
        s.append(self.ttype.name());
        s.append(", ");
        s.append(self.lexeme.as_str());
        s.append(", ");
        if self.literal.as_str().is_empty() {
            s.append("None");
        } else {
            s.append(self.literal.as_str());
        }
        s.append(", ");
        push_decimal(&mut s, self.line);
        s.append(")");
        s
    }

    pub fn get_literal(&self) -> (r: String)
        ensures
            r@ == self@.literal,
    {
        self.literal.clone()
    }

    pub fn ttype(&self) -> (r: TokenType)
        ensures
            r == self@.ttype,
    {
        self.ttype
    }

    pub fn lexeme(&self) -> (r: &str)
        ensures
            r@ == self@.lexeme,
    {
        self.lexeme.as_str()
    }

    pub fn line(&self) -> (r: usize)
        ensures
            r as nat == self@.line,
    {
        self.line
    }
}

/// The empty string, which non-literal tokens carry as their literal.
pub fn empty_string() -> (r: String)
    ensures
        r@ == Seq::<char>::empty(),
{
    String::new()
}

/// The end-of-input marker for the given line: empty lexeme, empty literal.
pub fn eof_token(line: usize) -> (r: Token)
    ensures
        r@ == (TokenView {
            ttype: TokenType::EOF,
            lexeme: Seq::empty(),
            literal: Seq::empty(),
            line: line as nat,
        }),
{
    Token::new(TokenType::EOF, empty_string(), empty_string(), line)
}

} // verus!
