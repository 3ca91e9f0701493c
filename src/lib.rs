//! Lexical analysis for a small source-to-source translator: a scanner that
//! turns source text into a sequence of classified tokens.
pub mod diagnostics;
pub mod laws;
pub mod model;
pub mod scanner;
pub mod text;
pub mod token;
pub mod ttypes;

pub use diagnostics::{ScanError, UnexpectedChar};
pub use scanner::{Scanner, ScannerView};
pub use token::{empty_string, eof_token, Token, TokenView};
pub use ttypes::TokenType;
