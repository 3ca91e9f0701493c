//! What a scan reports besides its tokens.
use vstd::prelude::*;

verus! {

/// A character that no rule accepts, with the line it stands on. Scanning
/// goes on past it.
#[derive(Debug, Clone, Copy, PartialEq, Eq, Structural)]
pub struct UnexpectedChar {
    pub ch: char,
    pub line: usize,
}

/// A failure that stops a scan.
#[derive(Debug, Clone, Copy, PartialEq, Eq, Structural)]
pub enum ScanError {
    /// The source ends inside the string literal that begins on `line`.
    UnclosedString { line: usize },
}

impl UnexpectedChar {
    pub open spec fn view_pair(self) -> (char, nat) {
        (self.ch, self.line as nat)
    }
}

} // verus!
