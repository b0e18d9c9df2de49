//! The error taxonomy of the translator.
//!
//! Every error is fatal to the run: the translator stops at the first one and
//! surfaces it as a typed value, so callers can inspect it and continue.

use vstd::prelude::*;

verus! {

/// A fatal translation error, tagged with the source line it was detected on.
#[derive(Debug, Clone, PartialEq, Eq)]
pub enum Error {
    /// A character-level fault: a byte outside the ASCII range, or a numeric
    /// literal too large for its representation.
    Lexical(u32),
    /// An unexpected token; carries the offending lexeme (or a short
    /// description when no lexeme applies).
    Syntax(u32, String),
    /// An identifier used without a declaration in the enclosing scope chain;
    /// carries the name.
    Undeclared(u32, String),
    /// An arithmetic, logical, relational or assignment operand mismatch.
    TypeError(u32),
    /// A `break` with no enclosing loop at parse time.
    UnenclosedBreak(u32),
}

impl Error {
    /// The source line the error was reported on.
    pub fn line(&self) -> (l: u32)
        ensures
            l == self.line_spec(),
    {
        match self {
            Error::Lexical(n) => *n,
            Error::Syntax(n, _) => *n,
            Error::Undeclared(n, _) => *n,
            Error::TypeError(n) => *n,
            Error::UnenclosedBreak(n) => *n,
        }
    }

    pub open spec fn line_spec(self) -> u32 {
        match self {
            Error::Lexical(n) => n,
            Error::Syntax(n, _) => n,
            Error::Undeclared(n, _) => n,
            Error::TypeError(n) => n,
            Error::UnenclosedBreak(n) => n,
        }
    }
}

} // verus!
