//! The ways in which compiling a definition list can fail.
use vstd::prelude::*;

verus! {

/// Why an input was rejected.
#[derive(Debug, Clone, Copy, PartialEq, Eq, Structural)]
pub enum CompileError {
    /// The expression text holds a character that starts no token, or a
    /// decimal literal that does not fit in 64 bits; the character is the
    /// offending one, respectively the literal's first digit.
    LexError(char),
    /// The tokens do not form an expression, or a definition is malformed.
    ParseError,
    /// The image would reach past the highest address that the emitted
    /// 32-bit absolute and relative operands can name.
    ImageTooLarge,
}

impl CompileError {
    /// A one-line description for the person who typed the input.
    pub fn message(&self) -> (r: &'static str)
        ensures
            r@ == match *self {
                CompileError::LexError(_) => "unexpected character"@,
                CompileError::ParseError => "malformed expression or definition"@,
                CompileError::ImageTooLarge => "image too large"@,
            },
    {
        match self {
            CompileError::LexError(_) => "unexpected character",
            CompileError::ParseError => "malformed expression or definition",
            CompileError::ImageTooLarge => "image too large",
        }
    }
}

} // verus!
