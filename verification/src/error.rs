//! Parse failures: what went wrong, and where.

use vstd::prelude::*;

verus! {

/// The ways in which a text can fail to match the grammar.
#[derive(Clone, Copy, Debug, PartialEq, Eq, Structural)]
pub enum ErrorKind {
    /// The character at the offset fits nothing that the grammar allows there.
    UnexpectedToken,
    /// The text ends where the grammar still requires a character.
    UnexpectedEndOfInput,
    /// The top-level object is followed by something other than whitespace.
    TrailingInput,
    /// An integer literal is larger than a signed 32-bit integer can hold.
    NumberOverflow,
}

/// A parse failure: its kind and the offset, counted in characters from the
/// start of the text, at which it was found.
#[derive(Clone, Copy, Debug, PartialEq, Eq, Structural)]
pub struct ParseError {
    pub kind: ErrorKind,
    pub offset: usize,
}

impl ParseError {
    /// The kind of the failure.
    pub fn kind(&self) -> (k: ErrorKind)
        ensures
            k == self.kind,
    {
        self.kind
    }

    /// The character offset of the failure.
    pub fn offset(&self) -> (n: usize)
        ensures
            n == self.offset,
    {
        self.offset
    }

    /// What the failure means, in words.
    pub open spec fn description_text(kind: ErrorKind) -> Seq<char> {
        match kind {
            ErrorKind::UnexpectedToken => "unexpected token"@,
            ErrorKind::UnexpectedEndOfInput => "unexpected end of input"@,
            ErrorKind::TrailingInput => "unexpected input after the top-level object"@,
            ErrorKind::NumberOverflow => "integer literal does not fit in 32 bits"@,
        }
    }

    /// A human-readable description of the failure.
    pub fn description(&self) -> (s: String)
        ensures
            s@ == Self::description_text(self.kind),
    {
        match self.kind {
            ErrorKind::UnexpectedToken => "unexpected token".to_string(),
            ErrorKind::UnexpectedEndOfInput => "unexpected end of input".to_string(),
            ErrorKind::TrailingInput => "unexpected input after the top-level object".to_string(),
            ErrorKind::NumberOverflow => "integer literal does not fit in 32 bits".to_string(),
        }
    }
}

} // verus!
