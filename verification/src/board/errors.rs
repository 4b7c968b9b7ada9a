//! What can go wrong when a value is built from outside input.

use vstd::prelude::*;

verus! {

/// Why a value could not be built.
#[derive(Clone, Copy, Debug, PartialEq, Eq, Structural)]
pub enum SError {
    /// A board layout or a board identity that no position has.
    InvalidBoard,
    /// A piece, location or square that cannot be read or formed.
    InvalidNotation,
    /// A move that would start and end on the same square.
    InvalidMove,
}

impl SError {
    /// The text that describes the error.
    pub open spec fn message(self) -> Seq<char> {
        match self {
            SError::InvalidBoard => "invalid board"@,
            SError::InvalidNotation => "invalid notation"@,
            SError::InvalidMove => "invalid move"@,
        }
    }

    /// Describes the error in words.
    pub fn to_string(&self) -> (s: String)
        ensures
            s@ == self.message(),
    {
        match self {
            SError::InvalidBoard => String::from_str("invalid board"),
            SError::InvalidNotation => String::from_str("invalid notation"),
            SError::InvalidMove => String::from_str("invalid move"),
        }
    }
}

} // verus!
