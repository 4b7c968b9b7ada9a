//! The six kinds of piece.

use vstd::prelude::*;
use super::errors::SError;
use crate::text::same_text;

verus! {

/// A kind of piece. A piece has no colour and no state of its own.
#[derive(Clone, Copy, Debug, PartialEq, Eq, Hash, Structural)]
pub enum Piece {
    King,
    Queen,
    Bishop,
    Knight,
    Rook,
    Pawn,
}

impl Piece {
    /// The letter that stands for the piece in notation.
    pub open spec fn letter(self) -> char {
        match self {
            Piece::King => 'K',
            Piece::Queen => 'Q',
            Piece::Bishop => 'B',
            Piece::Knight => 'N',
            Piece::Rook => 'R',
            Piece::Pawn => 'P',
        }
    }

    /// The chess glyph that stands for the piece in a decorated board.
    pub open spec fn glyph(self) -> char {
        match self {
            Piece::King => '\u{2654}',
            Piece::Queen => '\u{2655}',
            Piece::Bishop => '\u{2657}',
            Piece::Knight => '\u{2658}',
            Piece::Rook => '\u{2656}',
            Piece::Pawn => '\u{2659}',
        }
    }

    /// The piece's name in full.
    pub open spec fn name(self) -> Seq<char> {
        match self {
            Piece::King => "King"@,
            Piece::Queen => "Queen"@,
            Piece::Bishop => "Bishop"@,
            Piece::Knight => "Knight"@,
            Piece::Rook => "Rook"@,
            Piece::Pawn => "Pawn"@,
        }
    }

    /// The piece whose letter is `c`, if there is one.
    pub open spec fn of_letter(c: char) -> Option<Piece> {
        if c == 'K' {
            Some(Piece::King)
        } else if c == 'Q' {
            Some(Piece::Queen)
        } else if c == 'B' {
            Some(Piece::Bishop)
        } else if c == 'N' {
            Some(Piece::Knight)
        } else if c == 'R' {
            Some(Piece::Rook)
        } else if c == 'P' {
            Some(Piece::Pawn)
        } else {
            None
        }
    }

    /// Whether `text` denotes `self`: by its letter alone or by its full name.
    pub open spec fn is_denoted_by(self, text: Seq<char>) -> bool {
        text == seq![self.letter()] || text == self.name()
    }

    /// The piece's letter as a string.
    pub fn to_string(&self) -> (s: String)
        ensures
            s@ == seq![self.letter()],
    {
        proof {
            reveal_strlit("K");
            reveal_strlit("Q");
            reveal_strlit("B");
            reveal_strlit("N");
            reveal_strlit("R");
            reveal_strlit("P");
        }
        let s = match self {
            Piece::King => String::from_str("K"),
            Piece::Queen => String::from_str("Q"),
            Piece::Bishop => String::from_str("B"),
            Piece::Knight => String::from_str("N"),
            Piece::Rook => String::from_str("R"),
            Piece::Pawn => String::from_str("P"),
        };
        assert(s@ =~= seq![self.letter()]);
        s
    }

    /// The piece's glyph as a string.
    pub fn pretty(&self) -> (s: String)
        ensures
            s@ == seq![self.glyph()],
    {
        proof {
            reveal_strlit("\u{2654}");
            reveal_strlit("\u{2655}");
            reveal_strlit("\u{2657}");
            reveal_strlit("\u{2658}");
            reveal_strlit("\u{2656}");
            reveal_strlit("\u{2659}");
        }
        let s = match self {
            Piece::King => String::from_str("\u{2654}"),
            Piece::Queen => String::from_str("\u{2655}"),
            Piece::Bishop => String::from_str("\u{2657}"),
            Piece::Knight => String::from_str("\u{2658}"),
            Piece::Rook => String::from_str("\u{2656}"),
            Piece::Pawn => String::from_str("\u{2659}"),
        };
        assert(s@ =~= seq![self.glyph()]);
        s
    }

    /// The piece that the character denotes.
    pub fn from_char(c: char) -> (piece: Option<Piece>)
        ensures
            piece == Piece::of_letter(c),
    {
        if c == 'K' {
            Some(Piece::King)
        } else if c == 'Q' {
            Some(Piece::Queen)
        } else if c == 'B' {
            Some(Piece::Bishop)
        } else if c == 'N' {
            Some(Piece::Knight)
        } else if c == 'R' {
            Some(Piece::Rook)
        } else if c == 'P' {
            Some(Piece::Pawn)
        } else {
            None
        }
    }

    /// Reads a piece from its letter or from its full name. Both are case
    /// sensitive; any other text is no piece.
    pub fn try_from(text: &str) -> (parsed: Result<Piece, SError>)
        ensures
            match parsed {
                Ok(piece) => piece.is_denoted_by(text@),
                Err(e) => e == SError::InvalidNotation && forall|p: Piece|
                    !p.is_denoted_by(text@),
            },
    {
        proof {
            reveal_strlit("K");
            reveal_strlit("Q");
            reveal_strlit("B");
            reveal_strlit("N");
            reveal_strlit("R");
            reveal_strlit("P");
            assert("K"@ =~= seq!['K']);
            assert("Q"@ =~= seq!['Q']);
            assert("B"@ =~= seq!['B']);
            assert("N"@ =~= seq!['N']);
            assert("R"@ =~= seq!['R']);
            assert("P"@ =~= seq!['P']);
        }
        if same_text(text, "K") || same_text(text, "King") {
            Ok(Piece::King)
        } else if same_text(text, "Q") || same_text(text, "Queen") {
            Ok(Piece::Queen)
        } else if same_text(text, "B") || same_text(text, "Bishop") {
            Ok(Piece::Bishop)
        } else if same_text(text, "N") || same_text(text, "Knight") {
            Ok(Piece::Knight)
        } else if same_text(text, "R") || same_text(text, "Rook") {
            Ok(Piece::Rook)
        } else if same_text(text, "P") || same_text(text, "Pawn") {
            Ok(Piece::Pawn)
        } else {
            assert forall|p: Piece| !p.is_denoted_by(text@) by {
                match p {
                    Piece::King => {},
                    Piece::Queen => {},
                    Piece::Bishop => {},
                    Piece::Knight => {},
                    Piece::Rook => {},
                    Piece::Pawn => {},
                }
            }
            Err(SError::InvalidNotation)
        }
    }
}

} // verus!
