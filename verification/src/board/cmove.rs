//! A capture: one piece takes another.

use vstd::prelude::*;
use vstd::string::StringExecFns;
use super::errors::SError;
use super::piece::Piece;
use super::square::{file_letter, location_text, on_board, OccupiedModel, OccupiedSquare};

verus! {

/// What a capture is, as plain values: the piece that moves, with the square
/// it leaves, and the piece that is taken, with the square it stood on.
pub struct CaptureModel {
    pub from: OccupiedModel,
    pub to: OccupiedModel,
}

/// The character that tells the mover apart in a capture's text: the letter
/// of the piece, but for a pawn the letter of the file it leaves.
pub open spec fn qualifier(from: OccupiedModel) -> char {
    match from.piece {
        Piece::Pawn => file_letter(from.at.0),
        piece => piece.letter(),
    }
}

/// The text of a capture: the qualifier, an `x`, and the destination.
pub open spec fn capture_text(capture: CaptureModel) -> Seq<char> {
    seq![qualifier(capture.from), 'x'] + location_text(capture.to.at)
}

/// A capture, recorded with the pieces that stood on its two squares when it
/// was formed. The two squares always differ.
#[derive(Clone, Copy, Debug, PartialEq, Eq, Hash, Structural)]
pub struct CMove {
    from: OccupiedSquare,
    to: OccupiedSquare,
}

impl View for CMove {
    type V = CaptureModel;

    closed spec fn view(&self) -> CaptureModel {
        CaptureModel { from: self.from@, to: self.to@ }
    }
}

impl CMove {
    /// Both squares lie on the board, at different locations.
    pub open spec fn wf(self) -> bool {
        on_board(self@.from.at) && on_board(self@.to.at) && self@.from.at != self@.to.at
    }

    /// Two captures with the same squares and pieces are the same capture.
    pub proof fn lemma_same_view(self, other: CMove)
        requires
            self@ == other@,
        ensures
            self == other,
    {
        self.from.lemma_same_view(other.from);
        self.to.lemma_same_view(other.to);
    }

    /// Every pair of pieces on different squares of the board is the view of
    /// a capture.
    pub proof fn lemma_exists(model: CaptureModel) -> (mv: CMove)
        requires
            on_board(model.from.at),
            on_board(model.to.at),
            model.from.at != model.to.at,
        ensures
            mv@ == model,
            mv.wf(),
    {
        let from = OccupiedSquare::lemma_exists(model.from);
        let to = OccupiedSquare::lemma_exists(model.to);
        CMove { from, to }
    }

    /// Forms the capture of the piece on `to` by the piece on `from`. There
    /// is none from a square to itself.
    pub fn try_new(from: OccupiedSquare, to: OccupiedSquare) -> (made: Result<CMove, SError>)
        requires
            from.wf(),
            to.wf(),
        ensures
            match made {
                Ok(mv) => mv.wf() && mv@ == (CaptureModel { from: from@, to: to@ }),
                Err(e) => e == SError::InvalidMove && from@.at == to@.at,
            },
    {
        let a = from.location();
        let b = to.location();
        if a.file() == b.file() && a.rank() == b.rank() {
            return Err(SError::InvalidMove);
        }
        Ok(CMove { from, to })
    }

    /// The capture's text, such as `Nxc2`, or `bxa4` for a pawn from the
    /// b file.
    pub fn notation(&self) -> (s: String)
        requires
            self.wf(),
        ensures
            s@ == capture_text(self@),
    {
        let mut s = match self.from.piece() {
            Piece::Pawn => self.from.location().file_notation(),
            piece => piece.to_string(),
        };
        proof {
            reveal_strlit("x");
        }
        s.append("x");
        let destination = self.to.location().notation();
        s.append(destination.as_str());
        assert(s@ =~= capture_text(self@));
        s
    }

    /// The square that the moving piece leaves.
    pub fn from(&self) -> (sq: &OccupiedSquare)
        ensures
            sq@ == self@.from,
    {
        &self.from
    }

    /// The square of the piece that is taken.
    pub fn to(&self) -> (sq: &OccupiedSquare)
        ensures
            sq@ == self@.to,
    {
        &self.to
    }

    /// How many files the destination lies to the right of the origin.
    pub fn dx(&self) -> (dx: isize)
        ensures
            dx == self@.to.at.0 - self@.from.at.0,
    {
        self.to.location().file() as isize - self.from.location().file() as isize
    }

    /// How many ranks the destination lies below the origin.
    pub fn dy(&self) -> (dy: isize)
        ensures
            dy == self@.to.at.1 - self@.from.at.1,
    {
        self.to.location().rank() as isize - self.from.location().rank() as isize
    }
}

} // verus!
