//! Locations on the board, squares, and pairs of squares.

use vstd::prelude::*;
use vstd::string::StringExecFns;
use super::constants::BOARD_SIZE;
use super::errors::SError;
use super::piece::Piece;

verus! {

/// Whether `(file, rank)` names a square of the board.
pub open spec fn on_board(at: (int, int)) -> bool {
    0 <= at.0 < 4 && 0 <= at.1 < 4
}

/// The letter of a file: `a` for the first file.
pub open spec fn file_letter(file: int) -> char {
    if file == 0 {
        'a'
    } else if file == 1 {
        'b'
    } else if file == 2 {
        'c'
    } else {
        'd'
    }
}

/// The digit of a rank as a player reads it: rank 0 is the top row and is
/// written `4`, rank 3 is the bottom row and is written `1`.
pub open spec fn rank_digit(rank: int) -> char {
    if rank == 0 {
        '4'
    } else if rank == 1 {
        '3'
    } else if rank == 2 {
        '2'
    } else {
        '1'
    }
}

/// The two characters that denote a square of the board.
pub open spec fn location_text(at: (int, int)) -> Seq<char> {
    seq![file_letter(at.0), rank_digit(at.1)]
}

/// A square's coordinates: a file and a rank, both on the board.
#[derive(Clone, Copy, Debug, PartialEq, Eq, Hash, Structural)]
pub struct Location {
    file: u8,
    rank: u8,
}

impl View for Location {
    type V = (int, int);

    /// The pair `(file, rank)`.
    closed spec fn view(&self) -> (int, int) {
        (self.file as int, self.rank as int)
    }
}

impl Location {
    /// Every location that this module hands out lies on the board.
    pub open spec fn wf(self) -> bool {
        on_board(self@)
    }

    /// Two locations with the same coordinates are the same location.
    pub proof fn lemma_same_view(self, other: Location)
        requires
            self@ == other@,
        ensures
            self == other,
    {
    }

    /// Every square of the board is the view of a location.
    pub proof fn lemma_exists(at: (int, int)) -> (loc: Location)
        requires
            on_board(at),
        ensures
            loc@ == at,
            loc.wf(),
    {
        Location { file: at.0 as u8, rank: at.1 as u8 }
    }

    pub fn file(&self) -> (file: u8)
        ensures
            file == self@.0,
    {
        self.file
    }

    pub fn rank(&self) -> (rank: u8)
        ensures
            rank == self@.1,
    {
        self.rank
    }

    /// The location with the given file and rank, if both lie on the board.
    pub fn new(file: u8, rank: u8) -> (made: Result<Location, SError>)
        ensures
            match made {
                Ok(loc) => loc.wf() && loc@ == (file as int, rank as int),
                Err(e) => e == SError::InvalidNotation && !on_board((file as int, rank as int)),
            },
    {
        if file >= BOARD_SIZE || rank >= BOARD_SIZE {
            return Err(SError::InvalidNotation);
        }
        Ok(Location { file, rank })
    }

    /// The file's letter.
    pub fn file_notation(&self) -> (s: String)
        requires
            self.wf(),
        ensures
            s@ == seq![file_letter(self@.0)],
    {
        proof {
            reveal_strlit("a");
            reveal_strlit("b");
            reveal_strlit("c");
            reveal_strlit("d");
        }
        let s = if self.file == 0 {
            String::from_str("a")
        } else if self.file == 1 {
            String::from_str("b")
        } else if self.file == 2 {
            String::from_str("c")
        } else {
            String::from_str("d")
        };
        assert(s@ =~= seq![file_letter(self@.0)]);
        s
    }

    /// The rank's digit, counted from the bottom row.
    pub fn rank_notation(&self) -> (s: String)
        requires
            self.wf(),
        ensures
            s@ == seq![rank_digit(self@.1)],
    {
        proof {
            reveal_strlit("1");
            reveal_strlit("2");
            reveal_strlit("3");
            reveal_strlit("4");
        }
        let shown: u8 = BOARD_SIZE - self.rank;
        let s = if shown == 4 {
            String::from_str("4")
        } else if shown == 3 {
            String::from_str("3")
        } else if shown == 2 {
            String::from_str("2")
        } else {
            String::from_str("1")
        };
        assert(s@ =~= seq![rank_digit(self@.1)]);
        s
    }

    /// The file's letter followed by the rank's digit.
    pub fn notation(&self) -> (s: String)
        requires
            self.wf(),
        ensures
            s@ == location_text(self@),
    {
        let mut s = self.file_notation();
        let rank = self.rank_notation();
        s.append(rank.as_str());
        assert(s@ =~= location_text(self@));
        s
    }

    /// Reads a location from its two characters. The result is the one
    /// location of the board that `notation` denotes; there is none where the
    /// text has another length, names no file of the board, or names no rank
    /// of it.
    pub fn parse(notation: &str) -> (parsed: Result<Location, SError>)
        ensures
            match parsed {
                Ok(loc) => loc.wf() && notation@ == location_text(loc@),
                Err(e) => e == SError::InvalidNotation && forall|at: (int, int)|
                    on_board(at) ==> notation@ != #[trigger] location_text(at),
            },
    {
        if notation.unicode_len() != 2 {
            assert forall|at: (int, int)| on_board(at) implies notation@ != #[trigger] location_text(
                at,
            ) by {
                assert(location_text(at).len() == 2);
            }
            return Err(SError::InvalidNotation);
        }
        let file_char = notation.get_char(0);
        let rank_char = notation.get_char(1);
        let file: u8 = if file_char == 'a' {
            0
        } else if file_char == 'b' {
            1
        } else if file_char == 'c' {
            2
        } else if file_char == 'd' {
            3
        } else {
            assert forall|at: (int, int)| on_board(at) implies notation@ != #[trigger] location_text(
                at,
            ) by {
                assert(location_text(at)[0] == file_letter(at.0));
            }
            return Err(SError::InvalidNotation);
        };
        let shown: u8 = if rank_char == '1' {
            1
        } else if rank_char == '2' {
            2
        } else if rank_char == '3' {
            3
        } else if rank_char == '4' {
            4
        } else {
            assert forall|at: (int, int)| on_board(at) implies notation@ != #[trigger] location_text(
                at,
            ) by {
                assert(location_text(at)[1] == rank_digit(at.1));
            }
            return Err(SError::InvalidNotation);
        };
        let rank: u8 = BOARD_SIZE - shown;
        let loc = Location { file, rank };
        assert(notation@ =~= location_text(loc@));
        Ok(loc)
    }
}

/// What a square is, as plain values: where it lies and what stands on it.
pub struct SquareModel {
    pub at: (int, int),
    pub piece: Option<Piece>,
}

/// What an occupied square is, as plain values.
pub struct OccupiedModel {
    pub at: (int, int),
    pub piece: Piece,
}

/// The text of a square: the letter of its piece, if it has one, before the
/// text of its location.
pub open spec fn square_text(sq: SquareModel) -> Seq<char> {
    match sq.piece {
        Some(piece) => seq![piece.letter()] + location_text(sq.at),
        None => location_text(sq.at),
    }
}

/// The text of an occupied square: the letter of its piece before the text of
/// its location.
pub open spec fn occupied_text(sq: OccupiedModel) -> Seq<char> {
    seq![sq.piece.letter()] + location_text(sq.at)
}

/// What the first character of a square's text says of its content: a piece
/// letter is that piece, any other character leaves the square empty.
pub open spec fn content_of(mark: char) -> Option<Piece> {
    Piece::of_letter(mark)
}

/// A square of the board with what stands on it, if anything.
#[derive(Clone, Copy, Debug, PartialEq, Eq, Hash, Structural)]
pub struct Square {
    location: Location,
    piece: Option<Piece>,
}

impl View for Square {
    type V = SquareModel;

    closed spec fn view(&self) -> SquareModel {
        SquareModel { at: self.location@, piece: self.piece }
    }
}

impl Square {
    /// The square lies on the board.
    pub open spec fn wf(self) -> bool {
        on_board(self@.at)
    }

    pub fn location(&self) -> (loc: &Location)
        ensures
            loc@ == self@.at,
    {
        &self.location
    }

    pub fn piece(&self) -> (piece: Option<Piece>)
        ensures
            piece == self@.piece,
    {
        self.piece
    }

    pub fn new(location: Location, piece: Option<Piece>) -> (sq: Square)
        ensures
            sq@ == (SquareModel { at: location@, piece }),
    {
        Square { location, piece }
    }

    /// Reads a square from a content mark followed by a location. A piece
    /// letter puts that piece on the square; any other mark, `.` among them,
    /// leaves it empty. There is no square where the text is empty or what
    /// follows the mark denotes no location of the board.
    pub fn parse(notation: &str) -> (parsed: Result<Square, SError>)
        ensures
            match parsed {
                Ok(sq) => {
                    &&& sq.wf()
                    &&& notation@.len() == 3
                    &&& sq@.piece == content_of(notation@[0])
                    &&& notation@.skip(1) == location_text(sq@.at)
                },
                Err(e) => e == SError::InvalidNotation && (notation@.len() == 0 || forall|
                    at: (int, int),
                |
                    on_board(at) ==> notation@.skip(1) != #[trigger] location_text(at)),
            },
    {
        let n = notation.unicode_len();
        if n == 0 {
            return Err(SError::InvalidNotation);
        }
        let piece = Piece::from_char(notation.get_char(0));
        let rest = notation.substring_char(1, n);
        assert(rest@ =~= notation@.skip(1));
        match Location::parse(rest) {
            Ok(location) => Ok(Square { location, piece }),
            Err(e) => Err(e),
        }
    }

    /// The square's text: its piece's letter, if any, and its location.
    pub fn notation(&self) -> (s: String)
        requires
            self.wf(),
        ensures
            s@ == square_text(self@),
    {
        let mut s = self.piece_notation();
        let loc = self.location.notation();
        s.append(loc.as_str());
        assert(s@ =~= square_text(self@));
        s
    }

    pub fn is_occupied(&self) -> (occupied: bool)
        ensures
            occupied == self@.piece.is_some(),
    {
        self.piece.is_some()
    }

    /// The letter of the square's piece, or nothing for an empty square.
    pub fn piece_notation(&self) -> (s: String)
        ensures
            s@ == match self@.piece {
                Some(piece) => seq![piece.letter()],
                None => Seq::<char>::empty(),
            },
    {
        match self.piece {
            Some(piece) => piece.to_string(),
            None => String::new(),
        }
    }

    /// Puts `piece` on the square, or empties it.
    pub fn set_piece(&mut self, piece: Option<Piece>)
        ensures
            final(self)@ == (SquareModel { at: old(self)@.at, piece }),
    {
        self.piece = piece;
    }
}

/// A square together with the piece that stands on it.
#[derive(Clone, Copy, Debug, PartialEq, Eq, Hash, Structural)]
pub struct OccupiedSquare {
    location: Location,
    piece: Piece,
}

impl View for OccupiedSquare {
    type V = OccupiedModel;

    closed spec fn view(&self) -> OccupiedModel {
        OccupiedModel { at: self.location@, piece: self.piece }
    }
}

impl OccupiedSquare {
    /// The square lies on the board.
    pub open spec fn wf(self) -> bool {
        on_board(self@.at)
    }

    /// Two occupied squares with the same location and piece are the same.
    pub proof fn lemma_same_view(self, other: OccupiedSquare)
        requires
            self@ == other@,
        ensures
            self == other,
    {
        self.location.lemma_same_view(other.location);
    }

    /// Every piece on every square of the board is the view of an occupied
    /// square.
    pub proof fn lemma_exists(model: OccupiedModel) -> (sq: OccupiedSquare)
        requires
            on_board(model.at),
        ensures
            sq@ == model,
            sq.wf(),
    {
        let location = Location::lemma_exists(model.at);
        OccupiedSquare { location, piece: model.piece }
    }

    pub fn location(&self) -> (loc: &Location)
        ensures
            loc@ == self@.at,
    {
        &self.location
    }

    pub fn piece(&self) -> (piece: Piece)
        ensures
            piece == self@.piece,
    {
        self.piece
    }

    pub fn new(location: Location, piece: Piece) -> (sq: OccupiedSquare)
        ensures
            sq@ == (OccupiedModel { at: location@, piece }),
    {
        OccupiedSquare { location, piece }
    }

    /// The occupied square that a square with a piece on it is; none for an
    /// empty square.
    pub fn from_square(square: Square) -> (occupied: Option<OccupiedSquare>)
        ensures
            match occupied {
                Some(sq) => square@ == (SquareModel { at: sq@.at, piece: Some(sq@.piece) }),
                None => square@.piece.is_none(),
            },
    {
        match square.piece {
            Some(piece) => Some(OccupiedSquare { location: square.location, piece }),
            None => None,
        }
    }

    /// The same square as one that may be empty.
    pub fn to_square(&self) -> (square: Square)
        ensures
            square@ == (SquareModel { at: self@.at, piece: Some(self@.piece) }),
    {
        Square { location: self.location, piece: Some(self.piece) }
    }

    /// Reads an occupied square from a piece letter followed by a location.
    /// The result is the one occupied square of the board whose text is
    /// `notation`, if there is one.
    pub fn parse(notation: &str) -> (parsed: Result<OccupiedSquare, SError>)
        ensures
            match parsed {
                Ok(sq) => sq.wf() && notation@ == occupied_text(sq@),
                Err(e) => e == SError::InvalidNotation && forall|model: OccupiedModel|
                    on_board(model.at) ==> notation@ != #[trigger] occupied_text(model),
            },
    {
        let n = notation.unicode_len();
        if n == 0 {
            assert forall|model: OccupiedModel| on_board(model.at) implies notation@
                != #[trigger] occupied_text(model) by {
                assert(occupied_text(model).len() == 3);
            }
            return Err(SError::InvalidNotation);
        }
        let mark = notation.get_char(0);
        let rest = notation.substring_char(1, n);
        assert(rest@ =~= notation@.skip(1));
        let Some(piece) = Piece::from_char(mark) else {
            assert forall|model: OccupiedModel| on_board(model.at) implies notation@
                != #[trigger] occupied_text(model) by {
                assert(occupied_text(model)[0] == model.piece.letter());
            }
            return Err(SError::InvalidNotation);
        };
        match Location::parse(rest) {
            Ok(location) => {
                let sq = OccupiedSquare { location, piece };
                assert(notation@ =~= occupied_text(sq@));
                Ok(sq)
            },
            Err(e) => {
                assert forall|model: OccupiedModel| on_board(model.at) implies notation@
                    != #[trigger] occupied_text(model) by {
                    assert(occupied_text(model).skip(1) =~= location_text(model.at));
                }
                Err(e)
            },
        }
    }

    /// The square's text: its piece's letter and its location.
    pub fn notation(&self) -> (s: String)
        requires
            self.wf(),
        ensures
            s@ == occupied_text(self@),
    {
        let mut s = self.piece.to_string();
        let loc = self.location.notation();
        s.append(loc.as_str());
        assert(s@ =~= occupied_text(self@));
        s
    }
}

/// Two squares at different locations: where a piece would start and where
/// it would end.
#[derive(Clone, Copy, Debug, PartialEq, Eq, Structural)]
pub struct SquarePair {
    start: Square,
    end: Square,
}

impl View for SquarePair {
    type V = (SquareModel, SquareModel);

    /// The start and the end.
    closed spec fn view(&self) -> (SquareModel, SquareModel) {
        (self.start@, self.end@)
    }
}

impl SquarePair {
    /// Both squares lie on the board, at different locations.
    pub open spec fn wf(self) -> bool {
        on_board(self@.0.at) && on_board(self@.1.at) && self@.0.at != self@.1.at
    }

    pub fn start(&self) -> (sq: &Square)
        ensures
            sq@ == self@.0,
    {
        &self.start
    }

    pub fn end(&self) -> (sq: &Square)
        ensures
            sq@ == self@.1,
    {
        &self.end
    }

    /// How many files the end lies to the right of the start.
    pub fn dx(&self) -> (dx: isize)
        ensures
            dx == self@.1.at.0 - self@.0.at.0,
    {
        self.end.location.file as isize - self.start.location.file as isize
    }

    /// How many ranks the end lies below the start.
    pub fn dy(&self) -> (dy: isize)
        ensures
            dy == self@.1.at.1 - self@.0.at.1,
    {
        self.end.location.rank as isize - self.start.location.rank as isize
    }

    /// Pairs two squares, which must lie at different locations.
    pub fn try_new(start: Square, end: Square) -> (made: Result<SquarePair, SError>)
        requires
            start.wf(),
            end.wf(),
        ensures
            match made {
                Ok(pair) => pair.wf() && pair@ == (start@, end@),
                Err(e) => e == SError::InvalidMove && start@.at == end@.at,
            },
    {
        if start.location == end.location {
            return Err(SError::InvalidMove);
        }
        Ok(SquarePair { start, end })
    }
}

} // verus!
