//! The board: squares, pieces, captures, and the position itself.

pub mod cmove;
pub mod constants;
pub mod encoding;
pub mod errors;
pub mod layout;
pub mod legality;
pub mod piece;
pub mod rules;
pub mod square;

use vstd::prelude::*;
use vstd::string::StringExecFns;
use cmove::{CMove, CaptureModel};
use constants::SQUARE_COUNT;
use piece::Piece;
use rules::{
    after_capture, can_capture, has_capture, index_of, is_legal, square_at, state_of,
    valid_position, Position,
};
use square::{on_board, Location, OccupiedModel, Square};
use crate::lists::copy_of;

verus! {

/// How a position stands.
#[derive(Clone, Copy, Debug, PartialEq, Eq, Structural)]
pub enum BoardState {
    /// No piece is on the board.
    NotStarted,
    /// Two or more pieces, and a capture is possible.
    InProgress,
    /// Two or more pieces, and no capture is possible.
    Lost,
    /// Exactly one piece is left.
    Won,
}

impl BoardState {
    /// The state in words.
    pub open spec fn words(self) -> Seq<char> {
        match self {
            BoardState::NotStarted => "Not Started"@,
            BoardState::InProgress => "In Progress"@,
            BoardState::Lost => "Lost"@,
            BoardState::Won => "Won"@,
        }
    }

    /// The state in words.
    pub fn to_string(&self) -> (s: String)
        ensures
            s@ == self.words(),
    {
        match self {
            BoardState::NotStarted => String::from_str("Not Started"),
            BoardState::InProgress => String::from_str("In Progress"),
            BoardState::Lost => String::from_str("Lost"),
            BoardState::Won => String::from_str("Won"),
        }
    }
}

/// A position, together with the captures that are legal in it and its
/// state. The two are recomputed whenever the position changes, so they are
/// never out of date.
#[derive(Debug)]
pub struct Board {
    /// What stands on each square, in the order of `index_of`.
    cells: Vec<Option<Piece>>,
    legal_moves: Vec<CMove>,
    game_state: BoardState,
}

/// The list holds exactly the legal captures of the position, each once.
pub open spec fn lists_legal_moves(list: Seq<CMove>, position: Position) -> bool {
    &&& forall|mv: CMove| list.contains(mv) <==> is_legal(position, mv@)
    &&& list.no_duplicates()
}

/// The list holds each empty square of the board once, in the order of the
/// board, and nothing else.
pub open spec fn lists_empty_squares(list: Seq<Square>, position: Position) -> bool {
    &&& forall|k: int|
        0 <= k < list.len() ==> {
            &&& on_board((#[trigger] list[k])@.at)
            &&& !position.dom().contains(list[k]@.at)
            &&& list[k]@.piece.is_none()
        }
    &&& forall|at: (int, int)|
        on_board(at) && !(#[trigger] position.dom().contains(at)) ==> exists|k: int|
            0 <= k < list.len() && (#[trigger] list[k])@.at == at
    &&& forall|i: int, j: int|
        0 <= i < j < list.len() ==> index_of((#[trigger] list[i])@.at) < index_of(
            (#[trigger] list[j])@.at,
        )
}

/// The occupied squares whose index is below `bound`.
spec fn occupied_below(position: Position, bound: int) -> Set<(int, int)> {
    position.dom().filter(|at: (int, int)| index_of(at) < bound)
}

/// Walking one square further adds that square to the occupied squares seen
/// so far exactly when it is occupied.
proof fn lemma_occupied_below_step(position: Position, bound: int)
    requires
        valid_position(position),
        0 <= bound < 16,
        occupied_below(position, bound).finite(),
    ensures
        occupied_below(position, bound + 1).finite(),
        occupied_below(position, bound + 1).len() == occupied_below(position, bound).len() + (
        if position.dom().contains(square_at(bound)) {
            1int
        } else {
            0int
        }),
{
    let here = square_at(bound);
    assert forall|at: (int, int)| on_board(at) && index_of(at) == bound implies at == here by {}
    assert(on_board(here) && index_of(here) == bound);
    let seen = occupied_below(position, bound);
    let next = occupied_below(position, bound + 1);
    if position.dom().contains(here) {
        assert forall|at: (int, int)| next.contains(at) <==> seen.insert(here).contains(at) by {
            if position.dom().contains(at) {
                assert(on_board(at));
            }
        }
        assert(next =~= seen.insert(here));
    } else {
        assert forall|at: (int, int)| next.contains(at) <==> seen.contains(at) by {
            if position.dom().contains(at) {
                assert(on_board(at));
            }
        }
        assert(next =~= seen);
    }
}

/// A capture is possible exactly when a list of the legal captures is not
/// empty.
proof fn lemma_has_capture(list: Seq<CMove>, position: Position)
    requires
        valid_position(position),
        lists_legal_moves(list, position),
    ensures
        has_capture(position) <==> list.len() > 0,
{
    if has_capture(position) {
        let (from, to) = choose|from: (int, int), to: (int, int)| can_capture(position, from, to);
        let mv = CMove::lemma_exists(
            CaptureModel {
                from: OccupiedModel { at: from, piece: position[from] },
                to: OccupiedModel { at: to, piece: position[to] },
            },
        );
        assert(is_legal(position, mv@));
        assert(list.contains(mv));
    }
    if list.len() > 0 {
        assert(list.contains(list[0]));
        assert(is_legal(position, list[0]@));
        assert(can_capture(position, list[0]@.from.at, list[0]@.to.at));
    }
}

/// A capture leaves one piece fewer on the board.
pub proof fn lemma_capture_takes_one(position: Position, capture: CaptureModel)
    requires
        valid_position(position),
        is_legal(position, capture),
    ensures
        valid_position(after_capture(position, capture)),
        after_capture(position, capture).dom().len() == position.dom().len() - 1,
{
    rules::lemma_position_finite(position);
    assert(after_capture(position, capture).dom() =~= position.dom().remove(capture.from.at));
}

impl View for Board {
    type V = Position;

    /// The occupied squares, each with its piece.
    closed spec fn view(&self) -> Position {
        Map::new(
            |at: (int, int)| on_board(at) && self.cells@[index_of(at)].is_some(),
            |at: (int, int)| self.cells@[index_of(at)].unwrap(),
        )
    }
}

impl Board {
    /// The board has a cell for each square. This is the part of `wf` that
    /// says nothing of the captures and the state that the board keeps.
    pub closed spec fn has_cells(&self) -> bool {
        self.cells@.len() == SQUARE_COUNT
    }

    /// The position of a board is a valid position.
    pub proof fn lemma_view_valid(&self)
        ensures
            valid_position(self@),
    {
    }

    /// The legal captures that the board keeps.
    pub closed spec fn legal(&self) -> Seq<CMove> {
        self.legal_moves@
    }

    /// The state that the board keeps.
    pub closed spec fn state(&self) -> BoardState {
        self.game_state
    }

    /// What every board that this module hands out satisfies: the captures
    /// it keeps are exactly the legal captures of its position, and the
    /// state it keeps is the state of its position.
    pub open spec fn wf(&self) -> bool {
        &&& self.has_cells()
        &&& lists_legal_moves(self.legal(), self@)
        &&& self.state() == state_of(self@)
    }

    /// The empty board.
    pub fn new() -> (board: Board)
        ensures
            board.wf(),
            board@ == Map::<(int, int), Piece>::empty(),
    {
        let mut cells: Vec<Option<Piece>> = Vec::new();
        let mut i: usize = 0;
        while i < SQUARE_COUNT
            invariant
                i <= SQUARE_COUNT,
                cells@.len() == i,
                forall|k: int| 0 <= k < i ==> cells@[k].is_none(),
            decreases SQUARE_COUNT - i,
        {
            cells.push(None);
            i += 1;
        }
        let board = Board { cells, legal_moves: Vec::new(), game_state: BoardState::NotStarted };
        proof {
            assert(board@ =~= Map::<(int, int), Piece>::empty());
            assert(board@.dom() =~= Set::<(int, int)>::empty());
            assert(!has_capture(board@));
        }
        board
    }

    /// What stands on the square with the given index.
    fn cell(&self, index: usize) -> (content: Option<Piece>)
        requires
            self.has_cells(),
            index < SQUARE_COUNT,
        ensures
            content == self@.get(square_at(index as int)),
    {
        self.cells[index]
    }

    /// What stands on the square at `location`.
    pub fn piece_at(&self, location: &Location) -> (piece: Option<Piece>)
        requires
            self.wf(),
            location.wf(),
        ensures
            piece == self@.get(location@),
    {
        let index = location.file() as usize * 4 + location.rank() as usize;
        self.cells[index]
    }

    /// Finds the legal captures of the position and keeps them.
    fn calc_legal_moves(&mut self)
        requires
            old(self).has_cells(),
        ensures
            final(self).has_cells(),
            final(self)@ == old(self)@,
            final(self).state() == old(self).state(),
            lists_legal_moves(final(self).legal(), final(self)@),
    {
        let moves = self.find_legal_moves();
        self.legal_moves = moves;
    }

    /// Classifies the position and keeps its state.
    fn calc_game_state(&mut self)
        requires
            old(self).has_cells(),
            lists_legal_moves(old(self).legal(), old(self)@),
        ensures
            final(self).wf(),
            final(self)@ == old(self)@,
            final(self).legal() == old(self).legal(),
    {
        proof {
            self.lemma_view_valid();
            lemma_has_capture(self.legal(), self@);
        }
        let pieces = self.count_pieces();
        self.game_state = if pieces == 0 {
            BoardState::NotStarted
        } else if pieces == 1 {
            BoardState::Won
        } else if self.legal_moves.is_empty() {
            BoardState::Lost
        } else {
            BoardState::InProgress
        };
    }

    /// Brings the legal captures and the state up to date with the cells.
    fn board_state_changed(&mut self)
        requires
            old(self).has_cells(),
        ensures
            final(self).wf(),
            final(self)@ == old(self)@,
    {
        self.calc_legal_moves();
        self.calc_game_state();
    }

    /// The number of pieces on the board.
    pub fn pieces_remaining(&self) -> (pieces: u8)
        requires
            self.wf(),
        ensures
            pieces == self@.dom().len(),
            pieces <= 16,
    {
        self.count_pieces()
    }

    /// Counts the occupied cells.
    fn count_pieces(&self) -> (pieces: u8)
        requires
            self.has_cells(),
        ensures
            pieces == self@.dom().len(),
            pieces <= 16,
    {
        let mut pieces: u8 = 0;
        let mut i: usize = 0;
        proof {
            self.lemma_view_valid();
            assert(occupied_below(self@, 0) =~= Set::<(int, int)>::empty());
        }
        while i < SQUARE_COUNT
            invariant
                self.has_cells(),
                valid_position(self@),
                i <= SQUARE_COUNT,
                occupied_below(self@, i as int).finite(),
                pieces == occupied_below(self@, i as int).len(),
                pieces <= i,
            decreases SQUARE_COUNT - i,
        {
            proof {
                lemma_occupied_below_step(self@, i as int);
            }
            if self.cells[i].is_some() {
                pieces += 1;
            }
            i += 1;
        }
        proof {
            assert(occupied_below(self@, 16) =~= self@.dom());
        }
        pieces
    }

    /// The legal captures of the position, each once.
    pub fn legal_moves(&self) -> (moves: &Vec<CMove>)
        ensures
            moves@ == self.legal(),
            self.wf() ==> lists_legal_moves(moves@, self@),
    {
        &self.legal_moves
    }

    /// The state of the position.
    pub fn game_state(&self) -> (state: BoardState)
        ensures
            state == self.state(),
            self.wf() ==> state == state_of(self@),
    {
        self.game_state
    }

    /// Puts `piece` on the square at `location`, or empties the square, and
    /// returns what stood there before. The legal captures and the state
    /// follow the change.
    pub fn set(&mut self, location: Location, piece: Option<Piece>) -> (previous: Option<Piece>)
        requires
            old(self).wf(),
            location.wf(),
        ensures
            final(self).wf(),
            final(self)@ == match piece {
                Some(p) => old(self)@.insert(location@, p),
                None => old(self)@.remove(location@),
            },
            previous == old(self)@.get(location@),
    {
        let index = location.file() as usize * 4 + location.rank() as usize;
        let previous = self.cells[index];
        let ghost before = self@;
        self.cells.set(index, piece);
        proof {
            assert(index == index_of(location@));
            assert forall|at: (int, int)| on_board(at) && at != location@ implies index_of(at)
                != index by {}
            match piece {
                Some(p) => {
                    assert(self@ =~= before.insert(location@, p));
                },
                None => {
                    assert(self@ =~= before.remove(location@));
                },
            }
        }
        self.board_state_changed();
        previous
    }

    /// Plays a capture: the moving piece takes the place of the piece it
    /// captures. Only a capture that is legal in the position is played;
    /// any other leaves the board as it is and is answered with the legal
    /// captures.
    pub fn make_move(&mut self, mv: CMove) -> (played: Result<CMove, Vec<CMove>>)
        requires
            old(self).wf(),
        ensures
            match played {
                Ok(done) => {
                    &&& done == mv
                    &&& is_legal(old(self)@, mv@)
                    &&& final(self).wf()
                    &&& final(self)@ == after_capture(old(self)@, mv@)
                    &&& final(self)@.dom().len() == old(self)@.dom().len() - 1
                },
                Err(legal) => {
                    &&& !is_legal(old(self)@, mv@)
                    &&& *final(self) == *old(self)
                    &&& legal@ == old(self).legal()
                },
            },
    {
        let mut found = false;
        let mut i: usize = 0;
        while i < self.legal_moves.len()
            invariant
                i <= self.legal_moves@.len(),
                found <==> exists|k: int| 0 <= k < i && self.legal_moves@[k] == mv,
            decreases self.legal_moves@.len() - i,
        {
            if self.legal_moves[i] == mv {
                found = true;
            }
            i += 1;
        }
        if !found {
            assert(!self.legal().contains(mv));
            return Err(copy_of(&self.legal_moves));
        }
        proof {
            assert(self.legal().contains(mv));
            self.lemma_view_valid();
            lemma_capture_takes_one(self@, mv@);
        }
        self.set(*mv.to().location(), Some(mv.from().piece()));
        self.set(*mv.from().location(), None);
        proof {
            assert(self@ =~= after_capture(old(self)@, mv@));
        }
        Ok(mv)
    }

    /// The empty squares, in the order of the board.
    pub fn empty_squares(&self) -> (squares: Vec<Square>)
        requires
            self.wf(),
        ensures
            lists_empty_squares(squares@, self@),
            squares@.len() + self@.dom().len() == 16,
    {
        let mut squares: Vec<Square> = Vec::new();
        let mut i: usize = 0;
        proof {
            self.lemma_view_valid();
            assert(occupied_below(self@, 0) =~= Set::<(int, int)>::empty());
        }
        while i < SQUARE_COUNT
            invariant
                self.has_cells(),
                valid_position(self@),
                i <= SQUARE_COUNT,
                occupied_below(self@, i as int).finite(),
                squares@.len() + occupied_below(self@, i as int).len() == i,
                forall|k: int|
                    0 <= k < squares@.len() ==> {
                        &&& on_board((#[trigger] squares@[k])@.at)
                        &&& !self@.dom().contains(squares@[k]@.at)
                        &&& squares@[k]@.piece.is_none()
                        &&& index_of(squares@[k]@.at) < i
                    },
                forall|at: (int, int)|
                    on_board(at) && !(#[trigger] self@.dom().contains(at)) && index_of(at) < i
                        ==> exists|k: int|
                        0 <= k < squares@.len() && (#[trigger] squares@[k])@.at == at,
                forall|a: int, b: int|
                    0 <= a < b < squares@.len() ==> index_of((#[trigger] squares@[a])@.at)
                        < index_of((#[trigger] squares@[b])@.at),
            decreases SQUARE_COUNT - i,
        {
            proof {
                lemma_occupied_below_step(self@, i as int);
            }
            let file = (i / 4) as u8;
            let rank = (i % 4) as u8;
            if let Ok(location) = Location::new(file, rank) {
                if self.cells[i].is_none() {
                    let ghost before = squares@;
                    squares.push(Square::new(location, None));
                    proof {
                        let last = before.len() as int;
                        assert(squares@[last]@.at == (file as int, rank as int));
                        assert forall|k: int| 0 <= k < last implies squares@[k] == before[k] by {}
                        assert forall|at: (int, int)|
                            on_board(at) && !(#[trigger] self@.dom().contains(at)) && index_of(at)
                                < i + 1 implies exists|k: int|
                            0 <= k < squares@.len() && (#[trigger] squares@[k])@.at == at by {
                            if index_of(at) < i {
                                let k = choose|k: int|
                                    0 <= k < before.len() && (#[trigger] before[k])@.at == at;
                                assert(squares@[k] == before[k]);
                            } else {
                                assert(squares@[last]@.at == at);
                            }
                        }
                        assert forall|a: int, b: int| 0 <= a < b < squares@.len() implies index_of(
                            (#[trigger] squares@[a])@.at,
                        ) < index_of((#[trigger] squares@[b])@.at) by {
                            assert(squares@[a] == before[a]);
                            if b < last {
                                assert(squares@[b] == before[b]);
                            }
                        }
                    }
                }
            }
            i += 1;
        }
        proof {
            assert(occupied_below(self@, 16) =~= self@.dom());
        }
        squares
    }
}

impl Clone for Board {
    /// A board of its own with the same position.
    fn clone(&self) -> (copy: Board)
        ensures
            copy@ == self@,
            copy.legal() == self.legal(),
            copy.state() == self.state(),
            copy.has_cells() == self.has_cells(),
            copy.wf() == self.wf(),
    {
        let copy = Board {
            cells: copy_of(&self.cells),
            legal_moves: copy_of(&self.legal_moves),
            game_state: self.game_state,
        };
        proof {
            assert(copy@ =~= self@);
        }
        copy
    }
}

/// Puts on the board what a square shows, at that square's location, and
/// returns what stood there before.
pub fn set_board_square(board: &mut Board, square: Square) -> (previous: Option<Piece>)
    requires
        old(board).wf(),
        square.wf(),
    ensures
        final(board).wf(),
        final(board)@ == match square@.piece {
            Some(p) => old(board)@.insert(square@.at, p),
            None => old(board)@.remove(square@.at),
        },
        previous == old(board)@.get(square@.at),
{
    board.set(*square.location(), square.piece())
}

} // verus!
