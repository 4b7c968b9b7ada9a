//! The rules of the game, stated over a position as a mathematical map from
//! squares to pieces: which captures are legal, what a capture does to the
//! position, and how a position is classified.

use vstd::prelude::*;
use super::cmove::CaptureModel;
use super::piece::Piece;
use super::square::on_board;
use super::BoardState;

verus! {

/// A position: the occupied squares, each with its piece. A square is the
/// pair `(file, rank)`.
pub type Position = Map<(int, int), Piece>;

/// A position of this board: every occupied square lies on the board.
pub open spec fn valid_position(position: Position) -> bool {
    forall|at: (int, int)| position.dom().contains(at) ==> on_board(at)
}

/// The absolute value.
pub open spec fn abs(x: int) -> int {
    if x < 0 {
        -x
    } else {
        x
    }
}

/// Along one line: exactly one of the two deltas is zero.
pub open spec fn straight(dx: int, dy: int) -> bool {
    (dx == 0) != (dy == 0)
}

/// Along one diagonal: the two deltas are equal in size.
pub open spec fn diagonal(dx: int, dy: int) -> bool {
    abs(dx) == abs(dy)
}

/// The number of unit steps from one square to another along a line or a
/// diagonal.
pub open spec fn distance(from: (int, int), to: (int, int)) -> int {
    let dx = abs(to.0 - from.0);
    let dy = abs(to.1 - from.1);
    if dx >= dy {
        dx
    } else {
        dy
    }
}

/// The coordinate reached from `start` after `steps` unit steps toward
/// `goal`.
pub open spec fn advance(start: int, goal: int, steps: int) -> int {
    if goal > start {
        start + steps
    } else if goal < start {
        start - steps
    } else {
        start
    }
}

/// The square reached from `from` after `steps` unit steps toward `to`.
pub open spec fn stepped(from: (int, int), to: (int, int), steps: int) -> (int, int) {
    (advance(from.0, to.0, steps), advance(from.1, to.1, steps))
}

/// No piece stands strictly between `from` and `to`.
pub open spec fn path_clear(occupied: Set<(int, int)>, from: (int, int), to: (int, int)) -> bool {
    forall|steps: int|
        0 < steps < distance(from, to) ==> !occupied.contains(#[trigger] stepped(from, to, steps))
}

/// Whether a piece of the given kind on `from` attacks the square `to`, with
/// the given squares occupied.
pub open spec fn reaches(
    piece: Piece,
    occupied: Set<(int, int)>,
    from: (int, int),
    to: (int, int),
) -> bool {
    let dx = to.0 - from.0;
    let dy = to.1 - from.1;
    match piece {
        Piece::King => abs(dx) <= 1 && abs(dy) <= 1,
        Piece::Queen => (straight(dx, dy) || diagonal(dx, dy)) && path_clear(occupied, from, to),
        Piece::Bishop => diagonal(dx, dy) && path_clear(occupied, from, to),
        Piece::Knight => (abs(dx) == 1 && abs(dy) == 2) || (abs(dx) == 2 && abs(dy) == 1),
        Piece::Rook => straight(dx, dy) && path_clear(occupied, from, to),
        Piece::Pawn => abs(dx) == 1 && dy == -1,
    }
}

/// Whether the piece on `from` may take the piece on `to`: both squares are
/// occupied, they differ, and the piece on `from` attacks `to`.
pub open spec fn can_capture(position: Position, from: (int, int), to: (int, int)) -> bool {
    &&& position.dom().contains(from)
    &&& position.dom().contains(to)
    &&& from != to
    &&& reaches(position[from], position.dom(), from, to)
}

/// Whether a recorded capture is legal in a position: its two squares hold
/// the pieces it records, and the first may take the second.
pub open spec fn is_legal(position: Position, capture: CaptureModel) -> bool {
    &&& can_capture(position, capture.from.at, capture.to.at)
    &&& position[capture.from.at] == capture.from.piece
    &&& position[capture.to.at] == capture.to.piece
}

/// Whether any capture is possible.
pub open spec fn has_capture(position: Position) -> bool {
    exists|from: (int, int), to: (int, int)| can_capture(position, from, to)
}

/// The position after a capture: the origin is empty and the moving piece
/// stands on the destination.
pub open spec fn after_capture(position: Position, capture: CaptureModel) -> Position {
    position.remove(capture.from.at).insert(capture.to.at, capture.from.piece)
}

/// The state of a position: not started with no piece, won with exactly one,
/// lost with more and no capture, in progress otherwise.
pub open spec fn state_of(position: Position) -> BoardState {
    if position.dom().len() == 0 {
        BoardState::NotStarted
    } else if position.dom().len() == 1 {
        BoardState::Won
    } else if !has_capture(position) {
        BoardState::Lost
    } else {
        BoardState::InProgress
    }
}

/// The set of all squares of the board.
pub open spec fn all_squares() -> Set<(int, int)> {
    Set::new(|at: (int, int)| on_board(at))
}

/// The index of a square in the order in which the board is walked: file by
/// file, and rank by rank within a file.
pub open spec fn index_of(at: (int, int)) -> int {
    at.0 * 4 + at.1
}

/// The square with the given index.
pub open spec fn square_at(index: int) -> (int, int) {
    (index / 4, index % 4)
}

/// The board has sixteen squares.
pub proof fn lemma_all_squares_len()
    ensures
        all_squares().finite(),
        all_squares().len() == 16,
{
    lemma_squares_below(16);
    assert(squares_below(16) =~= all_squares());
}

/// The squares whose index is below `bound`.
pub open spec fn squares_below(bound: int) -> Set<(int, int)> {
    Set::new(|at: (int, int)| on_board(at) && index_of(at) < bound)
}

/// There are `bound` squares with an index below `bound`.
pub proof fn lemma_squares_below(bound: int)
    requires
        0 <= bound <= 16,
    ensures
        squares_below(bound).finite(),
        squares_below(bound).len() == bound,
    decreases bound,
{
    if bound == 0 {
        assert(squares_below(0) =~= Set::<(int, int)>::empty());
    } else {
        lemma_squares_below(bound - 1);
        let last = square_at(bound - 1);
        assert(squares_below(bound) =~= squares_below(bound - 1).insert(last));
    }
}

/// The occupied squares of a valid position are finitely many, sixteen at
/// most.
pub proof fn lemma_position_finite(position: Position)
    requires
        valid_position(position),
    ensures
        position.dom().finite(),
        position.dom().len() <= 16,
{
    lemma_all_squares_len();
    assert(position.dom().subset_of(all_squares()));
    vstd::set_lib::lemma_len_subset(position.dom(), all_squares());
}

} // verus!
