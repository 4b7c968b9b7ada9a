//! Finding the legal captures of a board: every pair of different occupied
//! squares is held against the rule of the piece on the first.

use vstd::prelude::*;
use super::cmove::CMove;
use super::constants::SQUARE_COUNT;
use super::piece::Piece;
use super::rules::{
    abs, can_capture, diagonal, distance, index_of, is_legal, path_clear, reaches, stepped,
    straight, valid_position, Position,
};
use super::square::{Location, OccupiedSquare, Square, SquareModel, SquarePair};
use super::{lists_legal_moves, Board};

verus! {

/// The size of a delta between two coordinates of the board.
fn magnitude(delta: isize) -> (size: isize)
    requires
        -4 < delta < 4,
    ensures
        size == abs(delta as int),
{
    if delta < 0 {
        -delta
    } else {
        delta
    }
}

/// The direction of a delta: one step up, one step down, or none.
fn direction(delta: isize) -> (unit: i16)
    ensures
        unit == if delta > 0 {
            1int
        } else if delta < 0 {
            -1int
        } else {
            0int
        },
{
    if delta > 0 {
        1
    } else if delta < 0 {
        -1
    } else {
        0
    }
}

/// The square shows a piece that the position holds at its location.
spec fn shows(square: SquareModel, position: Position) -> bool {
    position.dom().contains(square.at) && square.piece == Some(position[square.at])
}

/// The place of an ordered pair of squares among all such pairs.
spec fn pair_index(from: (int, int), to: (int, int)) -> int {
    index_of(from) * 16 + index_of(to)
}

/// The list holds each occupied square of the position once, in the order
/// of the board.
spec fn lists_occupied(list: Seq<Square>, position: Position) -> bool {
    &&& forall|k: int| 0 <= k < list.len() ==> shows((#[trigger] list[k])@, position)
    &&& forall|at: (int, int)| #[trigger]
        position.dom().contains(at) ==> exists|k: int|
            0 <= k < list.len() && (#[trigger] list[k])@.at == at
    &&& forall|i: int, j: int|
        0 <= i < j < list.len() ==> index_of((#[trigger] list[i])@.at) < index_of(
            (#[trigger] list[j])@.at,
        )
}

/// The list holds each ordered pair of different occupied squares once, in
/// the order of the board.
spec fn lists_pairs(list: Seq<SquarePair>, position: Position) -> bool {
    &&& forall|k: int|
        0 <= k < list.len() ==> {
            &&& (#[trigger] list[k]).wf()
            &&& shows(list[k]@.0, position)
            &&& shows(list[k]@.1, position)
        }
    &&& forall|from: (int, int), to: (int, int)|
        position.dom().contains(from) && position.dom().contains(to) && from != to
            ==> exists|k: int|
            0 <= k < list.len() && (#[trigger] list[k])@.0.at == from && list[k]@.1.at == to
    &&& forall|i: int, j: int|
        0 <= i < j < list.len() ==> pair_index(
            (#[trigger] list[i])@.0.at,
            list[i]@.1.at,
        ) < pair_index((#[trigger] list[j])@.0.at, list[j]@.1.at)
}

/// The list holds each legal capture of the position once, in the order of
/// the board.
spec fn lists_captures_in_order(list: Seq<CMove>, position: Position) -> bool {
    &&& forall|k: int| 0 <= k < list.len() ==> is_legal(position, (#[trigger] list[k])@)
    &&& forall|from: (int, int), to: (int, int)| #[trigger]
        can_capture(position, from, to) ==> exists|k: int|
            0 <= k < list.len() && (#[trigger] list[k])@.from.at == from && list[k]@.to.at == to
    &&& forall|i: int, j: int|
        0 <= i < j < list.len() ==> pair_index(
            (#[trigger] list[i])@.from.at,
            list[i]@.to.at,
        ) < pair_index((#[trigger] list[j])@.from.at, list[j]@.to.at)
}

/// A list of the legal captures in the order of the board holds exactly the
/// legal captures, each once.
proof fn lemma_captures_in_order(list: Seq<CMove>, position: Position)
    requires
        valid_position(position),
        lists_captures_in_order(list, position),
    ensures
        lists_legal_moves(list, position),
{
    assert forall|mv: CMove| list.contains(mv) <==> is_legal(position, mv@) by {
        if is_legal(position, mv@) {
            assert(can_capture(position, mv@.from.at, mv@.to.at));
            let k = choose|k: int|
                0 <= k < list.len() && (#[trigger] list[k])@.from.at == mv@.from.at && list[k]@.to.at
                    == mv@.to.at;
            assert(is_legal(position, list[k]@));
            list[k].lemma_same_view(mv);
        }
    }
}

/// The list holds, in the order of the board, each legal capture among the
/// first `done` pairs once.
#[verifier::opaque]
spec fn lists_captures_among(
    list: Seq<CMove>,
    pairs: Seq<SquarePair>,
    done: int,
    position: Position,
) -> bool {
    &&& forall|k: int|
        0 <= k < list.len() ==> {
            &&& is_legal(position, (#[trigger] list[k])@)
            &&& done < pairs.len() ==> pair_index(list[k]@.from.at, list[k]@.to.at) < pair_index(
                pairs[done]@.0.at,
                pairs[done]@.1.at,
            )
        }
    &&& forall|p: int|
        0 <= p < done && can_capture(position, (#[trigger] pairs[p])@.0.at, pairs[p]@.1.at)
            ==> exists|k: int|
            0 <= k < list.len() && (#[trigger] list[k])@.from.at == pairs[p]@.0.at
                && list[k]@.to.at == pairs[p]@.1.at
    &&& forall|a: int, b: int|
        0 <= a < b < list.len() ==> pair_index(
            (#[trigger] list[a])@.from.at,
            list[a]@.to.at,
        ) < pair_index((#[trigger] list[b])@.from.at, list[b]@.to.at)
}

/// Before any pair is looked at, the empty list is complete.
proof fn lemma_captures_none(pairs: Seq<SquarePair>, position: Position)
    ensures
        lists_captures_among(Seq::<CMove>::empty(), pairs, 0, position),
{
    reveal(lists_captures_among);
}

/// What the search for captures uses of the pair at `done`: its squares show
/// pieces of the position, and the pair that follows it, if any, comes later
/// in the order of the board.
spec fn pair_in_turn(pairs: Seq<SquarePair>, done: int, position: Position) -> bool {
    &&& 0 <= done < pairs.len()
    &&& pairs[done].wf()
    &&& shows(pairs[done]@.0, position)
    &&& shows(pairs[done]@.1, position)
    &&& done + 1 < pairs.len() ==> pair_index(pairs[done]@.0.at, pairs[done]@.1.at) < pair_index(
        pairs[done + 1]@.0.at,
        pairs[done + 1]@.1.at,
    )
}

/// Each pair of a list of pairs is in turn when the search reaches it.
proof fn lemma_pair_in_turn(pairs: Seq<SquarePair>, done: int, position: Position)
    requires
        lists_pairs(pairs, position),
        0 <= done < pairs.len(),
    ensures
        pair_in_turn(pairs, done, position),
{
    assert(pairs[done].wf());
    if done + 1 < pairs.len() {
        assert(pair_index(pairs[done]@.0.at, pairs[done]@.1.at) < pair_index(
            pairs[done + 1]@.0.at,
            pairs[done + 1]@.1.at,
        ));
    }
}

/// A pair whose start attacks its end adds its capture to the list.
proof fn lemma_captures_found(
    list: Seq<CMove>,
    pairs: Seq<SquarePair>,
    done: int,
    position: Position,
    mv: CMove,
)
    requires
        pair_in_turn(pairs, done, position),
        lists_captures_among(list, pairs, done, position),
        mv@.from.at == pairs[done]@.0.at,
        mv@.to.at == pairs[done]@.1.at,
        pairs[done]@.0.piece == Some(mv@.from.piece),
        pairs[done]@.1.piece == Some(mv@.to.piece),
        reaches(mv@.from.piece, position.dom(), mv@.from.at, mv@.to.at),
    ensures
        lists_captures_among(list.push(mv), pairs, done + 1, position),
{
    reveal(lists_captures_among);
    let longer = list.push(mv);
    let last = list.len() as int;
    let here = pair_index(pairs[done]@.0.at, pairs[done]@.1.at);
    assert(is_legal(position, mv@));
    assert(longer[last] == mv);
    assert(pair_index(mv@.from.at, mv@.to.at) == here);
    assert forall|k: int| 0 <= k < last implies longer[k] == list[k] && pair_index(
        (#[trigger] list[k])@.from.at,
        list[k]@.to.at,
    ) < here by {}
    assert forall|p: int|
        0 <= p < done + 1 && can_capture(
            position,
            (#[trigger] pairs[p])@.0.at,
            pairs[p]@.1.at,
        ) implies exists|k: int|
        0 <= k < longer.len() && (#[trigger] longer[k])@.from.at == pairs[p]@.0.at
            && longer[k]@.to.at == pairs[p]@.1.at by {
        if p < done {
            let k = choose|k: int|
                0 <= k < list.len() && (#[trigger] list[k])@.from.at == pairs[p]@.0.at
                    && list[k]@.to.at == pairs[p]@.1.at;
            assert(longer[k] == list[k]);
        } else {
            assert(longer[last]@.from.at == pairs[p]@.0.at);
        }
    }
    assert forall|a: int, b: int| 0 <= a < b < longer.len() implies pair_index(
        (#[trigger] longer[a])@.from.at,
        longer[a]@.to.at,
    ) < pair_index((#[trigger] longer[b])@.from.at, longer[b]@.to.at) by {
        assert(longer[a] == list[a]);
        if b < last {
            assert(longer[b] == list[b]);
        }
    }
    assert forall|k: int| 0 <= k < longer.len() implies {
        &&& is_legal(position, (#[trigger] longer[k])@)
        &&& done + 1 < pairs.len() ==> pair_index(longer[k]@.from.at, longer[k]@.to.at)
            < pair_index(pairs[done + 1]@.0.at, pairs[done + 1]@.1.at)
    } by {
        if k < last {
            assert(longer[k] == list[k]);
        }
    }
}

/// A pair whose start does not attack its end adds nothing to the list.
proof fn lemma_captures_missed(
    list: Seq<CMove>,
    pairs: Seq<SquarePair>,
    done: int,
    position: Position,
)
    requires
        pair_in_turn(pairs, done, position),
        lists_captures_among(list, pairs, done, position),
        !reaches(
            pairs[done]@.0.piece.unwrap(),
            position.dom(),
            pairs[done]@.0.at,
            pairs[done]@.1.at,
        ),
    ensures
        lists_captures_among(list, pairs, done + 1, position),
{
    reveal(lists_captures_among);
    assert(!can_capture(position, pairs[done]@.0.at, pairs[done]@.1.at));
}

/// Once every pair has been looked at, the list holds each legal capture of
/// the position once.
proof fn lemma_captures_all(list: Seq<CMove>, pairs: Seq<SquarePair>, position: Position)
    requires
        valid_position(position),
        lists_pairs(pairs, position),
        lists_captures_among(list, pairs, pairs.len() as int, position),
    ensures
        lists_legal_moves(list, position),
{
    reveal(lists_captures_among);
    assert forall|from: (int, int), to: (int, int)| #[trigger]
        can_capture(position, from, to) implies exists|k: int|
        0 <= k < list.len() && (#[trigger] list[k])@.from.at == from && list[k]@.to.at == to by {
        let p = choose|p: int|
            0 <= p < pairs.len() && (#[trigger] pairs[p])@.0.at == from && pairs[p]@.1.at == to;
        assert(can_capture(position, pairs[p]@.0.at, pairs[p]@.1.at));
    }
    lemma_captures_in_order(list, position);
}

impl Board {
    /// The occupied squares, in the order of the board.
    fn all_occupied_squares(&self) -> (squares: Vec<Square>)
        requires
            self.has_cells(),
        ensures
            lists_occupied(squares@, self@),
    {
        let mut squares: Vec<Square> = Vec::new();
        let mut i: usize = 0;
        while i < SQUARE_COUNT
            invariant
                self.has_cells(),
                i <= SQUARE_COUNT,
                forall|k: int|
                    0 <= k < squares@.len() ==> shows((#[trigger] squares@[k])@, self@)
                        && index_of(squares@[k]@.at) < i,
                forall|at: (int, int)| #[trigger]
                    self@.dom().contains(at) && index_of(at) < i ==> exists|k: int|
                        0 <= k < squares@.len() && (#[trigger] squares@[k])@.at == at,
                forall|a: int, b: int|
                    0 <= a < b < squares@.len() ==> index_of((#[trigger] squares@[a])@.at)
                        < index_of((#[trigger] squares@[b])@.at),
            decreases SQUARE_COUNT - i,
        {
            let file = (i / 4) as u8;
            let rank = (i % 4) as u8;
            if let Ok(location) = Location::new(file, rank) {
                if let Some(piece) = self.cell(i) {
                    let ghost before = squares@;
                    squares.push(Square::new(location, Some(piece)));
                    proof {
                        let last = before.len() as int;
                        assert(squares@[last]@.at == (file as int, rank as int));
                        assert forall|at: (int, int)| #[trigger]
                            self@.dom().contains(at) && index_of(at) < i + 1 implies exists|k: int|
                            0 <= k < squares@.len() && (#[trigger] squares@[k])@.at == at by {
                            if index_of(at) < i {
                                let k = choose|k: int|
                                    0 <= k < before.len() && (#[trigger] before[k])@.at == at;
                                assert(squares@[k] == before[k]);
                            } else {
                                assert(squares@[last]@.at == at);
                            }
                        }
                        assert forall|k: int| 0 <= k < squares@.len() implies shows(
                            (#[trigger] squares@[k])@,
                            self@,
                        ) && index_of(squares@[k]@.at) < i + 1 by {
                            if k < last {
                                assert(squares@[k] == before[k]);
                            }
                        }
                        assert forall|a: int, b: int| 0 <= a < b < squares@.len() implies index_of(
                            (#[trigger] squares@[a])@.at,
                        ) < index_of((#[trigger] squares@[b])@.at) by {
                            assert(squares@[a] == before[a]);
                            if b < last {
                                assert(squares@[b] == before[b]);
                            }
                        }
                    }
                }
            }
            i += 1;
        }
        squares
    }

    /// Every ordered pair of different occupied squares, in the order of the
    /// board.
    fn all_possible_move_pairs(&self) -> (pairs: Vec<SquarePair>)
        requires
            self.has_cells(),
        ensures
            lists_pairs(pairs@, self@),
    {
        let squares = self.all_occupied_squares();
        let n = squares.len();
        let mut pairs: Vec<SquarePair> = Vec::new();
        let mut s: usize = 0;
        while s < n
            invariant
                self.has_cells(),
                lists_occupied(squares@, self@),
                n == squares@.len(),
                s <= n,
                forall|k: int|
                    0 <= k < pairs@.len() ==> {
                        &&& (#[trigger] pairs@[k]).wf()
                        &&& shows(pairs@[k]@.0, self@)
                        &&& shows(pairs@[k]@.1, self@)
                        &&& s < n ==> index_of(pairs@[k]@.0.at) < index_of(squares@[s as int]@.at)
                    },
                forall|a: int, b: int|
                    0 <= a < s && 0 <= b < n && a != b ==> exists|k: int|
                        0 <= k < pairs@.len() && (#[trigger] pairs@[k])@.0.at == (
                        #[trigger] squares@[a])@.at && pairs@[k]@.1.at == (#[trigger] squares@[b])@.at,
                forall|i: int, j: int|
                    0 <= i < j < pairs@.len() ==> pair_index(
                        (#[trigger] pairs@[i])@.0.at,
                        pairs@[i]@.1.at,
                    ) < pair_index((#[trigger] pairs@[j])@.0.at, pairs@[j]@.1.at),
            decreases n - s,
        {
            let start = squares[s];
            let mut e: usize = 0;
            while e < n
                invariant
                    self.has_cells(),
                    lists_occupied(squares@, self@),
                    n == squares@.len(),
                    s < n,
                    e <= n,
                    start == squares@[s as int],
                    forall|k: int|
                        0 <= k < pairs@.len() ==> {
                            &&& (#[trigger] pairs@[k]).wf()
                            &&& shows(pairs@[k]@.0, self@)
                            &&& shows(pairs@[k]@.1, self@)
                            &&& index_of(pairs@[k]@.0.at) <= index_of(start@.at)
                            &&& index_of(pairs@[k]@.0.at) == index_of(start@.at) && e < n
                                ==> index_of(pairs@[k]@.1.at) < index_of(squares@[e as int]@.at)
                        },
                    forall|a: int, b: int|
                        0 <= b < n && a != b && (0 <= a < s || (a == s && b < e)) ==> exists|
                            k: int,
                        |
                            0 <= k < pairs@.len() && (#[trigger] pairs@[k])@.0.at == (
                            #[trigger] squares@[a])@.at && pairs@[k]@.1.at == (
                            #[trigger] squares@[b])@.at,
                    forall|i: int, j: int|
                        0 <= i < j < pairs@.len() ==> pair_index(
                            (#[trigger] pairs@[i])@.0.at,
                            pairs@[i]@.1.at,
                        ) < pair_index((#[trigger] pairs@[j])@.0.at, pairs@[j]@.1.at),
                decreases n - e,
            {
                let end = squares[e];
                let ghost before = pairs@;
                proof {
                    assert(shows(squares@[s as int]@, self@));
                    assert(shows(squares@[e as int]@, self@));
                    self.lemma_view_valid();
                }
                match SquarePair::try_new(start, end) {
                    Ok(pair) => {
                        pairs.push(pair);
                        proof {
                            let last = before.len() as int;
                            assert(pairs@[last] == pair);
                            assert forall|k: int| 0 <= k < last implies pairs@[k] == before[k] by {}
                            assert forall|a: int, b: int|
                                0 <= b < n && a != b && (0 <= a < s || (a == s && b < e + 1))
                                implies exists|k: int|
                                0 <= k < pairs@.len() && (#[trigger] pairs@[k])@.0.at == (
                                #[trigger] squares@[a])@.at && pairs@[k]@.1.at == (
                                #[trigger] squares@[b])@.at by {
                                if a == s && b == e {
                                    assert(pairs@[last]@.0.at == squares@[a]@.at);
                                } else {
                                    let k = choose|k: int|
                                        0 <= k < before.len() && (#[trigger] before[k])@.0.at == (
                                        squares@[a])@.at && before[k]@.1.at == (squares@[b])@.at;
                                    assert(pairs@[k] == before[k]);
                                }
                            }
                            assert forall|i: int, j: int|
                                0 <= i < j < pairs@.len() implies pair_index(
                                (#[trigger] pairs@[i])@.0.at,
                                pairs@[i]@.1.at,
                            ) < pair_index((#[trigger] pairs@[j])@.0.at, pairs@[j]@.1.at) by {
                                assert(pairs@[i] == before[i]);
                                if j < last {
                                    assert(pairs@[j] == before[j]);
                                }
                            }
                        }
                    },
                    Err(_) => {
                        proof {
                            // Two entries of the list at one location are one entry.
                            if s as int != e as int {
                                if (s as int) < (e as int) {
                                    assert(index_of(squares@[s as int]@.at) < index_of(
                                        squares@[e as int]@.at,
                                    ));
                                } else {
                                    assert(index_of(squares@[e as int]@.at) < index_of(
                                        squares@[s as int]@.at,
                                    ));
                                }
                            }
                        }
                    },
                }
                e += 1;
            }
            s += 1;
        }
        proof {
            assert forall|from: (int, int), to: (int, int)|
                self@.dom().contains(from) && self@.dom().contains(to) && from != to implies exists|
                k: int,
            |
                0 <= k < pairs@.len() && (#[trigger] pairs@[k])@.0.at == from && pairs@[k]@.1.at
                    == to by {
                let a = choose|a: int| 0 <= a < squares@.len() && (#[trigger] squares@[a])@.at == from;
                let b = choose|b: int| 0 <= b < squares@.len() && (#[trigger] squares@[b])@.at == to;
                assert(a != b);
            }
        }
        pairs
    }

    /// The capture that a pair of occupied squares stands for, if the piece
    /// on its start attacks its end.
    fn is_legal_move(&self, pair: SquarePair) -> (found: Option<CMove>)
        requires
            self.has_cells(),
            pair.wf(),
        ensures
            match found {
                Some(mv) => {
                    &&& pair@.0.piece == Some(mv@.from.piece)
                    &&& pair@.1.piece == Some(mv@.to.piece)
                    &&& mv@.from.at == pair@.0.at
                    &&& mv@.to.at == pair@.1.at
                    &&& reaches(mv@.from.piece, self@.dom(), pair@.0.at, pair@.1.at)
                },
                None => pair@.0.piece.is_none() || pair@.1.piece.is_none() || !reaches(
                    pair@.0.piece.unwrap(),
                    self@.dom(),
                    pair@.0.at,
                    pair@.1.at,
                ),
            },
    {
        let Some(from) = OccupiedSquare::from_square(*pair.start()) else {
            return None;
        };
        let Some(to) = OccupiedSquare::from_square(*pair.end()) else {
            return None;
        };
        let legal = match from.piece() {
            Piece::King => self.is_king_legal(&pair),
            Piece::Queen => self.is_queen_legal(&pair),
            Piece::Bishop => self.is_bishop_legal(&pair),
            Piece::Knight => self.is_knight_legal(&pair),
            Piece::Rook => self.is_rook_legal(&pair),
            Piece::Pawn => self.is_pawn_legal(&pair),
        };
        if legal {
            return match CMove::try_new(from, to) {
                Ok(mv) => Some(mv),
                Err(_) => None,
            };
        }
        None
    }

    /// The legal captures of the position: every pair of different occupied
    /// squares whose first piece attacks the second.
    pub(super) fn find_legal_moves(&self) -> (moves: Vec<CMove>)
        requires
            self.has_cells(),
        ensures
            lists_legal_moves(moves@, self@),
    {
        let pairs = self.all_possible_move_pairs();
        let n = pairs.len();
        let mut moves: Vec<CMove> = Vec::new();
        let mut i: usize = 0;
        proof {
            lemma_captures_none(pairs@, self@);
        }
        while i < n
            invariant
                self.has_cells(),
                lists_pairs(pairs@, self@),
                n == pairs@.len(),
                i <= n,
                lists_captures_among(moves@, pairs@, i as int, self@),
            decreases n - i,
        {
            let pair = pairs[i];
            proof {
                lemma_pair_in_turn(pairs@, i as int, self@);
            }
            match self.is_legal_move(pair) {
                Some(mv) => {
                    proof {
                        lemma_captures_found(moves@, pairs@, i as int, self@, mv);
                    }
                    moves.push(mv);
                },
                None => {
                    proof {
                        lemma_captures_missed(moves@, pairs@, i as int, self@);
                    }
                },
            }
            i += 1;
        }
        proof {
            self.lemma_view_valid();
            lemma_captures_all(moves@, pairs@, self@);
        }
        moves
    }

    /// A king steps one square in any direction.
    fn is_king_legal(&self, pair: &SquarePair) -> (legal: bool)
        requires
            pair.wf(),
        ensures
            legal == reaches(Piece::King, self@.dom(), pair@.0.at, pair@.1.at),
    {
        magnitude(pair.dx()) <= 1 && magnitude(pair.dy()) <= 1
    }

    /// A queen moves along a line or a diagonal, as far as the way is clear.
    fn is_queen_legal(&self, pair: &SquarePair) -> (legal: bool)
        requires
            self.has_cells(),
            pair.wf(),
        ensures
            legal == reaches(Piece::Queen, self@.dom(), pair@.0.at, pair@.1.at),
    {
        self.is_path_free(pair)
    }

    /// A bishop moves along a diagonal, as far as the way is clear.
    fn is_bishop_legal(&self, pair: &SquarePair) -> (legal: bool)
        requires
            self.has_cells(),
            pair.wf(),
        ensures
            legal == reaches(Piece::Bishop, self@.dom(), pair@.0.at, pair@.1.at),
    {
        magnitude(pair.dx()) == magnitude(pair.dy()) && self.is_path_free(pair)
    }

    /// A knight jumps two squares one way and one square the other.
    fn is_knight_legal(&self, pair: &SquarePair) -> (legal: bool)
        requires
            pair.wf(),
        ensures
            legal == reaches(Piece::Knight, self@.dom(), pair@.0.at, pair@.1.at),
    {
        (magnitude(pair.dx()) == 2 && magnitude(pair.dy()) == 1) || (magnitude(pair.dx()) == 1
            && magnitude(pair.dy()) == 2)
    }

    /// A rook moves along a line, as far as the way is clear.
    fn is_rook_legal(&self, pair: &SquarePair) -> (legal: bool)
        requires
            self.has_cells(),
            pair.wf(),
        ensures
            legal == reaches(Piece::Rook, self@.dom(), pair@.0.at, pair@.1.at),
    {
        if pair.dx() != 0 && pair.dy() != 0 {
            return false;
        }
        self.is_path_free(pair)
    }

    /// A pawn takes one square diagonally toward the top row, and moves in
    /// no other way.
    fn is_pawn_legal(&self, pair: &SquarePair) -> (legal: bool)
        requires
            pair.wf(),
        ensures
            legal == reaches(Piece::Pawn, self@.dom(), pair@.0.at, pair@.1.at),
    {
        magnitude(pair.dx()) == 1 && pair.dy() == -1
    }

    /// Whether the two squares lie on one line or diagonal with no piece
    /// strictly between them.
    fn is_path_free(&self, pair: &SquarePair) -> (free: bool)
        requires
            self.has_cells(),
            pair.wf(),
        ensures
            free == {
                let dx = pair@.1.at.0 - pair@.0.at.0;
                let dy = pair@.1.at.1 - pair@.0.at.1;
                (straight(dx, dy) || diagonal(dx, dy)) && path_clear(
                    self@.dom(),
                    pair@.0.at,
                    pair@.1.at,
                )
            },
    {
        let dx = pair.dx();
        let dy = pair.dy();
        if magnitude(dx) != magnitude(dy) && dx != 0 && dy != 0 {
            return false;
        }
        let x_inc = direction(dx);
        let y_inc = direction(dy);
        let end_file = pair.end().location().file() as i16;
        let end_rank = pair.end().location().rank() as i16;
        let mut x: i16 = pair.start().location().file() as i16;
        let mut y: i16 = pair.start().location().rank() as i16;
        let ghost from = pair@.0.at;
        let ghost to = pair@.1.at;
        let ghost mut steps: int = 0;
        loop
            invariant
                self.has_cells(),
                pair.wf(),
                from == pair@.0.at,
                to == pair@.1.at,
                end_file == to.0,
                end_rank == to.1,
                straight(to.0 - from.0, to.1 - from.1) || diagonal(to.0 - from.0, to.1 - from.1),
                x_inc == stepped(from, to, 1).0 - from.0,
                y_inc == stepped(from, to, 1).1 - from.1,
                0 <= steps < distance(from, to),
                (x as int, y as int) == stepped(from, to, steps),
                forall|k: int| 0 < k <= steps ==> !self@.dom().contains(#[trigger] stepped(from, to, k)),
            decreases distance(from, to) - steps,
        {
            x = x + x_inc;
            y = y + y_inc;
            proof {
                steps = steps + 1;
                assert((x as int, y as int) == stepped(from, to, steps));
            }
            if y == end_rank && x == end_file {
                assert(steps == distance(from, to));
                return true;
            }
            assert(steps < distance(from, to));
            let index = (x * 4 + y) as usize;
            if self.cell(index).is_some() {
                assert(self@.dom().contains(stepped(from, to, steps)));
                return false;
            }
        }
    }
}

} // verus!
