//! The identity of a position: one number that holds the whole position and
//! from which the position can be read back.
//!
//! Each square takes three bits: zero for an empty square, and one to six
//! for the piece on it. The squares follow one another in the order of the
//! board, the first square in the highest of the forty-eight bits.

use vstd::prelude::*;
use super::constants::SQUARE_COUNT;
use super::errors::SError;
use super::piece::Piece;
use super::rules::{index_of, square_at, valid_position, Position};
use super::square::{on_board, Location};
use super::Board;

verus! {

/// The three-bit code of what stands on a square.
pub open spec fn piece_code(content: Option<Piece>) -> nat {
    match content {
        None => 0,
        Some(Piece::King) => 1,
        Some(Piece::Queen) => 2,
        Some(Piece::Rook) => 3,
        Some(Piece::Bishop) => 4,
        Some(Piece::Knight) => 5,
        Some(Piece::Pawn) => 6,
    }
}

/// What a three-bit code stands for; the code seven stands for nothing.
pub open spec fn content_of_code(code: nat) -> Option<Option<Piece>> {
    if code == 0 {
        Some(None)
    } else if code == 1 {
        Some(Some(Piece::King))
    } else if code == 2 {
        Some(Some(Piece::Queen))
    } else if code == 3 {
        Some(Some(Piece::Rook))
    } else if code == 4 {
        Some(Some(Piece::Bishop))
    } else if code == 5 {
        Some(Some(Piece::Knight))
    } else if code == 6 {
        Some(Some(Piece::Pawn))
    } else {
        None
    }
}

/// The code of the square with the given index in a position.
pub open spec fn code_at(position: Position, index: int) -> nat {
    piece_code(position.get(square_at(index)))
}

/// The number that packs the codes of the first `count` squares, the first
/// square in the highest place.
pub open spec fn id_of_first(position: Position, count: nat) -> nat
    decreases count,
{
    if count == 0 {
        0
    } else {
        id_of_first(position, (count - 1) as nat) * 8 + code_at(position, count - 1)
    }
}

/// The identity of a position.
pub open spec fn position_id(position: Position) -> nat {
    id_of_first(position, 16)
}

/// A number without its `count` lowest three-bit groups.
pub open spec fn without_groups(id: nat, count: nat) -> nat
    decreases count,
{
    if count == 0 {
        id
    } else {
        without_groups(id / 8, (count - 1) as nat)
    }
}

/// The three-bit group that an identity holds for the square with the given
/// index: the last square has the lowest group.
pub open spec fn group(id: nat, index: int) -> nat {
    without_groups(id, (15 - index) as nat) % 8
}

/// Whether each of the sixteen groups of the number stands for a square's
/// content. Bits above the forty-eighth are not looked at.
pub open spec fn valid_id(id: nat) -> bool {
    forall|index: int| 0 <= index < 16 ==> content_of_code(#[trigger] group(id, index)).is_some()
}

/// The position that an identity holds.
pub open spec fn position_of_id(id: nat) -> Position {
    Map::new(
        |at: (int, int)|
            on_board(at) && content_of_code(group(id, index_of(at))) matches Some(Some(_)),
        |at: (int, int)| content_of_code(group(id, index_of(at))).unwrap().unwrap(),
    )
}

/// One more than the largest number that `count` groups can hold.
pub open spec fn limit(count: nat) -> nat
    decreases count,
{
    if count == 0 {
        1
    } else {
        limit((count - 1) as nat) * 8
    }
}

/// The limit grows with the count, and sixteen groups fit in forty-eight
/// bits.
pub proof fn lemma_limit(count: nat)
    requires
        count <= 16,
    ensures
        1 <= limit(count) <= 0x1_0000_0000_0000,
        count <= 15 ==> limit(count) <= 0x2000_0000_0000,
    decreases 16 - count,
{
    if count == 16 {
        reveal_with_fuel(limit, 17);
        assert(limit(16) == 0x1_0000_0000_0000);
    } else {
        lemma_limit(count + 1);
        assert(limit(count + 1) == limit(count) * 8);
    }
}

/// The packed codes of `count` squares stay below the limit of `count`
/// groups.
pub proof fn lemma_id_below_limit(position: Position, count: nat)
    ensures
        id_of_first(position, count) < limit(count),
    decreases count,
{
    if count > 0 {
        lemma_id_below_limit(position, (count - 1) as nat);
        assert(code_at(position, count - 1) <= 6);
    }
}

/// Packing keeps each code where it can be read back: the group of a square
/// among the first `count` is the code of that square.
pub proof fn lemma_group_of_packed(position: Position, count: nat, index: int)
    requires
        0 <= index < count,
    ensures
        without_groups(id_of_first(position, count), (count - 1 - index) as nat) % 8 == code_at(
            position,
            index,
        ),
    decreases count,
{
    let shorter = id_of_first(position, (count - 1) as nat);
    let code = code_at(position, count - 1);
    assert(code <= 6);
    assert(id_of_first(position, count) == shorter * 8 + code);
    if index == count - 1 {
        assert((shorter * 8 + code) % 8 == code);
    } else {
        assert((shorter * 8 + code) / 8 == shorter);
        lemma_group_of_packed(position, (count - 1) as nat, index);
        assert(without_groups(shorter * 8 + code, (count - 1 - index) as nat) == without_groups(
            shorter,
            (count - 2 - index) as nat,
        ));
    }
}

/// A position can be read back from its identity: the identity of a valid
/// position is a valid identity, and the position that it holds is that
/// position.
pub proof fn lemma_id_round_trip(position: Position)
    requires
        valid_position(position),
    ensures
        valid_id(position_id(position)),
        position_of_id(position_id(position)) == position,
        position_id(position) < 0x1_0000_0000_0000,
{
    let id = position_id(position);
    assert forall|index: int| 0 <= index < 16 implies #[trigger] group(id, index) == code_at(
        position,
        index,
    ) by {
        lemma_group_of_packed(position, 16, index);
    }
    assert forall|content: Option<Piece>| #[trigger]
        content_of_code(piece_code(content)) == Some(content) by {}
    assert forall|at: (int, int)| on_board(at) implies content_of_code(
        group(id, index_of(at)),
    ) == Some(position.get(at)) by {
        assert(square_at(index_of(at)) == at);
        assert(0 <= index_of(at) < 16);
        assert(group(id, index_of(at)) == code_at(position, index_of(at)));
    }
    assert forall|at: (int, int)|
        position_of_id(id).dom().contains(at) <==> position.dom().contains(at) by {
        if on_board(at) {
            assert(content_of_code(group(id, index_of(at))) == Some(position.get(at)));
        }
    }
    assert forall|at: (int, int)| position.dom().contains(at) implies position_of_id(id)[at]
        == position[at] by {
        assert(content_of_code(group(id, index_of(at))) == Some(position.get(at)));
    }
    assert(position_of_id(id) =~= position);
    lemma_id_below_limit(position, 16);
    lemma_limit(16);
}

/// Dropping one more group divides by eight once more.
proof fn lemma_without_groups_step(id: nat, count: nat)
    ensures
        without_groups(id, count + 1) == without_groups(id, count) / 8,
    decreases count,
{
    assert(without_groups(id, count + 1) == without_groups(id / 8, count));
    if count > 0 {
        lemma_without_groups_step(id / 8, (count - 1) as nat);
        assert(without_groups(id, count) == without_groups(id / 8, (count - 1) as nat));
    }
}

impl Board {
    /// The three-bit code of what stands on a square.
    fn get_piece_encoding(piece: Option<Piece>) -> (code: u8)
        ensures
            code == piece_code(piece),
    {
        match piece {
            Some(p) => match p {
                Piece::King => 0b001,
                Piece::Queen => 0b010,
                Piece::Rook => 0b011,
                Piece::Bishop => 0b100,
                Piece::Knight => 0b101,
                Piece::Pawn => 0b110,
            },
            None => 0b000,
        }
    }

    /// What a three-bit code stands for.
    fn get_piece_from_encoding(encoding: u8) -> (content: Result<Option<Piece>, SError>)
        ensures
            match content {
                Ok(c) => content_of_code(encoding as nat) == Some(c),
                Err(e) => e == SError::InvalidBoard && content_of_code(encoding as nat).is_none(),
            },
    {
        match encoding {
            0b001 => Ok(Some(Piece::King)),
            0b010 => Ok(Some(Piece::Queen)),
            0b011 => Ok(Some(Piece::Rook)),
            0b100 => Ok(Some(Piece::Bishop)),
            0b101 => Ok(Some(Piece::Knight)),
            0b110 => Ok(Some(Piece::Pawn)),
            0b000 => Ok(None),
            _ => Err(SError::InvalidBoard),
        }
    }

    /// The identity of the position.
    pub fn id(&self) -> (id: u128)
        requires
            self.wf(),
        ensures
            id == position_id(self@),
            id < 0x1_0000_0000_0000,
    {
        let mut res: u128 = 0;
        let mut i: usize = 0;
        while i < SQUARE_COUNT
            invariant
                self.has_cells(),
                i <= SQUARE_COUNT,
                res == id_of_first(self@, i as nat),
            decreases SQUARE_COUNT - i,
        {
            let code = Board::get_piece_encoding(self.cell(i)) as u128;
            proof {
                lemma_id_below_limit(self@, i as nat);
                lemma_limit(i as nat);
                assert(code <= 6);
                assert(((res << 3) | code) == res * 8 + code) by (bit_vector)
                    requires
                        res < 0x2000_0000_0000u128,
                        code <= 6u128,
                ;
            }
            res = res << 3;
            res = res | code;
            i += 1;
        }
        proof {
            lemma_id_below_limit(self@, 16);
            lemma_limit(16);
        }
        res
    }

    /// The board that an identity holds. There is none where one of the
    /// sixteen groups of the number stands for no content of a square.
    pub fn from_id(board_id: u128) -> (made: Result<Board, SError>)
        ensures
            match made {
                Ok(board) => {
                    &&& valid_id(board_id as nat)
                    &&& board.wf()
                    &&& board@ == position_of_id(board_id as nat)
                },
                Err(e) => e == SError::InvalidBoard && !valid_id(board_id as nat),
            },
    {
        let mut board = Board::new();
        let mut working = board_id;
        let mut remaining: usize = SQUARE_COUNT;
        let ghost id = board_id as nat;
        while remaining > 0
            invariant
                remaining <= SQUARE_COUNT,
                id == board_id as nat,
                board.wf(),
                working == without_groups(id, (16 - remaining) as nat),
                forall|index: int|
                    remaining <= index < 16 ==> content_of_code(#[trigger] group(id, index)).is_some(),
                forall|at: (int, int)|
                    on_board(at) && index_of(at) >= remaining ==> content_of_code(
                        group(id, index_of(at)),
                    ) == Some(#[trigger] board@.get(at)),
                forall|at: (int, int)| #[trigger]
                    board@.dom().contains(at) ==> on_board(at) && index_of(at) >= remaining,
            decreases remaining,
        {
            remaining -= 1;
            let mask: u128 = 0b111;
            let low = working & mask;
            proof {
                assert(working & 0b111u128 == working % 8) by (bit_vector);
                assert(working >> 3 == working / 8) by (bit_vector);
                lemma_without_groups_step(id, (15 - remaining) as nat);
                assert(low == group(id, remaining as int));
            }
            let content = Board::get_piece_from_encoding(low as u8);
            working = working >> 3;
            let piece = match content {
                Ok(piece) => piece,
                Err(e) => {
                    return Err(e);
                },
            };
            let file = (remaining / 4) as u8;
            let rank = (remaining % 4) as u8;
            match Location::new(file, rank) {
                Ok(location) => {
                    let ghost before = board@;
                    proof {
                        assert(index_of(location@) == remaining);
                        assert forall|at: (int, int)| on_board(at) && at != location@ implies index_of(
                            at,
                        ) != remaining by {}
                    }
                    board.set(location, piece);
                    proof {
                        assert forall|at: (int, int)|
                            on_board(at) && index_of(at) >= remaining implies content_of_code(
                            group(id, index_of(at)),
                        ) == Some(#[trigger] board@.get(at)) by {
                            if at != location@ {
                                assert(board@.get(at) == before.get(at));
                            }
                        }
                    }
                },
                Err(_) => {
                    return Err(SError::InvalidBoard);
                },
            }
        }
        proof {
            assert forall|at: (int, int)|
                board@.dom().contains(at) <==> position_of_id(id).dom().contains(at) by {
                if on_board(at) {
                    assert(content_of_code(group(id, index_of(at))) == Some(board@.get(at)));
                }
            }
            assert forall|at: (int, int)| board@.dom().contains(at) implies board@[at]
                == position_of_id(id)[at] by {
                assert(content_of_code(group(id, index_of(at))) == Some(board@.get(at)));
            }
            assert forall|index: int| 0 <= index < 16 implies content_of_code(
                #[trigger] group(id, index),
            ).is_some() by {}
            assert(board@ =~= position_of_id(id));
        }
        Ok(board)
    }
}

} // verus!
