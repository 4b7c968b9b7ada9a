//! A position as text: the sixteen-character layout that a board is read
//! from, and the rows that a board is shown as.

use vstd::prelude::*;
use vstd::string::StringExecFns;
use super::constants::SQUARE_COUNT;
use super::encoding::position_id;
use super::errors::SError;
use super::piece::Piece;
use super::rules::{square_at, Position};
use super::square::{on_board, Location};
use crate::text::{center, centered, decimal, push_decimal};
use super::Board;

verus! {

/// The width of the field in which a decorated board is centred.
pub const DISPLAY_WIDTH: usize = 40;

/// The place of a square in a layout: row by row from the top, and from the
/// first file on within a row.
pub open spec fn layout_index(at: (int, int)) -> int {
    at.1 * 4 + at.0
}

/// Whether a character of a layout is a piece letter or the dot of an empty
/// square.
pub open spec fn is_layout_char(c: char) -> bool {
    c == '.' || Piece::of_letter(c).is_some()
}

/// Whether a text is a layout: sixteen characters, each a piece letter or a
/// dot.
pub open spec fn valid_layout(text: Seq<char>) -> bool {
    text.len() == 16 && forall|i: int| 0 <= i < 16 ==> is_layout_char(#[trigger] text[i])
}

/// The position that a layout shows.
pub open spec fn position_of_layout(text: Seq<char>) -> Position {
    Map::new(
        |at: (int, int)| on_board(at) && Piece::of_letter(text[layout_index(at)]).is_some(),
        |at: (int, int)| Piece::of_letter(text[layout_index(at)]).unwrap(),
    )
}

/// How one square is shown: its piece's letter, or its glyph between two
/// spaces on a decorated board; a dot stands for an empty square.
pub open spec fn cell_text(content: Option<Piece>, pretty: bool) -> Seq<char> {
    let mark = match content {
        Some(piece) => if pretty {
            piece.glyph()
        } else {
            piece.letter()
        },
        None => '.',
    };
    if pretty {
        seq![' ', mark, ' ']
    } else {
        seq![mark]
    }
}

/// The first `count` squares of a rank, shown one after another.
pub open spec fn cells_text(position: Position, rank: int, count: nat, pretty: bool) -> Seq<char>
    decreases count,
{
    if count == 0 {
        Seq::empty()
    } else {
        cells_text(position, rank, (count - 1) as nat, pretty) + cell_text(
            position.get((count - 1, rank)),
            pretty,
        )
    }
}

/// One rank as a line of the shown board. A decorated line is centred and
/// followed by an empty line.
pub open spec fn line_text(position: Position, rank: int, pretty: bool) -> Seq<char> {
    if pretty {
        centered(cells_text(position, rank, 4, true), DISPLAY_WIDTH as nat) + seq!['\n', '\n']
    } else {
        cells_text(position, rank, 4, false) + seq!['\n']
    }
}

/// The first `count` ranks as lines, from the top.
pub open spec fn lines_text(position: Position, count: nat, pretty: bool) -> Seq<char>
    decreases count,
{
    if count == 0 {
        Seq::empty()
    } else {
        lines_text(position, (count - 1) as nat, pretty) + line_text(position, count - 1, pretty)
    }
}

/// The whole board as text.
pub open spec fn board_text(position: Position, pretty: bool) -> Seq<char> {
    lines_text(position, 4, pretty)
}

/// The line that names a position's identity.
pub open spec fn id_text(position: Position) -> Seq<char> {
    seq!['i', 'd', ':', ' '] + decimal(position_id(position))
}

/// The decorated board followed by its identity: what a player is shown.
pub open spec fn display_text(position: Position) -> Seq<char> {
    board_text(position, true) + seq!['\n'] + centered(id_text(position), DISPLAY_WIDTH as nat)
        + seq!['\n', '\n']
}

/// How one square is shown.
pub fn get_square_for_display(piece: Option<&Piece>, pretty: bool) -> (s: String)
    ensures
        s@ == cell_text(
            match piece {
                Some(p) => Some(*p),
                None => None,
            },
            pretty,
        ),
{
    proof {
        reveal_strlit(".");
        reveal_strlit(" ");
    }
    let contents = if let Some(piece) = piece {
        if pretty {
            piece.pretty()
        } else {
            piece.to_string()
        }
    } else {
        String::from_str(".")
    };
    if pretty {
        let mut s = String::from_str(" ");
        s.append(contents.as_str());
        s.append(" ");
        proof {
            assert(s@ =~= seq![' ', contents@[0], ' ']);
        }
        s
    } else {
        proof {
            assert(contents@ =~= seq![contents@[0]]);
        }
        contents
    }
}

impl Board {
    /// The board that a layout shows: sixteen characters, row by row from
    /// the top, each a piece letter or a dot for an empty square. There is
    /// none for any other text.
    pub fn from_string(board_string: String) -> (made: Result<Board, SError>)
        ensures
            match made {
                Ok(board) => {
                    &&& valid_layout(board_string@)
                    &&& board.wf()
                    &&& board@ == position_of_layout(board_string@)
                },
                Err(e) => e == SError::InvalidBoard && !valid_layout(board_string@),
            },
    {
        let text = board_string.as_str();
        if text.unicode_len() != 16 {
            return Err(SError::InvalidBoard);
        }
        let mut board = Board::new();
        let mut i: usize = 0;
        while i < SQUARE_COUNT
            invariant
                i <= SQUARE_COUNT,
                text@ == board_string@,
                text@.len() == 16,
                board.wf(),
                forall|k: int| 0 <= k < i ==> is_layout_char(#[trigger] text@[k]),
                forall|at: (int, int)|
                    on_board(at) && layout_index(at) < i ==> Piece::of_letter(
                        text@[layout_index(at)],
                    ) == #[trigger] board@.get(at),
                forall|at: (int, int)| #[trigger]
                    board@.dom().contains(at) ==> on_board(at) && layout_index(at) < i,
            decreases SQUARE_COUNT - i,
        {
            let c = text.get_char(i);
            let rank = (i / 4) as u8;
            let file = (i % 4) as u8;
            match Piece::from_char(c) {
                Some(piece) => {
                    match Location::new(file, rank) {
                        Ok(location) => {
                            let ghost before = board@;
                            proof {
                                assert(layout_index(location@) == i);
                                assert forall|at: (int, int)|
                                    on_board(at) && at != location@ implies layout_index(at)
                                    != i by {}
                            }
                            board.set(location, Some(piece));
                            proof {
                                assert forall|at: (int, int)|
                                    on_board(at) && layout_index(at) < i + 1 implies Piece::of_letter(
                                    text@[layout_index(at)],
                                ) == #[trigger] board@.get(at) by {
                                    if at != location@ {
                                        assert(board@.get(at) == before.get(at));
                                    }
                                }
                            }
                        },
                        Err(_) => {
                            return Err(SError::InvalidBoard);
                        },
                    }
                },
                None => {
                    if c != '.' {
                        assert(!is_layout_char(text@[i as int]));
                        return Err(SError::InvalidBoard);
                    }
                    proof {
                        assert forall|at: (int, int)|
                            on_board(at) && layout_index(at) < i + 1 implies Piece::of_letter(
                            text@[layout_index(at)],
                        ) == #[trigger] board@.get(at) by {
                            if layout_index(at) == i {
                                assert(!board@.dom().contains(at));
                            }
                        }
                    }
                },
            }
            i += 1;
        }
        proof {
            assert forall|at: (int, int)|
                board@.dom().contains(at) <==> position_of_layout(text@).dom().contains(at) by {
                if on_board(at) {
                    assert(0 <= layout_index(at) < 16);
                    assert(Piece::of_letter(text@[layout_index(at)]) == board@.get(at));
                }
            }
            assert forall|at: (int, int)| board@.dom().contains(at) implies board@[at]
                == position_of_layout(text@)[at] by {
                assert(Piece::of_letter(text@[layout_index(at)]) == board@.get(at));
            }
            assert(board@ =~= position_of_layout(board_string@));
        }
        Ok(board)
    }

    /// The board as text, rank by rank from the top: plain, one letter or
    /// dot for each square and a line for each rank; or decorated, with
    /// glyphs, each rank centred and followed by an empty line.
    pub fn print(&self, pretty: bool) -> (s: String)
        requires
            self.wf(),
        ensures
            s@ == board_text(self@, pretty),
    {
        proof {
            reveal_strlit("\n");
        }
        let mut board_string = String::new();
        let mut rank: usize = 0;
        proof {
            assert(board_string@ =~= lines_text(self@, 0, pretty));
        }
        while rank < 4
            invariant
                self.has_cells(),
                rank <= 4,
                board_string@ == lines_text(self@, rank as nat, pretty),
                "\n"@.len() == 1,
                "\n"@[0] == '\n',
            decreases 4 - rank,
        {
            let mut row = String::new();
            let mut file: usize = 0;
            proof {
                assert(row@ =~= cells_text(self@, rank as int, 0, pretty));
            }
            while file < 4
                invariant
                    self.has_cells(),
                    rank < 4,
                    file <= 4,
                    row@ == cells_text(self@, rank as int, file as nat, pretty),
                decreases 4 - file,
            {
                let content = self.cell(file * 4 + rank);
                let cell = match &content {
                    Some(piece) => get_square_for_display(Some(piece), pretty),
                    None => get_square_for_display(None, pretty),
                };
                proof {
                    assert(square_at(file * 4 + rank) == (file as int, rank as int));
                }
                row.append(cell.as_str());
                file += 1;
            }
            let ghost before = board_string@;
            if pretty {
                let shown = center(row.as_str(), DISPLAY_WIDTH);
                board_string.append(shown.as_str());
                board_string.append("\n");
            } else {
                board_string.append(row.as_str());
            }
            board_string.append("\n");
            proof {
                assert(board_string@ =~= before + line_text(self@, rank as int, pretty));
            }
            rank += 1;
        }
        board_string
    }

    /// What a player is shown: the decorated board, an empty line, and the
    /// centred identity of the position.
    pub fn pretty_text(&self) -> (s: String)
        requires
            self.wf(),
        ensures
            s@ == display_text(self@),
    {
        proof {
            reveal_strlit("\n");
            reveal_strlit("id: ");
        }
        let mut label = String::from_str("id: ");
        push_decimal(&mut label, self.id());
        proof {
            assert(label@ =~= id_text(self@));
        }
        let mut s = self.print(true);
        s.append("\n");
        let line = center(label.as_str(), DISPLAY_WIDTH);
        s.append(line.as_str());
        s.append("\n");
        s.append("\n");
        proof {
            assert(s@ =~= display_text(self@));
        }
        s
    }
}

} // verus!
