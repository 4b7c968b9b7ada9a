use sol_chess::board::cmove::CMove;
use sol_chess::board::errors::SError;
use sol_chess::board::piece::Piece;
use sol_chess::board::square::{Location, OccupiedSquare, Square};
use sol_chess::board::layout::get_square_for_display;
use sol_chess::board::{set_board_square, Board, BoardState};

fn sq(notation: &str) -> Square {
    Square::parse(notation).unwrap()
}

fn mv(from: &str, to: &str) -> CMove {
    CMove::try_new(
        OccupiedSquare::parse(from).unwrap(),
        OccupiedSquare::parse(to).unwrap(),
    )
    .unwrap()
}

fn validate_board(board: &Board, row1: &str, row2: &str, row3: &str, row4: &str) {
    let printed = board.print(false);
    assert_eq!(printed, format!("{}\n{}\n{}\n{}\n", row1, row2, row3, row4));
}

fn validate_legal_moves(board: &Board, expected: Vec<CMove>) {
    let mut legal_moves: Vec<CMove> = board.legal_moves().iter().map(|m| m.clone()).collect();
    for m in expected {
        assert!(legal_moves.contains(&m));
        let position = legal_moves.iter().position(|other| other == &m).unwrap();
        legal_moves.remove(position);
    }
    if legal_moves.len() > 0 {
        println!("The following moves were not matched - ");
        for m in &legal_moves {
            println!("{}", m.notation());
        }
        assert!(false);
    }
}

fn crowded_board() -> Board {
    let mut board = Board::new();
    set_board_square(&mut board, sq("Qa4"));
    set_board_square(&mut board, sq("Ka2"));
    set_board_square(&mut board, sq("Pa1"));
    set_board_square(&mut board, sq("Pb3"));
    set_board_square(&mut board, sq("Rb2"));
    set_board_square(&mut board, sq("Pc4"));
    set_board_square(&mut board, sq("Kc3"));
    set_board_square(&mut board, sq("Bc1"));
    set_board_square(&mut board, sq("Bd2"));
    set_board_square(&mut board, sq("Nd1"));
    board
}

#[test]
fn board_test_board_place() {
    let mut board = Board::new();
    assert!(set_board_square(&mut board, sq("Ka1")).is_none());
    assert!(set_board_square(&mut board, sq("Qa2")).is_none());
    assert!(set_board_square(&mut board, sq("Bc3")).is_none());
    assert!(set_board_square(&mut board, sq("Nc4")).is_none());
    assert!(set_board_square(&mut board, sq("Rd1")).is_none());
    assert!(set_board_square(&mut board, sq("Pd4")).is_none());
    assert!(set_board_square(&mut board, sq("Nb2")).is_none());
    let existing = set_board_square(&mut board, sq("Pc4"));
    assert!(existing.is_some());
    assert_eq!(Piece::Knight, existing.unwrap());
    validate_board(&board, "..PP", "..B.", "QN..", "K..R");
}

#[test]
fn board_test_legal_moves() {
    let mut board = Board::new();
    assert_eq!(0, board.pieces_remaining());
    assert_eq!(0, board.legal_moves().len());
    assert!(board.make_move(mv("Rb2", "Nd1")).is_err());

    set_board_square(&mut board, sq("Qa4"));
    set_board_square(&mut board, sq("Ka2"));
    set_board_square(&mut board, sq("Pa1"));
    set_board_square(&mut board, sq("Pb3"));
    set_board_square(&mut board, sq("Rb2"));
    set_board_square(&mut board, sq("Pc4"));
    set_board_square(&mut board, sq("Kc3"));
    set_board_square(&mut board, sq("Bc1"));
    set_board_square(&mut board, sq("Bd2"));
    set_board_square(&mut board, sq("Nd1"));

    assert_eq!(10, board.pieces_remaining());
    println!("{}", board.pretty_text());

    // Q . P .
    // . P K .
    // K R . B
    // P . B N
    validate_legal_moves(
        &board,
        vec![
            mv("Ka2", "Pa1"),
            mv("Ka2", "Rb2"),
            mv("Ka2", "Pb3"),
            mv("Kc3", "Rb2"),
            mv("Kc3", "Pb3"),
            mv("Kc3", "Pc4"),
            mv("Kc3", "Bd2"),
            mv("Pa1", "Rb2"),
            mv("Pb3", "Pc4"),
            mv("Pb3", "Qa4"),
            mv("Qa4", "Ka2"),
            mv("Qa4", "Pb3"),
            mv("Qa4", "Pc4"),
            mv("Rb2", "Ka2"),
            mv("Rb2", "Pb3"),
            mv("Rb2", "Bd2"),
            mv("Bc1", "Rb2"),
            mv("Bc1", "Bd2"),
            mv("Bd2", "Kc3"),
            mv("Bd2", "Bc1"),
            mv("Nd1", "Rb2"),
            mv("Nd1", "Kc3"),
        ],
    );

    assert_eq!(10, board.pieces_remaining());

    // Validate some illegal moves. A capture from a square to itself cannot
    // even be formed.
    assert!(CMove::try_new(
        OccupiedSquare::parse("Ka2").unwrap(),
        OccupiedSquare::parse("Pa2").unwrap()
    )
    .is_err());
    assert!(board.make_move(mv("Rb2", "Nd1")).is_err());

    set_board_square(&mut board, sq(".b2"));
    set_board_square(&mut board, sq(".c4"));
    set_board_square(&mut board, sq("Rc1"));

    // Q . . .
    // . P K .
    // K . . B
    // P . R N
    validate_legal_moves(
        &board,
        vec![
            mv("Ka2", "Pa1"),
            mv("Ka2", "Pb3"),
            mv("Kc3", "Pb3"),
            mv("Kc3", "Bd2"),
            mv("Pb3", "Qa4"),
            mv("Bd2", "Kc3"),
            mv("Bd2", "Rc1"),
            mv("Qa4", "Ka2"),
            mv("Qa4", "Pb3"),
            mv("Rc1", "Pa1"),
            mv("Rc1", "Kc3"),
            mv("Rc1", "Nd1"),
            mv("Nd1", "Kc3"),
        ],
    );

    assert_eq!(8, board.pieces_remaining());
}

#[test]
fn board_test_smoke_puzzle() {
    let mut board = Board::new();
    assert_eq!(BoardState::NotStarted, board.game_state());
    assert_eq!(0, board.pieces_remaining());

    // K . . .
    // . P . .
    // . . R .
    // N . . .
    set_board_square(&mut board, sq("Ka4"));
    assert_eq!(BoardState::Won, board.game_state());

    set_board_square(&mut board, sq("Pb3"));
    set_board_square(&mut board, sq("Rc2"));
    set_board_square(&mut board, sq("Na1"));

    assert_eq!(BoardState::InProgress, board.game_state());
    assert_eq!(4, board.pieces_remaining());

    assert!(board.make_move(mv("Na1", "Rc2")).is_ok());
    assert_eq!(3, board.pieces_remaining());
    assert_eq!(BoardState::InProgress, board.game_state());

    assert!(board.make_move(mv("Pb3", "Ka4")).is_ok());
    assert_eq!(2, board.pieces_remaining());
    assert_eq!(BoardState::Lost, board.game_state());

    // P . . .
    // . . . .
    // . . N .
    // . . . .

    set_board_square(&mut board, sq("Pa1"));
    set_board_square(&mut board, sq("Qa3"));

    // P . . .
    // Q . . .
    // . . N .
    // P . . .
    assert_eq!(4, board.pieces_remaining());
    assert_eq!(BoardState::InProgress, board.game_state());

    let _ = board.make_move(mv("Qa3", "Pa4"));
    let _ = board.make_move(mv("Nc2", "Pa1"));
    assert_eq!(2, board.pieces_remaining());
    assert_eq!(BoardState::InProgress, board.game_state());

    // Q . . .
    // . . . .
    // . . . .
    // N . . .
    let _ = board.make_move(mv("Qa4", "Na1"));
    assert_eq!(1, board.pieces_remaining());
    assert_eq!(BoardState::Won, board.game_state());
}

#[test]
fn test_encoding() {
    let mut board = Board::new();
    set_board_square(&mut board, sq("Pa1"));
    set_board_square(&mut board, sq("Ra2"));
    set_board_square(&mut board, sq("Qb2"));
    set_board_square(&mut board, sq("Kd2"));
    set_board_square(&mut board, sq("Bd4"));
    set_board_square(&mut board, sq("Nc4"));

    let id = board.id();
    let board2 = Board::from_id(id);
    let board2 = board2.unwrap();

    validate_board(&board2, "..NB", "....", "RQ.K", "P...");
}

#[test]
fn crowded_board_has_twenty_two_legal_moves() {
    let mut board = crowded_board();
    assert_eq!(22, board.legal_moves().len());
    set_board_square(&mut board, sq(".b2"));
    set_board_square(&mut board, sq(".c4"));
    set_board_square(&mut board, sq("Rc1"));
    assert_eq!(13, board.legal_moves().len());
    assert!(board.legal_moves().contains(&mv("Rc1", "Pa1")));
    assert!(board.legal_moves().contains(&mv("Rc1", "Kc3")));
    assert!(board.legal_moves().contains(&mv("Rc1", "Nd1")));
}

#[test]
fn legal_moves_hold_no_move_twice() {
    let board = crowded_board();
    let moves = board.legal_moves();
    for i in 0..moves.len() {
        for j in 0..moves.len() {
            if i != j {
                assert_ne!(moves[i], moves[j]);
            }
        }
    }
}

#[test]
fn id_packs_three_bits_a_square() {
    let mut board = Board::new();
    assert_eq!(0, board.id());
    set_board_square(&mut board, sq("Pd1"));
    assert_eq!(6, board.id());
    set_board_square(&mut board, sq("Nd2"));
    assert_eq!(6 + 5 * 8, board.id());
    set_board_square(&mut board, sq("Ka4"));
    assert_eq!(6 + 5 * 8 + (1u128 << 45), board.id());
    set_board_square(&mut board, sq("Qa3"));
    assert_eq!(6 + 5 * 8 + (1u128 << 45) + (2u128 << 42), board.id());
    set_board_square(&mut board, sq("Rb4"));
    assert_eq!(
        6 + 5 * 8 + (1u128 << 45) + (2u128 << 42) + (3u128 << 33),
        board.id()
    );
    set_board_square(&mut board, sq("Bc4"));
    assert_eq!(
        6 + 5 * 8 + (1u128 << 45) + (2u128 << 42) + (3u128 << 33) + (4u128 << 21),
        board.id()
    );
}

#[test]
fn from_id_reads_back_what_id_packs() {
    let board = crowded_board();
    let again = Board::from_id(board.id()).unwrap();
    assert_eq!(board.print(false), again.print(false));
    assert_eq!(board.id(), again.id());
    assert_eq!(board.pieces_remaining(), again.pieces_remaining());
    assert_eq!(board.game_state(), again.game_state());
    assert_eq!(board.legal_moves().len(), again.legal_moves().len());
    for m in again.legal_moves() {
        assert!(board.legal_moves().contains(m));
    }

    let empty = Board::from_id(0).unwrap();
    assert_eq!(0, empty.pieces_remaining());
    assert_eq!(BoardState::NotStarted, empty.game_state());
}

#[test]
fn from_id_rejects_a_group_of_seven() {
    assert_eq!(Board::from_id(7).err(), Some(SError::InvalidBoard));
    assert_eq!(Board::from_id(7u128 << 45).err(), Some(SError::InvalidBoard));
    assert_eq!(Board::from_id((7u128 << 21) + 6).err(), Some(SError::InvalidBoard));
    assert_eq!(Board::from_id(u128::MAX).err(), Some(SError::InvalidBoard));
}

#[test]
fn from_id_ignores_the_bits_above_the_board() {
    let board = Board::from_id((1u128 << 48) + 6).unwrap();
    validate_board(&board, "....", "....", "....", "...P");
    assert_eq!(6, board.id());
}

#[test]
fn from_string_reads_a_layout() {
    let mut board = Board::from_string("..NB....RQ.KP...".to_string()).unwrap();
    validate_board(&board, "..NB", "....", "RQ.K", "P...");
    assert_eq!(6, board.pieces_remaining());
    assert_eq!(board.set(Location::parse("c4").unwrap(), None), Some(Piece::Knight));
    assert_eq!(board.game_state(), BoardState::InProgress);

    let empty = Board::from_string("................".to_string()).unwrap();
    assert_eq!(0, empty.pieces_remaining());
}

#[test]
fn from_string_rejects_other_text() {
    assert_eq!(Board::from_string("".to_string()).err(), Some(SError::InvalidBoard));
    assert_eq!(
        Board::from_string("...............".to_string()).err(),
        Some(SError::InvalidBoard)
    );
    assert_eq!(
        Board::from_string(".................".to_string()).err(),
        Some(SError::InvalidBoard)
    );
    assert_eq!(
        Board::from_string("..NB....RQ.KP..x".to_string()).err(),
        Some(SError::InvalidBoard)
    );
    assert_eq!(
        Board::from_string("k...............".to_string()).err(),
        Some(SError::InvalidBoard)
    );
    assert_eq!(
        Board::from_string("..NB\n....\nRQ.K\nP...\n".to_string()).err(),
        Some(SError::InvalidBoard)
    );
}

#[test]
fn set_returns_what_stood_there() {
    let mut board = Board::new();
    let a1 = Location::parse("a1").unwrap();
    assert_eq!(board.set(a1, None), None);
    assert_eq!(0, board.pieces_remaining());
    assert_eq!(board.set(a1, Some(Piece::Rook)), None);
    assert_eq!(1, board.pieces_remaining());
    assert_eq!(board.set(a1, Some(Piece::Rook)), Some(Piece::Rook));
    assert_eq!(1, board.pieces_remaining());
    assert_eq!(board.set(a1, Some(Piece::Pawn)), Some(Piece::Rook));
    assert_eq!(1, board.pieces_remaining());
    assert_eq!(board.set(a1, None), Some(Piece::Pawn));
    assert_eq!(0, board.pieces_remaining());
    assert_eq!(BoardState::NotStarted, board.game_state());
}

#[test]
fn make_move_takes_exactly_one_piece() {
    let mut board = crowded_board();
    let before = board.pieces_remaining();
    let played = board.make_move(mv("Nd1", "Rb2"));
    assert_eq!(played, Ok(mv("Nd1", "Rb2")));
    assert_eq!(before - 1, board.pieces_remaining());
    validate_board(&board, "Q.P.", ".PK.", "KN.B", "P.B.");
}

#[test]
fn make_move_rejects_and_reports_the_legal_moves() {
    let mut board = Board::new();
    set_board_square(&mut board, sq("Ra1"));
    set_board_square(&mut board, sq("Pb1"));
    set_board_square(&mut board, sq("Nd1"));
    let before = board.print(false);

    // The pawn stands in the rook's way.
    let refused = board.make_move(mv("Ra1", "Nd1"));
    assert_eq!(refused, Err(vec![mv("Ra1", "Pb1")]));
    assert_eq!(before, board.print(false));
    assert_eq!(3, board.pieces_remaining());

    // A capture that records another piece than the board holds.
    assert!(board.make_move(mv("Qa1", "Pb1")).is_err());
    assert!(board.make_move(mv("Ra1", "Nb1")).is_err());
    // A capture of an empty square.
    assert!(board.make_move(mv("Ra1", "Pa2")).is_err());
    assert_eq!(before, board.print(false));

    assert!(board.make_move(mv("Ra1", "Pb1")).is_ok());
    validate_board(&board, "....", "....", "....", ".R.N");
    assert!(board.make_move(mv("Rb1", "Nd1")).is_ok());
    assert_eq!(BoardState::Won, board.game_state());
}

#[test]
fn each_piece_moves_by_its_rule() {
    // A pawn takes toward the top row only.
    let mut board = Board::new();
    set_board_square(&mut board, sq("Pb2"));
    set_board_square(&mut board, sq("Na3"));
    set_board_square(&mut board, sq("Nc3"));
    set_board_square(&mut board, sq("Nb3"));
    set_board_square(&mut board, sq("Na1"));
    set_board_square(&mut board, sq("Nc1"));
    let pawn: Vec<CMove> = board
        .legal_moves()
        .iter()
        .filter(|m| m.from().piece() == Piece::Pawn)
        .cloned()
        .collect();
    assert_eq!(2, pawn.len());
    assert!(pawn.contains(&mv("Pb2", "Na3")));
    assert!(pawn.contains(&mv("Pb2", "Nc3")));

    // A bishop is stopped by the first piece on its diagonal.
    let mut board = Board::new();
    set_board_square(&mut board, sq("Ba1"));
    set_board_square(&mut board, sq("Pb2"));
    set_board_square(&mut board, sq("Pc3"));
    set_board_square(&mut board, sq("Pd4"));
    set_board_square(&mut board, sq("Pa2"));
    let bishop: Vec<CMove> = board
        .legal_moves()
        .iter()
        .filter(|m| m.from().piece() == Piece::Bishop)
        .cloned()
        .collect();
    assert_eq!(bishop, vec![mv("Ba1", "Pb2")]);

    // A queen goes along lines and diagonals, a knight jumps.
    let mut board = Board::new();
    set_board_square(&mut board, sq("Qa1"));
    set_board_square(&mut board, sq("Nb1"));
    set_board_square(&mut board, sq("Rd1"));
    set_board_square(&mut board, sq("Ra4"));
    set_board_square(&mut board, sq("Rd4"));
    set_board_square(&mut board, sq("Rc2"));
    let queen: Vec<CMove> = board
        .legal_moves()
        .iter()
        .filter(|m| m.from().piece() == Piece::Queen)
        .cloned()
        .collect();
    assert_eq!(3, queen.len());
    assert!(queen.contains(&mv("Qa1", "Nb1")));
    assert!(queen.contains(&mv("Qa1", "Ra4")));
    assert!(queen.contains(&mv("Qa1", "Rd4")));
    let knight: Vec<CMove> = board
        .legal_moves()
        .iter()
        .filter(|m| m.from().piece() == Piece::Knight)
        .cloned()
        .collect();
    assert_eq!(0, knight.len());
    set_board_square(&mut board, sq("Pd2"));
    assert!(board.legal_moves().contains(&mv("Nb1", "Pd2")));
    assert!(!board.legal_moves().contains(&mv("Nb1", "Rc2")));
}

#[test]
fn state_follows_the_pieces() {
    let mut board = Board::new();
    assert_eq!(BoardState::NotStarted, board.game_state());
    set_board_square(&mut board, sq("Pa1"));
    assert_eq!(BoardState::Won, board.game_state());
    set_board_square(&mut board, sq("Pd4"));
    assert_eq!(BoardState::Lost, board.game_state());
    assert!(board.legal_moves().is_empty());
    set_board_square(&mut board, sq("Rd1"));
    assert_eq!(BoardState::InProgress, board.game_state());
    assert!(!board.legal_moves().is_empty());
    set_board_square(&mut board, sq(".a1"));
    set_board_square(&mut board, sq(".d1"));
    assert_eq!(BoardState::Won, board.game_state());
    set_board_square(&mut board, sq(".d4"));
    assert_eq!(BoardState::NotStarted, board.game_state());
}

#[test]
fn state_in_words() {
    assert_eq!(BoardState::NotStarted.to_string(), "Not Started");
    assert_eq!(BoardState::InProgress.to_string(), "In Progress");
    assert_eq!(BoardState::Lost.to_string(), "Lost");
    assert_eq!(BoardState::Won.to_string(), "Won");
}

#[test]
fn empty_squares_are_the_rest_of_the_board() {
    let board = Board::new();
    let empty = board.empty_squares();
    assert_eq!(16, empty.len());
    assert_eq!(empty[0], sq(".a4"));
    assert_eq!(empty[1], sq(".a3"));
    assert_eq!(empty[4], sq(".b4"));
    assert_eq!(empty[15], sq(".d1"));

    let board = crowded_board();
    let empty = board.empty_squares();
    assert_eq!(
        empty,
        vec![sq(".a3"), sq(".b4"), sq(".b1"), sq(".c2"), sq(".d4"), sq(".d3")]
    );
    assert_eq!(16, empty.len() + board.pieces_remaining() as usize);
}

#[test]
fn square_for_display() {
    assert_eq!(get_square_for_display(None, false), ".");
    assert_eq!(get_square_for_display(None, true), " . ");
    assert_eq!(get_square_for_display(Some(&Piece::Knight), false), "N");
    assert_eq!(get_square_for_display(Some(&Piece::Knight), true), " \u{2658} ");
}

#[test]
fn pretty_board_is_centred() {
    let mut board = Board::new();
    set_board_square(&mut board, sq("Ka4"));
    set_board_square(&mut board, sq("Pd1"));
    let pad = " ".repeat(14);
    let expected = format!(
        "{pad} \u{2654}  .  .  . {pad}\n\n{pad} .  .  .  . {pad}\n\n{pad} .  .  .  . {pad}\n\n{pad} .  .  .  \u{2659} {pad}\n\n"
    );
    assert_eq!(board.print(true), expected);
    let id = format!("id: {}", (1u128 << 45) + 6);
    assert_eq!(
        board.pretty_text(),
        format!("{}\n{:^40}\n\n", expected, id)
    );
}

#[test]
fn a_copy_is_a_board_of_its_own() {
    let board = crowded_board();
    let mut copy = board.clone();
    assert_eq!(board.print(false), copy.print(false));
    assert_eq!(board.legal_moves(), copy.legal_moves());
    assert_eq!(board.game_state(), copy.game_state());
    assert!(copy.make_move(mv("Nd1", "Rb2")).is_ok());
    assert_eq!(10, board.pieces_remaining());
    assert_eq!(9, copy.pieces_remaining());
}
