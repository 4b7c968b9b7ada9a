use sol_chess::board::cmove::CMove;
use sol_chess::board::square::OccupiedSquare;
use sol_chess::board::{set_board_square, Board, BoardState};
use sol_chess::solver::Solver;

fn place(board: &mut Board, notation: &str) {
    let square = OccupiedSquare::parse(notation).unwrap();
    set_board_square(board, square.to_square());
}

fn rook_puzzle() -> Board {
    let mut board = Board::new();
    // . R . .
    // R . . P
    // B . B N
    // P . N .
    place(&mut board, "Pa1");
    place(&mut board, "Ba2");
    place(&mut board, "Ra3");
    place(&mut board, "Rb4");
    place(&mut board, "Nc1");
    place(&mut board, "Bc2");
    place(&mut board, "Nd2");
    place(&mut board, "Pd3");
    board
}

#[test]
fn solver_solver_smoke() {
    let board = rook_puzzle();

    let solver = Solver::new(board.clone());
    let solutions = solver.solve();

    for solution in solutions {
        let mut board = board.clone();
        solution
            .into_iter()
            .for_each(|m| assert!(board.make_move(m).is_ok()));
        assert_eq!(BoardState::Won, board.game_state());
    }
}

#[test]
fn solver_solver_smoke_no_solution() {
    // . R . .
    // R . . .
    // B . B N
    // P . N .

    let mut board = Board::new();
    place(&mut board, "Pa1");
    place(&mut board, "Ba2");
    place(&mut board, "Ra3");
    place(&mut board, "Rb4");
    place(&mut board, "Nc1");
    place(&mut board, "Bc2");
    place(&mut board, "Nd2");

    let solver = Solver::new(board.clone());
    let solutions = solver.solve();

    assert_eq!(0, solutions.len());
}

#[test]
fn rook_puzzle_has_ten_solutions() {
    let board = rook_puzzle();
    let solutions = Solver::new(board.clone()).solve();
    assert_eq!(10, solutions.len());
    for i in 0..solutions.len() {
        assert_eq!(7, solutions[i].len());
        for j in 0..solutions.len() {
            if i != j {
                assert_ne!(solutions[i], solutions[j]);
            }
        }
    }
}

#[test]
fn a_won_board_is_solved_by_doing_nothing() {
    let mut board = Board::new();
    place(&mut board, "Qb2");
    let solutions = Solver::new(board).solve();
    let nothing: Vec<CMove> = vec![];
    assert_eq!(solutions, vec![nothing]);
}

#[test]
fn an_empty_board_has_no_solution() {
    let solutions = Solver::new(Board::new()).solve();
    assert_eq!(0, solutions.len());
}

#[test]
fn a_lost_board_has_no_solution() {
    let mut board = Board::new();
    place(&mut board, "Pa1");
    place(&mut board, "Pd4");
    assert_eq!(BoardState::Lost, board.game_state());
    assert_eq!(0, Solver::new(board).solve().len());
}

#[test]
fn solutions_that_differ_only_in_order_are_all_listed() {
    // Two rooks can each take the pawn between them and then the other
    // rook, and each can take the other rook's place through the pawn.
    let mut board = Board::new();
    place(&mut board, "Ra1");
    place(&mut board, "Pb1");
    place(&mut board, "Rc1");
    let solutions = Solver::new(board.clone()).solve();
    let capture = |from: &str, to: &str| {
        CMove::try_new(
            OccupiedSquare::parse(from).unwrap(),
            OccupiedSquare::parse(to).unwrap(),
        )
        .unwrap()
    };
    let expected = vec![
        vec![capture("Ra1", "Pb1"), capture("Rb1", "Rc1")],
        vec![capture("Ra1", "Pb1"), capture("Rc1", "Rb1")],
        vec![capture("Rc1", "Pb1"), capture("Ra1", "Rb1")],
        vec![capture("Rc1", "Pb1"), capture("Rb1", "Ra1")],
    ];
    assert_eq!(expected.len(), solutions.len());
    for line in &expected {
        assert!(solutions.contains(line));
    }
}

#[test]
fn the_solver_keeps_its_board() {
    let board = rook_puzzle();
    let solver = Solver::new(board.clone());
    let _ = solver.solve();
    assert_eq!(solver.board().print(false), board.print(false));
    assert_eq!(solver.board().legal_moves(), board.legal_moves());
}
