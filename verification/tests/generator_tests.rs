use std::cell::Cell;

use sol_chess::board::piece::Piece;
use sol_chess::board::square::Location;
use sol_chess::board::{Board, BoardState};
use sol_chess::generator::{
    add_stat, generate, keep_if_bounded, place_if_solvable, GenerateStats, RandomRange,
    SystemRandom,
};
use sol_chess::solver::Solver;

/// A generator of numbers that gives the same numbers on every run.
struct Scripted {
    state: Cell<u64>,
}

impl Scripted {
    fn seeded(seed: u64) -> Self {
        Scripted {
            state: Cell::new(seed),
        }
    }
}

impl RandomRange for Scripted {
    fn gen_range(&self, min: usize, max: usize) -> usize {
        let next = self
            .state
            .get()
            .wrapping_mul(6364136223846793005)
            .wrapping_add(1442695040888963407);
        self.state.set(next);
        min + ((next >> 33) as usize) % (max - min)
    }
}

/// A generator that always picks the lowest number.
struct Lowest;

impl RandomRange for Lowest {
    fn gen_range(&self, min: usize, _max: usize) -> usize {
        min
    }
}

fn count_pieces(board: &Board) -> Vec<(Piece, usize)> {
    let text = board.print(false);
    [
        Piece::King,
        Piece::Queen,
        Piece::Bishop,
        Piece::Knight,
        Piece::Rook,
        Piece::Pawn,
    ]
    .iter()
    .map(|p| (*p, text.matches(p.to_string().as_str()).count()))
    .collect()
}

fn check_puzzle(stats: GenerateStats, num_pieces: u32, num_solutions: u32) {
    assert!(stats.total() >= 1);
    assert!(stats.total() <= 1000);
    assert!(stats.piece_success() <= stats.piece_total());
    assert!(stats.piece_success() >= num_pieces);
    assert!(stats.piece_total() <= stats.total() * 15 * num_pieces);
    let board = stats.board().expect("No puzzle was generated");
    assert_eq!(board.pieces_remaining() as u32, num_pieces);
    let solutions = Solver::new(board.clone()).solve();
    assert!(solutions.len() <= num_solutions as usize);
    assert!(solutions.len() >= 1);
    for (piece, count) in count_pieces(&board) {
        let available = match piece {
            Piece::King => 0,
            Piece::Queen => 1,
            Piece::Bishop => 4,
            Piece::Knight => 3,
            Piece::Rook => 2,
            Piece::Pawn => 4,
        };
        assert!(count <= available);
    }
}

#[test]
fn generator_smoke() {
    for _ in 0..10 {
        let gen_stats = generate(5, 5, &SystemRandom::new());
        let board = gen_stats.board().expect("No puzzle was generated");
        assert_eq!(board.game_state(), BoardState::InProgress);

        let solutions = Solver::new(board).solve();
        assert!(solutions.len() <= 5);
        assert!(solutions.len() >= 1);
    }
}

#[test]
fn generated_puzzles_meet_what_was_asked() {
    for seed in 0..20 {
        check_puzzle(generate(4, 3, &Scripted::seeded(seed)), 4, 3);
    }
    check_puzzle(generate(6, 100, &Scripted::seeded(7)), 6, 100);
    check_puzzle(generate(2, 1, &SystemRandom::new()), 2, 1);
}

#[test]
fn the_same_numbers_give_the_same_puzzle() {
    let first = generate(5, 4, &Scripted::seeded(42));
    let second = generate(5, 4, &Scripted::seeded(42));
    assert_eq!(first.total(), second.total());
    assert_eq!(first.piece_total(), second.piece_total());
    assert_eq!(first.piece_success(), second.piece_success());
    assert_eq!(
        first.board().map(|b| b.id()),
        second.board().map(|b| b.id())
    );
}

#[test]
fn no_piece_gives_the_empty_board() {
    let stats = generate(0, 0, &Lowest);
    assert_eq!(1, stats.total());
    assert_eq!(0, stats.piece_total());
    assert_eq!(0, stats.piece_success());
    let board = stats.board().unwrap();
    assert_eq!(0, board.pieces_remaining());
    assert_eq!(BoardState::NotStarted, board.game_state());
}

#[test]
fn one_piece_is_placed_at_once() {
    let stats = generate(1, 1, &Lowest);
    assert_eq!(1, stats.total());
    assert_eq!(1, stats.piece_total());
    assert_eq!(1, stats.piece_success());
    let board = stats.board().unwrap();
    // The lowest pick is the first piece of the pool on the first empty square.
    assert_eq!(board.print(false), "P...\n....\n....\n....\n");
    assert_eq!(BoardState::Won, board.game_state());
}

#[test]
fn no_allowed_solution_gives_no_board() {
    let stats = generate(1, 0, &Scripted::seeded(3));
    assert_eq!(1000, stats.total());
    assert_eq!(1000, stats.piece_total());
    assert_eq!(1000, stats.piece_success());
    assert!(stats.board().is_none());
}

#[test]
fn a_piece_that_cannot_be_placed_ends_the_attempt() {
    // The lowest pick puts a pawn on a4 and then tries a pawn on a3 fifteen
    // times, which can take nothing and cannot be taken.
    let stats = generate(2, 5, &Lowest);
    assert_eq!(1000, stats.total());
    assert_eq!(16 * 1000, stats.piece_total());
    assert_eq!(1000, stats.piece_success());
    assert!(stats.board().is_none());
}

#[test]
fn a_placement_is_kept_only_while_the_board_can_be_solved() {
    let mut board = Board::new();
    board.set(Location::parse("a1").unwrap(), Some(Piece::Rook));
    let empty = board.empty_squares();
    let mut pool = vec![Piece::Pawn, Piece::Knight, Piece::Bishop];

    // A knight on a4 stands on the rook's file, so the rook can take it.
    let a4 = empty
        .iter()
        .position(|s| s.location().notation() == "a4")
        .unwrap();
    assert!(place_if_solvable(&mut board, &mut pool, &empty, 1, a4));
    assert_eq!(pool, vec![Piece::Pawn, Piece::Bishop]);
    assert_eq!(board.print(false), "N...\n....\n....\nR...\n");

    // A bishop on d3 attacks neither piece and neither can ever reach it.
    let empty = board.empty_squares();
    let d3 = empty
        .iter()
        .position(|s| s.location().notation() == "d3")
        .unwrap();
    assert!(!place_if_solvable(&mut board, &mut pool, &empty, 1, d3));
    assert_eq!(pool, vec![Piece::Pawn, Piece::Bishop]);
    assert_eq!(board.print(false), "N...\n....\n....\nR...\n");
    assert_eq!(2, board.pieces_remaining());

    // On b3 the bishop takes the knight, and the rook then takes the bishop.
    let b3 = empty
        .iter()
        .position(|s| s.location().notation() == "b3")
        .unwrap();
    assert!(place_if_solvable(&mut board, &mut pool, &empty, 1, b3));
    assert_eq!(pool, vec![Piece::Pawn]);
    assert_eq!(board.print(false), "N...\n.B..\n....\nR...\n");
}

#[test]
fn the_system_generator_stays_in_range() {
    let rng = SystemRandom::new();
    let mut seen_other_than_min = false;
    let mut seen_other_than_last = false;
    for _ in 0..200 {
        let picked = rng.gen_range(10, 1_000_010);
        assert!(picked >= 10);
        assert!(picked < 1_000_010);
        if picked != 10 {
            seen_other_than_min = true;
        }
        if picked != 1_000_009 {
            seen_other_than_last = true;
        }
        assert_eq!(7, rng.gen_range(7, 8));
    }
    assert!(seen_other_than_min);
    assert!(seen_other_than_last);
}

#[test]
fn statistics_as_text() {
    let mut text = String::new();
    add_stat(&mut text, "Total attempts", 12);
    assert_eq!(text, format!("{:>30}:{:>6}\n", "Total attempts", 12));
    assert_eq!(text, "                Total attempts:    12\n");
    add_stat(&mut text, "A name that is longer than thirty characters", 1234567);
    assert_eq!(
        text,
        "                Total attempts:    12\nA name that is longer than thirty characters:1234567\n"
    );

    let stats = generate(1, 1, &Lowest);
    assert_eq!(
        stats.stats_string(),
        format!(
            "{:>30}:{:>6}\n{:>30}:{:>6}\n{:>30}:{:>6}\n",
            "Total attempts", 1, "Total pieces placed", 1, "Success pieces placed", 1
        )
    );
}

#[test]
fn more_pieces_than_the_pool_holds_give_no_board() {
    for num_pieces in [15, 16, 17, 1000, u32::MAX] {
        let stats = generate(num_pieces, 100, &Lowest);
        assert_eq!(1000, stats.total());
        assert!(stats.piece_success() >= 1000);
        assert!(stats.piece_success() <= 14 * 1000);
        assert!(stats.piece_success() <= stats.piece_total());
        assert!(stats.piece_total() <= 1000 * (1 + 15 * 15));
        assert!(stats.board().is_none());
    }
}

#[test]
fn a_failed_run_says_why_it_gave_up() {
    // Every construction keeps its first piece and tries the second
    // fifteen times in vain.
    let stats = generate(3, 10, &Lowest);
    assert_eq!(1000, stats.total());
    assert_eq!(1000, stats.piece_success());
    assert_eq!(1000 * 16, stats.piece_total());
    assert!(stats.piece_total() >= stats.piece_success() + 15);
    assert!(stats.board().is_none());

    // Every construction places its one piece and is discarded.
    let stats = generate(1, 0, &Lowest);
    assert_eq!(stats.piece_success(), stats.total());
    assert_eq!(stats.piece_total(), stats.total());
    assert!(stats.board().is_none());
}

#[test]
fn the_first_placement_is_always_kept() {
    for seed in 0..50 {
        let stats = generate(1, 1, &Scripted::seeded(seed));
        assert_eq!(1, stats.total());
        assert_eq!(1, stats.piece_total());
        assert_eq!(1, stats.piece_success());
        let board = stats.board().unwrap();
        assert_eq!(1, board.pieces_remaining());
        assert_eq!(BoardState::Won, board.game_state());
        assert_eq!(1, Solver::new(board).solve().len());
    }
}

#[test]
fn a_finished_board_is_kept_while_its_solutions_are_few_enough() {
    // Two rooks with a pawn between them: four ways to win.
    let mut board = Board::new();
    board.set(Location::parse("a1").unwrap(), Some(Piece::Rook));
    board.set(Location::parse("b1").unwrap(), Some(Piece::Pawn));
    board.set(Location::parse("c1").unwrap(), Some(Piece::Rook));
    assert_eq!(4, Solver::new(board.clone()).solve().len());

    let kept = keep_if_bounded(board.clone(), 4).unwrap();
    assert_eq!(kept.id(), board.id());
    assert!(keep_if_bounded(board.clone(), 100).is_some());
    assert!(keep_if_bounded(board.clone(), 3).is_none());
    assert!(keep_if_bounded(board, 0).is_none());

    // A board without a solution is within every bound.
    assert!(keep_if_bounded(Board::new(), 0).is_some());
    let mut lost = Board::new();
    lost.set(Location::parse("a1").unwrap(), Some(Piece::Pawn));
    lost.set(Location::parse("d4").unwrap(), Some(Piece::Pawn));
    assert!(keep_if_bounded(lost, 0).is_some());
}
