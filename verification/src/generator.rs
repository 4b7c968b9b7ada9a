//! The generator: builds a position with a wanted number of pieces and a
//! bounded number of solutions, by placing pieces at random and keeping
//! each placement only while the position stays solvable.

use vstd::prelude::*;
use vstd::string::StringExecFns;
use rand::Rng;
use crate::board::cmove::CMove;
use crate::board::piece::Piece;
use crate::board::rules::{lemma_position_finite, valid_position, Position};
use crate::board::square::Square;
use crate::text::{align_right, decimal, decimal_text, right_aligned};
use crate::board::{lists_empty_squares, set_board_square, Board};
use crate::lists::copy_of;
use crate::solver::{lemma_wins_at_rest, solutions, Solver};

verus! {

/// How often a whole construction is tried before the generator gives up.
pub const ATTEMPTS: u32 = 1000;

/// How often one piece is tried before a construction is abandoned.
pub const PIECE_ATTEMPTS: u32 = 15;

/// The number of pieces in the pool that positions are built from.
pub const POOL_SIZE: u32 = 14;

/// The pool of pieces that positions are built from: four pawns, four
/// bishops, three knights, a queen and two rooks.
pub open spec fn candidate_pool() -> Seq<Piece> {
    seq![
        Piece::Pawn,
        Piece::Pawn,
        Piece::Pawn,
        Piece::Pawn,
        Piece::Bishop,
        Piece::Bishop,
        Piece::Bishop,
        Piece::Bishop,
        Piece::Knight,
        Piece::Knight,
        Piece::Knight,
        Piece::Queen,
        Piece::Rook,
        Piece::Rook,
    ]
}

/// What the generator is asked for: a position of this board with
/// `num_pieces` pieces and at most `num_solutions` solutions, and with at
/// least one solution if it has a piece at all.
pub open spec fn is_puzzle(position: Position, num_pieces: nat, num_solutions: nat) -> bool {
    &&& valid_position(position)
    &&& position.dom().len() == num_pieces
    &&& solutions(position).finite()
    &&& solutions(position).len() <= num_solutions
    &&& num_pieces > 0 ==> solutions(position).len() >= 1
}

/// Whether `source` says, for each piece of the position, which member of
/// the pool it is: a member of the same kind, and a different member for
/// each piece.
pub open spec fn draws(source: Map<(int, int), int>, position: Position, pool: Seq<Piece>) -> bool {
    &&& source.dom() == position.dom()
    &&& forall|at: (int, int)| #[trigger]
        position.dom().contains(at) ==> 0 <= source[at] < pool.len() && pool[source[at]]
            == position[at]
    &&& forall|a: (int, int), b: (int, int)|
        position.dom().contains(a) && position.dom().contains(b) && a != b ==> #[trigger] source[a]
            != #[trigger] source[b]
}

/// Whether the pieces of a position are drawn from a pool, no member of the
/// pool being drawn twice.
pub open spec fn drawn_from(position: Position, pool: Seq<Piece>) -> bool {
    exists|source: Map<(int, int), int>| draws(source, position, pool)
}

/// The most placements that one construction of `num_pieces` pieces can
/// try: one for the first piece, which is always kept, and fifteen for each
/// piece after it.
pub open spec fn most_tries(num_pieces: nat) -> nat {
    if num_pieces == 0 {
        0
    } else {
        (1 + PIECE_ATTEMPTS * (num_pieces - 1)) as nat
    }
}

/// Whether the request asks for too little ambiguity: some position of
/// `num_pieces` pieces drawn from the pool has more than `num_solutions`
/// solutions.
pub open spec fn too_ambiguous(num_pieces: nat, num_solutions: nat, pool: Seq<Piece>) -> bool {
    exists|position: Position|
        {
            &&& valid_position(position)
            &&& position.dom().len() == num_pieces
            &&& #[trigger] drawn_from(position, pool)
            &&& solutions(position).finite()
            &&& solutions(position).len() > num_solutions
        }
}

/// Why one construction ends without a board, told by the placements it
/// kept and tried. Either a piece was tried fifteen times in vain; or the
/// pool or the board was used up before the last piece; or every piece was
/// placed and the position had more solutions than were allowed.
pub open spec fn gave_up(
    kept: nat,
    tried: nat,
    num_pieces: nat,
    num_solutions: nat,
    pool: Seq<Piece>,
) -> bool {
    ||| kept < num_pieces && tried >= kept + PIECE_ATTEMPTS
    ||| kept < num_pieces && (kept == pool.len() || kept == 16)
    ||| kept == num_pieces && too_ambiguous(num_pieces, num_solutions, pool)
}

/// Why a whole run ends without a board, told by the placements that its
/// constructions kept and tried together. Either some construction tried a
/// piece fifteen times in vain; or more pieces were asked for than the
/// pool holds, and every construction used up the pool; or every
/// construction placed every piece, and the position had more solutions
/// than were allowed.
pub open spec fn ran_out(
    kept: nat,
    tried: nat,
    attempts: nat,
    num_pieces: nat,
    num_solutions: nat,
) -> bool {
    ||| tried >= kept + PIECE_ATTEMPTS
    ||| num_pieces > POOL_SIZE && kept == attempts * POOL_SIZE
    ||| num_pieces <= POOL_SIZE && kept == attempts * num_pieces && too_ambiguous(
        num_pieces,
        num_solutions,
        candidate_pool(),
    )
}

/// A source of random numbers.
pub trait RandomRange {
    /// Picks a number from `min` up to, and not including, `max`.
    fn gen_range(&self, min: usize, max: usize) -> (picked: usize)
        requires
            min < max,
        ensures
            min <= picked < max,
    ;
}

/// The random number generator of the running thread, seeded by the system.
pub struct SystemRandom {}

/// Calls `rand::Rng::gen_range` on `rand::thread_rng()` with the range from
/// `min` up to, and not including, `max`. The range must not be empty. The
/// number that comes back lies in the range; nothing else is known of it.
#[verifier::external_body]
fn thread_gen_range(min: usize, max: usize) -> (picked: usize)
    requires
        min < max,
    ensures
        min <= picked < max,
{
    rand::thread_rng().gen_range(min..max)
}

impl RandomRange for SystemRandom {
    fn gen_range(&self, min: usize, max: usize) -> (picked: usize) {
        thread_gen_range(min, max)
    }
}

impl SystemRandom {
    /// A handle on the running thread's generator.
    pub fn new() -> (rng: SystemRandom) {
        SystemRandom {  }
    }
}

/// What a run of the generator did, and the position it built, if any.
#[derive(Debug)]
pub struct GenerateStats {
    piece_total: u32,
    piece_success: u32,
    total: u32,
    board: Option<Board>,
}

/// One line of the statistics: the name in a field of thirty characters, a
/// colon, and the number in a field of six, both at the right edge.
pub open spec fn stat_text(name: Seq<char>, val: nat) -> Seq<char> {
    right_aligned(name, 30) + seq![':'] + right_aligned(decimal(val), 6) + seq!['\n']
}

/// Appends one line of statistics.
pub fn add_stat(stats: &mut String, name: &str, val: u32)
    ensures
        final(stats)@ == old(stats)@ + stat_text(name@, val as nat),
{
    proof {
        reveal_strlit(":");
        reveal_strlit("\n");
    }
    let label = align_right(name, 30);
    let number = decimal_text(val as u128);
    let shown = align_right(number.as_str(), 6);
    stats.append(label.as_str());
    stats.append(":");
    stats.append(shown.as_str());
    stats.append("\n");
    proof {
        assert(stats@ =~= old(stats)@ + stat_text(name@, val as nat));
    }
}

impl GenerateStats {
    /// The number of constructions that were tried.
    pub closed spec fn attempts(&self) -> nat {
        self.total as nat
    }

    /// The number of placements that were tried.
    pub closed spec fn placements_tried(&self) -> nat {
        self.piece_total as nat
    }

    /// The number of placements that were kept.
    pub closed spec fn placements_kept(&self) -> nat {
        self.piece_success as nat
    }

    /// The position that was built, if any.
    pub closed spec fn puzzle(&self) -> Option<Board> {
        self.board
    }

    fn new(piece_total: u32, piece_success: u32, total: u32, board: Option<Board>) -> (stats:
        GenerateStats)
        ensures
            stats.placements_tried() == piece_total,
            stats.placements_kept() == piece_success,
            stats.attempts() == total,
            stats.puzzle() == board,
    {
        GenerateStats { piece_total, piece_success, total, board }
    }

    /// The number of constructions that were tried.
    pub fn total(&self) -> (total: u32)
        ensures
            total == self.attempts(),
    {
        self.total
    }

    /// The number of placements that were tried.
    pub fn piece_total(&self) -> (tried: u32)
        ensures
            tried == self.placements_tried(),
    {
        self.piece_total
    }

    /// The number of placements that were kept.
    pub fn piece_success(&self) -> (kept: u32)
        ensures
            kept == self.placements_kept(),
    {
        self.piece_success
    }

    /// The statistics as lines of text.
    pub open spec fn stats_text(&self) -> Seq<char> {
        stat_text("Total attempts"@, self.attempts()) + stat_text(
            "Total pieces placed"@,
            self.placements_tried(),
        ) + stat_text("Success pieces placed"@, self.placements_kept())
    }

    /// The statistics as lines of text.
    pub fn stats_string(&self) -> (s: String)
        ensures
            s@ == self.stats_text(),
    {
        let mut stats = String::new();
        add_stat(&mut stats, "Total attempts", self.total);
        add_stat(&mut stats, "Total pieces placed", self.piece_total);
        add_stat(&mut stats, "Success pieces placed", self.piece_success);
        proof {
            assert(stats@ =~= self.stats_text());
        }
        stats
    }

    /// The position that was built, if any.
    pub fn board(self) -> (board: Option<Board>)
        ensures
            board == self.puzzle(),
    {
        self.board
    }
}

/// The pool of pieces as a list.
fn candidate_pieces() -> (pool: Vec<Piece>)
    ensures
        pool@ == candidate_pool(),
{
    let pool = vec![
        Piece::Pawn,
        Piece::Pawn,
        Piece::Pawn,
        Piece::Pawn,
        Piece::Bishop,
        Piece::Bishop,
        Piece::Bishop,
        Piece::Bishop,
        Piece::Knight,
        Piece::Knight,
        Piece::Knight,
        Piece::Queen,
        Piece::Rook,
        Piece::Rook,
    ];
    proof {
        assert(pool@ =~= candidate_pool());
    }
    pool
}

/// A position with one piece has exactly one solution.
proof fn lemma_one_piece_one_solution(position: Position)
    requires
        valid_position(position),
        position.dom().len() == 1,
    ensures
        solutions(position) == set![Seq::<CMove>::empty()],
        solutions(position).finite(),
        solutions(position).len() == 1,
{
    assert forall|line: Seq<CMove>| solutions(position).contains(line) <==> line
        == Seq::<CMove>::empty() by {
        lemma_wins_at_rest(position, line);
        if line.len() == 0 {
            assert(line =~= Seq::<CMove>::empty());
        }
    }
    assert(solutions(position) =~= set![Seq::<CMove>::empty()]);
}

/// A position without a piece has no solution.
proof fn lemma_no_piece_no_solution(position: Position)
    requires
        valid_position(position),
        position.dom().len() == 0,
    ensures
        solutions(position) == Set::<Seq<CMove>>::empty(),
{
    assert forall|line: Seq<CMove>| !solutions(position).contains(line) by {
        lemma_wins_at_rest(position, line);
    }
    assert(solutions(position) =~= Set::<Seq<CMove>>::empty());
}

/// Whether `left` says, for each piece still in hand, which member of the
/// pool it is, and no member is both in hand and on the board.
spec fn in_hand(
    left: Seq<int>,
    hand: Seq<Piece>,
    source: Map<(int, int), int>,
    position: Position,
    pool: Seq<Piece>,
) -> bool {
    &&& left.len() == hand.len()
    &&& forall|i: int|
        0 <= i < left.len() ==> 0 <= #[trigger] left[i] < pool.len() && pool[left[i]] == hand[i]
    &&& forall|i: int, j: int| 0 <= i < j < left.len() ==> #[trigger] left[i] != #[trigger] left[j]
    &&& forall|i: int, at: (int, int)|
        0 <= i < left.len() && position.dom().contains(at) ==> #[trigger] left[i]
            != #[trigger] source[at]
}

/// A piece that goes from the hand to an empty square is drawn from the
/// pool as the pieces before it were.
proof fn lemma_draw(
    left: Seq<int>,
    hand: Seq<Piece>,
    source: Map<(int, int), int>,
    position: Position,
    pool: Seq<Piece>,
    index: int,
    at: (int, int),
)
    requires
        draws(source, position, pool),
        in_hand(left, hand, source, position, pool),
        0 <= index < hand.len(),
        !position.dom().contains(at),
    ensures
        draws(source.insert(at, left[index]), position.insert(at, hand[index]), pool),
        in_hand(
            left.remove(index),
            hand.remove(index),
            source.insert(at, left[index]),
            position.insert(at, hand[index]),
            pool,
        ),
{
    let source2 = source.insert(at, left[index]);
    let position2 = position.insert(at, hand[index]);
    let left2 = left.remove(index);
    let hand2 = hand.remove(index);
    assert(source2.dom() =~= position2.dom());
    assert forall|a: (int, int), b: (int, int)|
        position2.dom().contains(a) && position2.dom().contains(b) && a != b implies #[trigger] source2[a]
        != #[trigger] source2[b] by {
        if a == at {
            assert(left[index] != source[b]);
        } else if b == at {
            assert(left[index] != source[a]);
        }
    }
    assert forall|i: int| 0 <= i < left2.len() implies 0 <= #[trigger] left2[i] < pool.len()
        && pool[left2[i]] == hand2[i] by {
        if i < index {
            assert(left2[i] == left[i]);
        } else {
            assert(left2[i] == left[i + 1]);
        }
    }
    assert forall|i: int, j: int| 0 <= i < j < left2.len() implies #[trigger] left2[i]
        != #[trigger] left2[j] by {
        let i0 = if i < index { i } else { i + 1 };
        let j0 = if j < index { j } else { j + 1 };
        assert(left2[i] == left[i0]);
        assert(left2[j] == left[j0]);
    }
    assert forall|i: int, sq: (int, int)|
        0 <= i < left2.len() && position2.dom().contains(sq) implies #[trigger] left2[i]
        != #[trigger] source2[sq] by {
        let i0 = if i < index { i } else { i + 1 };
        assert(left2[i] == left[i0]);
        if sq == at {
            if i0 < index {
                assert(left[i0] != left[index]);
            } else {
                assert(left[index] != left[i0]);
            }
        } else {
            assert(left[i0] != source[sq]);
        }
    }
}

/// Tries one placement: puts the candidate piece with the given index on
/// the empty square with the given index, and keeps it there exactly when
/// the position can then be solved. A piece that is kept leaves the pool; a
/// piece that is not kept leaves the board as it was.
pub fn place_if_solvable(
    board: &mut Board,
    candidate_pieces: &mut Vec<Piece>,
    empty_squares: &Vec<Square>,
    index: usize,
    square_index: usize,
) -> (placed: bool)
    requires
        old(board).wf(),
        lists_empty_squares(empty_squares@, old(board)@),
        index < old(candidate_pieces)@.len(),
        square_index < empty_squares@.len(),
    ensures
        final(board).wf(),
        ({
            let tentative = old(board)@.insert(
                empty_squares@[square_index as int]@.at,
                old(candidate_pieces)@[index as int],
            );
            &&& solutions(tentative).finite()
            &&& placed == (solutions(tentative).len() > 0)
            &&& placed ==> final(board)@ == tentative && final(candidate_pieces)@ == old(
                candidate_pieces,
            )@.remove(index as int)
            &&& !placed ==> final(board)@ == old(board)@ && final(candidate_pieces)@ == old(
                candidate_pieces,
            )@
        }),
{
    let piece = candidate_pieces[index];
    let mut random_square = empty_squares[square_index];
    random_square.set_piece(Some(piece));
    set_board_square(board, random_square);
    let found = Solver::new(board.clone()).solve();
    if found.len() > 0 {
        candidate_pieces.remove(index);
        return true;
    }
    random_square.set_piece(None);
    set_board_square(board, random_square);
    proof {
        assert(board@ =~= old(board)@);
    }
    false
}

/// Decides on a finished position: it is kept exactly when it has no more
/// than `num_solutions` solutions.
pub fn keep_if_bounded(board: Board, num_solutions: u32) -> (kept: Option<Board>)
    requires
        board.wf(),
    ensures
        solutions(board@).finite(),
        match kept {
            Some(same) => same == board && solutions(board@).len() <= num_solutions,
            None => solutions(board@).len() > num_solutions,
        },
{
    let found = Solver::new(board.clone()).solve();
    if found.len() > num_solutions as usize {
        None
    } else {
        Some(board)
    }
}

/// One construction: places `num_pieces` pieces one after another, each on
/// a random empty square and drawn at random from the pool. It gives up
/// once a piece has been tried fifteen times in vain, and where no piece or
/// no empty square is left for the next piece. The position that results
/// is kept only if it has no more than `num_solutions` solutions.
fn try_generate<R: RandomRange>(
    num_pieces: u32,
    num_solutions: u32,
    candidate_pieces: Vec<Piece>,
    rng: &R,
) -> (stats: GenerateStats)
    ensures
        stats.attempts() == 1,
        stats.placements_kept() <= stats.placements_tried() <= most_tries(num_pieces as nat),
        stats.placements_tried() <= most_tries(16),
        stats.placements_kept() <= num_pieces,
        stats.placements_kept() <= candidate_pieces@.len(),
        stats.placements_kept() <= 16,
        num_pieces >= 1 && candidate_pieces@.len() >= 1 ==> stats.placements_kept() >= 1,
        match stats.puzzle() {
            Some(board) => {
                &&& board.wf()
                &&& is_puzzle(board@, num_pieces as nat, num_solutions as nat)
                &&& drawn_from(board@, candidate_pieces@)
                &&& stats.placements_kept() == num_pieces
            },
            None => gave_up(
                stats.placements_kept(),
                stats.placements_tried(),
                num_pieces as nat,
                num_solutions as nat,
                candidate_pieces@,
            ),
        },
        num_pieces == 0 ==> stats.puzzle().is_some(),
        num_pieces == 1 && num_solutions >= 1 && candidate_pieces@.len() >= 1
            ==> stats.puzzle().is_some(),
        num_pieces >= 1 && num_solutions == 0 ==> stats.puzzle().is_none(),
        num_pieces > candidate_pieces@.len() || num_pieces > 16 ==> stats.puzzle().is_none(),
{
    let ghost pool = candidate_pieces@;
    let mut remaining = candidate_pieces;
    let mut board = Board::new();
    let mut piece_total: u32 = 0;
    let mut piece_success: u32 = 0;
    let mut round: u32 = 0;
    let ghost mut source: Map<(int, int), int> = Map::empty();
    let ghost mut left: Seq<int> = Seq::new(pool.len(), |i: int| i);
    proof {
        board.lemma_view_valid();
        assert(board@.dom() =~= Set::<(int, int)>::empty());
        assert(source.dom() =~= board@.dom());
    }
    while round < num_pieces
        invariant
            pool == candidate_pieces@,
            round <= num_pieces,
            round <= 16,
            draws(source, board@, pool),
            in_hand(left, remaining@, source, board@, pool),
            board.wf(),
            board@.dom().len() == round,
            remaining@.len() + round == pool.len(),
            piece_success == round,
            piece_success <= piece_total <= most_tries(round as nat),
            round > 0 ==> solutions(board@).finite() && solutions(board@).len() >= 1,
        decreases num_pieces - round,
    {
        let mut placed = false;
        let empty_squares = board.empty_squares();
        if remaining.len() == 0 || empty_squares.len() == 0 {
            return GenerateStats::new(piece_total, piece_success, 1, None);
        }
        let mut attempts: u32 = PIECE_ATTEMPTS;
        let ghost start = board@;
        while !placed
            invariant
                pool == candidate_pieces@,
                round < num_pieces,
                round < 16,
                draws(source, board@, pool),
                in_hand(left, remaining@, source, board@, pool),
                board.wf(),
                lists_empty_squares(empty_squares@, start),
                empty_squares@.len() + start.dom().len() == 16,
                start.dom().len() == round,
                attempts <= PIECE_ATTEMPTS,
                !placed ==> {
                    &&& board@ == start
                    &&& remaining@.len() + round == pool.len()
                    &&& remaining@.len() >= 1
                    &&& piece_success == round
                    &&& piece_total >= piece_success + (PIECE_ATTEMPTS - attempts)
                },
                placed ==> {
                    &&& board@.dom().len() == round + 1
                    &&& remaining@.len() + round + 1 == pool.len()
                    &&& piece_success == round + 1
                    &&& solutions(board@).finite()
                    &&& solutions(board@).len() >= 1
                },
                piece_success <= piece_total,
                round == 0 ==> if placed {
                    piece_total == 1
                } else {
                    piece_total == 0 && attempts == PIECE_ATTEMPTS
                },
                round >= 1 ==> piece_total + attempts <= 1 + PIECE_ATTEMPTS * round,
            decreases attempts + (if placed { 0int } else { 1int }),
        {
            if attempts == 0 {
                return GenerateStats::new(piece_total, piece_success, 1, None);
            }
            attempts -= 1;
            piece_total += 1;
            let index = rng.gen_range(0, remaining.len());
            let square_index = rng.gen_range(0, empty_squares.len());
            let ghost at = empty_squares@[square_index as int]@.at;
            let ghost piece = remaining@[index as int];
            let ghost hand = remaining@;
            placed = place_if_solvable(
                &mut board,
                &mut remaining,
                &empty_squares,
                index,
                square_index,
            );
            proof {
                let tentative = start.insert(at, piece);
                assert(!start.dom().contains(at));
                board.lemma_view_valid();
                lemma_position_finite(start);
                assert(tentative.dom() =~= start.dom().insert(at));
                if round == 0 {
                    assert forall|sq: (int, int)| tentative.dom().contains(sq) implies
                        crate::board::square::on_board(sq) by {}
                    lemma_one_piece_one_solution(tentative);
                }
                if placed {
                    lemma_draw(left, hand, source, start, pool, index as int, at);
                    source = source.insert(at, left[index as int]);
                    left = left.remove(index as int);
                }
            }
            if placed {
                piece_success += 1;
            }
        }
        round += 1;
    }
    proof {
        board.lemma_view_valid();
        if num_pieces == 1 {
            lemma_one_piece_one_solution(board@);
        }
        if num_pieces == 0 {
            lemma_no_piece_no_solution(board@);
        }
        assert(drawn_from(board@, pool));
    }
    let ghost finished = board@;
    let kept = keep_if_bounded(board, num_solutions);
    proof {
        if kept.is_none() {
            assert(too_ambiguous(num_pieces as nat, num_solutions as nat, pool)) by {
                assert(drawn_from(finished, pool));
            }
        }
    }
    GenerateStats::new(piece_total, piece_success, 1, kept)
}

/// Builds a position with `num_pieces` pieces from the pool that has at
/// least one solution and no more than `num_solutions`. Up to a thousand
/// constructions are tried; the first that succeeds ends the run. The
/// statistics count every construction that was tried, with the placements
/// it tried and kept; the first placement of a construction is always kept.
///
/// Without a piece to place the empty board is the answer, though it has no
/// solution. A single piece always gives a position that is won as it
/// stands, which is the answer unless no solution at all is allowed; and
/// where none is allowed, no position with a piece can be the answer. More
/// pieces than the pool holds cannot be placed, so such a request ends
/// without a board after a thousand constructions. Whether any other
/// request is met depends on the numbers that `rng` picks; a run that ends
/// without a board says in its statistics why its constructions gave up.
pub fn generate<R: RandomRange>(num_pieces: u32, num_solutions: u32, rng: &R) -> (stats:
    GenerateStats)
    ensures
        1 <= stats.attempts() <= ATTEMPTS,
        stats.placements_kept() <= stats.placements_tried() <= stats.attempts() * most_tries(
            num_pieces as nat,
        ),
        stats.placements_kept() <= stats.attempts() * num_pieces,
        stats.placements_kept() <= stats.attempts() * POOL_SIZE,
        num_pieces >= 1 ==> stats.placements_kept() >= stats.attempts(),
        match stats.puzzle() {
            Some(board) => {
                &&& board.wf()
                &&& is_puzzle(board@, num_pieces as nat, num_solutions as nat)
                &&& drawn_from(board@, candidate_pool())
                &&& stats.placements_kept() >= num_pieces
            },
            None => {
                &&& stats.attempts() == ATTEMPTS
                &&& ran_out(
                    stats.placements_kept(),
                    stats.placements_tried(),
                    stats.attempts(),
                    num_pieces as nat,
                    num_solutions as nat,
                )
            },
        },
        num_pieces == 0 || (num_pieces == 1 && num_solutions >= 1) ==> stats.puzzle().is_some()
            && stats.attempts() == 1,
        num_pieces >= 1 && num_solutions == 0 ==> stats.puzzle().is_none(),
        num_pieces > POOL_SIZE ==> stats.puzzle().is_none(),
{
    let candidate_pieces = candidate_pieces();
    let mut overall_stats = GenerateStats::new(0, 0, 0, None);
    let ghost per: int = most_tries(num_pieces as nat) as int;
    let ghost cap: int = if num_pieces <= POOL_SIZE {
        num_pieces as int
    } else {
        POOL_SIZE as int
    };
    let mut attempt: u32 = 0;
    while attempt < ATTEMPTS
        invariant
            candidate_pieces@ == candidate_pool(),
            per == most_tries(num_pieces as nat),
            cap == if num_pieces <= POOL_SIZE {
                num_pieces as int
            } else {
                POOL_SIZE as int
            },
            attempt <= ATTEMPTS,
            overall_stats.attempts() == attempt,
            overall_stats.puzzle().is_none(),
            overall_stats.placements_kept() <= overall_stats.placements_tried(),
            overall_stats.placements_tried() <= attempt * per,
            overall_stats.placements_tried() <= attempt * 226,
            overall_stats.placements_kept() <= attempt * cap,
            num_pieces >= 1 ==> overall_stats.placements_kept() >= attempt,
            attempt > 0 ==> num_pieces >= 1 && !(num_pieces == 1 && num_solutions >= 1),
            overall_stats.placements_tried() >= overall_stats.placements_kept() + PIECE_ATTEMPTS
                || overall_stats.placements_kept() == attempt * cap,
            attempt >= 1 && num_pieces <= POOL_SIZE && overall_stats.placements_kept() == attempt
                * cap ==> too_ambiguous(
                num_pieces as nat,
                num_solutions as nat,
                candidate_pool(),
            ),
        decreases ATTEMPTS - attempt,
    {
        let stats = try_generate(num_pieces, num_solutions, copy_of(&candidate_pieces), rng);
        proof {
            assert((attempt + 1) * per == attempt * per + per) by (nonlinear_arith);
            assert((attempt + 1) * cap == attempt * cap + cap) by (nonlinear_arith);
            assert(candidate_pool().len() == 14);
            assert(most_tries(16) == 226);
        }
        overall_stats.piece_total += stats.piece_total;
        overall_stats.piece_success += stats.piece_success;
        overall_stats.total += stats.total;
        overall_stats.board = stats.board;
        attempt += 1;
        if overall_stats.board.is_some() {
            proof {
                lemma_scale(attempt as int, cap, num_pieces as int);
                lemma_scale(attempt as int, cap, POOL_SIZE as int);
            }
            return overall_stats;
        }
    }
    proof {
        lemma_scale(attempt as int, cap, num_pieces as int);
        lemma_scale(attempt as int, cap, POOL_SIZE as int);
    }
    overall_stats
}

/// So many times the smaller number is no more than so many times the
/// larger.
proof fn lemma_scale(times: int, smaller: int, larger: int)
    requires
        0 <= times,
        smaller <= larger,
    ensures
        times * smaller <= times * larger,
{
    assert(times * smaller <= times * larger) by (nonlinear_arith)
        requires
            0 <= times,
            smaller <= larger,
    ;
}

} // verus!
