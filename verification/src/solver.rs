//! The exhaustive solver: every sequence of captures that wins a position.

use vstd::prelude::*;
use crate::board::cmove::CMove;
use crate::board::rules::{
    after_capture, can_capture, has_capture, is_legal, lemma_position_finite, state_of,
    valid_position, Position,
};
use crate::board::{lemma_capture_takes_one, lists_legal_moves, Board, BoardState};
use crate::lists::copy_of;

verus! {

/// Whether a sequence of captures, played in order from a position, wins
/// it: each capture is legal where it is played, and exactly one piece is
/// left after the last. The empty sequence wins a position of one piece.
pub open spec fn wins(position: Position, line: Seq<CMove>) -> bool
    decreases line.len(),
{
    if line.len() == 0 {
        position.dom().len() == 1
    } else {
        is_legal(position, line[0]@) && wins(after_capture(position, line[0]@), line.drop_first())
    }
}

/// The position after a sequence of captures, played in order.
pub open spec fn played_out(position: Position, line: Seq<CMove>) -> Position
    decreases line.len(),
{
    if line.len() == 0 {
        position
    } else {
        played_out(after_capture(position, line[0]@), line.drop_first())
    }
}

/// The solutions of a position: all the sequences of captures that win it.
pub open spec fn solutions(position: Position) -> Set<Seq<CMove>> {
    Set::new(|line: Seq<CMove>| wins(position, line))
}

/// Whether a sequence of captures begins with the captures in `played` and
/// goes on to win `position`, the position that they led to.
pub open spec fn continues_to_win(played: Seq<CMove>, position: Position, line: Seq<CMove>) -> bool {
    &&& played.len() <= line.len()
    &&& line.take(played.len() as int) == played
    &&& wins(position, line.skip(played.len() as int))
}

/// The sequences of captures that a list of solutions holds.
pub open spec fn lines(found: Seq<Vec<CMove>>) -> Seq<Seq<CMove>> {
    found.map_values(|line: Vec<CMove>| line@)
}

/// Whether a list holds, each once, exactly the sequences that begin with
/// `played` and go on to win `position`.
pub open spec fn lists_solutions(
    found: Seq<Seq<CMove>>,
    played: Seq<CMove>,
    position: Position,
) -> bool {
    &&& forall|line: Seq<CMove>| found.contains(line) <==> continues_to_win(played, position, line)
    &&& found.no_duplicates()
}

/// A legal capture needs two pieces on the board.
pub proof fn lemma_legal_needs_two(position: Position, mv: CMove)
    requires
        valid_position(position),
        is_legal(position, mv@),
    ensures
        position.dom().len() >= 2,
        has_capture(position),
{
    lemma_position_finite(position);
    let from = mv@.from.at;
    let to = mv@.to.at;
    assert(can_capture(position, from, to));
    let rest = position.dom().remove(from);
    assert(rest.contains(to));
    assert(rest.len() >= 1) by {
        if rest.len() == 0 {
            assert(rest =~= Set::<(int, int)>::empty());
        }
    }
}

/// A position with one piece is won by the empty sequence alone; a position
/// with none, or with no capture left, is not won at all.
pub proof fn lemma_wins_at_rest(position: Position, line: Seq<CMove>)
    requires
        valid_position(position),
        position.dom().len() <= 1 || !has_capture(position),
    ensures
        wins(position, line) <==> position.dom().len() == 1 && line.len() == 0,
{
    if line.len() > 0 && is_legal(position, line[0]@) {
        lemma_legal_needs_two(position, line[0]);
    }
}

/// Playing a solution ends in a won position, and takes one capture for
/// each piece but the last: a sequence of captures that wins a position
/// leaves a position of exactly one piece, whose state is `Won`.
pub proof fn lemma_solution_ends_won(position: Position, line: Seq<CMove>)
    requires
        valid_position(position),
        wins(position, line),
    ensures
        valid_position(played_out(position, line)),
        played_out(position, line).dom().len() == 1,
        state_of(played_out(position, line)) == BoardState::Won,
        line.len() == position.dom().len() - 1,
    decreases line.len(),
{
    if line.len() > 0 {
        lemma_capture_takes_one(position, line[0]@);
        lemma_solution_ends_won(after_capture(position, line[0]@), line.drop_first());
    }
}

/// A list of all solutions of a position is as long as the position has
/// solutions.
pub proof fn lemma_solution_count(found: Seq<Seq<CMove>>, position: Position)
    requires
        lists_solutions(found, Seq::<CMove>::empty(), position),
    ensures
        solutions(position).finite(),
        solutions(position).len() == found.len(),
{
    assert forall|line: Seq<CMove>| found.to_set().contains(line) <==> solutions(
        position,
    ).contains(line) by {
        assert(line.skip(0) =~= line);
        assert(line.take(0) =~= Seq::<CMove>::empty());
    }
    assert(found.to_set() =~= solutions(position));
    found.unique_seq_to_set();
}

/// Going one capture further: a sequence begins with `played` followed by
/// `mv` and wins from there exactly when it begins with `played`, goes on
/// with `mv`, and wins from the position that `played` led to.
proof fn lemma_one_further(played: Seq<CMove>, position: Position, mv: CMove, line: Seq<CMove>)
    requires
        is_legal(position, mv@),
    ensures
        continues_to_win(played.push(mv), after_capture(position, mv@), line) <==> {
            &&& continues_to_win(played, position, line)
            &&& played.len() < line.len()
            &&& line[played.len() as int] == mv
        },
{
    let n = played.len() as int;
    if n < line.len() {
        assert(line.skip(n).drop_first() =~= line.skip(n + 1));
        assert(line.skip(n)[0] == line[n]);
        if line.take(n + 1) == played.push(mv) {
            assert(line.take(n) =~= line.take(n + 1).take(n));
            assert(played.push(mv).take(n) =~= played);
            assert(line[n] == line.take(n + 1)[n]);
        }
        if line.take(n) == played && line[n] == mv {
            assert(line.take(n + 1) =~= played.push(mv));
        }
    }
}

/// Whether a list holds, each once, exactly the sequences that begin with
/// `played`, go on with one of the first `done` captures of `legal`, and
/// win `position`.
spec fn lists_solutions_through(
    found: Seq<Seq<CMove>>,
    played: Seq<CMove>,
    position: Position,
    legal: Seq<CMove>,
    done: int,
) -> bool {
    &&& forall|line: Seq<CMove>| #[trigger]
        found.contains(line) <==> goes_on_with(played, position, legal, done, line)
    &&& found.no_duplicates()
}

/// Whether a sequence begins with `played`, goes on with one of the first
/// `done` captures of `legal`, and wins `position`.
spec fn goes_on_with(
    played: Seq<CMove>,
    position: Position,
    legal: Seq<CMove>,
    done: int,
    line: Seq<CMove>,
) -> bool {
    &&& continues_to_win(played, position, line)
    &&& played.len() < line.len()
    &&& exists|k: int| 0 <= k < done && k < legal.len() && line[played.len() as int] == #[trigger] legal[k]
}

/// A position with one piece has one solution: to play nothing more.
proof fn lemma_solutions_won(played: Seq<CMove>, position: Position)
    requires
        valid_position(position),
        position.dom().len() == 1,
    ensures
        lists_solutions(seq![played], played, position),
{
    let found = seq![played];
    let n = played.len() as int;
    assert forall|line: Seq<CMove>| found.contains(line) <==> continues_to_win(
        played,
        position,
        line,
    ) by {
        if found.contains(line) {
            let j = choose|j: int| 0 <= j < found.len() && found[j] == line;
            assert(line == played);
            assert(played.take(n) =~= played);
            assert(played.skip(n).len() == 0);
        }
        if continues_to_win(played, position, line) {
            lemma_wins_at_rest(position, line.skip(n));
            assert(line.take(n) =~= line);
            assert(found[0] == line);
        }
    }
}

/// A position without a piece, or with no capture left among several
/// pieces, has no solution.
proof fn lemma_solutions_none(played: Seq<CMove>, position: Position)
    requires
        valid_position(position),
        position.dom().len() == 0 || (position.dom().len() >= 2 && !has_capture(position)),
    ensures
        lists_solutions(Seq::<Seq<CMove>>::empty(), played, position),
{
    assert forall|line: Seq<CMove>| !continues_to_win(played, position, line) by {
        if played.len() <= line.len() {
            lemma_wins_at_rest(position, line.skip(played.len() as int));
        }
    }
}

/// Before any capture is tried, nothing has been found.
proof fn lemma_solutions_start(played: Seq<CMove>, position: Position, legal: Seq<CMove>)
    ensures
        lists_solutions_through(Seq::<Seq<CMove>>::empty(), played, position, legal, 0),
{
}

/// The solutions that go on with the next legal capture join those found
/// through the captures before it.
proof fn lemma_solutions_branch(
    before: Seq<Seq<CMove>>,
    added: Seq<Seq<CMove>>,
    played: Seq<CMove>,
    position: Position,
    legal: Seq<CMove>,
    done: int,
)
    requires
        valid_position(position),
        lists_legal_moves(legal, position),
        0 <= done < legal.len(),
        lists_solutions_through(before, played, position, legal, done),
        lists_solutions(added, played.push(legal[done]), after_capture(position, legal[done]@)),
    ensures
        lists_solutions_through(before + added, played, position, legal, done + 1),
{
    let all = before + added;
    let m = legal[done];
    let n = played.len() as int;
    assert(legal.contains(m));
    assert(is_legal(position, m@));
    assert forall|line: Seq<CMove>| added.contains(line) <==> {
        &&& continues_to_win(played, position, line)
        &&& played.len() < line.len()
        &&& line[n] == m
    } by {
        lemma_one_further(played, position, m, line);
    }
    assert forall|line: Seq<CMove>| #[trigger]
        all.contains(line) <==> goes_on_with(played, position, legal, done + 1, line) by {
        if all.contains(line) {
            let j = choose|j: int| 0 <= j < all.len() && all[j] == line;
            if j < before.len() {
                assert(before[j] == line);
                assert(before.contains(line));
                assert(goes_on_with(played, position, legal, done, line));
            } else {
                assert(added[j - before.len()] == line);
                assert(added.contains(line));
                assert(line[n] == legal[done]);
            }
        }
        if goes_on_with(played, position, legal, done + 1, line) {
            let k = choose|k: int|
                0 <= k < done + 1 && k < legal.len() && line[n] == #[trigger] legal[k];
            if k < done {
                assert(goes_on_with(played, position, legal, done, line));
                assert(before.contains(line));
                let j = choose|j: int| 0 <= j < before.len() && before[j] == line;
                assert(all[j] == line);
            } else {
                assert(added.contains(line));
                let j = choose|j: int| 0 <= j < added.len() && added[j] == line;
                assert(all[before.len() + j] == line);
            }
        }
    }
    assert forall|i: int, j: int| 0 <= i < before.len() && 0 <= j < added.len() implies before[i]
        != added[j] by {
        let first = before[i];
        let second = added[j];
        assert(before.contains(first));
        assert(added.contains(second));
        assert(goes_on_with(played, position, legal, done, first));
        let k = choose|k: int| 0 <= k < done && k < legal.len() && first[n] == #[trigger] legal[k];
        assert(second[n] == legal[done]);
        assert(legal[k] != legal[done]);
    }
    vstd::seq_lib::lemma_no_dup_in_concat(before, added);
}

/// Once every legal capture has been tried, every solution has been found.
proof fn lemma_solutions_finish(
    found: Seq<Seq<CMove>>,
    played: Seq<CMove>,
    position: Position,
    legal: Seq<CMove>,
)
    requires
        valid_position(position),
        position.dom().len() >= 2,
        lists_legal_moves(legal, position),
        lists_solutions_through(found, played, position, legal, legal.len() as int),
    ensures
        lists_solutions(found, played, position),
{
    let n = played.len() as int;
    assert forall|line: Seq<CMove>| found.contains(line) <==> continues_to_win(
        played,
        position,
        line,
    ) by {
        if found.contains(line) {
            assert(goes_on_with(played, position, legal, legal.len() as int, line));
        }
        if continues_to_win(played, position, line) {
            let rest = line.skip(n);
            assert(rest.len() > 0);
            assert(is_legal(position, rest[0]@));
            assert(legal.contains(rest[0]));
            let k = choose|k: int| 0 <= k < legal.len() && legal[k] == rest[0];
            assert(line[n] == legal[k]);
            assert(goes_on_with(played, position, legal, legal.len() as int, line));
        }
    }
}

/// With nothing played before, the list of solutions is as long as the
/// position has solutions.
proof fn lemma_count_from_start(found: Seq<Seq<CMove>>, played: Seq<CMove>, position: Position)
    requires
        lists_solutions(found, played, position),
        played.len() == 0,
    ensures
        solutions(position).finite(),
        solutions(position).len() == found.len(),
{
    assert(played =~= Seq::<CMove>::empty());
    lemma_solution_count(found, position);
}

/// A search in progress: a board, and the captures that led to it.
#[derive(Debug)]
pub struct Solver {
    board: Board,
    moves: Vec<CMove>,
}

impl Solver {
    /// The position that the search stands at.
    pub closed spec fn position(&self) -> Position {
        self.board@
    }

    /// The captures that led to the position.
    pub closed spec fn played(&self) -> Seq<CMove> {
        self.moves@
    }

    /// The board of the search is a board as this crate hands them out.
    pub closed spec fn wf(&self) -> bool {
        self.board.wf()
    }

    /// A search that starts at the given board.
    pub fn new(board: Board) -> (solver: Solver)
        requires
            board.wf(),
        ensures
            solver.wf(),
            solver.position() == board@,
            solver.played() == Seq::<CMove>::empty(),
    {
        Solver { board, moves: Vec::new() }
    }

    /// The board that the search stands at.
    pub fn board(&self) -> (board: &Board)
        ensures
            board@ == self.position(),
            self.wf() ==> board.wf(),
    {
        &self.board
    }

    /// The search one capture further: on a board of its own, with the
    /// capture played and recorded.
    fn clone(&self, m: CMove) -> (next: Solver)
        requires
            self.wf(),
            is_legal(self.position(), m@),
        ensures
            next.wf(),
            next.played() == self.played().push(m),
            next.position() == after_capture(self.position(), m@),
            next.position().dom().len() == self.position().dom().len() - 1,
    {
        let mut moves = copy_of(&self.moves);
        let mut board = self.board.clone();
        moves.push(m);
        let played = board.make_move(m);
        assert(played.is_ok());
        Solver { board, moves }
    }

    /// Every way to win from here. Each solution is the whole sequence of
    /// captures from the board that the search started at: the captures
    /// that led here, followed by captures that win the position. The list
    /// holds each solution once, and nothing else.
    pub fn solve(&self) -> (found: Vec<Vec<CMove>>)
        requires
            self.wf(),
        ensures
            lists_solutions(lines(found@), self.played(), self.position()),
            self.played().len() == 0 ==> solutions(self.position()).finite() && found@.len()
                == solutions(self.position()).len(),
        decreases self.position().dom().len(),
    {
        let mut found: Vec<Vec<CMove>> = Vec::new();
        let ghost played = self.played();
        let ghost position = self.position();
        proof {
            self.board.lemma_view_valid();
            lemma_position_finite(position);
        }
        match self.board.game_state() {
            BoardState::Won => {
                let line = copy_of(&self.moves);
                found.push(line);
                proof {
                    assert(lines(found@) =~= seq![played]);
                    lemma_solutions_won(played, position);
                    if played.len() == 0 {
                        lemma_count_from_start(lines(found@), played, position);
                    }
                }
                return found;
            },
            BoardState::InProgress => {},
            _ => {
                proof {
                    assert(lines(found@) =~= Seq::<Seq<CMove>>::empty());
                    lemma_solutions_none(played, position);
                    if played.len() == 0 {
                        lemma_count_from_start(lines(found@), played, position);
                    }
                }
                return found;
            },
        }
        let legal = self.board.legal_moves();
        let mut i: usize = 0;
        proof {
            assert(lines(found@) =~= Seq::<Seq<CMove>>::empty());
            lemma_solutions_start(played, position, legal@);
        }
        while i < legal.len()
            invariant
                self.wf(),
                played == self.played(),
                position == self.position(),
                valid_position(position),
                position.dom().len() >= 2,
                lists_legal_moves(legal@, position),
                i <= legal@.len(),
                lists_solutions_through(lines(found@), played, position, legal@, i as int),
            decreases legal@.len() - i,
        {
            let m = legal[i];
            proof {
                assert(legal@.contains(m));
            }
            let solver = self.clone(m);
            let mut more = solver.solve();
            let ghost before = lines(found@);
            let ghost added = lines(more@);
            found.append(&mut more);
            proof {
                assert(lines(found@) =~= before + added);
                lemma_solutions_branch(before, added, played, position, legal@, i as int);
            }
            i += 1;
        }
        proof {
            lemma_solutions_finish(lines(found@), played, position, legal@);
            if played.len() == 0 {
                lemma_count_from_start(lines(found@), played, position);
            }
        }
        found
    }
}

} // verus!
