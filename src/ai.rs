//! The operations that a depth-bounded adversarial search consumes: move
//! generation, move application, terminal test and position evaluation.
use vstd::prelude::*;

use crate::game::{BOARD_SIZE, Checkers, GameView, Move, Piece, Winner};

verus! {

/// Depth of the search, in plies.
pub const SEARCH_DEPTH: u8 = 6;

/// Weight of a piece of the side to move.
pub const OWN_WEIGHT: i16 = 2;

/// Weight of a piece of the side that does not move.
pub const OPPONENT_WEIGHT: i16 = -3;

/// How a finished game ends, for the side that just moved.
#[derive(Clone, Copy, PartialEq, Eq, Debug, Structural)]
pub enum SearchOutcome {
    PlayerJustMoved,
    Draw,
}

/// Terminal value of a game outcome: `None` while the game goes on.
pub open spec fn terminal_value(w: Winner) -> Option<SearchOutcome> {
    match w {
        Winner::Won(_) => Some(SearchOutcome::PlayerJustMoved),
        Winner::Draw => Some(SearchOutcome::Draw),
        Winner::InProgress => None,
    }
}

/// Rows a piece of color `p` on row `y` has travelled from its home edge.
pub open spec fn distance_from_home(v: GameView, y: int, p: Piece) -> int {
    if p == v.player {
        BOARD_SIZE - 1 - y
    } else {
        y
    }
}

/// Contribution of a piece of color `p` on row `y` to the score of `v`.
pub open spec fn piece_score(v: GameView, y: int, p: Piece) -> int {
    distance_from_home(v, y, p) * if p == v.to_move() {
        OWN_WEIGHT as int
    } else {
        OPPONENT_WEIGHT as int
    }
}

/// Sum of the contributions of the listed pieces.
pub open spec fn score_of(v: GameView, ps: Seq<(usize, usize, Piece)>) -> int
    decreases ps.len(),
{
    if ps.len() == 0 {
        0
    } else {
        score_of(v, ps.drop_last()) + piece_score(v, ps.last().0 as int, ps.last().2)
    }
}

/// Score of a state from the point of view of the side to move.
pub open spec fn score(v: GameView) -> int {
    score_of(v, v.pieces())
}

/// Bounds of the pieces listed in the first `x` cells of row `y`.
proof fn lemma_pieces_in_row_bounds(v: GameView, y: int, x: int)
    requires
        0 <= y < BOARD_SIZE,
        0 <= x <= BOARD_SIZE,
    ensures
        v.pieces_in_row(y, x).len() <= x,
        forall|i: int|
            0 <= i < v.pieces_in_row(y, x).len() ==> (#[trigger] v.pieces_in_row(y, x)[i]).0 == y,
    decreases x,
{
    if x > 0 {
        lemma_pieces_in_row_bounds(v, y, x - 1);
    }
}

/// Bounds of the pieces listed in the first `y` rows.
proof fn lemma_pieces_bounds(v: GameView, y: int)
    requires
        0 <= y <= BOARD_SIZE,
    ensures
        v.pieces_upto_row(y).len() <= y * 8,
        forall|i: int|
            0 <= i < v.pieces_upto_row(y).len() ==> (#[trigger] v.pieces_upto_row(y)[i]).0 < y,
    decreases y,
{
    if y > 0 {
        lemma_pieces_bounds(v, y - 1);
        lemma_pieces_in_row_bounds(v, y - 1, BOARD_SIZE as int);
        let a = v.pieces_upto_row(y - 1);
        let b = v.pieces_in_row(y - 1, BOARD_SIZE as int);
        assert forall|i: int| 0 <= i < v.pieces_upto_row(y).len() implies (#[trigger] v.pieces_upto_row(
            y,
        )[i]).0 < y by {
            if i < a.len() {
                assert(v.pieces_upto_row(y)[i] == a[i]);
            } else {
                assert(v.pieces_upto_row(y)[i] == b[i - a.len()]);
            }
        }
    }
}

/// The rules of the game, as the search sees them.
pub struct CheckersRules;

impl CheckersRules {
    /// Appends the legal moves of the side to move.
    pub fn generate_moves(state: &Checkers, moves: &mut Vec<Move>)
        ensures
            final(moves)@ == old(moves)@ + state@.moves(state@.to_move()),
    {
        let mut possible_moves = state.valid_moves(state.piece_for_turn());
        moves.append(&mut possible_moves);
    }

    /// The state after a generated move; the given state is left as it is.
    pub fn apply(state: &mut Checkers, m: Move) -> (r: Option<Checkers>)
        requires
            old(state)@.moves(old(state)@.to_move()).contains(m),
        ensures
            *final(state) == *old(state),
            r matches Some(s) && s@ == old(state)@.after(m),
    {
        Some(state.apply_move(m))
    }

    /// Whether the game is over: won by the side that just moved, or drawn.
    pub fn get_winner(state: &Checkers) -> (r: Option<SearchOutcome>)
        ensures
            r == terminal_value(state@.winner()),
    {
        match state.get_winner() {
            Winner::Won(_) => Some(SearchOutcome::PlayerJustMoved),
            Winner::Draw => Some(SearchOutcome::Draw),
            Winner::InProgress => None,
        }
    }
}

/// Position evaluator: the farther a piece has come from its home edge, the more
/// it counts, for the side to move and against the other.
pub struct CheckerEval;

impl CheckerEval {
    /// Score of `s` for the side to move.
    pub fn evaluate(&self, s: &Checkers) -> (r: i16)
        ensures
            r == score(s@),
    {
        let to_move = s.piece_for_turn();
        let player = s.player();
        let pieces = s.iter_pieces();
        proof {
            lemma_pieces_bounds(s@, BOARD_SIZE as int);
        }
        let mut total: i16 = 0;
        let mut i: usize = 0;
        while i < pieces.len()
            invariant
                pieces@ == s@.pieces(),
                pieces@.len() <= 64,
                forall|j: int| 0 <= j < pieces@.len() ==> (#[trigger] pieces@[j]).0 < BOARD_SIZE,
                to_move == s@.to_move(),
                player == s@.player,
                i <= pieces@.len(),
                total == score_of(s@, pieces@.take(i as int)),
                -21 * i <= total <= 14 * i,
            decreases pieces@.len() - i,
        {
            let (y, _, piece) = pieces[i];
            assert(pieces@[i as int].0 < BOARD_SIZE);
            let value: i16 = if piece == player {
                (BOARD_SIZE - 1 - y) as i16
            } else {
                y as i16
            };
            let term: i16 = if piece == to_move {
                value * OWN_WEIGHT
            } else {
                value * OPPONENT_WEIGHT
            };
            assert(pieces@.take(i + 1).drop_last() =~= pieces@.take(i as int));
            total = total + term;
            i = i + 1;
        }
        assert(pieces@.take(pieces@.len() as int) =~= pieces@);
        total
    }
}

} // verus!
