//! Properties of the rules that hold for every state and every generated move.
use vstd::prelude::*;

use crate::ai::{score, terminal_value};
use crate::game::{
    count_of, index_of, initial_cell, is_dark, lemma_moves_shape, on_board, GameView, Move,
    Piece, Turn, Winner, BOARD_SIZE, CELL_COUNT,
};

verus! {

/// Indicator of a cell content being a piece of color `p`.
pub open spec fn holds(c: Option<Piece>, p: Piece) -> nat {
    if c == Some(p) {
        1
    } else {
        0
    }
}

/// Counting after replacing one cell.
proof fn lemma_count_update(s: Seq<Option<Piece>>, i: int, c: Option<Piece>, p: Piece)
    requires
        0 <= i < s.len(),
    ensures
        count_of(s.update(i, c), p) + holds(s[i], p) == count_of(s, p) + holds(c, p),
    decreases s.len(),
{
    let t = s.update(i, c);
    if i == s.len() - 1 {
        assert(t.drop_last() =~= s.drop_last());
    } else {
        assert(t.drop_last() =~= s.drop_last().update(i, c));
        lemma_count_update(s.drop_last(), i, c, p);
    }
}

/// Counting over two pieces of a sequence.
proof fn lemma_count_concat(a: Seq<Option<Piece>>, b: Seq<Option<Piece>>, p: Piece)
    ensures
        count_of(a + b, p) == count_of(a, p) + count_of(b, p),
    decreases b.len(),
{
    if b.len() > 0 {
        assert((a + b).drop_last() =~= a + b.drop_last());
        lemma_count_concat(a, b.drop_last(), p);
    } else {
        assert(a + b =~= a);
    }
}

/// A sequence holding a piece of color `p` counts it.
proof fn lemma_count_positive(s: Seq<Option<Piece>>, i: int, p: Piece)
    requires
        0 <= i < s.len(),
        s[i] == Some(p),
    ensures
        count_of(s, p) > 0,
    decreases s.len(),
{
    if i < s.len() - 1 {
        lemma_count_positive(s.drop_last(), i, p);
    }
}

/// Number of pieces of color `c` in row `y` of the starting position.
proof fn lemma_initial_row_count(player: Piece, row: Seq<Option<Piece>>, y: int, c: Piece)
    requires
        0 <= y < BOARD_SIZE,
        row.len() == BOARD_SIZE,
        forall|x: int| 0 <= x < BOARD_SIZE ==> #[trigger] row[x] == initial_cell(player, y, x),
    ensures
        count_of(row, c) == if (y < 3 && c == player.opposite()) || (y > 4 && c == player) {
            4nat
        } else {
            0nat
        },
{
    reveal_with_fuel(count_of, 9);
    assert(row.drop_last().drop_last().drop_last().drop_last().drop_last().drop_last().drop_last().drop_last()
        =~= Seq::<Option<Piece>>::empty());
    assert(is_dark(y, 0) == (y % 2 == 1));
    assert(is_dark(y, 2) == (y % 2 == 1));
    assert(is_dark(y, 4) == (y % 2 == 1));
    assert(is_dark(y, 6) == (y % 2 == 1));
    assert(is_dark(y, 1) == (y % 2 == 0));
    assert(is_dark(y, 3) == (y % 2 == 0));
    assert(is_dark(y, 5) == (y % 2 == 0));
    assert(is_dark(y, 7) == (y % 2 == 0));
}

/// Number of pieces of color `c` in the first `y` rows of the starting position.
proof fn lemma_initial_prefix_count(v: GameView, player: Piece, y: int, c: Piece)
    requires
        v.is_initial(player),
        0 <= y <= BOARD_SIZE,
    ensures
        count_of(v.cells.subrange(0, y * 8), c) == 4 * (if c == player.opposite() {
            if y < 3 {
                y
            } else {
                3
            }
        } else {
            if y < 5 {
                0
            } else {
                y - 5
            }
        }),
    decreases y,
{
    if y == 0 {
        assert(v.cells.subrange(0, 0) =~= Seq::<Option<Piece>>::empty());
    } else {
        lemma_initial_prefix_count(v, player, y - 1, c);
        let row = v.cells.subrange((y - 1) * 8, (y - 1) * 8 + 8);
        assert forall|x: int| 0 <= x < BOARD_SIZE implies #[trigger] row[x] == initial_cell(
            player,
            y - 1,
            x,
        ) by {
            assert(row[x] == v.cell(y - 1, x));
        }
        lemma_initial_row_count(player, row, y - 1, c);
        assert(v.cells.subrange(0, y * 8) =~= v.cells.subrange(0, (y - 1) * 8) + row);
        lemma_count_concat(v.cells.subrange(0, (y - 1) * 8), row, c);
    }
}

/// The starting position holds 24 pieces: 12 of each color.
pub proof fn lemma_initial_counts(v: GameView, player: Piece)
    requires
        v.is_initial(player),
    ensures
        v.count(Piece::Black) == 12,
        v.count(Piece::White) == 12,
        v.total() == 24,
{
    lemma_initial_prefix_count(v, player, 8, Piece::Black);
    lemma_initial_prefix_count(v, player, 8, Piece::White);
    assert(v.cells.subrange(0, 64) =~= v.cells);
}

/// What a generated move does to a state: the target was empty and receives the
/// moving piece, the source is emptied, a jumped opposing piece is removed, and
/// every other cell keeps its content.
pub proof fn lemma_after_cells(v: GameView, who: Piece, m: Move)
    requires
        v.cells.len() == CELL_COUNT,
        v.moves(who).contains(m),
    ensures
        v.is_move_of(who, m),
        v.cell(m.to_row(), m.to_col()) is None,
        v.after(m).cells.len() == CELL_COUNT,
        v.after(m).cell(m.to_row(), m.to_col()) == Some(who),
        v.after(m).cell(m.from.0 as int, m.from.1 as int) is None,
        forall|y: int, x: int|
            on_board(y, x) && (#[trigger] v.after(m).cell(y, x)) != v.cell(y, x) ==> {
                ||| (y == m.to_row() && x == m.to_col())
                ||| (y == m.from.0 && x == m.from.1)
                ||| (m.is_jump() && y == (m.from.0 + m.to_row()) / 2 && x == (m.from.1
                    + m.to_col()) / 2 && v.cell(y, x) == Some(who.opposite()) && v.after(m).cell(y, x) is None)
            },
{
    lemma_moves_shape(v, who, BOARD_SIZE as int);
    let w = v.after(m);
    assert forall|y: int, x: int|
        on_board(y, x) && (#[trigger] w.cell(y, x)) != v.cell(y, x) implies {
        ||| (y == m.to_row() && x == m.to_col())
        ||| (y == m.from.0 && x == m.from.1)
        ||| (m.is_jump() && y == (m.from.0 + m.to_row()) / 2 && x == (m.from.1 + m.to_col()) / 2
            && v.cell(y, x) == Some(who.opposite()) && w.cell(y, x) is None)
    } by {
        if m.is_jump() && index_of(y, x) == index_of(
            (m.from.0 + m.to_row()) / 2,
            (m.from.1 + m.to_col()) / 2,
        ) {
            assert(y == (m.from.0 + m.to_row()) / 2 && x == (m.from.1 + m.to_col()) / 2);
        }
    }
}

/// Piece counts after a generated move of color `who`: the mover keeps all its
/// pieces, the opponent loses one on a jump and none otherwise.
pub proof fn lemma_after_counts(v: GameView, who: Piece, m: Move)
    requires
        v.cells.len() == CELL_COUNT,
        v.moves(who).contains(m),
    ensures
        v.after(m).count(who) == v.count(who),
        v.after(m).count(who.opposite()) + (if m.is_jump() {
            1nat
        } else {
            0nat
        }) == v.count(who.opposite()),
        v.after(m).total() + (if m.is_jump() {
            1nat
        } else {
            0nat
        }) == v.total(),
{
    lemma_moves_shape(v, who, BOARD_SIZE as int);
    let src = index_of(m.from.0 as int, m.from.1 as int);
    let dst = index_of(m.to_row(), m.to_col());
    let mid = index_of((m.from.0 + m.to_row()) / 2, (m.from.1 + m.to_col()) / 2);
    let cleared = if m.is_jump() {
        v.cells.update(mid, None)
    } else {
        v.cells
    };
    let moved = cleared.update(dst, cleared[src]);
    assert(v.after(m).cells == moved.update(src, None));
    assert forall|c: Piece| true implies count_of(v.after(m).cells, c) + holds(v.cells[src], c)
        + (if m.is_jump() { holds(v.cells[mid], c) } else { 0 }) == count_of(v.cells, c)
        + holds(v.cells[src], c) by {
        if m.is_jump() {
            assert(m.d.1 / 2 == (m.from.1 + m.to_col()) / 2 - m.from.1);
            assert(mid != src && mid != dst);
            lemma_count_update(v.cells, mid, None, c);
        }
        assert(dst != src);
        assert(cleared[dst] is None);
        lemma_count_update(cleared, dst, cleared[src], c);
        lemma_count_update(moved, src, None, c);
    }
    if m.is_jump() {
        assert(v.cells[mid] == Some(who.opposite())) by {
            assert(m.d.1 / 2 == (m.from.1 + m.to_col()) / 2 - m.from.1);
        }
    }
    assert(count_of(v.after(m).cells, who) + holds(v.cells[src], who) == count_of(v.cells, who)
        + holds(v.cells[src], who));
    assert(count_of(v.after(m).cells, who.opposite()) + holds(v.cells[src], who.opposite())
        + (if m.is_jump() { holds(v.cells[mid], who.opposite()) } else { 0 }) == count_of(v.cells, who.opposite())
        + holds(v.cells[src], who.opposite()));
}

/// A game from its start: `states[0]` is the starting position for a human playing
/// `player`, and each later state follows from the one before by a generated move of
/// the side to move.
pub open spec fn is_game_line(player: Piece, states: Seq<GameView>, moves: Seq<Move>) -> bool {
    &&& states.len() == moves.len() + 1
    &&& states[0].is_initial(player)
    &&& forall|i: int|
        0 <= i < moves.len() ==> {
            &&& states[i].moves(states[i].to_move()).contains(#[trigger] moves[i])
            &&& states[i + 1] == states[i].after(moves[i])
        }
}

/// Each state of a game holds at most 24 pieces.
proof fn lemma_line_state(player: Piece, states: Seq<GameView>, moves: Seq<Move>, i: int)
    requires
        is_game_line(player, states, moves),
        0 <= i < states.len(),
    ensures
        states[i].cells.len() == CELL_COUNT,
        states[i].total() <= 24,
    decreases i,
{
    if i == 0 {
        lemma_initial_counts(states[0], player);
    } else {
        lemma_line_state(player, states, moves, i - 1);
        let v = states[i - 1];
        assert(v.moves(v.to_move()).contains(moves[i - 1]));
        lemma_after_cells(v, v.to_move(), moves[i - 1]);
        lemma_after_counts(v, v.to_move(), moves[i - 1]);
    }
}

/// Over a game, the number of pieces never exceeds 24 and never grows from one
/// state to the next.
pub proof fn lemma_piece_count_bounded(player: Piece, states: Seq<GameView>, moves: Seq<Move>)
    requires
        is_game_line(player, states, moves),
    ensures
        forall|i: int| 0 <= i < states.len() ==> (#[trigger] states[i]).total() <= 24,
        forall|i: int|
            0 <= i < moves.len() ==> #[trigger] states[i + 1].total() <= states[i].total(),
{
    assert forall|i: int| 0 <= i < states.len() implies (#[trigger] states[i]).total() <= 24 by {
        lemma_line_state(player, states, moves, i);
    }
    assert forall|i: int| 0 <= i < moves.len() implies #[trigger] states[i + 1].total()
        <= states[i].total() by {
        lemma_line_state(player, states, moves, i);
        let v = states[i];
        assert(v.moves(v.to_move()).contains(moves[i]));
        lemma_after_counts(v, v.to_move(), moves[i]);
    }
}

/// A generated move goes to a cell that was empty; afterwards that cell holds the
/// moving piece, and no piece appears or is lost but a jumped one.
pub proof fn lemma_move_into_empty_cell(v: GameView, who: Piece, m: Move)
    requires
        v.cells.len() == CELL_COUNT,
        v.moves(who).contains(m),
    ensures
        on_board(m.to_row(), m.to_col()),
        v.cell(m.to_row(), m.to_col()) is None,
        v.after(m).cell(m.to_row(), m.to_col()) == Some(who),
        v.after(m).cell(m.from.0 as int, m.from.1 as int) is None,
        v.after(m).total() + (if m.is_jump() {
            1nat
        } else {
            0nat
        }) == v.total(),
{
    lemma_after_cells(v, who, m);
    lemma_after_counts(v, who, m);
}

/// A state with white pieces and no black one is won by the side playing White.
pub proof fn lemma_elimination(v: GameView)
    requires
        v.count(Piece::White) >= 1,
        v.count(Piece::Black) == 0,
    ensures
        v.winner() == Winner::Won(v.owner(Piece::White)),
{
}

/// With the human playing White, a white piece on row 0 while black pieces remain
/// wins for the human.
pub proof fn lemma_edge_reach(v: GameView, x: int)
    requires
        v.cells.len() == CELL_COUNT,
        v.player == Piece::White,
        0 <= x < BOARD_SIZE,
        v.cell(0, x) == Some(Piece::White),
        v.count(Piece::Black) >= 1,
    ensures
        v.winner() == Winner::Won(Turn::Player),
{
    lemma_count_positive(v.cells, index_of(0, x), Piece::White);
}

/// The piece at (y, x) cannot move along column direction `dx`: the forward
/// diagonal target is off the board or holds a piece of the side to move, or it
/// holds an opposing piece and the cell beyond is off the board or taken.
pub open spec fn target_blocked(v: GameView, y: int, x: int, dx: int) -> bool {
    let dir = v.direction(v.to_move());
    let ny = y + dir;
    let nx = x + dx;
    ||| !on_board(ny, nx)
    ||| v.cell(ny, nx) == Some(v.to_move())
    ||| (v.cell(ny, nx) == Some(v.to_move().opposite()) && (!on_board(y + 2 * dir, x + 2 * dx)
        || v.cell(y + 2 * dir, x + 2 * dx) is Some))
}

/// Every piece of the side to move is blocked along both forward diagonals.
pub open spec fn is_blocked(v: GameView) -> bool {
    forall|y: int, x: int|
        on_board(y, x) && #[trigger] v.cell(y, x) == Some(v.to_move()) ==> target_blocked(v, y, x, -1)
            && target_blocked(v, y, x, 1)
}

/// A blocked side has no move in the first `x` cells of row `y`.
proof fn lemma_blocked_row(v: GameView, y: int, x: int)
    requires
        is_blocked(v),
        0 <= y < BOARD_SIZE,
        x <= BOARD_SIZE,
    ensures
        v.moves_in_row(v.to_move(), y, x).len() == 0,
    decreases x,
{
    if x > 0 {
        lemma_blocked_row(v, y, x - 1);
        if v.cell(y, x - 1) == Some(v.to_move()) {
            assert(target_blocked(v, y, x - 1, -1) && target_blocked(v, y, x - 1, 1));
            reveal_with_fuel(GameView::attempt, 2);
        }
    }
}

/// A blocked side has no move in the first `y` rows.
pub proof fn lemma_blocked_rows(v: GameView, y: int)
    requires
        is_blocked(v),
        y <= BOARD_SIZE,
    ensures
        v.moves_upto_row(v.to_move(), y).len() == 0,
    decreases y,
{
    if y > 0 {
        lemma_blocked_rows(v, y - 1);
        lemma_blocked_row(v, y - 1, BOARD_SIZE as int);
    }
}

/// A state in which the side to move is blocked, while both colors have pieces
/// and no piece stands on its far edge, is a draw.
pub proof fn lemma_stalemate(v: GameView)
    requires
        v.count(Piece::Black) >= 1,
        v.count(Piece::White) >= 1,
        !v.player_at_edge(),
        !v.ai_at_edge(),
        is_blocked(v),
    ensures
        v.winner() == Winner::Draw,
{
    lemma_blocked_rows(v, BOARD_SIZE as int);
}

/// When a generated move of the side to move ends a game that was in progress,
/// the side that made it wins or the game is drawn: the other side never wins.
pub proof fn lemma_win_goes_to_mover(v: GameView, m: Move)
    requires
        v.cells.len() == CELL_COUNT,
        v.winner() == Winner::InProgress,
        v.moves(v.to_move()).contains(m),
    ensures
        v.after(m).winner() matches Winner::Won(t) ==> t == v.turn,
{
    let who = v.to_move();
    let w = v.after(m);
    lemma_after_cells(v, who, m);
    lemma_after_counts(v, who, m);
    if w.player_at_edge() && v.turn == Turn::Ai {
        let x = choose|x: int| 0 <= x < BOARD_SIZE && #[trigger] w.cell(0, x) == Some(w.player);
        assert(v.cell(0, x) == Some(v.player));
        assert(v.player_at_edge());
    }
    if w.ai_at_edge() && v.turn == Turn::Player {
        let x = choose|x: int|
            0 <= x < BOARD_SIZE && #[trigger] w.cell(BOARD_SIZE - 1, x) == Some(w.player.opposite());
        assert(v.cell(BOARD_SIZE - 1, x) == Some(v.player.opposite()));
        assert(v.ai_at_edge());
    }
}

/// The moves of one piece are among the moves of its row.
proof fn lemma_row_has_piece_moves(v: GameView, who: Piece, y: int, x: int, x2: int)
    requires
        0 <= x < x2 <= BOARD_SIZE,
    ensures
        v.moves_in_row(who, y, x2).len() >= v.moves_from(who, y, x).len(),
    decreases x2,
{
    if x2 > x + 1 {
        lemma_row_has_piece_moves(v, who, y, x, x2 - 1);
    }
}

/// The moves of one row are among the moves of the board.
proof fn lemma_board_has_row_moves(v: GameView, who: Piece, y: int, y2: int)
    requires
        0 <= y < y2 <= BOARD_SIZE,
    ensures
        v.moves_upto_row(who, y2).len() >= v.moves_in_row(who, y, BOARD_SIZE as int).len(),
    decreases y2,
{
    if y2 > y + 1 {
        lemma_board_has_row_moves(v, who, y, y2 - 1);
    }
}

/// A side with a piece that can move has a move.
proof fn lemma_piece_move_is_listed(v: GameView, who: Piece, y: int, x: int)
    requires
        on_board(y, x),
    ensures
        v.moves(who).len() >= v.moves_from(who, y, x).len(),
{
    lemma_row_has_piece_moves(v, who, y, x, BOARD_SIZE as int);
    lemma_board_has_row_moves(v, who, y, BOARD_SIZE as int);
}

/// The first move of a game never ends it: after any generated move of the side
/// to move in the starting position, the game is in progress.
pub proof fn lemma_opening_move_keeps_game_going(v: GameView, player: Piece, m: Move)
    requires
        v.is_initial(player),
        v.moves(v.to_move()).contains(m),
    ensures
        v.after(m).winner() == Winner::InProgress,
{
    let who = v.to_move();
    let w = v.after(m);
    let y = m.from.0 as int;
    let x = m.from.1 as int;
    lemma_after_cells(v, who, m);
    assert(v.cell(y, x) == initial_cell(player, y, x));
    if m.is_jump() {
        let dir = v.direction(who);
        assert(v.cell(y + dir, x + m.d.1 / 2) == initial_cell(player, y + dir, x + m.d.1 / 2));
    }
    lemma_initial_counts(v, player);
    lemma_after_counts(v, who, m);
    if w.player_at_edge() {
        let c = choose|c: int| 0 <= c < BOARD_SIZE && #[trigger] w.cell(0, c) == Some(w.player);
        assert(v.cell(0, c) == initial_cell(player, 0, c));
    }
    if w.ai_at_edge() {
        let c = choose|c: int|
            0 <= c < BOARD_SIZE && #[trigger] w.cell(BOARD_SIZE - 1, c) == Some(w.player.opposite());
        assert(v.cell(BOARD_SIZE - 1, c) == initial_cell(player, BOARD_SIZE - 1, c));
    }
    let next = w.to_move();
    if next == player {
        assert(v.cell(5, 0) == initial_cell(player, 5, 0));
        assert(v.cell(4, 1) == initial_cell(player, 4, 1));
        assert(w.cell(5, 0) == Some(player));
        assert(w.cell(4, 1) is None);
        lemma_piece_move_is_listed(w, next, 5, 0);
    } else {
        assert(v.cell(2, 1) == initial_cell(player, 2, 1));
        assert(v.cell(3, 2) == initial_cell(player, 3, 2));
        assert(w.cell(2, 1) == Some(player.opposite()));
        assert(w.cell(3, 2) is None);
        lemma_piece_move_is_listed(w, next, 2, 1);
    }
}

/// The operations that the search consumes depend on the state alone: equal states
/// give the same moves in the same order, the same successors, the same terminal
/// value and the same score, so a search of fixed depth over them sees the same tree.
pub proof fn lemma_adapter_deterministic(a: GameView, b: GameView, m: Move)
    requires
        a == b,
    ensures
        a.moves(a.to_move()) == b.moves(b.to_move()),
        a.after(m) == b.after(m),
        terminal_value(a.winner()) == terminal_value(b.winner()),
        score(a) == score(b),
{
}

} // verus!
