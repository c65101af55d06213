//! The flow of one game: choosing a side, the human's moves with a cursor on the
//! board, the computer's replies, and the end of the game. Drawing the board and
//! reading keys are left to the caller, and so is the search for the computer's
//! moves: the caller hands the chosen move back.
use vstd::prelude::*;

use crate::game::{
    on_board, Checkers, GameView, Move, Piece, Turn, Winner, BOARD_SIZE,
};

verus! {

/// How a game ended, for the human.
#[derive(Clone, Copy, PartialEq, Eq, Debug, Structural)]
pub enum Outcome {
    Won,
    Lost,
    Draw,
}

/// The end screen of a game.
#[derive(Clone, Copy, PartialEq, Eq, Debug, Structural)]
pub struct GameEnded {
    pub outcome: Outcome,
}

impl GameEnded {
    /// The human won.
    pub fn won() -> (r: Self)
        ensures
            r.outcome == Outcome::Won,
    {
        GameEnded { outcome: Outcome::Won }
    }

    /// The human lost.
    pub fn lost() -> (r: Self)
        ensures
            r.outcome == Outcome::Lost,
    {
        GameEnded { outcome: Outcome::Lost }
    }

    /// Nobody can move on: a draw.
    pub fn draw() -> (r: Self)
        ensures
            r.outcome == Outcome::Draw,
    {
        GameEnded { outcome: Outcome::Draw }
    }

    /// The text shown on the end screen.
    pub fn message(&self) -> (r: &'static str)
        ensures
            self.outcome == Outcome::Won ==> r@ == "Congratulations, you win! :D"@,
            self.outcome == Outcome::Lost ==> r@ == "Unfortunately, you lose :("@,
            self.outcome == Outcome::Draw ==> r@ == "No more available moves, it's a draw"@,
    {
        match self.outcome {
            Outcome::Won => "Congratulations, you win! :D",
            Outcome::Lost => "Unfortunately, you lose :(",
            Outcome::Draw => "No more available moves, it's a draw",
        }
    }
}

/// Color of the human for an entry of the side menu: White first, then Black.
pub fn side_for_choice(choice: usize) -> (r: Option<Piece>)
    ensures
        r == (if choice == 0 {
            Some(Piece::White)
        } else if choice == 1 {
            Some(Piece::Black)
        } else {
            None
        }),
{
    if choice == 0 {
        Some(Piece::White)
    } else if choice == 1 {
        Some(Piece::Black)
    } else {
        None
    }
}

/// Keys the game reacts to.
#[derive(Clone, Copy, PartialEq, Eq, Debug, Structural)]
pub enum Key {
    Left,
    Right,
    Up,
    Down,
    Confirm,
    Cancel,
    Quit,
}

/// What the caller does after a key or a move of the computer.
#[derive(Clone, Copy, PartialEq, Eq, Debug, Structural)]
pub enum Step {
    /// Draw the board and wait for the next key.
    Continue,
    /// Leave the game.
    Quit,
    /// The game is over.
    End(GameEnded),
    /// Search a move for the computer and hand it to `ai_turn`.
    AiTurn,
}

/// Model of a game in progress.
pub struct InGameView {
    pub game: GameView,
    /// The cell under the cursor.
    pub selected: (usize, usize),
    /// The piece picked to move, if any.
    pub moving_piece: Option<(usize, usize)>,
    /// The cells the picked piece can move to.
    pub targets: Seq<(usize, usize)>,
}

/// Targets of the moves of `ms` that start at `src`, in their order.
pub open spec fn targets_of(ms: Seq<Move>, src: (usize, usize)) -> Seq<(usize, usize)>
    decreases ms.len(),
{
    if ms.len() == 0 {
        Seq::empty()
    } else {
        let t = targets_of(ms.drop_last(), src);
        let m = ms.last();
        if m.from == src {
            t.push((m.to_row() as usize, m.to_col() as usize))
        } else {
            t
        }
    }
}

/// The move from cell `from` to cell `to`.
pub open spec fn move_between(from: (usize, usize), to: (usize, usize)) -> Move {
    Move { from, d: ((to.0 - from.0) as isize, (to.1 - from.1) as isize) }
}

/// What follows a move, by the state of the game after it: the end screen, or
/// `next` while the game goes on.
pub open spec fn step_after(w: Winner, next: Step) -> Step {
    match w {
        Winner::Won(Turn::Player) => Step::End(GameEnded { outcome: Outcome::Won }),
        Winner::Won(Turn::Ai) => Step::End(GameEnded { outcome: Outcome::Lost }),
        Winner::Draw => Step::End(GameEnded { outcome: Outcome::Draw }),
        Winner::InProgress => next,
    }
}

impl InGameView {
    /// The cursor and the picked piece are on the board.
    pub open spec fn wf(self) -> bool {
        &&& on_board(self.selected.0 as int, self.selected.1 as int)
        &&& self.moving_piece matches Some(p) ==> on_board(p.0 as int, p.1 as int)
    }

    /// The same state with no piece picked.
    pub open spec fn cancelled(self) -> InGameView {
        InGameView { moving_piece: None, targets: Seq::empty(), ..self }
    }

    /// The same state with the cursor on `c`.
    pub open spec fn moved_to(self, c: (usize, usize)) -> InGameView {
        InGameView { selected: c, ..self }
    }

    /// Effect of a key: the cursor moves within the board; confirming on one of the
    /// human's pieces picks it; confirming on a target of the picked piece makes the
    /// move; confirming elsewhere, or cancelling, drops the picked piece.
    pub open spec fn on_key(self, key: Key) -> (InGameView, Step) {
        let (y, x) = self.selected;
        match key {
            Key::Quit => (self, Step::Quit),
            Key::Left => (if x > 0 {
                self.moved_to((y, (x - 1) as usize))
            } else {
                self
            }, Step::Continue),
            Key::Right => (if x < BOARD_SIZE - 1 {
                self.moved_to((y, (x + 1) as usize))
            } else {
                self
            }, Step::Continue),
            Key::Up => (if y > 0 {
                self.moved_to(((y - 1) as usize, x))
            } else {
                self
            }, Step::Continue),
            Key::Down => (if y < BOARD_SIZE - 1 {
                self.moved_to(((y + 1) as usize, x))
            } else {
                self
            }, Step::Continue),
            Key::Confirm => if self.game.cell(y as int, x as int) == Some(self.game.player) {
                (
                    InGameView {
                        moving_piece: Some(self.selected),
                        targets: targets_of(self.game.moves(self.game.player), self.selected),
                        ..self
                    },
                    Step::Continue,
                )
            } else if self.moving_piece is Some && self.targets.contains(self.selected)
                && self.game.moves(self.game.to_move()).contains(
                move_between(self.moving_piece->0, self.selected),
            ) {
                let g = self.game.after(move_between(self.moving_piece->0, self.selected));
                (InGameView { game: g, ..self.cancelled() }, step_after(g.winner(), Step::AiTurn))
            } else {
                (self.cancelled(), Step::Continue)
            },
            Key::Cancel => (self.cancelled(), Step::Continue),
        }
    }
}

/// A game in progress.
pub struct InGame {
    game: Checkers,
    selected: (usize, usize),
    moving_piece: Option<(usize, usize)>,
    valid_moves: Vec<(usize, usize)>,
}

impl View for InGame {
    type V = InGameView;

    closed spec fn view(&self) -> InGameView {
        InGameView {
            game: self.game@,
            selected: self.selected,
            moving_piece: self.moving_piece,
            targets: self.valid_moves@,
        }
    }
}

/// Whether `cells` holds `c`.
fn contains_cell(cells: &Vec<(usize, usize)>, c: (usize, usize)) -> (r: bool)
    ensures
        r == cells@.contains(c),
{
    let mut i: usize = 0;
    while i < cells.len()
        invariant
            i <= cells@.len(),
            forall|j: int| 0 <= j < i ==> cells@[j] != c,
        decreases cells@.len() - i,
    {
        if cells[i].0 == c.0 && cells[i].1 == c.1 {
            assert(cells@[i as int] == c);
            return true;
        }
        i = i + 1;
    }
    false
}

impl InGame {
    /// A new game in which the human plays `player`, cursor on the first cell. When
    /// the computer moves first, the caller hands its opening move to `ai_turn`.
    pub fn new(player: Piece) -> (r: Self)
        ensures
            r@.game.is_initial(player),
            r@.selected == (0usize, 0usize),
            r@.moving_piece is None,
            r@.targets.len() == 0,
            r@.wf(),
    {
        InGame { game: Checkers::new(player), selected: (0, 0), moving_piece: None, valid_moves: Vec::new() }
    }

    /// The game state.
    pub fn game(&self) -> (r: &Checkers)
        ensures
            r@ == self@.game,
    {
        &self.game
    }

    /// The cell under the cursor.
    pub fn selected(&self) -> (r: (usize, usize))
        ensures
            r == self@.selected,
    {
        self.selected
    }

    /// The piece picked to move, if any.
    pub fn moving_piece(&self) -> (r: Option<(usize, usize)>)
        ensures
            r == self@.moving_piece,
    {
        self.moving_piece
    }

    /// The cells the picked piece can move to.
    pub fn valid_moves(&self) -> (r: &Vec<(usize, usize)>)
        ensures
            r@ == self@.targets,
    {
        &self.valid_moves
    }

    /// Targets of the human's moves from `src`.
    fn targets_from(&self, src: (usize, usize)) -> (r: Vec<(usize, usize)>)
        ensures
            r@ == targets_of(self@.game.moves(self@.game.player), src),
    {
        let moves = self.game.valid_moves(self.game.player());
        let mut targets: Vec<(usize, usize)> = Vec::new();
        let mut i: usize = 0;
        while i < moves.len()
            invariant
                moves@ == self@.game.moves(self@.game.player),
                forall|m: Move| #[trigger] moves@.contains(m) ==> self@.game.is_move_of(self@.game.player, m),
                i <= moves@.len(),
                targets@ == targets_of(moves@.take(i as int), src),
            decreases moves@.len() - i,
        {
            let m = moves[i];
            assert(moves@.contains(m));
            assert(moves@.take(i + 1).drop_last() =~= moves@.take(i as int));
            if m.from.0 == src.0 && m.from.1 == src.1 {
                let ty = (m.from.0 as isize + m.d.0) as usize;
                let tx = (m.from.1 as isize + m.d.1) as usize;
                targets.push((ty, tx));
            }
            i = i + 1;
        }
        assert(moves@.take(moves@.len() as int) =~= moves@);
        targets
    }

    /// Handles a key of the human.
    pub fn handle_key(&mut self, key: Key) -> (r: Step)
        requires
            old(self)@.wf(),
        ensures
            final(self)@.wf(),
            (final(self)@, r) == old(self)@.on_key(key),
    {
        match key {
            Key::Quit => Step::Quit,
            Key::Left => {
                if self.selected.1 > 0 {
                    self.selected = (self.selected.0, self.selected.1 - 1);
                }
                Step::Continue
            },
            Key::Right => {
                if self.selected.1 < BOARD_SIZE - 1 {
                    self.selected = (self.selected.0, self.selected.1 + 1);
                }
                Step::Continue
            },
            Key::Up => {
                if self.selected.0 > 0 {
                    self.selected = (self.selected.0 - 1, self.selected.1);
                }
                Step::Continue
            },
            Key::Down => {
                if self.selected.0 < BOARD_SIZE - 1 {
                    self.selected = (self.selected.0 + 1, self.selected.1);
                }
                Step::Continue
            },
            Key::Confirm => {
                if self.game.cell(self.selected) == Some(self.game.player()) {
                    self.moving_piece = Some(self.selected);
                    self.valid_moves = self.targets_from(self.selected);
                    return Step::Continue;
                }
                if let Some(from) = self.moving_piece {
                    if contains_cell(&self.valid_moves, self.selected) {
                        let m = Move {
                            from,
                            d: (
                                self.selected.0 as isize - from.0 as isize,
                                self.selected.1 as isize - from.1 as isize,
                            ),
                        };
                        if self.game.is_valid_move(m) {
                            self.game = self.game.apply_move(m);
                            self.moving_piece = None;
                            self.valid_moves = Vec::new();
                            return match self.game.get_winner() {
                                Winner::Won(Turn::Player) => Step::End(GameEnded::won()),
                                Winner::Won(Turn::Ai) => Step::End(GameEnded::lost()),
                                Winner::Draw => Step::End(GameEnded::draw()),
                                Winner::InProgress => Step::AiTurn,
                            };
                        }
                    }
                }
                self.moving_piece = None;
                self.valid_moves = Vec::new();
                Step::Continue
            },
            Key::Cancel => {
                self.moving_piece = None;
                self.valid_moves = Vec::new();
                Step::Continue
            },
        }
    }

    /// Applies the move that the search chose for the computer.
    pub fn ai_turn(&mut self, m: Move) -> (r: Step)
        requires
            old(self)@.game.moves(old(self)@.game.to_move()).contains(m),
        ensures
            final(self)@ == (InGameView { game: old(self)@.game.after(m), ..old(self)@ }),
            r == step_after(old(self)@.game.after(m).winner(), Step::Continue),
    {
        self.game = self.game.apply_move(m);
        match self.game.get_winner() {
            Winner::Won(Turn::Player) => Step::End(GameEnded::won()),
            Winner::Won(Turn::Ai) => Step::End(GameEnded::lost()),
            Winner::Draw => Step::End(GameEnded::draw()),
            Winner::InProgress => Step::Continue,
        }
    }
}

} // verus!
