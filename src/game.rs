//! Board representation and the rules of the game: setup, move generation,
//! move application and the end-of-game conditions.
use vstd::prelude::*;

verus! {

/// Number of rows, and of columns, of the board.
pub const BOARD_SIZE: usize = 8;

/// Number of cells of the board.
pub const CELL_COUNT: usize = 64;

/// Color of a piece.
#[derive(Clone, Copy, PartialEq, Eq, Debug, Structural)]
pub enum Piece {
    Black,
    White,
}

/// Logical side to move, independent of the colors.
#[derive(Clone, Copy, PartialEq, Eq, Debug, Structural)]
pub enum Turn {
    Player,
    Ai,
}

/// State of the game as a whole.
#[derive(Clone, Copy, PartialEq, Eq, Debug, Structural)]
pub enum Winner {
    Won(Turn),
    Draw,
    InProgress,
}

/// A move: the cell a piece leaves, and the row and column offsets of its target.
/// Offsets of magnitude 2 are capture jumps.
#[derive(Clone, Copy, Eq, Debug)]
pub struct Move {
    pub from: (usize, usize),
    pub d: (isize, isize),
}

impl PartialEq for Move {
    fn eq(&self, o: &Move) -> (r: bool)
        ensures
            r == (*self == *o),
    {
        self.from.0 == o.from.0 && self.from.1 == o.from.1 && self.d.0 == o.d.0 && self.d.1
            == o.d.1
    }
}

impl vstd::std_specs::cmp::PartialEqSpecImpl for Move {
    open spec fn obeys_eq_spec() -> bool {
        true
    }

    open spec fn eq_spec(&self, o: &Move) -> bool {
        *self == *o
    }
}

impl Piece {
    pub open spec fn spec_opposite(self) -> Piece {
        match self {
            Piece::Black => Piece::White,
            Piece::White => Piece::Black,
        }
    }

    /// The other color.
    #[verifier::when_used_as_spec(spec_opposite)]
    pub fn opposite(self) -> (r: Self)
        ensures
            r == self.spec_opposite(),
    {
        match self {
            Piece::Black => Piece::White,
            Piece::White => Piece::Black,
        }
    }
}

impl Turn {
    pub open spec fn spec_opposite(self) -> Turn {
        match self {
            Turn::Player => Turn::Ai,
            Turn::Ai => Turn::Player,
        }
    }

    /// The other side.
    #[verifier::when_used_as_spec(spec_opposite)]
    pub fn opposite(self) -> (r: Self)
        ensures
            r == self.spec_opposite(),
    {
        match self {
            Turn::Player => Turn::Ai,
            Turn::Ai => Turn::Player,
        }
    }
}

impl Move {
    /// Row of the target cell.
    pub open spec fn to_row(self) -> int {
        self.from.0 + self.d.0
    }

    /// Column of the target cell.
    pub open spec fn to_col(self) -> int {
        self.from.1 + self.d.1
    }

    /// Whether the move jumps over a piece.
    pub open spec fn is_jump(self) -> bool {
        self.d.0 > 1 || self.d.0 < -1
    }
}

/// Whether a row and a column lie on the board.
pub open spec fn on_board(y: int, x: int) -> bool {
    0 <= y < BOARD_SIZE && 0 <= x < BOARD_SIZE
}

/// Index of a cell in the row-major sequence of cells.
pub open spec fn index_of(y: int, x: int) -> int {
    y * 8 + x
}

/// Whether pieces may stand on a cell: the dark squares, where row plus column is odd.
pub open spec fn is_dark(y: int, x: int) -> bool {
    (y % 2 == 0) == (x % 2 == 1)
}

/// Number of cells of `s` holding a piece of color `p`.
pub open spec fn count_of(s: Seq<Option<Piece>>, p: Piece) -> nat
    decreases s.len(),
{
    if s.len() == 0 {
        0
    } else {
        count_of(s.drop_last(), p) + if s.last() == Some(p) {
            1nat
        } else {
            0nat
        }
    }
}

/// The moves that an optional move stands for.
pub open spec fn opt_seq(m: Option<Move>) -> Seq<Move> {
    match m {
        Some(m) => seq![m],
        None => Seq::empty(),
    }
}

/// Mathematical model of a game state.
pub struct GameView {
    /// The 64 cells, row by row.
    pub cells: Seq<Option<Piece>>,
    /// Color of the human's pieces.
    pub player: Piece,
    /// Side to move.
    pub turn: Turn,
}

/// Content of a cell in the starting position, when the human plays `player`.
pub open spec fn initial_cell(player: Piece, y: int, x: int) -> Option<Piece> {
    if y == 3 || y == 4 || !is_dark(y, x) {
        None
    } else if y < 3 {
        Some(player.opposite())
    } else {
        Some(player)
    }
}

/// Side that moves first: White.
pub open spec fn initial_turn(player: Piece) -> Turn {
    if player == Piece::White {
        Turn::Player
    } else {
        Turn::Ai
    }
}

impl GameView {
    pub open spec fn cell(self, y: int, x: int) -> Option<Piece> {
        self.cells[index_of(y, x)]
    }

    /// Every piece stands on a dark square.
    pub open spec fn well_placed(self) -> bool {
        &&& self.cells.len() == CELL_COUNT
        &&& forall|y: int, x: int|
            on_board(y, x) && (#[trigger] self.cell(y, x)).is_some() ==> is_dark(y, x)
    }

    /// Whether this is the starting position for a human playing `player`.
    pub open spec fn is_initial(self, player: Piece) -> bool {
        &&& self.cells.len() == CELL_COUNT
        &&& self.player == player
        &&& self.turn == initial_turn(player)
        &&& forall|y: int, x: int|
            on_board(y, x) ==> #[trigger] self.cell(y, x) == initial_cell(player, y, x)
    }

    /// Color of the side to move.
    pub open spec fn to_move(self) -> Piece {
        match self.turn {
            Turn::Player => self.player,
            Turn::Ai => self.player.opposite(),
        }
    }

    /// Side that plays the pieces of color `p`.
    pub open spec fn owner(self, p: Piece) -> Turn {
        if p == self.player {
            Turn::Player
        } else {
            Turn::Ai
        }
    }

    /// Row direction of the pieces of color `who`: the human's go toward row 0.
    pub open spec fn direction(self, who: Piece) -> int {
        if who == self.player {
            -1
        } else {
            1
        }
    }

    /// A move of the piece at (y, x) by (dy, dx): taken if the target is empty,
    /// retried once as a jump if the target holds an opposing piece.
    pub open spec fn attempt(self, who: Piece, y: int, x: int, dy: int, dx: int, last: bool) -> Option<
        Move,
    >
        decreases
                (if last {
                    0int
                } else {
                    1int
                }),
    {
        let ny = y + dy;
        let nx = x + dx;
        if !on_board(ny, nx) {
            None
        } else {
            match self.cell(ny, nx) {
                None => Some(Move { from: (y as usize, x as usize), d: (dy as isize, dx as isize) }),
                Some(p) => if p == who || last {
                    None
                } else {
                    self.attempt(who, y, x, 2 * dy, 2 * dx, true)
                },
            }
        }
    }

    /// Moves of the piece at (y, x), if it has color `who`: left diagonal first.
    pub open spec fn moves_from(self, who: Piece, y: int, x: int) -> Seq<Move> {
        if self.cell(y, x) == Some(who) {
            opt_seq(self.attempt(who, y, x, self.direction(who), -1, false)) + opt_seq(
                self.attempt(who, y, x, self.direction(who), 1, false),
            )
        } else {
            Seq::empty()
        }
    }

    /// Moves of the pieces in the first `x` cells of row `y`.
    pub open spec fn moves_in_row(self, who: Piece, y: int, x: int) -> Seq<Move>
        decreases x,
    {
        if x <= 0 {
            Seq::empty()
        } else {
            self.moves_in_row(who, y, x - 1) + self.moves_from(who, y, x - 1)
        }
    }

    /// Moves of the pieces in the first `y` rows.
    pub open spec fn moves_upto_row(self, who: Piece, y: int) -> Seq<Move>
        decreases y,
    {
        if y <= 0 {
            Seq::empty()
        } else {
            self.moves_upto_row(who, y - 1) + self.moves_in_row(who, y - 1, BOARD_SIZE as int)
        }
    }

    /// All legal moves of color `who`, pieces taken row by row, then column by column.
    pub open spec fn moves(self, who: Piece) -> Seq<Move> {
        self.moves_upto_row(who, BOARD_SIZE as int)
    }

    /// What every generated move of color `who` satisfies: it starts on a piece of
    /// that color, goes diagonally forward by one cell, or by two over an opposing
    /// piece, and ends on an empty cell of the board.
    pub open spec fn is_move_of(self, who: Piece, m: Move) -> bool {
        let y = m.from.0 as int;
        let x = m.from.1 as int;
        let dir = self.direction(who);
        &&& on_board(y, x)
        &&& self.cell(y, x) == Some(who)
        &&& on_board(m.to_row(), m.to_col())
        &&& self.cell(m.to_row(), m.to_col()) is None
        &&& (m.d.1 == m.d.0 || m.d.1 == -m.d.0)
        &&& (m.d.0 == dir || (m.d.0 == 2 * dir && self.cell(y + dir, x + m.d.1 / 2) == Some(
            who.opposite(),
        )))
    }

    /// The piece at (y, x), with its coordinates, if there is one.
    pub open spec fn piece_entry(self, y: int, x: int) -> Seq<(usize, usize, Piece)> {
        match self.cell(y, x) {
            Some(p) => seq![(y as usize, x as usize, p)],
            None => Seq::empty(),
        }
    }

    /// The pieces of the first `x` cells of row `y`.
    pub open spec fn pieces_in_row(self, y: int, x: int) -> Seq<(usize, usize, Piece)>
        decreases x,
    {
        if x <= 0 {
            Seq::empty()
        } else {
            self.pieces_in_row(y, x - 1) + self.piece_entry(y, x - 1)
        }
    }

    /// The pieces of the first `y` rows.
    pub open spec fn pieces_upto_row(self, y: int) -> Seq<(usize, usize, Piece)>
        decreases y,
    {
        if y <= 0 {
            Seq::empty()
        } else {
            self.pieces_upto_row(y - 1) + self.pieces_in_row(y - 1, BOARD_SIZE as int)
        }
    }

    /// All pieces with their coordinates, row by row, then column by column.
    pub open spec fn pieces(self) -> Seq<(usize, usize, Piece)> {
        self.pieces_upto_row(BOARD_SIZE as int)
    }

    /// The state after move `m`: a jumped piece is removed, the piece moves and
    /// the other side is to move.
    pub open spec fn after(self, m: Move) -> GameView {
        let src = index_of(m.from.0 as int, m.from.1 as int);
        let dst = index_of(m.to_row(), m.to_col());
        let mid = index_of((m.from.0 + m.to_row()) / 2, (m.from.1 + m.to_col()) / 2);
        let cleared = if m.is_jump() {
            self.cells.update(mid, None)
        } else {
            self.cells
        };
        GameView {
            cells: cleared.update(dst, cleared[src]).update(src, None),
            player: self.player,
            turn: self.turn.opposite(),
        }
    }

    /// Number of pieces of color `p`.
    pub open spec fn count(self, p: Piece) -> nat {
        count_of(self.cells, p)
    }

    /// Number of pieces on the board.
    pub open spec fn total(self) -> nat {
        self.count(Piece::Black) + self.count(Piece::White)
    }

    /// Some piece of the human's color stands on row 0.
    pub open spec fn player_at_edge(self) -> bool {
        exists|x: int| 0 <= x < BOARD_SIZE && #[trigger] self.cell(0, x) == Some(self.player)
    }

    /// Some piece of the computer's color stands on the last row.
    pub open spec fn ai_at_edge(self) -> bool {
        exists|x: int|
            0 <= x < BOARD_SIZE && #[trigger] self.cell(BOARD_SIZE - 1, x) == Some(
                self.player.opposite(),
            )
    }

    /// Outcome of the game in this state.
    pub open spec fn winner(self) -> Winner {
        if self.count(Piece::Black) == 0 {
            Winner::Won(self.owner(Piece::White))
        } else if self.count(Piece::White) == 0 {
            Winner::Won(self.owner(Piece::Black))
        } else if self.player_at_edge() {
            Winner::Won(Turn::Player)
        } else if self.ai_at_edge() {
            Winner::Won(Turn::Ai)
        } else if self.moves(self.to_move()).len() == 0 {
            Winner::Draw
        } else {
            Winner::InProgress
        }
    }
}

/// The moves tried from a piece of color `who` have the shape of a legal move.
proof fn lemma_attempt_shape(v: GameView, who: Piece, y: int, x: int, dx: int)
    requires
        v.cells.len() == CELL_COUNT,
        on_board(y, x),
        v.cell(y, x) == Some(who),
        dx == 1 || dx == -1,
    ensures
        v.attempt(who, y, x, v.direction(who), dx, false) matches Some(m) ==> v.is_move_of(who, m),
{
    let dir = v.direction(who);
    reveal_with_fuel(GameView::attempt, 2);
    if let Some(m) = v.attempt(who, y, x, dir, dx, false) {
        if on_board(y + dir, x + dx) && v.cell(y + dir, x + dx) is Some {
            assert(m.d.1 / 2 == dx);
        }
    }
}

/// The moves of the first `x` cells of row `y` have the shape of legal moves.
proof fn lemma_moves_in_row_shape(v: GameView, who: Piece, y: int, x: int)
    requires
        v.cells.len() == CELL_COUNT,
        0 <= y < BOARD_SIZE,
        x <= BOARD_SIZE,
    ensures
        forall|m: Move| #[trigger] v.moves_in_row(who, y, x).contains(m) ==> v.is_move_of(who, m),
    decreases x,
{
    if x > 0 {
        lemma_moves_in_row_shape(v, who, y, x - 1);
        if v.cell(y, x - 1) == Some(who) {
            lemma_attempt_shape(v, who, y, x - 1, -1);
            lemma_attempt_shape(v, who, y, x - 1, 1);
        }
        let a = v.moves_in_row(who, y, x - 1);
        let b = v.moves_from(who, y, x - 1);
        assert forall|m: Move| #[trigger] v.moves_in_row(who, y, x).contains(m) implies v.is_move_of(
            who,
            m,
        ) by {
            let i = choose|i: int| 0 <= i < (a + b).len() && (a + b)[i] == m;
            if i < a.len() {
                assert(a.contains(m));
            } else {
                assert(b[i - a.len()] == m);
            }
        }
    }
}

/// Every move that `moves` lists has the shape of a legal move.
pub proof fn lemma_moves_shape(v: GameView, who: Piece, y: int)
    requires
        v.cells.len() == CELL_COUNT,
        y <= BOARD_SIZE,
    ensures
        forall|m: Move| #[trigger] v.moves_upto_row(who, y).contains(m) ==> v.is_move_of(who, m),
    decreases y,
{
    if y > 0 {
        lemma_moves_shape(v, who, y - 1);
        lemma_moves_in_row_shape(v, who, y - 1, BOARD_SIZE as int);
        let a = v.moves_upto_row(who, y - 1);
        let b = v.moves_in_row(who, y - 1, BOARD_SIZE as int);
        assert forall|m: Move| #[trigger] v.moves_upto_row(who, y).contains(m) implies v.is_move_of(
            who,
            m,
        ) by {
            let i = choose|i: int| 0 <= i < (a + b).len() && (a + b)[i] == m;
            if i < a.len() {
                assert(a.contains(m));
            } else {
                assert(b[i - a.len()] == m);
                assert(b.contains(m));
            }
        }
    }
}

/// A diagonal step keeps a cell's color.
proof fn lemma_diagonal_keeps_dark(y: int, x: int, dy: int, dx: int)
    requires
        dx == dy || dx == -dy,
    ensures
        is_dark(y + dy, x + dx) == is_dark(y, x),
{
}

/// A generated move keeps every piece on a dark square.
pub proof fn lemma_after_well_placed(v: GameView, who: Piece, m: Move)
    requires
        v.well_placed(),
        v.is_move_of(who, m),
    ensures
        v.after(m).well_placed(),
{
    let w = v.after(m);
    let ty = m.to_row();
    let tx = m.to_col();
    assert forall|y: int, x: int| on_board(y, x) && (#[trigger] w.cell(y, x)).is_some() implies is_dark(
        y,
        x,
    ) by {
        if index_of(y, x) == index_of(ty, tx) {
            assert(y == ty && x == tx);
            lemma_diagonal_keeps_dark(m.from.0 as int, m.from.1 as int, m.d.0 as int, m.d.1 as int);
            assert(v.cell(m.from.0 as int, m.from.1 as int).is_some());
        } else {
            assert(v.cell(y, x).is_some());
        }
    }
}

/// A game state: the board, the human's color and the side to move.
#[derive(Clone, Copy)]
pub struct Checkers {
    board: [Option<Piece>; CELL_COUNT],
    player: Piece,
    turn: Turn,
}

impl View for Checkers {
    type V = GameView;

    closed spec fn view(&self) -> GameView {
        GameView { cells: self.board@, player: self.player, turn: self.turn }
    }
}

impl Checkers {
    #[verifier::type_invariant]
    pub(crate) closed spec fn pieces_on_dark_squares(self) -> bool {
        self@.well_placed()
    }

    /// A new game in which the human plays `player`. The computer's pieces fill the
    /// dark squares of rows 0 to 2, the human's those of rows 5 to 7; White moves first.
    pub fn new(player: Piece) -> (r: Self)
        ensures
            r@.is_initial(player),
            r@.well_placed(),
    {
        let opponent = player.opposite();
        let mut board: [Option<Piece>; CELL_COUNT] = [None; CELL_COUNT];
        let mut y: usize = 0;
        while y < BOARD_SIZE
            invariant
                y <= BOARD_SIZE,
                opponent == player.opposite(),
                forall|yy: int, xx: int|
                    0 <= yy < y && 0 <= xx < BOARD_SIZE ==> #[trigger] board@[index_of(yy, xx)]
                        == initial_cell(player, yy, xx),
                forall|yy: int, xx: int|
                    y <= yy < BOARD_SIZE && 0 <= xx < BOARD_SIZE ==> #[trigger] board@[index_of(
                        yy,
                        xx,
                    )] is None,
            decreases BOARD_SIZE - y,
        {
            if y != 3 && y != 4 {
                let piece = if y < 3 {
                    opponent
                } else {
                    player
                };
                let mut x: usize = if y % 2 == 0 {
                    1
                } else {
                    0
                };
                while x < BOARD_SIZE
                    invariant
                        y < BOARD_SIZE,
                        y != 3 && y != 4,
                        x % 2 == 0 <==> y % 2 == 1,
                        x <= BOARD_SIZE + 1,
                        piece == if y < 3 {
                            opponent
                        } else {
                            player
                        },
                        opponent == player.opposite(),
                        forall|yy: int, xx: int|
                            0 <= yy < y && 0 <= xx < BOARD_SIZE ==> #[trigger] board@[index_of(
                                yy,
                                xx,
                            )] == initial_cell(player, yy, xx),
                        forall|xx: int|
                            0 <= xx < x && xx < BOARD_SIZE ==> #[trigger] board@[index_of(y as int, xx)]
                                == initial_cell(player, y as int, xx),
                        forall|xx: int|
                            x <= xx < BOARD_SIZE ==> #[trigger] board@[index_of(y as int, xx)] is None,
                        forall|yy: int, xx: int|
                            y < yy < BOARD_SIZE && 0 <= xx < BOARD_SIZE ==> #[trigger] board@[index_of(
                                yy,
                                xx,
                            )] is None,
                    decreases BOARD_SIZE + 1 - x,
                {
                    board[y * 8 + x] = Some(piece);
                    x = x + 2;
                }
            }
            y = y + 1;
        }
        let turn = if player == Piece::White {
            Turn::Player
        } else {
            Turn::Ai
        };
        let r = Checkers { board, player, turn };
        assert(r@.cells == board@);
        r
    }

    /// A game in a given position: `board[y][x]` is the content of row `y`, column `x`.
    /// `None` when a piece stands on a light square, where no piece can stand.
    pub fn with_board(board: [[Option<Piece>; BOARD_SIZE]; BOARD_SIZE], player: Piece, turn: Turn) -> (r:
        Option<Self>)
        ensures
            r is Some <==> forall|y: int, x: int|
                on_board(y, x) && (#[trigger] board@[y]@[x]).is_some() ==> is_dark(y, x),
            r matches Some(c) ==> {
                &&& c@.player == player
                &&& c@.turn == turn
                &&& forall|y: int, x: int| on_board(y, x) ==> #[trigger] c@.cell(y, x) == board@[y]@[x]
            },
    {
        let mut cells: [Option<Piece>; CELL_COUNT] = [None; CELL_COUNT];
        let mut y: usize = 0;
        while y < BOARD_SIZE
            invariant
                y <= BOARD_SIZE,
                forall|yy: int, xx: int|
                    0 <= yy < y && 0 <= xx < BOARD_SIZE ==> #[trigger] cells@[index_of(yy, xx)]
                        == board@[yy]@[xx],
                forall|yy: int, xx: int|
                    0 <= yy < y && 0 <= xx < BOARD_SIZE && (#[trigger] board@[yy]@[xx]).is_some()
                        ==> is_dark(yy, xx),
                forall|yy: int, xx: int|
                    y <= yy < BOARD_SIZE && 0 <= xx < BOARD_SIZE ==> #[trigger] cells@[index_of(
                        yy,
                        xx,
                    )] is None,
            decreases BOARD_SIZE - y,
        {
            let row = board[y];
            let mut x: usize = 0;
            while x < BOARD_SIZE
                invariant
                    y < BOARD_SIZE,
                    x <= BOARD_SIZE,
                    row == board@[y as int],
                    forall|yy: int, xx: int|
                        0 <= yy < y && 0 <= xx < BOARD_SIZE ==> #[trigger] cells@[index_of(yy, xx)]
                            == board@[yy]@[xx],
                    forall|yy: int, xx: int|
                        0 <= yy < y && 0 <= xx < BOARD_SIZE && (#[trigger] board@[yy]@[xx]).is_some()
                            ==> is_dark(yy, xx),
                    forall|xx: int|
                        0 <= xx < x ==> #[trigger] cells@[index_of(y as int, xx)] == board@[y as int]@[xx],
                    forall|xx: int|
                        0 <= xx < x && (#[trigger] board@[y as int]@[xx]).is_some() ==> is_dark(y as int, xx),
                    forall|yy: int, xx: int|
                        y <= yy < BOARD_SIZE && 0 <= xx < BOARD_SIZE && index_of(yy, xx) >= index_of(y as int, x as int)
                            ==> #[trigger] cells@[index_of(yy, xx)] is None,
                decreases BOARD_SIZE - x,
            {
                let c = row[x];
                if c.is_some() && (y % 2 == 0) != (x % 2 == 1) {
                    assert(!is_dark(y as int, x as int));
                    return None;
                }
                cells[y * 8 + x] = c;
                x = x + 1;
            }
            y = y + 1;
        }
        let r = Checkers { board: cells, player, turn };
        assert(forall|yy: int, xx: int| on_board(yy, xx) ==> #[trigger] r@.cell(yy, xx) == board@[yy]@[xx]);
        Some(r)
    }

    /// Whether `m` is one of the moves that `valid_moves` lists for the side to move.
    pub fn is_valid_move(&self, m: Move) -> (r: bool)
        ensures
            r == self@.moves(self@.to_move()).contains(m),
    {
        let moves = self.valid_moves(self.piece_for_turn());
        let mut i: usize = 0;
        while i < moves.len()
            invariant
                moves@ == self@.moves(self@.to_move()),
                i <= moves@.len(),
                forall|j: int| 0 <= j < i ==> moves@[j] != m,
            decreases moves@.len() - i,
        {
            if moves[i] == m {
                return true;
            }
            i = i + 1;
        }
        false
    }

    /// Side to move next.
    pub fn turn(&self) -> (r: Turn)
        ensures
            r == self@.turn,
    {
        self.turn
    }

    /// Content of the cell at row `pos.0`, column `pos.1`.
    pub fn cell(&self, pos: (usize, usize)) -> (r: Option<Piece>)
        requires
            on_board(pos.0 as int, pos.1 as int),
        ensures
            r == self@.cell(pos.0 as int, pos.1 as int),
    {
        self.board[pos.0 * 8 + pos.1]
    }

    /// Color of the human's pieces.
    pub fn player(&self) -> (r: Piece)
        ensures
            r == self@.player,
    {
        self.player
    }

    /// A move of the piece of color `who` at `pos` by (`dy`, `dx`): kept if the target
    /// is empty; over an opposing piece, tried once more with the offsets doubled.
    fn maybe_move(&self, who: Piece, pos: (usize, usize), dy: isize, dx: isize, final_move: bool) -> (r:
        Option<Move>)
        requires
            on_board(pos.0 as int, pos.1 as int),
            -2 <= dy <= 2,
            -2 <= dx <= 2,
            !final_move ==> -1 <= dy <= 1 && -1 <= dx <= 1,
        ensures
            r == self@.attempt(who, pos.0 as int, pos.1 as int, dy as int, dx as int, final_move),
        decreases
                (if final_move {
                    0int
                } else {
                    1int
                }),
    {
        let ny = pos.0 as isize + dy;
        let nx = pos.1 as isize + dx;
        if ny < 0 || ny >= BOARD_SIZE as isize || nx < 0 || nx >= BOARD_SIZE as isize {
            return None;
        }
        match self.cell((ny as usize, nx as usize)) {
            None => Some(Move { from: pos, d: (dy, dx) }),
            Some(p) => {
                if p == who || final_move {
                    None
                } else {
                    self.maybe_move(who, pos, dy * 2, dx * 2, true)
                }
            },
        }
    }

    /// Appends the moves of the piece at `pos`, if it has color `who`.
    fn push_moves_from(&self, who: Piece, pos: (usize, usize), dy: isize, moves: &mut Vec<Move>)
        requires
            on_board(pos.0 as int, pos.1 as int),
            dy == self@.direction(who),
        ensures
            final(moves)@ == old(moves)@ + self@.moves_from(who, pos.0 as int, pos.1 as int),
    {
        let ghost before = moves@;
        if self.board[pos.0 * 8 + pos.1] == Some(who) {
            let left = self.maybe_move(who, pos, dy, -1, false);
            if let Some(m) = left {
                moves.push(m);
            }
            let right = self.maybe_move(who, pos, dy, 1, false);
            if let Some(m) = right {
                moves.push(m);
            }
            assert(moves@ =~= before + (opt_seq(left) + opt_seq(right)));
        } else {
            assert(moves@ =~= before + Seq::<Move>::empty());
        }
    }

    /// All legal moves of color `who`: for each of its pieces, row by row and then
    /// column by column, the move along the left diagonal, then along the right one.
    pub fn valid_moves(&self, who: Piece) -> (r: Vec<Move>)
        ensures
            r@ == self@.moves(who),
            forall|m: Move| #[trigger] r@.contains(m) ==> self@.is_move_of(who, m),
    {
        proof {
            use_type_invariant(self);
            lemma_moves_shape(self@, who, BOARD_SIZE as int);
        }
        let dy: isize = if who == self.player {
            -1
        } else {
            1
        };
        let mut moves: Vec<Move> = Vec::new();
        let mut y: usize = 0;
        while y < BOARD_SIZE
            invariant
                y <= BOARD_SIZE,
                dy == self@.direction(who),
                moves@ == self@.moves_upto_row(who, y as int),
            decreases BOARD_SIZE - y,
        {
            let mut x: usize = 0;
            while x < BOARD_SIZE
                invariant
                    y < BOARD_SIZE,
                    x <= BOARD_SIZE,
                    dy == self@.direction(who),
                    moves@ == self@.moves_upto_row(who, y as int) + self@.moves_in_row(
                        who,
                        y as int,
                        x as int,
                    ),
                decreases BOARD_SIZE - x,
            {
                let ghost before = moves@;
                self.push_moves_from(who, (y, x), dy, &mut moves);
                assert(self@.moves_in_row(who, y as int, x + 1) == self@.moves_in_row(
                    who,
                    y as int,
                    x as int,
                ) + self@.moves_from(who, y as int, x as int));
                assert(moves@ =~= self@.moves_upto_row(who, y as int) + self@.moves_in_row(
                    who,
                    y as int,
                    x + 1,
                ));
                x = x + 1;
            }
            assert(moves@ =~= self@.moves_upto_row(who, y + 1));
            y = y + 1;
        }
        moves
    }

    /// The state after a move of the side to move, as `valid_moves` lists them: a
    /// jumped piece is removed, the piece goes to its target, the other side moves next.
    pub fn apply_move(&self, m: Move) -> (r: Self)
        requires
            self@.moves(self@.to_move()).contains(m),
        ensures
            r@ == self@.after(m),
    {
        proof {
            use_type_invariant(self);
            lemma_moves_shape(self@, self@.to_move(), BOARD_SIZE as int);
        }
        let ghost v = self@;
        let mut board = self.board;
        let fy = m.from.0;
        let fx = m.from.1;
        let ty = (fy as isize + m.d.0) as usize;
        let tx = (fx as isize + m.d.1) as usize;
        if m.d.0 > 1 || m.d.0 < -1 {
            let my = (fy + ty) / 2;
            let mx = (fx + tx) / 2;
            board[my * 8 + mx] = None;
        }
        let piece = board[fy * 8 + fx];
        board[ty * 8 + tx] = piece;
        board[fy * 8 + fx] = None;
        proof {
            lemma_after_well_placed(v, v.to_move(), m);
        }
        assert(board@ =~= v.after(m).cells);
        let r = Checkers { board, player: self.player, turn: self.turn.opposite() };
        r
    }

    /// Numbers of black and of white pieces on the board.
    fn piece_counts(&self) -> (r: (usize, usize))
        ensures
            r.0 == self@.count(Piece::Black),
            r.1 == self@.count(Piece::White),
    {
        let mut black: usize = 0;
        let mut white: usize = 0;
        let mut k: usize = 0;
        while k < CELL_COUNT
            invariant
                k <= CELL_COUNT,
                self@.cells.len() == CELL_COUNT,
                black == count_of(self@.cells.take(k as int), Piece::Black),
                white == count_of(self@.cells.take(k as int), Piece::White),
                black <= k,
                white <= k,
            decreases CELL_COUNT - k,
        {
            assert(self@.cells.take(k + 1).drop_last() =~= self@.cells.take(k as int));
            match self.board[k] {
                Some(Piece::Black) => black = black + 1,
                Some(Piece::White) => white = white + 1,
                None => {},
            }
            k = k + 1;
        }
        assert(self@.cells.take(CELL_COUNT as int) =~= self@.cells);
        (black, white)
    }

    /// Whether some cell of row `y` holds a piece of color `p`.
    fn row_has(&self, y: usize, p: Piece) -> (r: bool)
        requires
            y < BOARD_SIZE,
        ensures
            r == exists|x: int| 0 <= x < BOARD_SIZE && #[trigger] self@.cell(y as int, x) == Some(p),
    {
        let mut x: usize = 0;
        while x < BOARD_SIZE
            invariant
                y < BOARD_SIZE,
                x <= BOARD_SIZE,
                forall|xx: int| 0 <= xx < x ==> #[trigger] self@.cell(y as int, xx) != Some(p),
            decreases BOARD_SIZE - x,
        {
            if self.board[y * 8 + x] == Some(p) {
                assert(self@.cell(y as int, x as int) == Some(p));
                return true;
            }
            x = x + 1;
        }
        false
    }

    /// Outcome of the game: a side whose opponent has no pieces left wins; then a
    /// human's piece on row 0 wins for the human, and a computer's piece on the last
    /// row for the computer; then, if the side to move has no move, it is a draw.
    pub fn get_winner(&self) -> (r: Winner)
        ensures
            r == self@.winner(),
    {
        proof {
            use_type_invariant(self);
        }
        let black_won = if self.player == Piece::Black {
            Turn::Player
        } else {
            Turn::Ai
        };
        let (black_count, white_count) = self.piece_counts();
        if black_count == 0 {
            return Winner::Won(black_won.opposite());
        }
        if white_count == 0 {
            return Winner::Won(black_won);
        }
        if self.row_has(0, self.player) {
            return Winner::Won(Turn::Player);
        }
        if self.row_has(BOARD_SIZE - 1, self.player.opposite()) {
            return Winner::Won(Turn::Ai);
        }
        if self.valid_moves(self.piece_for_turn()).len() == 0 {
            Winner::Draw
        } else {
            Winner::InProgress
        }
    }

    /// The rows of the board with their indices, from row 0.
    pub fn iter_rows(&self) -> (r: Vec<(usize, [Option<Piece>; BOARD_SIZE])>)
        ensures
            r@.len() == BOARD_SIZE,
            forall|y: int| 0 <= y < BOARD_SIZE ==> (#[trigger] r@[y]).0 == y,
            forall|y: int, x: int|
                on_board(y, x) ==> (#[trigger] r@[y].1@[x]) == self@.cell(y, x),
    {
        let mut rows: Vec<(usize, [Option<Piece>; BOARD_SIZE])> = Vec::new();
        let mut y: usize = 0;
        while y < BOARD_SIZE
            invariant
                y <= BOARD_SIZE,
                rows@.len() == y,
                forall|yy: int| 0 <= yy < y ==> (#[trigger] rows@[yy]).0 == yy,
                forall|yy: int, x: int|
                    0 <= yy < y && 0 <= x < BOARD_SIZE ==> (#[trigger] rows@[yy].1@[x])
                        == self@.cell(yy, x),
            decreases BOARD_SIZE - y,
        {
            let mut row: [Option<Piece>; BOARD_SIZE] = [None; BOARD_SIZE];
            let mut x: usize = 0;
            while x < BOARD_SIZE
                invariant
                    y < BOARD_SIZE,
                    x <= BOARD_SIZE,
                    forall|xx: int| 0 <= xx < x ==> #[trigger] row@[xx] == self@.cell(y as int, xx),
                decreases BOARD_SIZE - x,
            {
                row[x] = self.board[y * 8 + x];
                x = x + 1;
            }
            rows.push((y, row));
            y = y + 1;
        }
        rows
    }

    /// Every cell of the board with its row and column, row by row.
    pub fn iter_board(&self) -> (r: Vec<(usize, usize, Option<Piece>)>)
        ensures
            r@.len() == CELL_COUNT,
            forall|y: int, x: int|
                on_board(y, x) ==> #[trigger] r@[index_of(y, x)] == (
                    y as usize,
                    x as usize,
                    self@.cell(y, x),
                ),
    {
        let mut cells: Vec<(usize, usize, Option<Piece>)> = Vec::new();
        let mut y: usize = 0;
        while y < BOARD_SIZE
            invariant
                y <= BOARD_SIZE,
                cells@.len() == y * 8,
                forall|yy: int, xx: int|
                    0 <= yy < y && 0 <= xx < BOARD_SIZE ==> #[trigger] cells@[index_of(yy, xx)] == (
                        yy as usize,
                        xx as usize,
                        self@.cell(yy, xx),
                    ),
            decreases BOARD_SIZE - y,
        {
            let mut x: usize = 0;
            while x < BOARD_SIZE
                invariant
                    y < BOARD_SIZE,
                    x <= BOARD_SIZE,
                    cells@.len() == y * 8 + x,
                    forall|yy: int, xx: int|
                        0 <= yy < y && 0 <= xx < BOARD_SIZE ==> #[trigger] cells@[index_of(yy, xx)]
                            == (yy as usize, xx as usize, self@.cell(yy, xx)),
                    forall|xx: int|
                        0 <= xx < x ==> #[trigger] cells@[index_of(y as int, xx)] == (
                            y,
                            xx as usize,
                            self@.cell(y as int, xx),
                        ),
                decreases BOARD_SIZE - x,
            {
                cells.push((y, x, self.board[y * 8 + x]));
                x = x + 1;
            }
            y = y + 1;
        }
        cells
    }

    /// Every piece on the board with its row and column, row by row, then column by
    /// column.
    pub fn iter_pieces(&self) -> (r: Vec<(usize, usize, Piece)>)
        ensures
            r@ == self@.pieces(),
    {
        let mut pieces: Vec<(usize, usize, Piece)> = Vec::new();
        let mut y: usize = 0;
        while y < BOARD_SIZE
            invariant
                y <= BOARD_SIZE,
                pieces@ == self@.pieces_upto_row(y as int),
            decreases BOARD_SIZE - y,
        {
            let mut x: usize = 0;
            while x < BOARD_SIZE
                invariant
                    y < BOARD_SIZE,
                    x <= BOARD_SIZE,
                    pieces@ == self@.pieces_upto_row(y as int) + self@.pieces_in_row(
                        y as int,
                        x as int,
                    ),
                decreases BOARD_SIZE - x,
            {
                let ghost before = pieces@;
                if let Some(p) = self.board[y * 8 + x] {
                    pieces.push((y, x, p));
                }
                assert(pieces@ =~= before + self@.piece_entry(y as int, x as int));
                x = x + 1;
            }
            assert(pieces@ =~= self@.pieces_upto_row(y + 1));
            y = y + 1;
        }
        pieces
    }

    /// Color of the side to move next.
    pub fn piece_for_turn(&self) -> (r: Piece)
        ensures
            r == self@.to_move(),
    {
        match self.turn {
            Turn::Player => self.player,
            Turn::Ai => self.player.opposite(),
        }
    }
}

} // verus!
