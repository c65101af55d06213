use warcaby::game::CELL_COUNT;
use warcaby::{Checkers, Move, Piece, Turn, Winner, BOARD_SIZE};

fn empty_board() -> [[Option<Piece>; BOARD_SIZE]; BOARD_SIZE] {
    [[None; BOARD_SIZE]; BOARD_SIZE]
}

fn mv(y: usize, x: usize, dy: isize, dx: isize) -> Move {
    Move { from: (y, x), d: (dy, dx) }
}

fn count(game: &Checkers, p: Piece) -> usize {
    game.iter_pieces().iter().filter(|e| e.2 == p).count()
}

#[test]
fn opposite_swaps_colors_and_sides() {
    assert_eq!(Piece::Black.opposite(), Piece::White);
    assert_eq!(Piece::White.opposite(), Piece::Black);
    assert_eq!(Turn::Player.opposite(), Turn::Ai);
    assert_eq!(Turn::Ai.opposite(), Turn::Player);
}

#[test]
fn new_game_layout_for_white() {
    let game = Checkers::new(Piece::White);
    assert_eq!(game.player(), Piece::White);
    assert_eq!(game.turn(), Turn::Player);
    assert_eq!(game.piece_for_turn(), Piece::White);
    for y in 0..BOARD_SIZE {
        for x in 0..BOARD_SIZE {
            let dark = (y % 2 == 0) == (x % 2 == 1);
            let expected = if y == 3 || y == 4 || !dark {
                None
            } else if y < 3 {
                Some(Piece::Black)
            } else {
                Some(Piece::White)
            };
            assert_eq!(game.cell((y, x)), expected, "cell {y},{x}");
        }
    }
    assert_eq!(count(&game, Piece::White), 12);
    assert_eq!(count(&game, Piece::Black), 12);
}

#[test]
fn new_game_for_black_starts_with_computer() {
    let game = Checkers::new(Piece::Black);
    assert_eq!(game.turn(), Turn::Ai);
    assert_eq!(game.piece_for_turn(), Piece::White);
    assert_eq!(game.cell((0, 1)), Some(Piece::White));
    assert_eq!(game.cell((7, 0)), Some(Piece::Black));
    assert_eq!(game.cell((3, 0)), None);
}

#[test]
fn initial_moves_of_the_human_side() {
    let game = Checkers::new(Piece::White);
    let moves = game.valid_moves(Piece::White);
    let expected = vec![
        mv(5, 0, -1, 1),
        mv(5, 2, -1, -1),
        mv(5, 2, -1, 1),
        mv(5, 4, -1, -1),
        mv(5, 4, -1, 1),
        mv(5, 6, -1, -1),
        mv(5, 6, -1, 1),
    ];
    assert_eq!(moves, expected);
    assert!(moves.iter().all(|m| m.d.0.abs() == 1));
}

#[test]
fn initial_moves_of_the_computer_side() {
    let game = Checkers::new(Piece::White);
    let moves = game.valid_moves(Piece::Black);
    let expected = vec![
        mv(2, 1, 1, -1),
        mv(2, 1, 1, 1),
        mv(2, 3, 1, -1),
        mv(2, 3, 1, 1),
        mv(2, 5, 1, -1),
        mv(2, 5, 1, 1),
        mv(2, 7, 1, -1),
    ];
    assert_eq!(moves, expected);
    let black_side = Checkers::new(Piece::Black);
    assert_eq!(black_side.valid_moves(Piece::White).len(), 7);
    assert_eq!(black_side.valid_moves(Piece::Black).len(), 7);
}

#[test]
fn simple_move_is_applied() {
    let game = Checkers::new(Piece::White);
    let m = mv(5, 2, -1, 1);
    assert!(game.is_valid_move(m));
    let next = game.apply_move(m);
    assert_eq!(next.cell((5, 2)), None);
    assert_eq!(next.cell((4, 3)), Some(Piece::White));
    assert_eq!(next.turn(), Turn::Ai);
    assert_eq!(next.player(), Piece::White);
    assert_eq!(count(&next, Piece::White), 12);
    assert_eq!(count(&next, Piece::Black), 12);
    // the state it was applied to is left as it was
    assert_eq!(game.cell((5, 2)), Some(Piece::White));
    assert_eq!(game.turn(), Turn::Player);
}

#[test]
fn jump_over_an_opposing_piece() {
    let mut b = empty_board();
    b[5][2] = Some(Piece::White);
    b[4][3] = Some(Piece::Black);
    b[1][0] = Some(Piece::Black);
    let game = Checkers::with_board(b, Piece::White, Turn::Player).unwrap();
    let moves = game.valid_moves(Piece::White);
    assert_eq!(moves, vec![mv(5, 2, -1, -1), mv(5, 2, -2, 2)]);
    let next = game.apply_move(mv(5, 2, -2, 2));
    assert_eq!(next.cell((5, 2)), None);
    assert_eq!(next.cell((4, 3)), None);
    assert_eq!(next.cell((3, 4)), Some(Piece::White));
    assert_eq!(count(&next, Piece::Black), 1);
    assert_eq!(next.turn(), Turn::Ai);
}

#[test]
fn no_chained_or_blocked_jump() {
    let mut b = empty_board();
    b[5][2] = Some(Piece::White);
    b[4][3] = Some(Piece::Black);
    b[3][4] = Some(Piece::Black);
    b[4][1] = Some(Piece::White);
    let game = Checkers::with_board(b, Piece::White, Turn::Player).unwrap();
    let from_52: Vec<Move> = game
        .valid_moves(Piece::White)
        .into_iter()
        .filter(|m| m.from == (5, 2))
        .collect();
    assert!(from_52.is_empty());
}

#[test]
fn jump_off_the_board_is_not_a_move() {
    let mut b = empty_board();
    b[6][1] = Some(Piece::White);
    b[7][0] = Some(Piece::Black);
    b[7][2] = Some(Piece::Black);
    let game = Checkers::with_board(b, Piece::Black, Turn::Ai).unwrap();
    // the computer plays White here and moves toward the last row
    assert!(game.valid_moves(Piece::White).is_empty());
}

#[test]
fn light_squares_are_refused() {
    let mut b = empty_board();
    b[0][0] = Some(Piece::White);
    assert!(Checkers::with_board(b, Piece::White, Turn::Player).is_none());
    let mut b = empty_board();
    b[0][1] = Some(Piece::White);
    assert!(Checkers::with_board(b, Piece::White, Turn::Player).is_some());
}

#[test]
fn elimination_wins_for_the_side_playing_white() {
    let mut b = empty_board();
    b[4][1] = Some(Piece::White);
    b[6][5] = Some(Piece::White);
    let human_white = Checkers::with_board(b, Piece::White, Turn::Ai).unwrap();
    assert!(human_white.get_winner() == Winner::Won(Turn::Player));
    let human_black = Checkers::with_board(b, Piece::Black, Turn::Player).unwrap();
    assert!(human_black.get_winner() == Winner::Won(Turn::Ai));
}

#[test]
fn elimination_wins_for_the_side_playing_black() {
    let mut b = empty_board();
    b[2][3] = Some(Piece::Black);
    let human_black = Checkers::with_board(b, Piece::Black, Turn::Player).unwrap();
    assert!(human_black.get_winner() == Winner::Won(Turn::Player));
}

#[test]
fn human_reaching_row_zero_wins() {
    let mut b = empty_board();
    b[0][3] = Some(Piece::White);
    b[2][1] = Some(Piece::Black);
    let game = Checkers::with_board(b, Piece::White, Turn::Ai).unwrap();
    assert!(game.get_winner() == Winner::Won(Turn::Player));
}

#[test]
fn computer_reaching_last_row_wins() {
    let mut b = empty_board();
    b[7][2] = Some(Piece::Black);
    b[5][4] = Some(Piece::White);
    let game = Checkers::with_board(b, Piece::White, Turn::Player).unwrap();
    assert!(game.get_winner() == Winner::Won(Turn::Ai));
}

#[test]
fn blocked_side_to_move_is_a_draw() {
    let mut b = empty_board();
    b[5][0] = Some(Piece::White);
    b[4][1] = Some(Piece::Black);
    b[3][2] = Some(Piece::Black);
    let game = Checkers::with_board(b, Piece::White, Turn::Player).unwrap();
    assert!(game.valid_moves(Piece::White).is_empty());
    assert!(game.get_winner() == Winner::Draw);
}

#[test]
fn side_blocked_by_own_pieces_on_its_far_edge_has_won() {
    // Each forward target of the side to move is off the board or its own piece:
    // this needs a piece on its far edge, which wins before any draw is considered.
    let mut b = empty_board();
    b[0][1] = Some(Piece::White);
    b[1][0] = Some(Piece::White);
    b[5][2] = Some(Piece::Black);
    let game = Checkers::with_board(b, Piece::White, Turn::Player).unwrap();
    assert!(game.valid_moves(Piece::White).is_empty());
    assert!(game.get_winner() == Winner::Won(Turn::Player));
}

#[test]
fn new_game_is_in_progress() {
    assert!(Checkers::new(Piece::White).get_winner() == Winner::InProgress);
    assert!(Checkers::new(Piece::Black).get_winner() == Winner::InProgress);
}

#[test]
fn piece_count_never_grows_over_a_game() {
    let mut game = Checkers::new(Piece::White);
    let mut total = game.iter_pieces().len();
    assert_eq!(total, 24);
    for _ in 0..40 {
        if game.get_winner() != Winner::InProgress {
            break;
        }
        let moves = game.valid_moves(game.piece_for_turn());
        let m = *moves.iter().find(|m| m.d.0.abs() == 2).unwrap_or(&moves[0]);
        game = game.apply_move(m);
        let now = game.iter_pieces().len();
        assert!(now <= total);
        assert!(now <= 24);
        total = now;
    }
}

#[test]
fn moves_land_on_empty_cells() {
    let game = Checkers::new(Piece::Black);
    let game = game.apply_move(game.valid_moves(game.piece_for_turn())[3]);
    for m in game.valid_moves(game.piece_for_turn()) {
        let to = (
            (m.from.0 as isize + m.d.0) as usize,
            (m.from.1 as isize + m.d.1) as usize,
        );
        assert_eq!(game.cell(to), None);
        let next = game.apply_move(m);
        assert_eq!(next.cell(to), Some(game.piece_for_turn()));
        assert_eq!(next.cell(m.from), None);
    }
}

#[test]
fn board_listings() {
    let game = Checkers::new(Piece::White);
    let rows = game.iter_rows();
    assert_eq!(rows.len(), BOARD_SIZE);
    assert_eq!(rows[2].0, 2);
    assert_eq!(rows[2].1[1], Some(Piece::Black));
    assert_eq!(rows[2].1[0], None);
    let cells = game.iter_board();
    assert_eq!(cells.len(), CELL_COUNT);
    assert_eq!(cells[8 * 5 + 2], (5, 2, Some(Piece::White)));
    assert_eq!(cells[8 * 4 + 3], (4, 3, None));
    let pieces = game.iter_pieces();
    assert_eq!(pieces.len(), 24);
    assert_eq!(pieces[0], (0, 1, Piece::Black));
    assert_eq!(pieces[23], (7, 6, Piece::White));
}
