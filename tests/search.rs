use warcaby::ai::{OPPONENT_WEIGHT, OWN_WEIGHT};
use warcaby::{CheckerEval, Checkers, CheckersRules, Move, Piece, SearchOutcome, Turn, BOARD_SIZE};

fn empty_board() -> [[Option<Piece>; BOARD_SIZE]; BOARD_SIZE] {
    [[None; BOARD_SIZE]; BOARD_SIZE]
}

#[test]
fn weights_are_two_and_minus_three() {
    assert_eq!(OWN_WEIGHT, 2);
    assert_eq!(OPPONENT_WEIGHT, -3);
}

#[test]
fn generate_moves_appends_the_moves_of_the_side_to_move() {
    let game = Checkers::new(Piece::Black);
    let marker = Move { from: (9, 9), d: (0, 0) };
    let mut moves = vec![marker];
    CheckersRules::generate_moves(&game, &mut moves);
    assert_eq!(moves.len(), 8);
    assert_eq!(moves[0], marker);
    assert_eq!(moves[1..].to_vec(), game.valid_moves(Piece::White));
}

#[test]
fn apply_leaves_the_state_and_returns_the_successor() {
    let mut game = Checkers::new(Piece::White);
    let m = Move { from: (5, 0), d: (-1, 1) };
    let next = CheckersRules::apply(&mut game, m).unwrap();
    assert_eq!(game.cell((5, 0)), Some(Piece::White));
    assert_eq!(game.turn(), Turn::Player);
    assert_eq!(next.cell((4, 1)), Some(Piece::White));
    assert_eq!(next.cell((5, 0)), None);
    assert_eq!(next.turn(), Turn::Ai);
}

#[test]
fn terminal_values() {
    assert_eq!(CheckersRules::get_winner(&Checkers::new(Piece::White)), None);

    let mut b = empty_board();
    b[5][0] = Some(Piece::White);
    b[4][1] = Some(Piece::Black);
    b[3][2] = Some(Piece::Black);
    let draw = Checkers::with_board(b, Piece::White, Turn::Player).unwrap();
    assert_eq!(CheckersRules::get_winner(&draw), Some(SearchOutcome::Draw));

    let mut b = empty_board();
    b[3][2] = Some(Piece::Black);
    let won = Checkers::with_board(b, Piece::White, Turn::Player).unwrap();
    assert_eq!(CheckersRules::get_winner(&won), Some(SearchOutcome::PlayerJustMoved));
}

#[test]
fn evaluation_of_the_starting_position() {
    // own pieces: 4 * (0 + 1 + 2) rows travelled, times 2; the opponent's the same, times -3
    assert_eq!(CheckerEval.evaluate(&Checkers::new(Piece::White)), -12);
    assert_eq!(CheckerEval.evaluate(&Checkers::new(Piece::Black)), -12);
}

#[test]
fn evaluation_after_a_move() {
    let game = Checkers::new(Piece::White).apply_move(Move { from: (5, 2), d: (-1, 1) });
    // Black to move: 12 * 2; White has travelled 13 rows: 13 * -3
    assert_eq!(CheckerEval.evaluate(&game), -15);
}

#[test]
fn evaluation_of_single_pieces() {
    let mut b = empty_board();
    b[0][1] = Some(Piece::Black);
    b[7][0] = Some(Piece::White);
    // human White at home, computer Black at home: both have travelled 0 rows
    let home = Checkers::with_board(b, Piece::White, Turn::Player).unwrap();
    assert_eq!(CheckerEval.evaluate(&home), 0);

    let mut b = empty_board();
    b[6][1] = Some(Piece::Black);
    b[1][0] = Some(Piece::White);
    let far = Checkers::with_board(b, Piece::White, Turn::Player).unwrap();
    // White (to move) has travelled 6 rows, Black 6 rows: 6 * 2 - 6 * 3
    assert_eq!(CheckerEval.evaluate(&far), -6);
}

#[test]
fn adapter_is_deterministic() {
    let a = Checkers::new(Piece::Black);
    let b = Checkers::new(Piece::Black);
    let mut ma = Vec::new();
    let mut mb = Vec::new();
    CheckersRules::generate_moves(&a, &mut ma);
    CheckersRules::generate_moves(&b, &mut mb);
    assert_eq!(ma, mb);
    for m in ma {
        let sa = a.apply_move(m);
        let sb = b.apply_move(m);
        assert_eq!(CheckerEval.evaluate(&sa), CheckerEval.evaluate(&sb));
        assert_eq!(CheckersRules::get_winner(&sa), CheckersRules::get_winner(&sb));
        assert_eq!(sa.iter_pieces(), sb.iter_pieces());
    }
}
