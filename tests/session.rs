use warcaby::session::{side_for_choice, GameEnded, InGame, Key, Outcome, Step};
use warcaby::{Move, Piece, Turn};

#[test]
fn side_menu() {
    assert_eq!(side_for_choice(0), Some(Piece::White));
    assert_eq!(side_for_choice(1), Some(Piece::Black));
    assert_eq!(side_for_choice(2), None);
}

#[test]
fn end_screens() {
    assert_eq!(GameEnded::won().outcome, Outcome::Won);
    assert_eq!(GameEnded::lost().outcome, Outcome::Lost);
    assert_eq!(GameEnded::draw().outcome, Outcome::Draw);
    assert_eq!(GameEnded::won().message(), "Congratulations, you win! :D");
    assert_eq!(GameEnded::lost().message(), "Unfortunately, you lose :(");
    assert_eq!(GameEnded::draw().message(), "No more available moves, it's a draw");
}

#[test]
fn cursor_stays_on_the_board() {
    let mut g = InGame::new(Piece::White);
    assert_eq!(g.selected(), (0, 0));
    assert_eq!(g.handle_key(Key::Left), Step::Continue);
    assert_eq!(g.handle_key(Key::Up), Step::Continue);
    assert_eq!(g.selected(), (0, 0));
    for _ in 0..10 {
        g.handle_key(Key::Right);
        g.handle_key(Key::Down);
    }
    assert_eq!(g.selected(), (7, 7));
    g.handle_key(Key::Left);
    g.handle_key(Key::Up);
    assert_eq!(g.selected(), (6, 6));
    assert_eq!(g.handle_key(Key::Quit), Step::Quit);
}

fn go_to(g: &mut InGame, y: usize, x: usize) {
    while g.selected().0 < y {
        g.handle_key(Key::Down);
    }
    while g.selected().0 > y {
        g.handle_key(Key::Up);
    }
    while g.selected().1 < x {
        g.handle_key(Key::Right);
    }
    while g.selected().1 > x {
        g.handle_key(Key::Left);
    }
}

#[test]
fn pick_a_piece_and_move_it() {
    let mut g = InGame::new(Piece::White);
    go_to(&mut g, 5, 2);
    assert_eq!(g.handle_key(Key::Confirm), Step::Continue);
    assert_eq!(g.moving_piece(), Some((5, 2)));
    assert_eq!(g.valid_moves(), &vec![(4, 1), (4, 3)]);
    go_to(&mut g, 4, 3);
    assert_eq!(g.handle_key(Key::Confirm), Step::AiTurn);
    assert_eq!(g.moving_piece(), None);
    assert!(g.valid_moves().is_empty());
    assert_eq!(g.game().cell((4, 3)), Some(Piece::White));
    assert_eq!(g.game().turn(), Turn::Ai);
    let reply = Move { from: (2, 1), d: (1, -1) };
    assert!(g.game().is_valid_move(reply));
    assert_eq!(g.ai_turn(reply), Step::Continue);
    assert_eq!(g.game().cell((3, 0)), Some(Piece::Black));
    assert_eq!(g.game().turn(), Turn::Player);
}

#[test]
fn confirming_elsewhere_or_cancelling_drops_the_piece() {
    let mut g = InGame::new(Piece::White);
    go_to(&mut g, 5, 2);
    g.handle_key(Key::Confirm);
    assert_eq!(g.moving_piece(), Some((5, 2)));
    go_to(&mut g, 3, 3);
    assert_eq!(g.handle_key(Key::Confirm), Step::Continue);
    assert_eq!(g.moving_piece(), None);
    assert!(g.valid_moves().is_empty());
    go_to(&mut g, 5, 4);
    g.handle_key(Key::Confirm);
    assert_eq!(g.moving_piece(), Some((5, 4)));
    assert_eq!(g.handle_key(Key::Cancel), Step::Continue);
    assert_eq!(g.moving_piece(), None);
    assert_eq!(g.game().turn(), Turn::Player);
}

#[test]
fn confirming_on_an_opposing_piece_does_nothing() {
    let mut g = InGame::new(Piece::White);
    go_to(&mut g, 2, 1);
    assert_eq!(g.handle_key(Key::Confirm), Step::Continue);
    assert_eq!(g.moving_piece(), None);
}

#[test]
fn computer_opens_when_human_plays_black() {
    let mut g = InGame::new(Piece::Black);
    assert_eq!(g.game().turn(), Turn::Ai);
    let opening = Move { from: (2, 3), d: (1, 1) };
    assert!(g.game().is_valid_move(opening));
    assert_eq!(g.ai_turn(opening), Step::Continue);
    assert_eq!(g.game().turn(), Turn::Player);
    assert_eq!(g.game().cell((3, 4)), Some(Piece::White));
}
