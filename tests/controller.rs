use carlettos_chess::chess_controller::CChess;
use carlettos_chess::{Action, Pos, Time};

#[test]
fn click_selects_then_moves() {
    let mut game = CChess::default_chessboard();
    assert!(!game.click(Pos::new(20, 20)));
    assert!(game.click(Pos::new(1, 1)));
    assert_eq!(game.selected, Some(Pos::new(1, 1)));
    assert!(game.has_move(&Pos::new(1, 2)));
    assert!(game.has_move(&Pos::new(1, 3)));
    assert!(!game.has_move(&Pos::new(1, 4)));
    assert!(!game.has_take(&Pos::new(2, 2)));
    assert_eq!(
        game.actions_at(&Pos::new(1, 3)),
        vec![Action::Move { from: Pos::new(1, 1), to: Pos::new(1, 3) }]
    );
    assert!(game.actions_at(&Pos::new(5, 5)).is_empty());

    assert!(game.click(Pos::new(1, 3)));
    assert_eq!(game.selected, None);
    assert!(game.board.get(&Pos::new(1, 3)).unwrap().has_pawn());
    assert!(game.board.get(&Pos::new(1, 1)).unwrap().is_empty());
    assert_eq!(game.board.time, Time::new(0, 1, 0));
}

#[test]
fn click_elsewhere_clears_the_selection() {
    let mut game = CChess::default_chessboard();
    assert!(game.click(Pos::new(1, 0)));
    assert!(game.has_move(&Pos::new(2, 2)));
    assert!(game.click(Pos::new(5, 5)));
    assert_eq!(game.selected, None);
    assert!(!game.has_move(&Pos::new(2, 2)));
    assert_eq!(game.board.time, Time::new(0, 0, 0));
}

#[test]
fn display_board_shows_every_kind() {
    let game = CChess::default_display();
    assert_eq!(game.height(), 2);
    assert_eq!(game.row_iter(0).len(), 30);
    assert!(game.board.get(&Pos::new(21, 1)).unwrap().has_piece());
    assert!(game.board.get(&Pos::new(22, 1)).unwrap().is_empty());
}
