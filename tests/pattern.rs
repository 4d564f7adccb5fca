use carlettos_chess::board::Board;
use carlettos_chess::pattern::{
    bishop, blockeable_cross, cross, king, knight, pawn_move, queen, rook, square, structure_move,
};
use carlettos_chess::piece::Piece;
use carlettos_chess::{Action, Color, Pos};

fn check_pawn_move(color: Color) {
    let sign = match color {
        Color::Black => -1,
        Color::White => 1,
    };

    for (x, y) in (0..8).flat_map(|x| (0..8).map(move |y| (x, y))) {
        let mut board = Board::default();
        let pawn_pos = Pos::new(x, y);
        let pos1 = pawn_pos.shift(0, sign);
        let pos2 = pawn_pos.shift(0, sign * 2);
        board.get_mut(&pawn_pos).unwrap().replace(Piece::pawn(color));
        for to in board.shape().points_iter() {
            let action = Action::Move { from: pawn_pos, to };
            assert_eq!(
                board.get(&pawn_pos).unwrap().piece.can_do(&board, action),
                Some(to) == pos1 || Some(to) == pos2
            );
        }
    }
}

fn check_pawn_take(color: Color) {
    let sign = match color {
        Color::Black => -1,
        Color::White => 1,
    };

    for (x, y) in (0..8).flat_map(|x| (0..8).map(move |y| (x, y))) {
        let mut board = Board::default();
        let pawn_pos = Pos::new(x, y);
        let pos1 = pawn_pos.shift(-1, sign);
        let pos2 = pawn_pos.shift(1, sign);
        board.get_mut(&pawn_pos).unwrap().replace(Piece::pawn(color));
        for to in board.shape().points_iter() {
            let action = Action::Take { from: pawn_pos, to };
            assert_eq!(
                board.get(&pawn_pos).unwrap().piece.can_do(&board, action),
                Some(to) == pos1 || Some(to) == pos2
            );
        }
    }
}

#[test]
fn pawn_move_white() {
    check_pawn_move(Color::White);
}

#[test]
fn pawn_move_black() {
    check_pawn_move(Color::Black);
}

#[test]
fn pawn_take_white() {
    check_pawn_take(Color::White);
}

#[test]
fn pawn_take_black() {
    check_pawn_take(Color::Black);
}

#[test]
fn test_pawn_move() {
    let board = Board::default();
    let color = Color::White;
    let from = Pos::new(1, 1);
    let to1 = Pos::new(1, 2);
    let to2 = Pos::new(1, 3);
    let to3 = Pos::new(2, 2);

    assert!(pawn_move(&board, &color, &from, &to1));
    assert!(pawn_move(&board, &color, &from, &to2));
    assert!(!pawn_move(&board, &color, &from, &to3));
}

#[test]
fn test_pawn_take() {
    let board = Board::default();
    let color = Color::White;
    let from = Pos::new(1, 1);
    let to1 = Pos::new(0, 2);
    let to2 = Pos::new(2, 2);
    let to3 = Pos::new(1, 3);

    assert!(!pawn_move(&board, &color, &from, &to1));
    assert!(!pawn_move(&board, &color, &from, &to2));
    assert!(pawn_move(&board, &color, &from, &to3));
}

#[test]
fn test_king() {
    let from = Pos::new(1, 1);
    let to1 = Pos::new(2, 2);
    let to2 = Pos::new(1, 2);
    let to3 = Pos::new(3, 3);

    assert!(king(&from, &to1));
    assert!(king(&from, &to2));
    assert!(!king(&from, &to3));
}

#[test]
fn test_bishop() {
    let board = Board::default();
    let from = Pos::new(1, 1);
    let to1 = Pos::new(2, 2);
    let to2 = Pos::new(3, 3);
    let to3 = Pos::new(2, 3);

    assert!(bishop(&board, &from, &to1));
    assert!(bishop(&board, &from, &to2));
    assert!(!bishop(&board, &from, &to3));
}

#[test]
fn test_knight() {
    let from = Pos::new(1, 1);
    let to1 = Pos::new(3, 2);
    let to2 = Pos::new(2, 3);
    let to3 = Pos::new(2, 2);

    assert!(knight(&from, &to1));
    assert!(knight(&from, &to2));
    assert!(!knight(&from, &to3));
}

#[test]
fn rook_test() {
    let board = Board::default();
    let from = Pos::new(1, 1);
    let to1 = Pos::new(1, 2);
    let to2 = Pos::new(1, 3);
    let to3 = Pos::new(2, 2);

    assert!(rook(&board, &from, &to1));
    assert!(rook(&board, &from, &to2));
    assert!(!rook(&board, &from, &to3));
}

#[test]
fn queen_test() {
    let board = Board::default();
    let from = Pos::new(1, 1);
    let to1 = Pos::new(1, 2);
    let to2 = Pos::new(1, 3);
    let to3 = Pos::new(2, 2);
    let to4 = Pos::new(2, 3);

    assert!(queen(&board, &from, &to1));
    assert!(queen(&board, &from, &to2));
    assert!(queen(&board, &from, &to3));
    assert!(!queen(&board, &from, &to4));
}

#[test]
fn rook_is_blocked_by_a_piece() {
    let mut board = Board::default();
    board.get_mut(&Pos::new(1, 3)).unwrap().replace(Piece::pawn(Color::Black));
    let from = Pos::new(1, 1);
    assert!(rook(&board, &from, &Pos::new(1, 2)));
    assert!(rook(&board, &from, &Pos::new(1, 3)));
    assert!(!rook(&board, &from, &Pos::new(1, 4)));
}

#[test]
fn square_and_cross_ranges() {
    let from = Pos::new(4, 4);
    assert!(square(&from, &Pos::new(7, 1), 3));
    assert!(!square(&from, &Pos::new(8, 4), 3));
    assert!(cross(&from, &Pos::new(4, 1), 3));
    assert!(!cross(&from, &Pos::new(5, 5), 3));
    assert!(!cross(&from, &Pos::new(0, 4), 3));
    assert!(structure_move(&from, &Pos::new(4, 5)));
    assert!(!structure_move(&from, &Pos::new(5, 5)));
}

#[test]
fn attack_ranges_are_fixed() {
    let mut board = Board::with_shape(carlettos_chess::board::shape::Shape::new(vec![
        carlettos_chess::board::shape::Square { anchor: Pos::new(0, 0), width: 16, height: 16 },
    ]));
    let from = Pos::new(0, 0);
    board.get_mut(&from).unwrap().replace(Piece::archer(Color::White));
    let archer = |b: &Board, to: Pos| b.get(&from).unwrap().piece.can_do(b, Action::Attack { from, to });
    assert!(archer(&board, Pos::new(4, 4)));
    assert!(!archer(&board, Pos::new(5, 0)));

    board.get_mut(&from).unwrap().replace(Piece::cannon(Color::White));
    assert!(archer(&board, Pos::new(3, 3)));
    assert!(!archer(&board, Pos::new(4, 0)));

    board.get_mut(&from).unwrap().replace(Piece::ballista(Color::White));
    assert!(archer(&board, Pos::new(0, 6)));
    assert!(!archer(&board, Pos::new(0, 7)));
    assert!(!archer(&board, Pos::new(1, 1)));
    // A clear straight ray does not extend the ballista's reach.
    assert!(!archer(&board, Pos::new(9, 0)));
}

#[test]
fn ballista_bolt_is_stopped_by_an_enemy_wall() {
    let mut board = Board::default();
    let from = Pos::new(0, 0);
    board.get_mut(&Pos::new(0, 2)).unwrap().replace(Piece::shield_bearer(Color::Black));
    // Strength 3 is stopped by the shield bearer's Impenetrable(5).
    assert!(blockeable_cross(&board, &from, &Pos::new(0, 2), &Color::White, 6, 3));
    assert!(!blockeable_cross(&board, &from, &Pos::new(0, 3), &Color::White, 6, 3));
    // A friendly shield bearer lets the bolt through.
    assert!(blockeable_cross(&board, &from, &Pos::new(0, 3), &Color::Black, 6, 3));
}
