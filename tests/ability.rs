use carlettos_chess::ability::{
    AbilityError, Bishop, Builder, Catapult, CrazyPawn, King, Knight, Magician, Paladin, Pawn, Portal, Queen, Ram,
    Rook, Ship, ShieldBearer, SuperPawn, TeslaTower, Warlock,
};
use carlettos_chess::board::shape::{Shape, Square};
use carlettos_chess::board::Board;
use carlettos_chess::card::Card;
use carlettos_chess::piece::{Effect, Piece, Type};
use carlettos_chess::{Action, Color, Direction, Info, PaladinAbilityType, Pos, SubDirection, Time};

fn put(board: &mut Board, x: usize, y: usize, piece: Piece) {
    board.get_mut(&Pos::new(x, y)).unwrap().replace(piece);
}

#[test]
fn test_use() {
    let mut board = Board::default();
    put(&mut board, 1, 1, Piece::rook(Color::White));
    put(&mut board, 1, 2, Piece::rook(Color::White));
    put(&mut board, 2, 1, Piece::rook(Color::White));

    assert_eq!(Rook::apply(&mut board, &Pos::new(1, 1), Info::Direction(Direction::N)), Ok(()));

    assert!(!board.get(&Pos::new(1, 1)).unwrap().has_rook());
    assert!(!board.get(&Pos::new(1, 2)).unwrap().has_rook());
    assert!(!board.get(&Pos::new(2, 1)).unwrap().has_rook());
    assert!(board.get(&Pos::new(1, 7)).unwrap().has_rook());
    assert!(board.get(&Pos::new(1, 6)).unwrap().has_rook());
    assert!(board.get(&Pos::new(2, 7)).unwrap().has_rook());
}

#[test]
fn rook_throw_in_a_column_keeps_order() {
    let mut board = Board::default();
    put(&mut board, 3, 1, Piece::rook(Color::White));
    put(&mut board, 3, 2, Piece::rook(Color::White));
    put(&mut board, 3, 3, Piece::rook(Color::White));
    put(&mut board, 3, 6, Piece::pawn(Color::Black));
    assert_eq!(Rook::apply(&mut board, &Pos::new(3, 1), Info::Direction(Direction::N)), Ok(()));
    assert!(board.get(&Pos::new(3, 5)).unwrap().has_rook());
    assert!(board.get(&Pos::new(3, 4)).unwrap().has_rook());
    assert!(board.get(&Pos::new(3, 3)).unwrap().has_rook());
    assert!(board.get(&Pos::new(3, 6)).unwrap().has_pawn());
    assert!(board.get(&Pos::new(3, 1)).unwrap().is_empty());
    assert_eq!(Rook::apply(&mut board, &Pos::new(3, 1), Info::Integer(2)), Err(AbilityError::WrongInfo));
}

#[test]
fn rook_throw_takes_only_rooks_of_its_color() {
    let mut board = Board::default();
    put(&mut board, 1, 1, Piece::rook(Color::White));
    put(&mut board, 2, 1, Piece::rook(Color::Black));
    put(&mut board, 1, 2, Piece::rook(Color::White));
    assert_eq!(Rook::apply(&mut board, &Pos::new(1, 1), Info::Direction(Direction::E)), Ok(()));
    assert!(board.get(&Pos::new(2, 1)).unwrap().has_rook());
    assert_eq!(board.get(&Pos::new(2, 1)).unwrap().get_color(), Some(&Color::Black));
    assert!(board.get(&Pos::new(7, 2)).unwrap().has_rook());
    assert!(board.get(&Pos::new(1, 1)).unwrap().has_rook());
    assert_eq!(Rook::apply(&mut board, &Pos::new(5, 5), Info::Direction(Direction::E)), Err(AbilityError::Illegal));
}

#[test]
fn knight_split() {
    let mut board = Board::default();
    put(&mut board, 3, 3, Piece::knight(Color::Black));
    let from = Pos::new(3, 3);
    assert!(Knight::can_use(&board, &from, &Info::Integer(0)));
    let action = Action::Ability { from, info: Info::Integer(0) };
    assert!(board.get(&from).unwrap().piece.can_do(&board, action));
    assert_eq!(Knight::apply(&mut board, &from, Info::Integer(0)), Ok(()));
    assert_eq!(board.get(&Pos::new(4, 3)).unwrap().get_color(), Some(&Color::Black));
    assert!(board.get(&Pos::new(4, 3)).unwrap().has_pawn());
    assert!(board.get(&Pos::new(2, 3)).unwrap().has_pawn());
    assert!(board.get(&from).unwrap().has_knight());
    assert!(!Knight::can_use(&board, &from, &Info::Integer(0)));

    put(&mut board, 0, 0, Piece::knight(Color::White));
    assert!(!Knight::can_use(&board, &Pos::new(0, 0), &Info::Integer(0)));
    assert_eq!(Knight::apply(&mut board, &Pos::new(0, 0), Info::Integer(0)), Err(AbilityError::Illegal));
}

#[test]
fn bishop_queen_and_king_steps() {
    let mut board = Board::default();
    put(&mut board, 2, 2, Piece::bishop(Color::White));
    assert!(Bishop::can_use(&board, &Pos::new(2, 2), &Info::Direction(Direction::E)));
    assert!(!Bishop::can_use(&board, &Pos::new(2, 2), &Info::Pos(Pos::new(2, 3))));
    assert_eq!(Bishop::apply(&mut board, &Pos::new(2, 2), Info::Direction(Direction::E)), Ok(()));
    assert!(board.get(&Pos::new(3, 2)).unwrap().has_bishop());

    put(&mut board, 0, 0, Piece::queen(Color::White));
    assert!(Queen::can_use(&board, &Pos::new(0, 0), &Info::Pos(Pos::new(1, 2))));
    assert!(!Queen::can_use(&board, &Pos::new(0, 0), &Info::Pos(Pos::new(1, 1))));
    assert_eq!(Queen::apply(&mut board, &Pos::new(0, 0), Info::Pos(Pos::new(1, 2))), Ok(()));
    assert!(board.get(&Pos::new(1, 2)).unwrap().has_queen());

    put(&mut board, 7, 7, Piece::king(Color::Black));
    assert!(King::can_use(&board, &Pos::new(7, 7), &Info::Pos(Pos::new(2, 2))));
    assert!(!King::can_use(&board, &Pos::new(7, 7), &Info::Pos(Pos::new(1, 1))));
    assert_eq!(King::apply(&mut board, &Pos::new(7, 7), Info::Direction(Direction::N)), Err(AbilityError::WrongInfo));
}

#[test]
fn catapult_throws_a_light_piece() {
    let mut board = Board::default();
    put(&mut board, 2, 0, Piece::catapult(Color::White));
    put(&mut board, 2, 1, Piece::pawn(Color::White));
    let info = || {
        Info::Trio(
            Box::new(Info::Direction(Direction::N)),
            Box::new(Info::SubDirection(SubDirection::N)),
            Box::new(Info::Integer(5)),
        )
    };
    assert!(Catapult::can_use(&board, &Pos::new(2, 0), &info()));
    assert_eq!(Catapult::apply(&mut board, &Pos::new(2, 0), info()), Ok(()));
    assert!(board.get(&Pos::new(2, 5)).unwrap().has_pawn());
    assert!(board.get(&Pos::new(2, 1)).unwrap().is_empty());
    assert!(!Catapult::can_use(&board, &Pos::new(2, 0), &info()));
    assert_eq!(Catapult::apply(&mut board, &Pos::new(2, 0), Info::Integer(1)), Err(AbilityError::WrongInfo));
}

#[test]
fn paladin_modes() {
    let mut board = Board::default();
    put(&mut board, 0, 0, Piece::paladin(Color::White));
    put(&mut board, 0, 1, Piece::pawn(Color::Black));
    put(&mut board, 1, 0, Piece::pawn(Color::White));
    let attack = Info::PaladinAbilityInfo(PaladinAbilityType::Attack(Pos::new(0, 1)));
    assert!(!Paladin::can_use(&board, &Pos::new(0, 0), &attack));
    board.cards.add(Card::AttackDemonic);
    board.cards.add(Card::Invulnerability);
    board.cards.add(Card::Revive);
    assert!(Paladin::can_use(&board, &Pos::new(0, 0), &attack));
    let off = Info::PaladinAbilityInfo(PaladinAbilityType::Attack(Pos::new(20, 20)));
    assert!(!Paladin::can_use(&board, &Pos::new(0, 0), &off));
    assert_eq!(Paladin::apply(&mut board, &Pos::new(0, 0), attack), Ok(()));
    assert!(board.get(&Pos::new(0, 1)).unwrap().is_empty());

    let protect = Info::PaladinAbilityInfo(PaladinAbilityType::Invulnerability(Pos::new(1, 0)));
    assert!(Paladin::can_use(&board, &Pos::new(0, 0), &protect));
    assert_eq!(Paladin::apply(&mut board, &Pos::new(0, 0), protect), Ok(()));
    assert!(board.get_data(&Pos::new(1, 0)).unwrap().has_effect(&Effect::Invulnerability(Time::rounds(5))));

    board.make(Action::Attack { from: Pos::new(0, 0), to: Pos::new(1, 0) }).unwrap();
    let revive = Info::PaladinAbilityInfo(PaladinAbilityType::Revive(Pos::new(5, 5)));
    assert!(Paladin::can_use(&board, &Pos::new(0, 0), &revive));
    assert_eq!(Paladin::apply(&mut board, &Pos::new(0, 0), revive), Ok(()));
    assert!(board.get(&Pos::new(5, 5)).unwrap().has_pawn());
    assert_eq!(board.get(&Pos::new(5, 5)).unwrap().get_color(), Some(&Color::White));
    assert!(matches!(board.get_last_dead(), Some(Piece::Pawn(_))));
}

#[test]
fn ship_broadside() {
    let mut board = Board::default();
    put(&mut board, 3, 3, Piece::ship(Color::White));
    put(&mut board, 4, 4, Piece::pawn(Color::Black));
    put(&mut board, 2, 3, Piece::pawn(Color::White));
    put(&mut board, 3, 4, Piece::pawn(Color::Black));
    assert_eq!(Ship::apply(&mut board, &Pos::new(3, 3), Info::Integer(0)), Ok(()));
    assert!(board.get(&Pos::new(4, 4)).unwrap().is_empty());
    assert!(board.get(&Pos::new(2, 3)).unwrap().is_empty());
    assert!(board.get(&Pos::new(3, 4)).unwrap().has_pawn());
    assert!(board.get(&Pos::new(3, 3)).unwrap().has_piece());
}

#[test]
fn magician_and_cards() {
    let mut board = Board::default();
    put(&mut board, 4, 4, Piece::magician(Color::White));
    put(&mut board, 0, 0, Piece::pawn(Color::Black));
    put(&mut board, 7, 7, Piece::pawn(Color::Black));
    assert!(!Magician::can_use(&board, &Pos::new(4, 4), &Info::Integer(0)));
    board.cards.add(Card::Ice);
    assert!(Magician::can_use(&board, &Pos::new(4, 4), &Info::Integer(0)));
    assert_eq!(Magician::apply(&mut board, &Pos::new(4, 4), Info::Integer(0)), Ok(()));
    assert!(board.get_data(&Pos::new(0, 0)).unwrap().has_effect(&Effect::ice()));
    assert!(board.get_data(&Pos::new(7, 7)).unwrap().has_effect(&Effect::ice()));
    assert!(!board.get_data(&Pos::new(4, 4)).unwrap().has_effect(&Effect::ice()));
    let frozen = Action::Move { from: Pos::new(0, 0), to: Pos::new(0, 1) };
    assert!(!board.get(&Pos::new(0, 0)).unwrap().piece.can_do(&board, frozen));
}

#[test]
fn warlock_opens_portals() {
    let mut board = Board::default();
    put(&mut board, 0, 1, Piece::warlock(Color::Black));
    assert!(!Warlock::can_use(&board, &Pos::new(0, 1), &Info::Integer(0)));
    board.get_mut(&Pos::new(0, 0)).unwrap().magic = true;
    board.get_mut(&Pos::new(0, 2)).unwrap().magic = true;
    assert!(Warlock::can_use(&board, &Pos::new(0, 1), &Info::Integer(0)));
    assert_eq!(Warlock::apply(&mut board, &Pos::new(0, 1), Info::Integer(0)), Ok(()));
    assert!(matches!(board.get(&Pos::new(0, 0)).unwrap().piece, Piece::Portal(_)));
    assert!(matches!(board.get(&Pos::new(0, 2)).unwrap().piece, Piece::Portal(_)));
    assert!(board.get(&Pos::new(1, 1)).unwrap().is_empty());
    assert_eq!(Portal::apply(&mut board, &Pos::new(0, 0), Info::Integer(0)), Err(AbilityError::NotImplemented));
}

#[test]
fn builder_and_shield_bearer_and_super_pawn() {
    let mut board = Board::default();
    put(&mut board, 3, 3, Piece::builder(Color::White));
    put(&mut board, 3, 4, Piece::pawn(Color::Black));
    board.get_mut(&Pos::new(2, 4)).unwrap().buildable = false;
    assert_eq!(Builder::apply(&mut board, &Pos::new(3, 3), Info::Direction(Direction::N)), Ok(()));
    assert!(board.get(&Pos::new(2, 4)).unwrap().is_empty());
    assert!(matches!(board.get(&Pos::new(4, 4)).unwrap().piece, Piece::Wall(_)));
    assert!(board.get(&Pos::new(3, 4)).unwrap().has_pawn());

    assert_eq!(ShieldBearer::apply(&mut board, &Pos::new(3, 3), Info::Integer(0)), Ok(()));
    assert!(board.get(&Pos::new(3, 4)).unwrap().piece.is_impenetrable(&1));
    assert!(board.get(&Pos::new(3, 3)).unwrap().piece.is_impenetrable(&1));

    put(&mut board, 6, 6, Piece::super_pawn(Color::White));
    assert!(SuperPawn::can_use(&board, &Pos::new(6, 6), &Info::Integer(0)));
    assert_eq!(SuperPawn::apply(&mut board, &Pos::new(6, 6), Info::Integer(0)), Ok(()));
    assert!(board.get(&Pos::new(6, 6)).unwrap().piece.is_immune());
    assert!(!SuperPawn::can_use(&board, &Pos::new(6, 6), &Info::Integer(0)));
    assert!(board.get(&Pos::new(6, 6)).unwrap().piece.is_type(&Type::Impenetrable(10)));
}

#[test]
fn ram_charges() {
    let mut board = Board::with_shape(Shape::new(vec![Square { anchor: Pos::new(0, 0), width: 1, height: 12 }]));
    put(&mut board, 0, 0, Piece::ram(Color::White));
    put(&mut board, 0, 5, Piece::pawn(Color::Black));
    put(&mut board, 0, 6, Piece::pawn(Color::Black));
    put(&mut board, 0, 7, Piece::pawn(Color::Black));
    assert_eq!(Ram::apply(&mut board, &Pos::new(0, 0), Info::Direction(Direction::N)), Ok(()));
    // Four empty squares crossed: a charge of 4 / 5 + 1 = 1 square after the hit one.
    assert!(board.get(&Pos::new(0, 0)).unwrap().is_empty());
    assert!(board.get(&Pos::new(0, 5)).unwrap().is_empty());
    assert!(matches!(board.get(&Pos::new(0, 6)).unwrap().piece, Piece::Ram(_)));
    assert!(board.get(&Pos::new(0, 7)).unwrap().has_pawn());
    assert_eq!(board.dead_pieces.len(), 2);

    let mut long = Board::with_shape(Shape::new(vec![Square { anchor: Pos::new(0, 0), width: 1, height: 12 }]));
    put(&mut long, 0, 0, Piece::ram(Color::White));
    put(&mut long, 0, 6, Piece::pawn(Color::Black));
    put(&mut long, 0, 7, Piece::pawn(Color::Black));
    put(&mut long, 0, 8, Piece::pawn(Color::Black));
    put(&mut long, 0, 9, Piece::pawn(Color::Black));
    assert_eq!(Ram::apply(&mut long, &Pos::new(0, 0), Info::Direction(Direction::N)), Ok(()));
    // Five empty squares crossed: a charge of 2.
    assert!(matches!(long.get(&Pos::new(0, 8)).unwrap().piece, Piece::Ram(_)));
    assert!(long.get(&Pos::new(0, 9)).unwrap().has_pawn());
    assert_eq!(long.dead_pieces.len(), 3);

    let mut walled = Board::default();
    put(&mut walled, 0, 0, Piece::ram(Color::White));
    put(&mut walled, 0, 3, Piece::wall(Color::Black));
    assert_eq!(Ram::apply(&mut walled, &Pos::new(0, 0), Info::Direction(Direction::N)), Ok(()));
    assert!(matches!(walled.get(&Pos::new(0, 2)).unwrap().piece, Piece::Ram(_)));
    assert!(matches!(walled.get(&Pos::new(0, 3)).unwrap().piece, Piece::Wall(_)));
    assert!(walled.dead_pieces.is_empty());
}

#[test]
fn scheduled_abilities() {
    let mut board = Board::default();
    put(&mut board, 0, 0, Piece::tesla_tower(Color::White));
    assert_eq!(TeslaTower::apply(&mut board, &Pos::new(0, 0), Info::Integer(0)), Ok(()));
    assert_eq!(board.events.events.len(), 1);
    assert_eq!(board.events.events[0].time, Time::turns(2));
    assert_eq!(CrazyPawn::apply(&mut board, &Pos::new(0, 0), Info::Integer(0)), Ok(()));
    assert_eq!(board.events.events.len(), 2);
    assert_eq!(board.events.events[1].name, "Crazy Pawn Cards!");
}

#[test]
fn pawn_promotion() {
    let mut board = Board::default();
    put(&mut board, 0, 7, Piece::pawn(Color::White));
    put(&mut board, 1, 6, Piece::pawn(Color::White));
    assert!(Pawn::can_use(&board, &Pos::new(0, 7), &Info::Integer(0)));
    assert!(!Pawn::can_use(&board, &Pos::new(1, 6), &Info::Integer(0)));
    assert_eq!(Pawn::apply(&mut board, &Pos::new(0, 7), Info::Piece(Piece::queen(Color::White))), Ok(()));
    assert!(board.get(&Pos::new(0, 7)).unwrap().has_queen());
    assert_eq!(Pawn::apply(&mut board, &Pos::new(0, 7), Info::Integer(3)), Err(AbilityError::WrongInfo));
}

#[test]
fn immune_and_heroic_types() {
    let king = Piece::king(Color::White);
    let data = king.data().unwrap();
    assert!(!data.can_be(&Action::Ability { from: Pos::new(0, 0), info: Info::Integer(0) }));
    assert!(!data.can_be(&Action::Attack { from: Pos::new(0, 0), to: Pos::new(0, 1) }));
    assert!(data.can_be(&Action::Take { from: Pos::new(0, 0), to: Pos::new(0, 1) }));
    assert!(data.properties.0.len() == 1 && !data.properties.has_used_ability());
    assert_eq!(Piece::ballista(Color::White).data().unwrap().get_strength(), 3);
}
