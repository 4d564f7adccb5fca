use carlettos_chess::ability::AbilityError;
use carlettos_chess::board::shape::{Shape, Square};
use carlettos_chess::board::{
    Board, BoardRng, Event, EventFunction, EventFunctionError, FilterFunction, Mana, Player, RandomNumberGenerator,
    RayCastInfo, Tile,
};
use carlettos_chess::card::{Card, Cards};
use carlettos_chess::piece::{Effect, Piece, Type};
use carlettos_chess::{Action, Color, Info, Pos, Time};

#[test]
fn contains_and_get_agree_with_the_shape() {
    let board = Board::with_shape(Shape::cross_shape());
    for x in 0..10 {
        for y in 0..10 {
            let p = Pos::new(x, y);
            let inside = board.shape().contains(&p);
            assert_eq!(board.contains(&p), inside);
            assert_eq!(board.get(&p).is_some(), inside);
        }
    }
    assert!(!board.contains(&Pos::new(0, 0)));
    assert!(board.contains(&Pos::new(0, 2)));
    assert_eq!(board.tiles.len(), 48);
}

#[test]
fn overlapping_squares_give_one_tile_each() {
    let shape = Shape::new(vec![
        Square { anchor: Pos::new(0, 0), width: 3, height: 3 },
        Square { anchor: Pos::new(1, 1), width: 3, height: 3 },
    ]);
    let board = Board::with_shape(shape);
    assert_eq!(board.tiles.len(), 14);
    assert_eq!(board.height(), 4);
}

#[test]
fn ray_cast_empty_line_and_truncation() {
    let mut board = Board::default();
    let from = Pos::new(0, 0);
    let ray = board.ray_cast_empty(&from, None, &(1, 0));
    assert_eq!(ray.start, Some(from));
    assert_eq!(ray.mid.as_ref().unwrap().len(), 7);
    assert_eq!(ray.collision, None);
    assert_eq!(ray.last(), Some(&Pos::new(7, 0)));

    board.get_mut(&Pos::new(4, 0)).unwrap().replace(Piece::pawn(Color::Black));
    let ray = board.ray_cast_empty(&from, None, &(1, 0));
    assert_eq!(ray.mid.as_ref().unwrap().len(), 3);
    assert_eq!(ray.collision, Some(Pos::new(4, 0)));
    assert!(ray.contains(&Pos::new(4, 0)));
    assert!(!ray.contains(&Pos::new(5, 0)));
    assert_eq!(ray.len(), 5);

    let short = board.ray_cast_empty(&from, Some(2), &(1, 0));
    assert_eq!(short.mid.as_ref().unwrap().len(), 2);
    assert_eq!(short.collision, None);

    let off = board.ray_cast_empty(&Pos::new(9, 9), None, &(1, 0));
    assert!(off.is_empty());
    let edge = board.ray_cast_empty(&from, None, &(-1, 0));
    assert_eq!(edge.start, Some(from));
    assert!(edge.mid.is_none());
    assert_eq!(RayCastInfo::empty().len(), 0);
}

#[test]
fn queries_do_not_change_the_board() {
    let mut board = Board::default_chessboard();
    board.rng = BoardRng::with_seeds(5, 6, 7);
    let from = Pos::new(1, 1);
    let first = board.get(&from).unwrap().piece.can_do(&board, Action::Move { from, to: Pos::new(1, 3) });
    let second = board.get(&from).unwrap().piece.can_do(&board, Action::Move { from, to: Pos::new(1, 3) });
    assert_eq!(first, second);
    assert!(first);
    let r1 = board.ray_cast_empty(&Pos::new(0, 1), None, &(0, 1));
    let r2 = board.ray_cast_empty(&Pos::new(0, 1), None, &(0, 1));
    assert_eq!(r1, r2);
    assert_eq!(board.get(&from), board.get(&from));
}

#[test]
fn move_take_and_attack() {
    let mut board = Board::default();
    let a = Pos::new(0, 0);
    let b = Pos::new(0, 1);
    board.get_mut(&a).unwrap().replace(Piece::rook(Color::White));
    board.get_mut(&b).unwrap().replace(Piece::pawn(Color::Black));
    assert_eq!(board.make(Action::Take { from: a, to: b }), Ok(()));
    assert!(board.get(&a).unwrap().is_empty());
    assert!(board.get(&b).unwrap().has_rook());
    assert!(matches!(board.get_last_dead(), Some(Piece::Pawn(_))));

    assert_eq!(board.make(Action::Move { from: b, to: a }), Ok(()));
    assert!(board.get(&a).unwrap().has_rook());

    assert_eq!(board.make(Action::Attack { from: b, to: a }), Ok(()));
    assert!(board.get(&a).unwrap().is_empty());
    assert!(matches!(board.get_last_dead(), Some(Piece::Rook(_))));
    assert!(matches!(board.remove_last_dead_with_color(&Color::Black), Piece::Pawn(_)));
    assert!(matches!(board.remove_last_dead(), Piece::Rook(_)));
    assert!(matches!(board.remove_last_dead(), Piece::Empty));

    // Off the board nothing happens.
    assert_eq!(board.make(Action::Move { from: a, to: Pos::new(20, 20) }), Ok(()));
}

#[test]
fn tick_boundaries() {
    let mut board = Board::default();
    assert_eq!(board.time, Time::new(0, 0, 0));
    board.tick();
    assert_eq!(board.time, Time::new(0, 1, 0));
    board.tick();
    assert_eq!(board.time, Time::new(1, 0, 0));
    assert_eq!(board.current_player().mana, Mana(1));
}

#[test]
fn tick_with_more_movements() {
    let mut white = Player::new(Color::White, 0, Cards::default());
    white.movements = carlettos_chess::board::Movements(3);
    let black = Player::new(Color::Black, 1, Cards::default());
    let shape = Shape::default_chessboard();
    let tiles: Vec<Tile> = shape.points_iter().into_iter().map(Tile::new).collect();
    let mut board = Board::new(tiles, shape, vec![white, black]);
    board.get_mut(&Pos::new(0, 0)).unwrap().replace(Piece::knight(Color::White));
    board.get_mut(&Pos::new(0, 0)).unwrap().piece.add_effect(Effect::Fire(Time::new(0, 1, 1)));
    board.tick();
    assert_eq!(board.time, Time::new(0, 0, 1));
    board.tick();
    assert_eq!(board.time, Time::new(0, 0, 2));
    board.tick();
    assert_eq!(board.time, Time::new(0, 1, 0));
    let data = board.get_data(&Pos::new(0, 0)).unwrap();
    assert!(data.has_effect(&Effect::Fire(Time::new(0, 0, 0))));
    assert_eq!(data.cooldown, Time::new(0, 0, 0));
}

#[test]
fn random_streams_are_linear_congruential() {
    let mut rng = RandomNumberGenerator::with_seed(1);
    assert_eq!(rng.get_u64(), 1);
    rng.next();
    assert_eq!(rng.get_u64(), 32422);
    rng.next();
    assert_eq!(rng.get_u64(), 12519);
    assert_eq!(RandomNumberGenerator::with_seed(32768 + 7).get_u64(), 7);
    assert_eq!(RandomNumberGenerator::with_seed(12345).get_below(8), 3);
}

#[test]
fn events_count_down() {
    let mut board = Board::default();
    board.add_event(Event::with_time("e".to_string(), Time::new(0, 1, 2), vec![EventFunction::Nothing]));
    board.tick();
    board.tick();
    assert_eq!(board.events.events[0].time, Time::new(0, 0, 0));
}

#[test]
fn event_functions() {
    let mut board = Board::cchessboard();
    assert_eq!(EventFunction::TakeCard(7).act(&mut board), Err(EventFunctionError::PlayerNotFound));
    assert_eq!(EventFunction::TakeCard(0).act(&mut board), Ok(()));
    assert_eq!(board.player_from_id(0).unwrap().hand.len(), 2);
    assert_eq!(EventFunction::ShuffleDeck(1).act(&mut board), Ok(()));
    assert_eq!(EventFunction::TakeCard(0).act(&mut board), Ok(()));
    assert_eq!(EventFunction::TakeCard(0).act(&mut board), Ok(()));
    assert_eq!(EventFunction::TakeCard(0).act(&mut board), Err(EventFunctionError::EmptyDeck));
    assert_eq!(EventFunction::Nothing.act(&mut board), Ok(()));

    let filter = FilterFunction::trio(
        FilterFunction::Square(3),
        FilterFunction::IsType(Type::Structure),
        FilterFunction::IsNotColor(Color::White),
    );
    let origin = Pos::new(1, 13);
    assert!(filter.filter(&board, &origin, &Pos::new(1, 15)));
    assert!(!filter.filter(&board, &origin, &Pos::new(1, 2)));
    let effect = Effect::Deactivate(Time::rounds(6));
    assert_eq!(EventFunction::ApplyEffect(effect, origin, filter).act(&mut board), Ok(()));
    assert!(board.get_data(&Pos::new(1, 15)).unwrap().has_effect(&effect));
    assert!(board.get_data(&Pos::new(1, 16)).unwrap().has_effect(&effect));
    assert!(!board.get_data(&Pos::new(3, 15)).unwrap().has_effect(&effect));
    assert!(!board.get_data(&Pos::new(2, 14)).unwrap().has_effect(&effect));
}

#[test]
fn cards_and_players() {
    let mut cards = Cards(vec![Card::Ice, Card::Fire, Card::Ice]);
    assert_eq!(cards.remove(Card::Ice), Some(Card::Ice));
    assert_eq!(cards.0, vec![Card::Fire, Card::Ice]);
    assert_eq!(cards.remove(Card::Revive), None);
    assert_eq!(cards.take(), Some(Card::Ice));
    assert_eq!(cards.len(), 1);
    cards.add(Card::Mana);
    cards.shuffle();
    assert_eq!(cards.len(), 2);
    assert!(!cards.is_empty());
    assert_eq!(Card::Invulnerability.get_cost(), Mana(5));
    assert_eq!(Card::Rook.get_cost(), Mana(0));

    let mut p = Player::new(Color::Black, 3, Cards(vec![Card::Knight]));
    assert_eq!(p.take_from_deck(), Ok(()));
    assert_eq!(p.hand.0, vec![Card::Knight]);
    assert_eq!(p.take_from_deck(), Err(EventFunctionError::EmptyDeck));
    assert_eq!(*p.id(), 3);
    assert_eq!(*p.color(), Color::Black);
    assert_eq!(Mana(2) - Mana(5), Mana(0));
    assert_eq!(Mana(2) + Mana(5), Mana(7));
}

#[test]
fn presets() {
    let board = Board::default_chessboard();
    assert!(board.get(&Pos::new(4, 0)).unwrap().has_king());
    assert!(board.get(&Pos::new(3, 7)).unwrap().has_queen());
    assert_eq!(board.get(&Pos::new(3, 7)).unwrap().get_color(), Some(&Color::Black));
    assert!(board.get(&Pos::new(4, 4)).unwrap().is_empty());

    let c = Board::cchessboard();
    assert_eq!(c.tiles.len(), 16 * 17);
    assert!(c.get(&Pos::new(0, 7)).unwrap().magic);
    assert!(matches!(c.get(&Pos::new(0, 0)).unwrap().piece, Piece::Cannon(_)));
    assert!(matches!(c.get(&Pos::new(8, 16)).unwrap().piece, Piece::King(_)));
    assert!(matches!(c.get(&Pos::new(13, 14)).unwrap().piece, Piece::Archer(_)));
    assert_eq!(c.player_from_color(&Color::Black).unwrap().mana, Mana(5));
    assert_eq!(c.row_iter(16).len(), 16);
    assert_eq!(c.height(), 17);
}

#[test]
fn positions_from_a_pattern() {
    let board = Board::default();
    let around = board.pos_vec_from_pattern(&Pos::new(0, 0), |a, b| carlettos_chess::pattern::king(a, b));
    assert_eq!(around.len(), 3);
    assert!(around.contains(&Pos::new(1, 1)));
    assert!(!around.contains(&Pos::new(0, 0)));
    assert_eq!(board.pos_vec().len(), 64);
    assert_eq!(board.get_nearby_tiles(&Pos::new(0, 0)).len(), 2);
}

#[test]
fn ability_on_empty_square_is_an_error() {
    let mut board = Board::default();
    assert_eq!(
        board.make(Action::Ability { from: Pos::new(0, 0), info: Info::Integer(1) }),
        Err(AbilityError::Illegal)
    );
}

#[test]
fn well_formedness_is_checked() {
    let board = Board::default_chessboard();
    assert!(board.is_well_formed());
    let mut broken = Board::default();
    broken.tiles.pop();
    assert!(!broken.is_well_formed());
    let mut clock = Board::default();
    clock.time.turn = 5;
    assert!(!clock.is_well_formed());
}

#[test]
fn cross_shape_points_are_distinct() {
    let points = Shape::cross_shape().points_iter();
    assert_eq!(points.len(), 48);
    let mut sorted = points.clone();
    sorted.sort();
    sorted.dedup();
    assert_eq!(sorted.len(), 48);
    assert_eq!(Square { anchor: Pos::new(1, 1), width: 2, height: 2 }.points_iter(),
        vec![Pos::new(1, 1), Pos::new(1, 2), Pos::new(2, 1), Pos::new(2, 2)]);
}
