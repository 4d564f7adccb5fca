use carlettos_chess::{Direction, Pos, SubDirection, Time};

#[test]
fn pos_add() {
    let pos = Pos::new(1, 2);
    let dpos = Pos::new(3, 4);

    assert_eq!(pos + dpos, Pos::new(4, 6));
}

#[test]
fn pos_add_assign() {
    let mut pos = Pos::new(1, 2);
    let dpos = Pos::new(3, 4);

    pos += dpos;
    assert_eq!(pos, Pos::new(4, 6));
}

#[test]
fn pos_shift() {
    let pos = Pos::new(1, 2);

    assert_eq!(pos.shift(4, 5), Some(Pos::new(5, 7)));
    assert_eq!(pos.shift(1, 1), Some(Pos::new(2, 3)));
    assert_eq!(pos.shift(8, 1), Some(Pos::new(9, 3)));
    assert_eq!(pos.shift(-1, 2), Some(Pos::new(0, 4)));
    assert_eq!(pos.shift(0, -3), None);
    assert_eq!(pos.shift(-2, -1), None);
}

#[test]
fn pos_edges() {
    let pos0: Pos = (0, 0).into();
    let posmax = Pos::new(usize::MAX, usize::MAX);

    assert_eq!(posmax.abs_diff(&pos0), posmax);
    assert_eq!(pos0.abs_diff(&posmax), posmax);
    assert_eq!(pos0.abs_diff(&posmax), posmax.abs_diff(&pos0));
    assert_eq!(posmax.north(), None);

    assert_eq!(pos0.shift(0, 1), Some(Pos::new(0, 1)));
    assert_eq!(pos0.shift(1, 0), Some(Pos::new(1, 0)));
    assert_eq!(pos0.shift(0, -1), None);
    assert_eq!(pos0.shift(-1, 0), None);

    assert_eq!(posmax.shift(0, 1), None);
    assert_eq!(posmax.shift(1, 0), None);
    assert_eq!(posmax.shift(0, -1), Some(Pos::new(usize::MAX, usize::MAX - 1)));
    assert_eq!(posmax.shift(-1, 0), Some(Pos::new(usize::MAX - 1, usize::MAX)));
}

#[test]
fn pos_add_assign_saturates() {
    let mut pos = Pos::new(usize::MAX - 1, 3);
    pos += Pos::new(5, 1);
    assert_eq!(pos, Pos::new(usize::MAX, 4));
}

#[test]
fn pos_directions() {
    let pos = Pos::new(3, 4);
    assert_eq!(pos.north(), Some(Pos::new(3, 5)));
    assert_eq!(pos.east(), Some(Pos::new(4, 4)));
    assert_eq!(pos.south(), Some(Pos::new(3, 3)));
    assert_eq!(pos.west(), Some(Pos::new(2, 4)));
    assert_eq!(pos.direction_shift(&Direction::W), Some(Pos::new(2, 4)));
    assert_eq!(pos.subdirection_shift(&SubDirection::SE), Some(Pos::new(4, 3)));
    assert_eq!(Pos::new(0, 0).subdirection_shift(&SubDirection::SW), None);
}

#[test]
fn subdirections_of_a_direction() {
    assert_eq!(
        Direction::E.related_subdirections(),
        vec![SubDirection::NE, SubDirection::E, SubDirection::SE]
    );
    assert_eq!(
        Direction::N.related_subdirections(),
        vec![SubDirection::N, SubDirection::NE, SubDirection::NW]
    );
    assert!(SubDirection::NW.is_direction(&Direction::W));
    assert!(!SubDirection::NW.is_direction(&Direction::S));
    assert_eq!(SubDirection::S.into_direction(), Some(Direction::S));
    assert_eq!(SubDirection::SW.into_direction(), None);
}

#[test]
fn time_counts_down_without_going_negative() {
    let mut t = Time::new(1, 0, 2);
    t.on_movement();
    assert_eq!(t, Time::new(1, 0, 1));
    t.on_turn();
    assert_eq!(t, Time::new(1, 0, 1));
    t.on_round();
    t.on_round();
    assert_eq!(t, Time::new(0, 0, 1));
    let mut u = Time::rounds(3);
    u.tick(&Time::movements(1));
    assert_eq!(u, Time::rounds(3));
    u.tick(&Time::rounds(1));
    assert_eq!(u, Time::rounds(2));
    assert_eq!(Time::turns(2) + Time::movements(1), Time::new(0, 2, 1));
    assert_eq!(Time::new(3, 2, 1) - Time::new(1, 1, 1), Time::new(2, 1, 0));
}
