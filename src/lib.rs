use vstd::prelude::*;

pub mod ability;
pub mod board;
pub mod card;
pub mod chess_controller;
pub mod pattern;
pub mod piece;

use crate::piece::Piece;

verus! {

/// A square of the grid: `x` grows eastwards, `y` grows northwards, and
/// (0, 0) is the south-west corner.
#[derive(Debug, Clone, Copy, PartialEq, Eq, Structural, PartialOrd, Ord, Hash)]
pub struct Pos {
    pub x: usize,
    pub y: usize,
}

/// `a - b` on naturals, as an absolute value.
pub open spec fn dist(a: usize, b: usize) -> nat {
    if a >= b {
        (a - b) as nat
    } else {
        (b - a) as nat
    }
}

/// Pushing `x` adds `x`, and only `x`, to what a sequence contains.
pub proof fn lemma_push_contains<T>(s: Seq<T>, x: T, q: T)
    ensures
        s.push(x).contains(q) <==> (s.contains(q) || q == x),
{
    if s.push(x).contains(q) {
        let k = choose|k: int| 0 <= k < s.push(x).len() && s.push(x)[k] == q;
        if k < s.len() {
            assert(s[k] == q);
        }
    }
    if s.contains(q) {
        let k = choose|k: int| 0 <= k < s.len() && s[k] == q;
        assert(s.push(x)[k] == q);
    }
    if q == x {
        assert(s.push(x)[s.len() as int] == q);
    }
}

impl From<(usize, usize)> for Pos {
    fn from(value: (usize, usize)) -> (r: Pos) {
        Pos { x: value.0, y: value.1 }
    }
}

impl vstd::std_specs::convert::FromSpecImpl<(usize, usize)> for Pos {
    open spec fn obeys_from_spec() -> bool {
        true
    }

    open spec fn from_spec(v: (usize, usize)) -> Pos {
        Pos { x: v.0, y: v.1 }
    }
}

impl Pos {
    /// The position moved by (dx, dy), when both coordinates stay in `usize`.
    pub open spec fn shifted(self, dx: int, dy: int) -> Option<Pos> {
        let nx = self.x + dx;
        let ny = self.y + dy;
        if 0 <= nx <= usize::MAX && 0 <= ny <= usize::MAX {
            Some(Pos { x: nx as usize, y: ny as usize })
        } else {
            None
        }
    }

    pub fn new(x: usize, y: usize) -> (r: Pos)
        ensures
            r == (Pos { x, y }),
    {
        Pos { x, y }
    }

    pub fn north(&self) -> (r: Option<Pos>)
        ensures
            r == self.shifted(0, 1),
    {
        self.shift(0, 1)
    }

    pub fn east(&self) -> (r: Option<Pos>)
        ensures
            r == self.shifted(1, 0),
    {
        self.shift(1, 0)
    }

    pub fn south(&self) -> (r: Option<Pos>)
        ensures
            r == self.shifted(0, -1),
    {
        self.shift(0, -1)
    }

    pub fn west(&self) -> (r: Option<Pos>)
        ensures
            r == self.shifted(-1, 0),
    {
        self.shift(-1, 0)
    }

    /// Moves the position by (x, y); `None` when a coordinate would leave `usize`.
    pub fn shift(&self, x: isize, y: isize) -> (r: Option<Pos>)
        ensures
            r == self.shifted(x as int, y as int),
    {
        let dx = self.x.checked_add_signed(x);
        let dy = self.y.checked_add_signed(y);
        match (dx, dy) {
            (Some(dx), Some(dy)) => Some(Pos::new(dx, dy)),
            _ => None,
        }
    }

    /// The distance along each axis.
    pub fn abs_diff(&self, other: &Pos) -> (r: Pos)
        ensures
            r.x == dist(self.x, other.x),
            r.y == dist(self.y, other.y),
    {
        let x = if self.x >= other.x {
            self.x - other.x
        } else {
            other.x - self.x
        };
        let y = if self.y >= other.y {
            self.y - other.y
        } else {
            other.y - self.y
        };
        Pos { x, y }
    }

    pub fn direction_shift(&self, direction: &Direction) -> (r: Option<Pos>)
        ensures
            r == self.shifted(direction.dx(), direction.dy()),
    {
        let (dx, dy) = direction.offset();
        self.shift(dx, dy)
    }

    pub fn subdirection_shift(&self, subdirection: &SubDirection) -> (r: Option<Pos>)
        ensures
            r == self.shifted(subdirection.dx(), subdirection.dy()),
    {
        let (dx, dy) = subdirection.offset();
        self.shift(dx, dy)
    }
}

impl core::ops::Add for Pos {
    type Output = Pos;

    fn add(self, rhs: Pos) -> (r: Pos) {
        Pos { x: self.x + rhs.x, y: self.y + rhs.y }
    }
}

impl vstd::std_specs::ops::AddSpecImpl for Pos {
    open spec fn obeys_add_spec() -> bool {
        true
    }

    open spec fn add_req(self, rhs: Pos) -> bool {
        self.x + rhs.x <= usize::MAX && self.y + rhs.y <= usize::MAX
    }

    open spec fn add_spec(self, rhs: Pos) -> Pos {
        Pos { x: (self.x + rhs.x) as usize, y: (self.y + rhs.y) as usize }
    }
}

impl core::ops::AddAssign for Pos {
    /// Adds coordinate-wise; a coordinate that would pass `usize::MAX` stays there.
    fn add_assign(&mut self, rhs: Pos)
        ensures
            final(self).x == crate::piece::capped((old(self).x + rhs.x) as nat),
            final(self).y == crate::piece::capped((old(self).y + rhs.y) as nat),
    {
        self.x = self.x.saturating_add(rhs.x);
        self.y = self.y.saturating_add(rhs.y);
    }
}

#[derive(Debug, Clone, Copy, PartialEq, Eq, Structural)]
pub enum Direction {
    N,
    E,
    S,
    W,
}

impl Direction {
    pub open spec fn dx(self) -> int {
        match self {
            Direction::E => 1,
            Direction::W => -1,
            _ => 0,
        }
    }

    pub open spec fn dy(self) -> int {
        match self {
            Direction::N => 1,
            Direction::S => -1,
            _ => 0,
        }
    }

    /// The unit step of this direction.
    pub fn offset(&self) -> (r: (isize, isize))
        ensures
            r.0 == self.dx(),
            r.1 == self.dy(),
    {
        match self {
            Direction::N => (0, 1),
            Direction::E => (1, 0),
            Direction::S => (0, -1),
            Direction::W => (-1, 0),
        }
    }

    pub fn is_axis(&self, axis: &Axis) -> (r: bool)
        ensures
            r == (match axis {
                Axis::NS => self.dx() == 0,
                Axis::EW => self.dy() == 0,
            }),
    {
        match (self, axis) {
            (Direction::N, Axis::NS) | (Direction::S, Axis::NS) | (Direction::E, Axis::EW) | (
                Direction::W,
                Axis::EW,
            ) => true,
            _ => false,
        }
    }

    pub fn into_subdirection(&self) -> (r: SubDirection)
        ensures
            r.dx() == self.dx(),
            r.dy() == self.dy(),
    {
        match self {
            Direction::N => SubDirection::N,
            Direction::E => SubDirection::E,
            Direction::S => SubDirection::S,
            Direction::W => SubDirection::W,
        }
    }

    /// The three sub-directions that lean towards this direction, in the
    /// order in which `SubDirection` lists them.
    pub fn related_subdirections(&self) -> (r: Vec<SubDirection>)
        ensures
            r@ == match self {
                Direction::N => seq![SubDirection::N, SubDirection::NE, SubDirection::NW],
                Direction::E => seq![SubDirection::NE, SubDirection::E, SubDirection::SE],
                Direction::S => seq![SubDirection::SE, SubDirection::S, SubDirection::SW],
                Direction::W => seq![SubDirection::SW, SubDirection::W, SubDirection::NW],
            },
            r@.len() == 3,
            forall|s: SubDirection| r@.contains(s) <==> s.is_toward(*self),
            r@.no_duplicates(),
    {
        let r = match self {
            Direction::N => vec![SubDirection::N, SubDirection::NE, SubDirection::NW],
            Direction::E => vec![SubDirection::NE, SubDirection::E, SubDirection::SE],
            Direction::S => vec![SubDirection::SE, SubDirection::S, SubDirection::SW],
            Direction::W => vec![SubDirection::SW, SubDirection::W, SubDirection::NW],
        };
        proof {
            assert forall|s: SubDirection| r@.contains(s) <==> s.is_toward(*self) by {
                if s.is_toward(*self) {
                    if s == r@[0] {
                    } else if s == r@[1] {
                        assert(r@[1] == s);
                    } else {
                        assert(r@[2] == s);
                    }
                }
            }
        }
        r
    }
}

#[derive(Debug, Clone, Copy, PartialEq, Eq, Structural)]
pub enum SubDirection {
    N,
    NE,
    E,
    SE,
    S,
    SW,
    W,
    NW,
}

impl SubDirection {
    pub open spec fn dx(self) -> int {
        match self {
            SubDirection::NE | SubDirection::E | SubDirection::SE => 1,
            SubDirection::SW | SubDirection::W | SubDirection::NW => -1,
            _ => 0,
        }
    }

    pub open spec fn dy(self) -> int {
        match self {
            SubDirection::NW | SubDirection::N | SubDirection::NE => 1,
            SubDirection::SE | SubDirection::S | SubDirection::SW => -1,
            _ => 0,
        }
    }

    /// Whether this sub-direction has a component along `d`.
    pub open spec fn is_toward(self, d: Direction) -> bool {
        (d.dx() != 0 && self.dx() == d.dx()) || (d.dy() != 0 && self.dy() == d.dy())
    }

    /// The unit step of this sub-direction.
    pub fn offset(&self) -> (r: (isize, isize))
        ensures
            r.0 == self.dx(),
            r.1 == self.dy(),
    {
        match self {
            SubDirection::N => (0, 1),
            SubDirection::NE => (1, 1),
            SubDirection::E => (1, 0),
            SubDirection::SE => (1, -1),
            SubDirection::S => (0, -1),
            SubDirection::SW => (-1, -1),
            SubDirection::W => (-1, 0),
            SubDirection::NW => (-1, 1),
        }
    }

    pub fn is_direction(&self, direction: &Direction) -> (r: bool)
        ensures
            r == self.is_toward(*direction),
    {
        match (self, direction) {
            (SubDirection::N, Direction::N)
            | (SubDirection::NE, Direction::N)
            | (SubDirection::NE, Direction::E)
            | (SubDirection::E, Direction::E)
            | (SubDirection::SE, Direction::E)
            | (SubDirection::SE, Direction::S)
            | (SubDirection::S, Direction::S)
            | (SubDirection::SW, Direction::S)
            | (SubDirection::SW, Direction::W)
            | (SubDirection::W, Direction::W)
            | (SubDirection::NW, Direction::W)
            | (SubDirection::NW, Direction::N) => true,
            _ => false,
        }
    }

    pub fn into_direction(&self) -> (r: Option<Direction>)
        ensures
            r is Some <==> (self.dx() == 0 || self.dy() == 0),
            r matches Some(d) ==> d.dx() == self.dx() && d.dy() == self.dy(),
    {
        match self {
            SubDirection::N => Some(Direction::N),
            SubDirection::E => Some(Direction::E),
            SubDirection::S => Some(Direction::S),
            SubDirection::W => Some(Direction::W),
            _ => None,
        }
    }
}

#[derive(Debug, Clone, Copy, PartialEq, Eq, Structural)]
pub enum Axis {
    NS,
    EW,
}

/// What a player asks a piece to do.
#[derive(Debug, PartialEq, Eq)]
pub enum Action {
    /// The piece moves to an empty square.
    Move { from: Pos, to: Pos },
    /// The piece captures by moving onto the defender.
    Take { from: Pos, to: Pos },
    /// The piece removes the defender without moving.
    Attack { from: Pos, to: Pos },
    /// The piece uses its ability.
    Ability { from: Pos, info: Info },
}

impl Action {
    pub fn move_to(from: &Pos, to: &Pos) -> (r: Action)
        ensures
            r == (Action::Move { from: *from, to: *to }),
    {
        Action::Move { from: *from, to: *to }
    }

    pub fn take(from: &Pos, to: &Pos) -> (r: Action)
        ensures
            r == (Action::Take { from: *from, to: *to }),
    {
        Action::Take { from: *from, to: *to }
    }

    pub fn attack(from: &Pos, to: &Pos) -> (r: Action)
        ensures
            r == (Action::Attack { from: *from, to: *to }),
    {
        Action::Attack { from: *from, to: *to }
    }

    pub fn ability(from: &Pos, info: Info) -> (r: Action)
        ensures
            r == (Action::Ability { from: *from, info }),
    {
        Action::Ability { from: *from, info }
    }

    pub fn is_move(&self) -> (r: bool)
        ensures
            r == self is Move,
    {
        matches!(self, Action::Move { .. })
    }

    pub fn is_take(&self) -> (r: bool)
        ensures
            r == self is Take,
    {
        matches!(self, Action::Take { .. })
    }

    pub fn is_attack(&self) -> (r: bool)
        ensures
            r == self is Attack,
    {
        matches!(self, Action::Attack { .. })
    }

    pub fn is_ability(&self) -> (r: bool)
        ensures
            r == self is Ability,
    {
        matches!(self, Action::Ability { .. })
    }
}

/// Three counters: a point of the game clock, or a duration that counts down.
#[derive(Debug, Clone, Copy, PartialEq, Eq, Structural, PartialOrd, Ord, Hash)]
pub struct Time {
    pub round: usize,
    pub turn: usize,
    pub movement: usize,
}

impl Default for Time {
    fn default() -> (r: Time)
        ensures
            r == (Time { round: 0, turn: 0, movement: 0 }),
    {
        Time { round: 0, turn: 0, movement: 0 }
    }
}

/// One less, but never below zero.
pub open spec fn dec(n: usize) -> usize {
    if n == 0 {
        0
    } else {
        (n - 1) as usize
    }
}

impl Time {
    pub fn new(rounds: usize, turns: usize, movements: usize) -> (r: Time)
        ensures
            r == (Time { round: rounds, turn: turns, movement: movements }),
    {
        Time { round: rounds, turn: turns, movement: movements }
    }

    pub fn rounds(rounds: usize) -> (r: Time)
        ensures
            r == (Time { round: rounds, turn: 0, movement: 0 }),
    {
        Time { round: rounds, turn: 0, movement: 0 }
    }

    pub fn turns(turns: usize) -> (r: Time)
        ensures
            r == (Time { round: 0, turn: turns, movement: 0 }),
    {
        Time { round: 0, turn: turns, movement: 0 }
    }

    pub fn movements(movements: usize) -> (r: Time)
        ensures
            r == (Time { round: 0, turn: 0, movement: movements }),
    {
        Time { round: 0, turn: 0, movement: movements }
    }

    /// This countdown after one tick of grain `grain`: a movement tick takes
    /// a movement off, else a turn tick a turn, else a round tick a round;
    /// never below zero.
    pub open spec fn ticked(self, grain: Time) -> Time {
        if grain.movement > 0 {
            Time { movement: dec(self.movement), ..self }
        } else if grain.turn > 0 {
            Time { turn: dec(self.turn), ..self }
        } else if grain.round > 0 {
            Time { round: dec(self.round), ..self }
        } else {
            self
        }
    }

    /// This countdown after ticks of the grains in `grains`, in order.
    pub open spec fn after(self, grains: Seq<Time>) -> Time
        decreases grains.len(),
    {
        if grains.len() == 0 {
            self
        } else {
            self.after(grains.drop_last()).ticked(grains.last())
        }
    }

    /// After one grain is one tick of it.
    pub proof fn lemma_after_one(self, grain: Time)
        ensures
            self.after(seq![grain]) == self.ticked(grain),
    {
        reveal_with_fuel(Time::after, 2);
        assert(seq![grain].drop_last() =~= Seq::<Time>::empty());
    }

    /// Counts down by one tick of grain `time`.
    pub fn tick(&mut self, time: &Time)
        ensures
            *final(self) == old(self).ticked(*time),
    {
        if time.is_movement() {
            self.on_movement();
        } else if time.is_turn() {
            self.on_turn();
        } else if time.is_round() {
            self.on_round();
        }
    }

    /// Whether this time, taken as the grain of a tick, counts rounds.
    pub fn is_round(&self) -> (r: bool)
        ensures
            r == (self.round > 0),
    {
        self.round > 0
    }

    /// Whether this time, taken as the grain of a tick, counts turns.
    pub fn is_turn(&self) -> (r: bool)
        ensures
            r == (self.turn > 0),
    {
        self.turn > 0
    }

    /// Whether this time, taken as the grain of a tick, counts movements.
    pub fn is_movement(&self) -> (r: bool)
        ensures
            r == (self.movement > 0),
    {
        self.movement > 0
    }

    pub fn on_round(&mut self)
        ensures
            *final(self) == (Time { round: dec(old(self).round), ..*old(self) }),
    {
        self.round = self.round.saturating_sub(1);
    }

    pub fn on_turn(&mut self)
        ensures
            *final(self) == (Time { turn: dec(old(self).turn), ..*old(self) }),
    {
        self.turn = self.turn.saturating_sub(1);
    }

    pub fn on_movement(&mut self)
        ensures
            *final(self) == (Time { movement: dec(old(self).movement), ..*old(self) }),
    {
        self.movement = self.movement.saturating_sub(1);
    }
}

impl core::ops::Add for Time {
    type Output = Time;

    fn add(self, rhs: Time) -> (r: Time) {
        Time {
            round: self.round + rhs.round,
            turn: self.turn + rhs.turn,
            movement: self.movement + rhs.movement,
        }
    }
}

impl vstd::std_specs::ops::AddSpecImpl for Time {
    open spec fn obeys_add_spec() -> bool {
        true
    }

    open spec fn add_req(self, rhs: Time) -> bool {
        self.round + rhs.round <= usize::MAX && self.turn + rhs.turn <= usize::MAX
            && self.movement + rhs.movement <= usize::MAX
    }

    open spec fn add_spec(self, rhs: Time) -> Time {
        Time {
            round: (self.round + rhs.round) as usize,
            turn: (self.turn + rhs.turn) as usize,
            movement: (self.movement + rhs.movement) as usize,
        }
    }
}

impl core::ops::Sub for Time {
    type Output = Time;

    fn sub(self, rhs: Time) -> (r: Time) {
        Time {
            round: self.round - rhs.round,
            turn: self.turn - rhs.turn,
            movement: self.movement - rhs.movement,
        }
    }
}

impl vstd::std_specs::ops::SubSpecImpl for Time {
    open spec fn obeys_sub_spec() -> bool {
        true
    }

    open spec fn sub_req(self, rhs: Time) -> bool {
        self.round >= rhs.round && self.turn >= rhs.turn && self.movement >= rhs.movement
    }

    open spec fn sub_spec(self, rhs: Time) -> Time {
        Time {
            round: (self.round - rhs.round) as usize,
            turn: (self.turn - rhs.turn) as usize,
            movement: (self.movement - rhs.movement) as usize,
        }
    }
}

#[derive(Debug, Clone, Copy, PartialEq, Eq, Structural, PartialOrd, Ord, Hash)]
pub enum Color {
    White,
    Black,
}

impl Default for Color {
    fn default() -> (r: Color)
        ensures
            r == Color::White,
    {
        Color::White
    }
}

/// Which of its three powers a paladin uses, and on which square.
#[derive(Debug, Clone, Copy, PartialEq, Eq, Structural)]
pub enum PaladinAbilityType {
    Attack(Pos),
    Invulnerability(Pos),
    Revive(Pos),
}

/// The argument of an ability; each ability accepts one shape of it.
#[derive(Debug, PartialEq, Eq)]
pub enum Info {
    Piece(Piece),
    Direction(Direction),
    SubDirection(SubDirection),
    Pos(Pos),
    Integer(usize),
    Trio(Box<Info>, Box<Info>, Box<Info>),
    PaladinAbilityInfo(PaladinAbilityType),
}

} // verus!
