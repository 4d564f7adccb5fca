use vstd::prelude::*;

use crate::board::{ray_step, Board, Event, EventFunction, FilterFunction, Mana};
use crate::card::Card;
use crate::pattern::{self, spec_king, spec_knight, spec_square};
use crate::piece::{capped, strength_sum, Effect, Piece, Type};
use crate::{Color, Direction, Info, PaladinAbilityType, Pos, SubDirection, Time};

verus! {

/// What an ability costs: the cooldown it leaves and the mana it takes.
#[derive(Debug, Clone, Copy, PartialEq, Eq, Structural)]
pub struct AbilityData {
    pub cooldown: Time,
    pub cost: Mana,
}

/// Why an ability could not be used.
#[derive(Debug, Clone, Copy, PartialEq, Eq, Structural)]
pub enum AbilityError {
    /// The argument is not of the shape that the ability takes.
    WrongInfo,
    /// The board does not allow the ability here (a square it needs is off
    /// the board, or the piece is missing).
    Illegal,
    /// The ability has no effect defined yet.
    NotImplemented,
}

/// The color of the piece on `from`, if one stands there.
pub open spec fn color_at(board: Board, from: Pos) -> Option<Color> {
    board.piece_at(from).color_of()
}

/// Reads the color of the piece on `from`.
fn color_on(board: &Board, from: &Pos) -> (r: Option<Color>)
    requires
        board.wf(),
    ensures
        r == color_at(*board, *from),
{
    match board.get(from) {
        None => None,
        Some(tile) => match tile.get_color() {
            None => None,
            Some(c) => Some(*c),
        },
    }
}

/// Promotion: a pawn that reaches the last row becomes the piece given.
pub struct Pawn;

impl Pawn {
    pub open spec fn spec_can_use(board: Board, from: Pos) -> bool {
        match color_at(board, from) {
            None => false,
            Some(Color::White) => from.shifted(0, 1) is None || !board.has_tile(from.shifted(0, 1).unwrap()),
            Some(Color::Black) => from.y == 0,
        }
    }

    pub fn data(&self) -> (r: AbilityData)
        ensures
            r == (AbilityData { cooldown: Time { round: 0, turn: 0, movement: 0 }, cost: Mana(0) }),
    {
        AbilityData { cooldown: Time::default(), cost: Mana(0) }
    }

    /// Whether the pawn on `from` stands on its last row.
    pub fn can_use(board: &Board, from: &Pos, _info: &Info) -> (r: bool)
        requires
            board.wf(),
        ensures
            r == Self::spec_can_use(*board, *from),
    {
        match color_on(board, from) {
            None => false,
            Some(Color::White) => match from.north() {
                None => true,
                Some(n) => !board.contains(&n),
            },
            Some(Color::Black) => from.y == 0,
        }
    }

    /// What using the ability does: the result `r` and the board `after`
    /// that it leaves from `before`.
    pub open spec fn applied(before: Board, after: Board, from: Pos, info: Info, r: Result<(), AbilityError>) -> bool {
        &&& (!(info is Piece) ==> r == Err::<(), AbilityError>(AbilityError::WrongInfo) && after == before)
        &&& (info is Piece && !before.has_tile(from) ==> r == Err::<(), AbilityError>(AbilityError::Illegal)
            && after == before)
        &&& (info is Piece && before.has_tile(from) ==> r is Ok && after.layout_kept(before)
            && after.same_but_tiles(before) && forall|q: Pos|
            #[trigger] after.piece_at(q) == if q == from {
                info->Piece_0
            } else {
                before.piece_at(q)
            })
    }

    /// Replaces the pawn with the piece in `info`.
    pub fn apply(board: &mut Board, from: &Pos, info: Info) -> (r: Result<(), AbilityError>)
        requires
            old(board).wf(),
        ensures
            final(board).wf(),
            Self::applied(*old(board), *final(board), *from, info, r),
    {
        match info {
            Info::Piece(piece) => {
                if !board.contains(from) {
                    return Err(AbilityError::Illegal);
                }
                board.place(from, piece);
                Ok(())
            },
            _ => Err(AbilityError::WrongInfo),
        }
    }
}

/// The knight splits: a pawn of its color appears on each side of it.
pub struct Knight;

impl Knight {
    pub open spec fn spec_can_use(board: Board, from: Pos) -> bool {
        from.shifted(1, 0) is Some && from.shifted(-1, 0) is Some && board.empty_at(from.shifted(1, 0).unwrap())
            && board.empty_at(from.shifted(-1, 0).unwrap())
    }

    pub fn data(&self) -> (r: AbilityData)
        ensures
            r == (AbilityData { cooldown: Time { round: 10, turn: 0, movement: 0 }, cost: Mana(1) }),
    {
        AbilityData { cooldown: Time::rounds(10), cost: Mana(1) }
    }

    /// Whether the squares east and west of `from` are empty tiles.
    pub fn can_use(board: &Board, from: &Pos, _info: &Info) -> (r: bool)
        requires
            board.wf(),
        ensures
            r == Self::spec_can_use(*board, *from),
    {
        let e = match from.east() {
            Some(pos) => pos,
            None => return false,
        };
        let w = match from.west() {
            Some(pos) => pos,
            None => return false,
        };
        board.is_empty(&e) && board.is_empty(&w)
    }

    /// What using the ability does: the result `r` and the board `after`
    /// that it leaves from `before`.
    pub open spec fn applied(before: Board, after: Board, from: Pos, info: Info, r: Result<(), AbilityError>) -> bool {
        &&& (!(Self::spec_can_use(before, from) && color_at(before, from) is Some) ==> r
            == Err::<(), AbilityError>(AbilityError::Illegal) && after == before)
        &&& (Self::spec_can_use(before, from) && color_at(before, from) is Some ==> r is Ok
            && after.layout_kept(before) && after.same_but_tiles(before)
            && forall|q: Pos|
            #![trigger after.piece_at(q)]
            if q == from.shifted(1, 0).unwrap() || q == from.shifted(-1, 0).unwrap() {
                after.piece_at(q) matches Piece::Pawn(d) && d.fresh(color_at(before, from).unwrap())
                    && d.types.0@ == seq![Type::Biologic, Type::Transportable(2)] && d.properties.0@.len() == 0
            } else {
                after.piece_at(q) == before.piece_at(q)
            })
    }

    /// Puts a pawn of the knight's color east and west of it.
    pub fn apply(board: &mut Board, from: &Pos, info: Info) -> (r: Result<(), AbilityError>)
        requires
            old(board).wf(),
        ensures
            final(board).wf(),
            Self::applied(*old(board), *final(board), *from, info, r),
    {
        let color = match color_on(board, from) {
            Some(c) => c,
            None => return Err(AbilityError::Illegal),
        };
        if !Self::can_use(board, from, &Info::Integer(0)) {
            return Err(AbilityError::Illegal);
        }
        let e = match from.east() {
            Some(pos) => pos,
            None => return Err(AbilityError::Illegal),
        };
        let w = match from.west() {
            Some(pos) => pos,
            None => return Err(AbilityError::Illegal),
        };
        board.place(&e, Piece::pawn(color));
        board.place(&w, Piece::pawn(color));
        Ok(())
    }
}

/// The bishop steps one square along a direction.
pub struct Bishop;

impl Bishop {
    pub open spec fn spec_can_use(board: Board, from: Pos, info: Info) -> bool {
        match info {
            Info::Direction(d) => from.shifted(d.dx(), d.dy()) is Some && board.empty_at(
                from.shifted(d.dx(), d.dy()).unwrap(),
            ),
            _ => false,
        }
    }

    pub fn data(&self) -> (r: AbilityData)
        ensures
            r == (AbilityData { cooldown: Time { round: 2, turn: 0, movement: 0 }, cost: Mana(0) }),
    {
        AbilityData { cooldown: Time::rounds(2), cost: Mana(0) }
    }

    /// Whether the square one step along the direction is an empty tile.
    pub fn can_use(board: &Board, from: &Pos, info: &Info) -> (r: bool)
        requires
            board.wf(),
        ensures
            r == Self::spec_can_use(*board, *from, *info),
    {
        match info {
            Info::Direction(direction) => match from.direction_shift(direction) {
                None => false,
                Some(to) => board.is_empty(&to),
            },
            _ => false,
        }
    }

    /// What using the ability does: the result `r` and the board `after`
    /// that it leaves from `before`.
    pub open spec fn applied(before: Board, after: Board, from: Pos, info: Info, r: Result<(), AbilityError>) -> bool {
        &&& (!(info is Direction) ==> r == Err::<(), AbilityError>(AbilityError::WrongInfo) && after
            == before)
        &&& (info matches Info::Direction(d) ==> {
            let to = from.shifted(d.dx(), d.dy());
            if to is Some && before.has_tile(from) && before.has_tile(to.unwrap()) {
                r is Ok && after.layout_kept(before) && after.same_but_tiles(before)
                    && forall|q: Pos|
                    #[trigger] after.piece_at(q) == if q == to.unwrap() {
                        before.piece_at(from)
                    } else if q == from {
                        Piece::Empty
                    } else {
                        before.piece_at(q)
                    }
            } else {
                r == Err::<(), AbilityError>(AbilityError::Illegal) && after == before
            }
        })
    }

    /// Moves the bishop one square along the direction.
    pub fn apply(board: &mut Board, from: &Pos, info: Info) -> (r: Result<(), AbilityError>)
        requires
            old(board).wf(),
        ensures
            final(board).wf(),
            Self::applied(*old(board), *final(board), *from, info, r),
    {
        match info {
            Info::Direction(direction) => {
                let to = match from.direction_shift(&direction) {
                    Some(to) => to,
                    None => return Err(AbilityError::Illegal),
                };
                if !board.contains(from) || !board.contains(&to) {
                    return Err(AbilityError::Illegal);
                }
                board.move_piece(from, &to);
                Ok(())
            },
            _ => Err(AbilityError::WrongInfo),
        }
    }
}

/// Moves the piece on `from` to `to` when both are on the board.
fn jump(board: &mut Board, from: &Pos, info: Info) -> (r: Result<(), AbilityError>)
    requires
        old(board).wf(),
    ensures
        final(board).wf(),
        !(info is Pos) ==> r == Err::<(), AbilityError>(AbilityError::WrongInfo) && *final(board) == *old(board),
        info matches Info::Pos(to) ==> if old(board).has_tile(*from) && old(board).has_tile(to) {
            r is Ok && final(board).layout_kept(*old(board)) && final(board).same_but_tiles(*old(board))
                && forall|q: Pos|
                #[trigger] final(board).piece_at(q) == if q == to {
                    old(board).piece_at(*from)
                } else if q == *from {
                    Piece::Empty
                } else {
                    old(board).piece_at(q)
                }
        } else {
            r == Err::<(), AbilityError>(AbilityError::Illegal) && *final(board) == *old(board)
        },
{
    match info {
        Info::Pos(to) => {
            if !board.contains(from) || !board.contains(&to) {
                return Err(AbilityError::Illegal);
            }
            board.move_piece(from, &to);
            Ok(())
        },
        _ => Err(AbilityError::WrongInfo),
    }
}

/// The queen jumps like a knight to an empty square.
pub struct Queen;

impl Queen {
    pub open spec fn spec_can_use(board: Board, from: Pos, info: Info) -> bool {
        match info {
            Info::Pos(to) => spec_knight(from, to) && board.empty_at(to),
            _ => false,
        }
    }

    pub fn data(&self) -> (r: AbilityData)
        ensures
            r == (AbilityData { cooldown: Time { round: 5, turn: 0, movement: 0 }, cost: Mana(0) }),
    {
        AbilityData { cooldown: Time::rounds(5), cost: Mana(0) }
    }

    pub fn can_use(board: &Board, from: &Pos, info: &Info) -> (r: bool)
        requires
            board.wf(),
        ensures
            r == Self::spec_can_use(*board, *from, *info),
    {
        match info {
            Info::Pos(to) => pattern::knight(from, to) && board.is_empty(to),
            _ => false,
        }
    }

    /// What using the ability does: the result `r` and the board `after`
    /// that it leaves from `before`.
    pub open spec fn applied(before: Board, after: Board, from: Pos, info: Info, r: Result<(), AbilityError>) -> bool {
        &&& (!(info is Pos) ==> r == Err::<(), AbilityError>(AbilityError::WrongInfo) && after == before)
        &&& (info matches Info::Pos(to) ==> if before.has_tile(from) && before.has_tile(to) {
            r is Ok && after.layout_kept(before) && after.same_but_tiles(before)
                && forall|q: Pos|
                #[trigger] after.piece_at(q) == if q == to {
                    before.piece_at(from)
                } else if q == from {
                    Piece::Empty
                } else {
                    before.piece_at(q)
                }
        } else {
            r == Err::<(), AbilityError>(AbilityError::Illegal) && after == before
        })
    }

    /// Moves the queen to the position in `info`.
    pub fn apply(board: &mut Board, from: &Pos, info: Info) -> (r: Result<(), AbilityError>)
        requires
            old(board).wf(),
        ensures
            final(board).wf(),
            Self::applied(*old(board), *final(board), *from, info, r),
    {
        jump(board, from, info)
    }
}

/// The king teleports to an empty square within five.
pub struct King;

impl King {
    pub open spec fn spec_can_use(board: Board, from: Pos, info: Info) -> bool {
        match info {
            Info::Pos(to) => spec_square(from, to, 5) && board.empty_at(to),
            _ => false,
        }
    }

    pub fn data(&self) -> (r: AbilityData)
        ensures
            r == (AbilityData { cooldown: Time { round: 0, turn: 0, movement: 0 }, cost: Mana(2) }),
    {
        AbilityData { cooldown: Time::default(), cost: Mana(2) }
    }

    pub fn can_use(board: &Board, from: &Pos, info: &Info) -> (r: bool)
        requires
            board.wf(),
        ensures
            r == Self::spec_can_use(*board, *from, *info),
    {
        match info {
            Info::Pos(to) => pattern::square(from, to, 5) && board.is_empty(to),
            _ => false,
        }
    }

    /// What using the ability does: the result `r` and the board `after`
    /// that it leaves from `before`.
    pub open spec fn applied(before: Board, after: Board, from: Pos, info: Info, r: Result<(), AbilityError>) -> bool {
        &&& (!(info is Pos) ==> r == Err::<(), AbilityError>(AbilityError::WrongInfo) && after == before)
        &&& (info matches Info::Pos(to) ==> if before.has_tile(from) && before.has_tile(to) {
            r is Ok && after.layout_kept(before) && after.same_but_tiles(before)
                && forall|q: Pos|
                #[trigger] after.piece_at(q) == if q == to {
                    before.piece_at(from)
                } else if q == from {
                    Piece::Empty
                } else {
                    before.piece_at(q)
                }
        } else {
            r == Err::<(), AbilityError>(AbilityError::Illegal) && after == before
        })
    }

    /// Moves the king to the position in `info`.
    pub fn apply(board: &mut Board, from: &Pos, info: Info) -> (r: Result<(), AbilityError>)
        requires
            old(board).wf(),
        ensures
            final(board).wf(),
            Self::applied(*old(board), *final(board), *from, info, r),
    {
        jump(board, from, info)
    }
}

/// The crazy pawn makes its player draw two cards and shuffle, a turn later.
pub struct CrazyPawn;

impl CrazyPawn {
    pub fn data(&self) -> (r: AbilityData)
        ensures
            r == (AbilityData { cooldown: Time { round: 0, turn: 0, movement: 0 }, cost: Mana(0) }),
    {
        AbilityData { cooldown: Time::default(), cost: Mana(0) }
    }

    pub fn can_use(_board: &Board, _from: &Pos, _info: &Info) -> (r: bool)
        ensures
            r,
    {
        true
    }

    /// What using the ability does: the result `r` and the board `after`
    /// that it leaves from `before`.
    pub open spec fn applied(before: Board, after: Board, from: Pos, info: Info, r: Result<(), AbilityError>) -> bool {
        &&& (r is Ok)
        &&& (after.tiles == before.tiles)
        &&& (after.same_frame(before))
        &&& (after.cards == before.cards)
        &&& (after.dead_pieces == before.dead_pieces)
        &&& (after.events.events@.len() == before.events.events@.len() + 1)
        &&& (after.events.events@.drop_last() == before.events.events@)
        &&& (({
            let e = after.events.events@.last();
            let id = before.players@[before.time.turn as int].id;
            &&& e.name@ == "Crazy Pawn Cards!"@
            &&& e.time == Time { round: 0, turn: 1, movement: 0 }
            &&& e.pos is None
            &&& e.functions@ == seq![
                EventFunction::TakeCard(id),
                EventFunction::TakeCard(id),
                EventFunction::ShuffleDeck(id),
            ]
        }))
    }

    /// Schedules, for the player to move, two draws and a shuffle.
    pub fn apply(board: &mut Board, from: &Pos, info: Info) -> (r: Result<(), AbilityError>)
        requires
            old(board).wf(),
        ensures
            final(board).wf(),
            Self::applied(*old(board), *final(board), *from, info, r),
    {
        let player_id = *board.current_player().id();
        let name = String::from_str("Crazy Pawn Cards!");
        proof {
            reveal_strlit("Crazy Pawn Cards!");
            assert(name@ == "Crazy Pawn Cards!"@);
        }
        board.add_event(
            Event::new(
                name,
                vec![
                    EventFunction::TakeCard(player_id),
                    EventFunction::TakeCard(player_id),
                    EventFunction::ShuffleDeck(player_id),
                ],
            ),
        );
        proof {
            reveal_strlit("Crazy Pawn Cards!");
            assert(board.events.events@.drop_last() =~= old(board).events.events@);
        }
        Ok(())
    }
}

/// The builder raises walls on the empty squares in front of it.
pub struct Builder;

/// One of the sub-directions toward `d` leads from `from` to `q`.
pub open spec fn fronts(from: Pos, d: Direction, q: Pos) -> bool {
    exists|s: SubDirection| s.is_toward(d) && #[trigger] from.shifted(s.dx(), s.dy()) == Some(q)
}

impl Builder {
    pub fn data(&self) -> (r: AbilityData)
        ensures
            r == (AbilityData { cooldown: Time { round: 10, turn: 0, movement: 0 }, cost: Mana(0) }),
    {
        AbilityData { cooldown: Time::rounds(10), cost: Mana(0) }
    }

    pub fn can_use(_board: &Board, _from: &Pos, info: &Info) -> (r: bool)
        ensures
            r == info is Direction,
    {
        matches!(info, Info::Direction(_))
    }

    /// What using the ability does: the result `r` and the board `after`
    /// that it leaves from `before`.
    pub open spec fn applied(before: Board, after: Board, from: Pos, info: Info, r: Result<(), AbilityError>) -> bool {
        &&& (!(info is Direction) ==> r == Err::<(), AbilityError>(AbilityError::WrongInfo) && after
            == before)
        &&& (info is Direction && color_at(before, from) is None ==> r == Err::<(), AbilityError>(
            AbilityError::Illegal
        ) && after == before)
        &&& (info is Direction && color_at(before, from) is Some ==> r is Ok && after.layout_kept(before)
            && after.same_but_tiles(before) && forall|q: Pos|
            #![trigger after.piece_at(q)]
            if fronts(from, info->Direction_0, q) && before.empty_at(q) && before.tile_at(q).buildable {
                after.piece_at(q) matches Piece::Wall(w) && w.fresh(color_at(before, from).unwrap())
                    && w.types.0@ == seq![Type::Structure, Type::Impenetrable(2)]
            } else {
                after.piece_at(q) == before.piece_at(q)
            })
    }

    /// Puts a wall of the builder's color on every empty, buildable tile
    /// among the three squares toward the direction.
    pub fn apply(board: &mut Board, from: &Pos, info: Info) -> (r: Result<(), AbilityError>)
        requires
            old(board).wf(),
        ensures
            final(board).wf(),
            Self::applied(*old(board), *final(board), *from, info, r),
    {
        let dir = match info {
            Info::Direction(dir) => dir,
            _ => return Err(AbilityError::WrongInfo),
        };
        let color = match color_on(board, from) {
            Some(c) => c,
            None => return Err(AbilityError::Illegal),
        };
        let subdirs = dir.related_subdirections();
        let ghost start = *board;
        let mut k: usize = 0;
        while k < subdirs.len()
            invariant
                start == *old(board),
                start.wf(),
                board.wf(),
                k <= subdirs@.len(),
                subdirs@.len() == 3,
                subdirs@.no_duplicates(),
                forall|s: SubDirection| subdirs@.contains(s) <==> s.is_toward(dir),
                color_at(start, *from) == Some(color),
                board.layout_kept(start),
                board.same_but_tiles(start),
                forall|q: Pos|
                    #![trigger board.piece_at(q)]
                    if (exists|j: int| 0 <= j < k && #[trigger] from.shifted(subdirs@[j].dx(), subdirs@[j].dy()) == Some(q))
                        && start.empty_at(q) && start.tile_at(q).buildable {
                        board.piece_at(q) matches Piece::Wall(w) && w.fresh(color) && w.types.0@ == seq![
                            Type::Structure,
                            Type::Impenetrable(2),
                        ]
                    } else {
                        board.piece_at(q) == start.piece_at(q)
                    },
            decreases subdirs@.len() - k,
        {
            let sd = subdirs[k];
            let ghost before = *board;
            if let Some(pos) = from.subdirection_shift(&sd) {
                proof {
                    board.lemma_layout_kept(start);
                    assert forall|j: int| 0 <= j < k implies from.shifted(subdirs@[j].dx(), subdirs@[j].dy()) != Some(pos) by {
                        assert(subdirs@[j] != sd);
                    }
                }
                let free = match board.get(&pos) {
                    Some(t) => t.is_empty() && t.buildable,
                    None => false,
                };
                if free {
                    board.place(&pos, Piece::wall(color));
                    proof {
                        board.lemma_layout_kept(before);
                        before.lemma_layout_kept(start);
                    }
                }
            }
            proof {
                board.lemma_layout_kept(start);
                assert forall|q: Pos|
                    #![trigger board.piece_at(q)]
                    (exists|j: int| 0 <= j < k + 1 && #[trigger] from.shifted(subdirs@[j].dx(), subdirs@[j].dy()) == Some(q))
                        == ((exists|j: int| 0 <= j < k && #[trigger] from.shifted(subdirs@[j].dx(), subdirs@[j].dy()) == Some(q))
                        || from.shifted(sd.dx(), sd.dy()) == Some(q)) by {
                    if from.shifted(sd.dx(), sd.dy()) == Some(q) {
                        assert(from.shifted(subdirs@[k as int].dx(), subdirs@[k as int].dy()) == Some(q));
                    }
                }
            }
            k += 1;
        }
        proof {
            assert forall|q: Pos| #![trigger board.piece_at(q)]
                fronts(*from, dir, q) == (exists|j: int| 0 <= j < 3 && #[trigger] from.shifted(subdirs@[j].dx(), subdirs@[j].dy()) == Some(q)) by {
                if fronts(*from, dir, q) {
                    let s = choose|s: SubDirection| s.is_toward(dir) && #[trigger] from.shifted(s.dx(), s.dy()) == Some(q);
                    assert(subdirs@.contains(s));
                    let j = choose|j: int| 0 <= j < subdirs@.len() && subdirs@[j] == s;
                    assert(from.shifted(subdirs@[j].dx(), subdirs@[j].dy()) == Some(q));
                }
                if exists|j: int| 0 <= j < 3 && #[trigger] from.shifted(subdirs@[j].dx(), subdirs@[j].dy()) == Some(q) {
                    let j = choose|j: int| 0 <= j < 3 && #[trigger] from.shifted(subdirs@[j].dx(), subdirs@[j].dy()) == Some(q);
                    assert(subdirs@.contains(subdirs@[j]));
                }
            }
        }
        Ok(())
    }
}

/// For each tile, whether it is within `range` of `from` (as a king walks),
/// `from` itself included only when `with_from`.
fn square_mask(board: &Board, from: &Pos, range: usize, with_from: bool) -> (r: Vec<bool>)
    ensures
        r@.len() == board.tiles@.len(),
        forall|k: int|
            0 <= k < r@.len() ==> #[trigger] r@[k] == (spec_square(*from, board.tiles@[k].spec_pos(), range)
                && (with_from || board.tiles@[k].spec_pos() != *from)),
{
    let mut r: Vec<bool> = Vec::new();
    let mut i: usize = 0;
    while i < board.tiles.len()
        invariant
            i <= board.tiles@.len(),
            r@.len() == i,
            forall|k: int|
                0 <= k < i ==> #[trigger] r@[k] == (spec_square(*from, board.tiles@[k].spec_pos(), range)
                    && (with_from || board.tiles@[k].spec_pos() != *from)),
        decreases board.tiles@.len() - i,
    {
        let p = board.tiles[i].pos();
        r.push(pattern::square(from, p, range) && (with_from || *p != *from));
        i += 1;
    }
    r
}

/// The magician freezes or burns everything within four squares, as the
/// cards on the board say.
pub struct Magician;

impl Magician {
    /// The effects that the cards on the board call for: fire, then ice.
    pub open spec fn spells(board: Board) -> Seq<Effect> {
        (if board.cards.0@.contains(Card::Fire) {
            seq![Effect::Fire(Time { round: 5, turn: 0, movement: 0 })]
        } else {
            Seq::empty()
        }) + (if board.cards.0@.contains(Card::Ice) {
            seq![Effect::Ice(Time { round: 3, turn: 0, movement: 0 })]
        } else {
            Seq::empty()
        })
    }

    pub fn data(&self) -> (r: AbilityData)
        ensures
            r == (AbilityData { cooldown: Time { round: 6, turn: 0, movement: 0 }, cost: Mana(2) }),
    {
        AbilityData { cooldown: Time::rounds(6), cost: Mana(2) }
    }

    /// Whether an ice or a fire card lies on the board.
    pub fn can_use(board: &Board, _from: &Pos, _info: &Info) -> (r: bool)
        ensures
            r == (board.cards.0@.contains(Card::Ice) || board.cards.0@.contains(Card::Fire)),
    {
        let r = board.has_any_card_on_board(vec![Card::Ice, Card::Fire]);
        proof {
            let v = seq![Card::Ice, Card::Fire];
            if board.cards.0@.contains(Card::Ice) {
                assert(board.cards.0@.contains(v[0]));
            }
            if board.cards.0@.contains(Card::Fire) {
                assert(board.cards.0@.contains(v[1]));
            }
        }
        r
    }

    /// What using the ability does: the result `r` and the board `after`
    /// that it leaves from `before`.
    pub open spec fn applied(before: Board, after: Board, from: Pos, info: Info, r: Result<(), AbilityError>) -> bool {
        &&& (r is Ok)
        &&& (after.layout_kept(before))
        &&& (after.same_but_tiles(before))
        &&& (forall|q: Pos|
            #![trigger after.piece_at(q)]
            if q != from && spec_square(from, q, 4) && before.has_tile(q) {
                after.piece_at(q).gained_effects(before.piece_at(q), Self::spells(before))
            } else {
                after.piece_at(q) == before.piece_at(q)
            })
    }

    /// Gives the spells to every piece within four squares of `from`.
    pub fn apply(board: &mut Board, from: &Pos, info: Info) -> (r: Result<(), AbilityError>)
        requires
            old(board).wf(),
        ensures
            final(board).wf(),
            Self::applied(*old(board), *final(board), *from, info, r),
    {
        let has_ice = board.has_card_on_board(Card::Ice);
        let has_fire = board.has_card_on_board(Card::Fire);
        let mut added: Vec<Effect> = Vec::new();
        if has_fire {
            added.push(Effect::fire());
        }
        if has_ice {
            added.push(Effect::ice());
        }
        proof {
            assert(added@ =~= Self::spells(*board));
        }
        let mask = square_mask(board, from, 4, false);
        let ghost start = *board;
        board.add_effects_where(&mask, &added);
        proof {
            assert forall|q: Pos| start.has_tile(q) implies start.tiles@[start.index_of(q)].spec_pos() == q by {}
        }
        Ok(())
    }
}

/// The shield bearer makes itself and its neighbours impenetrable.
pub struct ShieldBearer;

impl ShieldBearer {
    pub fn data(&self) -> (r: AbilityData)
        ensures
            r == (AbilityData { cooldown: Time { round: 15, turn: 0, movement: 0 }, cost: Mana(0) }),
    {
        AbilityData { cooldown: Time::rounds(15), cost: Mana(0) }
    }

    pub fn can_use(_board: &Board, _from: &Pos, _info: &Info) -> (r: bool)
        ensures
            r,
    {
        true
    }

    /// What using the ability does: the result `r` and the board `after`
    /// that it leaves from `before`.
    pub open spec fn applied(before: Board, after: Board, from: Pos, info: Info, r: Result<(), AbilityError>) -> bool {
        &&& (r is Ok)
        &&& (after.layout_kept(before))
        &&& (after.same_but_tiles(before))
        &&& (forall|q: Pos|
            #![trigger after.piece_at(q)]
            if spec_king(from, q) && before.has_tile(q) {
                after.piece_at(q).gained_types(before.piece_at(q), seq![Type::Impenetrable(1)])
            } else {
                after.piece_at(q) == before.piece_at(q)
            })
    }

    /// Gives `Impenetrable(1)` to every piece within one square of `from`,
    /// its own included.
    pub fn apply(board: &mut Board, from: &Pos, info: Info) -> (r: Result<(), AbilityError>)
        requires
            old(board).wf(),
        ensures
            final(board).wf(),
            Self::applied(*old(board), *final(board), *from, info, r),
    {
        let mask = square_mask(board, from, 1, true);
        let ghost start = *board;
        board.add_type_where(&mask, Type::Impenetrable(1));
        proof {
            assert forall|q: Pos| start.has_tile(q) implies start.tiles@[start.index_of(q)].spec_pos() == q by {}
        }
        Ok(())
    }
}

/// The super pawn hardens itself: immune and impenetrable.
pub struct SuperPawn;

impl SuperPawn {
    pub open spec fn spec_can_use(board: Board, from: Pos) -> bool {
        !board.piece_at(from).has_type(Type::Immune) && !board.piece_at(from).has_type(Type::Impenetrable(10))
    }

    pub fn data(&self) -> (r: AbilityData)
        ensures
            r == (AbilityData { cooldown: Time { round: 10, turn: 0, movement: 0 }, cost: Mana(0) }),
    {
        AbilityData { cooldown: Time::rounds(10), cost: Mana(0) }
    }

    /// Whether the piece is neither immune nor impenetrable to strength 10.
    pub fn can_use(board: &Board, from: &Pos, _info: &Info) -> (r: bool)
        requires
            board.wf(),
        ensures
            r == Self::spec_can_use(*board, *from),
    {
        match board.get(from) {
            None => true,
            Some(tile) => !tile.piece.is_immune() && !tile.piece.is_impenetrable(&10),
        }
    }

    /// What using the ability does: the result `r` and the board `after`
    /// that it leaves from `before`.
    pub open spec fn applied(before: Board, after: Board, from: Pos, info: Info, r: Result<(), AbilityError>) -> bool {
        &&& (!before.has_tile(from) ==> r == Err::<(), AbilityError>(AbilityError::Illegal) && after
            == before)
        &&& (before.has_tile(from) ==> r is Ok && after.layout_kept(before) && after.same_but_tiles(
            before
        ) && after.piece_at(from).gained_types(
            before.piece_at(from),
            seq![Type::Immune, Type::Impenetrable(10)]
        ) && forall|q: Pos| q != from ==> #[trigger] after.piece_at(q) == before.piece_at(q))
    }

    /// Gives the piece on `from` the types `Immune` and `Impenetrable(10)`.
    pub fn apply(board: &mut Board, from: &Pos, info: Info) -> (r: Result<(), AbilityError>)
        requires
            old(board).wf(),
        ensures
            final(board).wf(),
            Self::applied(*old(board), *final(board), *from, info, r),
    {
        if !board.contains(from) {
            return Err(AbilityError::Illegal);
        }
        let mut mask: Vec<bool> = Vec::new();
        let mut i: usize = 0;
        while i < board.tiles.len()
            invariant
                i <= board.tiles@.len(),
                mask@.len() == i,
                forall|k: int| 0 <= k < i ==> #[trigger] mask@[k] == (board.tiles@[k].spec_pos() == *from),
            decreases board.tiles@.len() - i,
        {
            mask.push(*board.tiles[i].pos() == *from);
            i += 1;
        }
        let ghost start = *board;
        board.add_type_where(&mask, Type::Immune);
        let ghost mid = *board;
        proof {
            start.lemma_layout_kept(start);
            assert(start.tiles@[start.index_of(*from)].spec_pos() == *from);
        }
        board.add_type_where(&mask, Type::Impenetrable(10));
        proof {
            mid.lemma_layout_kept(start);
            board.lemma_layout_kept(mid);
            board.piece_at(*from).lemma_gained_types_trans(
                mid.piece_at(*from),
                start.piece_at(*from),
                seq![Type::Immune],
                seq![Type::Impenetrable(10)],
            );
            assert(seq![Type::Immune] + seq![Type::Impenetrable(10)] =~= seq![Type::Immune, Type::Impenetrable(10)]);
            assert forall|q: Pos| q != *from implies #[trigger] board.piece_at(q) == start.piece_at(q) by {
                if start.has_tile(q) {
                    assert(start.tiles@[start.index_of(q)].spec_pos() == q);
                }
            }
        }
        Ok(())
    }
}

/// The tesla tower schedules a blackout of the enemy structures around it.
pub struct TeslaTower;

impl TeslaTower {
    pub fn data(&self) -> (r: AbilityData)
        ensures
            r == (AbilityData { cooldown: Time { round: 10, turn: 0, movement: 0 }, cost: Mana(1) }),
    {
        AbilityData { cooldown: Time::rounds(10), cost: Mana(1) }
    }

    pub fn can_use(_board: &Board, _from: &Pos, _info: &Info) -> (r: bool)
        ensures
            r,
    {
        true
    }

    /// What using the ability does: the result `r` and the board `after`
    /// that it leaves from `before`.
    pub open spec fn applied(before: Board, after: Board, from: Pos, info: Info, r: Result<(), AbilityError>) -> bool {
        &&& (color_at(before, from) is None ==> r == Err::<(), AbilityError>(AbilityError::Illegal) && after
            == before)
        &&& (color_at(before, from) is Some ==> r is Ok && after.tiles == before.tiles
            && after.same_frame(before) && after.cards == before.cards
            && after.dead_pieces == before.dead_pieces && after.events.events@.drop_last()
            == before.events.events@ && after.events.events@.len() == before.events.events@.len() + 1
            && ({
            let e = after.events.events@.last();
            &&& e.name@ == "Tesla Tower Ability"@
            &&& e.time == Time { round: 0, turn: 2, movement: 0 }
            &&& e.pos == Some(from)
            &&& e.functions@ == seq![
                EventFunction::ApplyEffect(
                    Effect::Deactivate(Time { round: 6, turn: 0, movement: 0 }),
                    from,
                    FilterFunction::Trio(
                        Box::new(FilterFunction::Square(3)),
                        Box::new(FilterFunction::IsType(Type::Structure)),
                        Box::new(FilterFunction::IsNotColor(color_at(before, from).unwrap())),
                    ),
                ),
            ]
        }))
    }

    /// Schedules, two turns later, six rounds of deactivation for every enemy
    /// structure within three squares.
    pub fn apply(board: &mut Board, from: &Pos, info: Info) -> (r: Result<(), AbilityError>)
        requires
            old(board).wf(),
        ensures
            final(board).wf(),
            Self::applied(*old(board), *final(board), *from, info, r),
    {
        let color = match color_on(board, from) {
            Some(c) => c,
            None => return Err(AbilityError::Illegal),
        };
        let name = String::from_str("Tesla Tower Ability");
        proof {
            reveal_strlit("Tesla Tower Ability");
            assert(name@ == "Tesla Tower Ability"@);
        }
        board.add_event(
            Event::full(
                name,
                Time::turns(2),
                *from,
                vec![
                    EventFunction::ApplyEffect(
                        Effect::Deactivate(Time::rounds(6)),
                        *from,
                        FilterFunction::trio(
                            FilterFunction::Square(3),
                            FilterFunction::IsType(Type::Structure),
                            FilterFunction::IsNotColor(color),
                        ),
                    ),
                ],
            ),
        );
        proof {
            assert(board.events.events@.drop_last() =~= old(board).events.events@);
            let e = board.events.events@.last();
            assert(e.name@ == "Tesla Tower Ability"@);
            assert(e.time == Time { round: 0, turn: 2, movement: 0 });
            assert(e.pos == Some(*from));
            assert(color_at(*old(board), *from) == Some(color));
            assert(e.functions@ == seq![
                EventFunction::ApplyEffect(
                    Effect::Deactivate(Time { round: 6, turn: 0, movement: 0 }),
                    *from,
                    FilterFunction::Trio(
                        Box::new(FilterFunction::Square(3)),
                        Box::new(FilterFunction::IsType(Type::Structure)),
                        Box::new(FilterFunction::IsNotColor(color)),
                    ),
                ),
            ]);
            assert(board.tiles == old(board).tiles);
            assert(board.same_frame(*old(board)));
        }
        Ok(())
    }
}

/// The portal's ability is still to be designed.
pub struct Portal;

impl Portal {
    pub fn data(&self) -> (r: AbilityData)
        ensures
            r == (AbilityData { cooldown: Time { round: 0, turn: 1, movement: 0 }, cost: Mana(0) }),
    {
        AbilityData { cooldown: Time::turns(1), cost: Mana(0) }
    }

    pub fn can_use(_board: &Board, _from: &Pos, _info: &Info) -> (r: bool)
        ensures
            r,
    {
        true
    }

    /// What using the ability does: the result `r` and the board `after`
    /// that it leaves from `before`.
    pub open spec fn applied(before: Board, after: Board, from: Pos, info: Info, r: Result<(), AbilityError>) -> bool {
        &&& (r == Err::<(), AbilityError>(AbilityError::NotImplemented))
        &&& (after == before)
    }

    /// Leaves the board as it is and says that nothing is defined yet.
    pub fn apply(board: &mut Board, from: &Pos, info: Info) -> (r: Result<(), AbilityError>)
        requires
            old(board).wf(),
        ensures
            final(board).wf(),
            Self::applied(*old(board), *final(board), *from, info, r),
    {
        Err(AbilityError::NotImplemented)
    }
}

/// The warlock opens portals on the magic squares around it.
pub struct Warlock;

impl Warlock {
    /// An empty, buildable, magic tile next to `from`.
    pub open spec fn portal_site(board: Board, from: Pos, q: Pos) -> bool {
        q != from && spec_king(from, q) && board.has_tile(q) && board.tile_at(q).piece is Empty
            && board.tile_at(q).buildable && board.tile_at(q).magic
    }

    pub fn data(&self) -> (r: AbilityData)
        ensures
            r == (AbilityData { cooldown: Time { round: 5, turn: 0, movement: 0 }, cost: Mana(3) }),
    {
        AbilityData { cooldown: Time::rounds(5), cost: Mana(3) }
    }

    /// Whether some tile next to `from` can take a portal.
    pub fn can_use(board: &Board, from: &Pos, _info: &Info) -> (r: bool)
        requires
            board.wf(),
        ensures
            r == exists|q: Pos| #[trigger] Self::portal_site(*board, *from, q),
    {
        let mut i: usize = 0;
        while i < board.tiles.len()
            invariant
                board.wf(),
                i <= board.tiles@.len(),
                forall|k: int| 0 <= k < i ==> !#[trigger] Self::portal_site(*board, *from, board.tiles@[k].spec_pos()),
            decreases board.tiles@.len() - i,
        {
            let t = &board.tiles[i];
            proof {
                board.lemma_index_of(i as int);
            }
            if *t.pos() != *from && pattern::king(from, t.pos()) && t.is_empty() && t.buildable && t.magic {
                assert(Self::portal_site(*board, *from, t.spec_pos()));
                return true;
            }
            i += 1;
        }
        proof {
            assert forall|q: Pos| !#[trigger] Self::portal_site(*board, *from, q) by {
                if Self::portal_site(*board, *from, q) {
                    let k = board.index_of(q);
                    assert(board.tiles@[k].spec_pos() == q);
                }
            }
        }
        false
    }

    /// What using the ability does: the result `r` and the board `after`
    /// that it leaves from `before`.
    pub open spec fn applied(before: Board, after: Board, from: Pos, info: Info, r: Result<(), AbilityError>) -> bool {
        &&& (color_at(before, from) is None ==> r == Err::<(), AbilityError>(AbilityError::Illegal) && after
            == before)
        &&& (color_at(before, from) is Some ==> r is Ok && after.layout_kept(before)
            && after.same_but_tiles(before) && forall|q: Pos|
            #![trigger after.piece_at(q)]
            if Self::portal_site(before, from, q) {
                after.piece_at(q) matches Piece::Portal(d) && d.fresh(color_at(before, from).unwrap())
                    && d.types.0@ == seq![Type::Structure]
            } else {
                after.piece_at(q) == before.piece_at(q)
            })
    }

    /// Puts a portal of the warlock's color on every such tile.
    pub fn apply(board: &mut Board, from: &Pos, info: Info) -> (r: Result<(), AbilityError>)
        requires
            old(board).wf(),
        ensures
            final(board).wf(),
            Self::applied(*old(board), *final(board), *from, info, r),
    {
        let color = match color_on(board, from) {
            Some(c) => c,
            None => return Err(AbilityError::Illegal),
        };
        let ghost start = *board;
        let mut i: usize = 0;
        while i < board.tiles.len()
            invariant
                start == *old(board),
                start.wf(),
                i <= board.tiles@.len(),
                board.layout_kept(start),
                board.same_but_tiles(start),
                forall|k: int|
                    0 <= k < board.tiles@.len() ==> if k < i && Self::portal_site(start, *from, start.tiles@[k].spec_pos()) {
                        (#[trigger] board.tiles@[k]).piece matches Piece::Portal(d) && d.fresh(color)
                            && d.types.0@ == seq![Type::Structure]
                    } else {
                        board.tiles@[k] == start.tiles@[k]
                    },
            decreases board.tiles@.len() - i,
        {
            proof {
                start.lemma_index_of(i as int);
            }
            let t = &board.tiles[i];
            if *t.pos() != *from && pattern::king(from, t.pos()) && t.is_empty() && t.buildable && t.magic {
                let ghost before = board.tiles@;
                board.tiles[i].replace(Piece::portal(color));
                proof {
                    assert(board.tiles@ == before.update(i as int, board.tiles@[i as int]));
                }
            }
            i += 1;
        }
        proof {
            board.lemma_layout_kept(start);
            assert forall|q: Pos| start.has_tile(q) implies start.tiles@[start.index_of(q)].spec_pos() == q by {}
        }
        Ok(())
    }
}

/// The paladin attacks, protects or revives, as the cards on the board allow.
pub struct Paladin;

impl Paladin {
    pub open spec fn spec_can_use(board: Board, from: Pos, info: Info) -> bool {
        match info {
            Info::PaladinAbilityInfo(PaladinAbilityType::Attack(to)) => board.cards.0@.contains(Card::AttackDemonic)
                && board.occupied_at(to) && !(board.has_tile(from) && board.has_tile(to)
                && board.piece_at(from).color_of() == board.piece_at(to).color_of()),
            Info::PaladinAbilityInfo(PaladinAbilityType::Invulnerability(to)) => board.cards.0@.contains(
                Card::Invulnerability,
            ) && board.occupied_at(to) && board.has_tile(from) && board.has_tile(to) && board.piece_at(from).color_of()
                == board.piece_at(to).color_of(),
            Info::PaladinAbilityInfo(PaladinAbilityType::Revive(to)) => board.cards.0@.contains(Card::Revive)
                && board.empty_at(to),
            _ => false,
        }
    }

    pub fn data(&self) -> (r: AbilityData)
        ensures
            r == (AbilityData { cooldown: Time { round: 8, turn: 0, movement: 0 }, cost: Mana(2) }),
    {
        AbilityData { cooldown: Time::rounds(8), cost: Mana(2) }
    }

    pub fn can_use(board: &Board, from: &Pos, info: &Info) -> (r: bool)
        requires
            board.wf(),
        ensures
            r == Self::spec_can_use(*board, *from, *info),
    {
        match info {
            Info::PaladinAbilityInfo(ability_type) => match ability_type {
                PaladinAbilityType::Attack(to) => board.has_card_on_board(Card::AttackDemonic) && board.has_piece(to)
                    && !board.same_color(from, to),
                PaladinAbilityType::Invulnerability(to) => board.has_card_on_board(Card::Invulnerability)
                    && board.has_piece(to) && board.same_color(from, to),
                PaladinAbilityType::Revive(to) => board.has_card_on_board(Card::Revive) && board.is_empty(to),
            },
            _ => false,
        }
    }

    /// What using the ability does: the result `r` and the board `after`
    /// that it leaves from `before`.
    pub open spec fn applied(before: Board, after: Board, from: Pos, info: Info, r: Result<(), AbilityError>) -> bool {
        &&& (!(info is PaladinAbilityInfo) ==> r == Err::<(), AbilityError>(AbilityError::WrongInfo) && after
            == before)
        &&& (info matches Info::PaladinAbilityInfo(PaladinAbilityType::Attack(to)) ==> if before.has_tile(to) {
            r is Ok && after.layout_kept(before) && after.same_frame(before)
                && after.dead_pieces@ == crate::board::buried(before.dead_pieces@, before.piece_at(to))
                && forall|q: Pos|
                #[trigger] after.piece_at(q) == if q == to {
                    Piece::Empty
                } else {
                    before.piece_at(q)
                }
        } else {
            r == Err::<(), AbilityError>(AbilityError::Illegal) && after == before
        })
        &&& (info matches Info::PaladinAbilityInfo(PaladinAbilityType::Invulnerability(to)) ==> if before.piece_at(
            to
        ).data_of() is Some {
            r is Ok && after.layout_kept(before) && after.same_but_tiles(before)
                && after.piece_at(to).gained_effects(
                before.piece_at(to),
                seq![Effect::Invulnerability(Time { round: 5, turn: 0, movement: 0 })],
            ) && forall|q: Pos| q != to ==> #[trigger] after.piece_at(q) == before.piece_at(q)
        } else {
            r == Err::<(), AbilityError>(AbilityError::Illegal) && after == before
        })
        &&& (info matches Info::PaladinAbilityInfo(PaladinAbilityType::Revive(to)) ==> if before.has_tile(to)
            && color_at(before, from) is Some {
            r is Ok && after.layout_kept(before) && after.same_frame(before) && ({
                let c = color_at(before, from).unwrap();
                match before.last_dead_index(c) {
                    None => after.dead_pieces@ == before.dead_pieces@ && after.piece_at(to) is Empty,
                    Some(i) => after.dead_pieces@ == before.dead_pieces@.remove(i) && after.piece_at(
                        to,
                    ) == before.dead_pieces@[i],
                }
            }) && forall|q: Pos| q != to ==> #[trigger] after.piece_at(q) == before.piece_at(q)
        } else {
            r == Err::<(), AbilityError>(AbilityError::Illegal) && after == before
        })
    }

    /// Attack: the piece on the target dies. Invulnerability: the piece on
    /// the target gets five rounds of invulnerability. Revive: the most
    /// recently killed piece of the paladin's color comes back on the target.
    pub fn apply(board: &mut Board, from: &Pos, info: Info) -> (r: Result<(), AbilityError>)
        requires
            old(board).wf(),
        ensures
            final(board).wf(),
            Self::applied(*old(board), *final(board), *from, info, r),
    {
        let ability_type = match info {
            Info::PaladinAbilityInfo(t) => t,
            _ => return Err(AbilityError::WrongInfo),
        };
        match ability_type {
            PaladinAbilityType::Attack(to) => {
                if !board.contains(&to) {
                    return Err(AbilityError::Illegal);
                }
                board.attack_piece(from, &to);
                Ok(())
            },
            PaladinAbilityType::Invulnerability(to) => protect(board, &to),
            PaladinAbilityType::Revive(to) => {
                if !board.contains(&to) {
                    return Err(AbilityError::Illegal);
                }
                let color = match color_on(board, from) {
                    Some(c) => c,
                    None => return Err(AbilityError::Illegal),
                };
                let revived = board.remove_last_dead_with_color(&color);
                board.place(&to, revived);
                Ok(())
            },
        }
    }
}

/// Gives the piece on `to` five rounds of invulnerability.
fn protect(board: &mut Board, to: &Pos) -> (r: Result<(), AbilityError>)
    requires
        old(board).wf(),
    ensures
        final(board).wf(),
        if old(board).piece_at(*to).data_of() is Some {
            r is Ok && final(board).layout_kept(*old(board)) && final(board).same_but_tiles(*old(board))
                && final(board).piece_at(*to).gained_effects(
                old(board).piece_at(*to),
                seq![Effect::Invulnerability(Time { round: 5, turn: 0, movement: 0 })],
            ) && forall|q: Pos| q != *to ==> #[trigger] final(board).piece_at(q) == old(board).piece_at(q)
        } else {
            r == Err::<(), AbilityError>(AbilityError::Illegal) && *final(board) == *old(board)
        },
{
    match board.get(to) {
        None => return Err(AbilityError::Illegal),
        Some(t) => {
            if t.piece.data().is_none() {
                return Err(AbilityError::Illegal);
            }
        },
    }
    let mut mask: Vec<bool> = Vec::new();
    let mut i: usize = 0;
    while i < board.tiles.len()
        invariant
            i <= board.tiles@.len(),
            mask@.len() == i,
            forall|k: int| 0 <= k < i ==> #[trigger] mask@[k] == (board.tiles@[k].spec_pos() == *to),
        decreases board.tiles@.len() - i,
    {
        mask.push(*board.tiles[i].pos() == *to);
        i += 1;
    }
    let ghost start = *board;
    proof {
        start.lemma_index_of(start.index_of(*to));
    }
    let added = vec![Effect::Invulnerability(Time::rounds(5))];
    proof {
        assert(mask@[start.index_of(*to)]);
        assert(added@ =~= seq![Effect::Invulnerability(Time { round: 5, turn: 0, movement: 0 })]);
    }
    board.add_effects_where(&mask, &added);
    proof {
        assert forall|q: Pos| q != *to implies #[trigger] board.piece_at(q) == start.piece_at(q) by {
            if start.has_tile(q) {
                assert(start.tiles@[start.index_of(q)].spec_pos() == q);
            }
        }
    }
    Ok(())
}

/// The catapult throws an adjacent light piece along a direction.
pub struct Catapult;

impl Catapult {
    /// The square `n` steps from `from` along `d`.
    pub open spec fn landing(from: Pos, d: Direction, n: usize) -> Option<Pos> {
        from.shifted(d.dx() * n, d.dy() * n)
    }

    pub open spec fn spec_can_use(board: Board, from: Pos, info: Info) -> bool {
        match Self::trio_parts(info) {
            Some((d, sd, n)) => {
                let src = from.shifted(sd.dx(), sd.dy());
                let dst = Self::landing(from, d, n);
                src is Some && board.has_tile(src.unwrap()) && board.piece_at(src.unwrap()).has_type(
                    Type::Transportable(5),
                ) && dst is Some && board.empty_at(dst.unwrap())
            },
            None => false,
        }
    }

    pub fn data(&self) -> (r: AbilityData)
        ensures
            r == (AbilityData { cooldown: Time { round: 2, turn: 0, movement: 0 }, cost: Mana(0) }),
    {
        AbilityData { cooldown: Time::rounds(2), cost: Mana(0) }
    }

    /// The (direction, sub-direction, distance) that the argument holds.
    pub open spec fn trio_parts(info: Info) -> Option<(Direction, SubDirection, usize)> {
        match info {
            Info::Trio(a, b, c) => match (*a, *b, *c) {
                (Info::Direction(d), Info::SubDirection(sd), Info::Integer(n)) => Some((d, sd, n)),
                _ => None,
            },
            _ => None,
        }
    }

    /// Reads a (direction, sub-direction, distance) argument.
    fn parts(info: &Info) -> (r: Option<(Direction, SubDirection, usize)>)
        ensures
            r == Self::trio_parts(*info),
    {
        match info {
            Info::Trio(a, b, c) => match (&**a, &**b, &**c) {
                (Info::Direction(d), Info::SubDirection(sd), Info::Integer(n)) => Some((*d, *sd, *n)),
                _ => None,
            },
            _ => None,
        }
    }

    /// The square `n` steps from `from` along `d`.
    fn land(from: &Pos, d: &Direction, n: usize) -> (r: Option<Pos>)
        ensures
            r == Self::landing(*from, *d, n),
    {
        let (dx, dy) = d.offset();
        match d {
            Direction::N => if n <= usize::MAX - from.y { Some(Pos::new(from.x, from.y + n)) } else { None },
            Direction::S => if n <= from.y { Some(Pos::new(from.x, from.y - n)) } else { None },
            Direction::E => if n <= usize::MAX - from.x { Some(Pos::new(from.x + n, from.y)) } else { None },
            Direction::W => if n <= from.x { Some(Pos::new(from.x - n, from.y)) } else { None },
        }
    }

    /// Whether the piece next to the catapult along the sub-direction weighs
    /// at most 5 and the landing square is an empty tile.
    pub fn can_use(board: &Board, from: &Pos, info: &Info) -> (r: bool)
        requires
            board.wf(),
        ensures
            r == Self::spec_can_use(*board, *from, *info),
    {
        let (d, sd, n) = match Self::parts(info) {
            Some(p) => p,
            None => return false,
        };
        let src = match from.subdirection_shift(&sd) {
            Some(p) => p,
            None => return false,
        };
        let transportable = match board.get(&src) {
            None => false,
            Some(tile) => tile.piece.is_transportable(&5),
        };
        if !transportable {
            return false;
        }
        match Self::land(from, &d, n) {
            None => false,
            Some(dst) => board.is_empty(&dst),
        }
    }

    /// What using the ability does: the result `r` and the board `after`
    /// that it leaves from `before`.
    pub open spec fn applied(before: Board, after: Board, from: Pos, info: Info, r: Result<(), AbilityError>) -> bool {
        &&& (Self::trio_parts(info) is None ==> r == Err::<(), AbilityError>(AbilityError::WrongInfo) && after
            == before)
        &&& (Self::trio_parts(info) matches Some((d, sd, n)) ==> {
            let src = from.shifted(sd.dx(), sd.dy());
            let dst = Self::landing(from, d, n);
            if src is Some && dst is Some && before.has_tile(src.unwrap()) && before.has_tile(dst.unwrap()) {
                r is Ok && after.layout_kept(before) && after.same_but_tiles(before)
                    && forall|q: Pos|
                    #[trigger] after.piece_at(q) == if q == dst.unwrap() {
                        before.piece_at(src.unwrap())
                    } else if q == src.unwrap() {
                        Piece::Empty
                    } else {
                        before.piece_at(q)
                    }
            } else {
                r == Err::<(), AbilityError>(AbilityError::Illegal) && after == before
            }
        })
    }

    /// Moves the piece next to the catapult to the landing square.
    pub fn apply(board: &mut Board, from: &Pos, info: Info) -> (r: Result<(), AbilityError>)
        requires
            old(board).wf(),
        ensures
            final(board).wf(),
            Self::applied(*old(board), *final(board), *from, info, r),
    {
        let (d, sd, n) = match Self::parts(&info) {
            Some(p) => p,
            None => return Err(AbilityError::WrongInfo),
        };
        let src = match from.subdirection_shift(&sd) {
            Some(p) => p,
            None => return Err(AbilityError::Illegal),
        };
        let dst = match Self::land(from, &d, n) {
            Some(p) => p,
            None => return Err(AbilityError::Illegal),
        };
        if !board.contains(&src) || !board.contains(&dst) {
            return Err(AbilityError::Illegal);
        }
        board.move_piece(&src, &dst);
        Ok(())
    }
}

/// The ship fires a broadside: it attacks the three squares east of it and
/// the three squares west of it.
pub struct Ship;

/// The squares a broadside from `from` hits, in firing order: north-east,
/// east, south-east, south-west, west, north-west.
pub open spec fn broadside(from: Pos) -> Seq<Option<Pos>> {
    seq![
        from.shifted(1, 1),
        from.shifted(1, 0),
        from.shifted(1, -1),
        from.shifted(-1, -1),
        from.shifted(-1, 0),
        from.shifted(-1, 1),
    ]
}

/// The pieces on the squares `ts` of the board, in order, skipping squares
/// off the board and empty ones.
pub open spec fn victims(board: Board, ts: Seq<Option<Pos>>) -> Seq<Piece>
    decreases ts.len(),
{
    if ts.len() == 0 {
        Seq::empty()
    } else {
        victims(board, ts.drop_last()) + if ts.last() is Some && board.has_tile(ts.last().unwrap()) && !(board.piece_at(
            ts.last().unwrap(),
        ) is Empty) {
            seq![board.piece_at(ts.last().unwrap())]
        } else {
            Seq::empty()
        }
    }
}

impl Ship {
    pub fn data(&self) -> (r: AbilityData)
        ensures
            r == (AbilityData { cooldown: Time { round: 12, turn: 0, movement: 0 }, cost: Mana(0) }),
    {
        AbilityData { cooldown: Time::rounds(12), cost: Mana(0) }
    }

    pub fn can_use(_board: &Board, _from: &Pos, _info: &Info) -> (r: bool)
        ensures
            r,
    {
        true
    }

    /// What using the ability does: the result `r` and the board `after`
    /// that it leaves from `before`.
    pub open spec fn applied(before: Board, after: Board, from: Pos, info: Info, r: Result<(), AbilityError>) -> bool {
        &&& (r is Ok)
        &&& (after.layout_kept(before))
        &&& (after.same_frame(before))
        &&& (after.cards == before.cards)
        &&& (after.events == before.events)
        &&& (after.dead_pieces@ == before.dead_pieces@ + victims(before, broadside(from)))
        &&& (forall|q: Pos|
            #[trigger] after.piece_at(q) == if broadside(from).contains(Some(q)) {
                Piece::Empty
            } else {
                before.piece_at(q)
            })
    }

    /// Kills whatever stands on the six squares of the broadside, friend or
    /// foe, and puts it on the dead pile in firing order.
    pub fn apply(board: &mut Board, from: &Pos, info: Info) -> (r: Result<(), AbilityError>)
        requires
            old(board).wf(),
        ensures
            final(board).wf(),
            Self::applied(*old(board), *final(board), *from, info, r),
    {
        let mut subdirs = Direction::E.related_subdirections();
        let mut west = Direction::W.related_subdirections();
        subdirs.append(&mut west);
        let ghost start = *board;
        let ghost ts = broadside(*from);
        proof {
            assert forall|a: int, b: int| 0 <= a < 6 && 0 <= b < 6 && a != b && ts[a] is Some implies ts[a] != ts[b] by {}
        }
        let mut k: usize = 0;
        while k < subdirs.len()
            invariant
                start == *old(board),
                start.wf(),
                board.wf(),
                subdirs@.len() == 6,
                ts == broadside(*from),
                forall|a: int, b: int| 0 <= a < 6 && 0 <= b < 6 && a != b && ts[a] is Some ==> ts[a] != ts[b],
                forall|j: int| 0 <= j < 6 ==> ts[j] == from.shifted(#[trigger] subdirs@[j].dx(), subdirs@[j].dy()),
                k <= 6,
                board.layout_kept(start),
                board.same_frame(start),
                board.cards == start.cards,
                board.events == start.events,
                board.dead_pieces@ == start.dead_pieces@ + victims(start, ts.take(k as int)),
                forall|q: Pos|
                    #[trigger] board.piece_at(q) == if ts.take(k as int).contains(Some(q)) {
                        Piece::Empty
                    } else {
                        start.piece_at(q)
                    },
            decreases 6 - k,
        {
            let sd = subdirs[k];
            let ghost before = *board;
            proof {
                assert(ts.take(k + 1).drop_last() == ts.take(k as int));
                assert(ts.take(k + 1).last() == ts[k as int]);
                assert forall|q: Pos| ts.take(k + 1).contains(Some(q)) <==> (ts.take(k as int).contains(Some(q)) || ts[k as int] == Some(q)) by {
                    assert(ts.take(k + 1) == ts.take(k as int).push(ts[k as int]));
                    crate::lemma_push_contains(ts.take(k as int), ts[k as int], Some(q));
                }
                if ts[k as int] is Some {
                    let p = ts[k as int].unwrap();
                    if ts.take(k as int).contains(Some(p)) {
                        let j = choose|j: int| 0 <= j < k && ts.take(k as int)[j] == Some(p);
                        assert(ts[j] == ts[k as int]);
                    }
                }
                board.lemma_layout_kept(start);
            }
            if let Some(attack_point) = from.subdirection_shift(&sd) {
                board.attack_piece(from, &attack_point);
                proof {
                    board.lemma_layout_kept(before);
                }
            }
            proof {
                assert(board.dead_pieces@ =~= start.dead_pieces@ + victims(start, ts.take(k + 1)));
            }
            k += 1;
        }
        proof {
            assert(ts.take(6) == ts);
        }
        Ok(())
    }
}

/// The four neighbours of `p` (north, east, south, west).
pub open spec fn adjacent(p: Pos, q: Pos) -> bool {
    p.shifted(0, 1) == Some(q) || p.shifted(1, 0) == Some(q) || p.shifted(0, -1) == Some(q) || p.shifted(-1, 0)
        == Some(q)
}

/// A rook of `color` stands on `q`.
pub open spec fn rook_at(board: Board, q: Pos, color: Color) -> bool {
    board.has_tile(q) && board.piece_at(q) is Rook && board.piece_at(q).color_of() == Some(color)
}

fn has_pos(v: &Vec<Pos>, p: &Pos) -> (r: bool)
    ensures
        r == v@.contains(*p),
{
    let mut i: usize = 0;
    while i < v.len()
        invariant
            i <= v@.len(),
            forall|k: int| 0 <= k < i ==> v@[k] != *p,
        decreases v@.len() - i,
    {
        if v[i] == *p {
            return true;
        }
        i += 1;
    }
    false
}

/// Adds to `group` the rooks of `color` among the neighbours of `p` that it
/// lacks.
fn add_rook_neighbours(board: &Board, p: &Pos, color: Color, group: &mut Vec<Pos>)
    requires
        board.wf(),
        old(group)@.no_duplicates(),
        forall|k: int| 0 <= k < old(group)@.len() ==> rook_at(*board, #[trigger] old(group)@[k], color),
    ensures
        final(group)@.no_duplicates(),
        forall|k: int| 0 <= k < final(group)@.len() ==> rook_at(*board, #[trigger] final(group)@[k], color),
        old(group)@.len() <= final(group)@.len(),
        final(group)@.subrange(0, old(group)@.len() as int) == old(group)@,
        forall|q: Pos| adjacent(*p, q) && rook_at(*board, q, color) ==> #[trigger] final(group)@.contains(q),
        forall|q: Pos| #[trigger] final(group)@.contains(q) ==> old(group)@.contains(q) || (adjacent(*p, q) && rook_at(*board, q, color)),
        forall|k: int| old(group)@.len() <= k < final(group)@.len() ==> adjacent(*p, #[trigger] final(group)@[k]),
{
    let ns = board.nearby_positions(p);
    let mut j: usize = 0;
    while j < ns.len()
        invariant
            board.wf(),
            j <= ns@.len(),
            forall|q: Pos| ns@.contains(q) <==> (board.has_tile(q) && adjacent(*p, q)),
            group@.no_duplicates(),
            forall|k: int| 0 <= k < group@.len() ==> rook_at(*board, #[trigger] group@[k], color),
            old(group)@.len() <= group@.len(),
            group@.subrange(0, old(group)@.len() as int) == old(group)@,
            forall|k: int| 0 <= k < j && rook_at(*board, #[trigger] ns@[k], color) ==> group@.contains(ns@[k]),
            forall|k: int| old(group)@.len() <= k < group@.len() ==> adjacent(*p, #[trigger] group@[k]),
            forall|q: Pos| #[trigger] group@.contains(q) ==> old(group)@.contains(q) || (adjacent(*p, q) && rook_at(*board, q, color)),
        decreases ns@.len() - j,
    {
        let q = ns[j];
        assert(ns@.contains(q));
        let is_rook = match board.get(&q) {
            Some(t) => t.has_rook() && t.is_controlled_by(&color),
            None => false,
        };
        if is_rook && !has_pos(group, &q) {
            let ghost before = group@;
            group.push(q);
            proof {
                assert forall|x: Pos| #[trigger] group@.contains(x) <==> (before.contains(x) || x == q) by {
                    crate::lemma_push_contains(before, q, x);
                }
                assert(group@.subrange(0, old(group)@.len() as int) =~= before.subrange(0, old(group)@.len() as int));
            }
        }
        j += 1;
    }
    proof {
        assert forall|q: Pos| adjacent(*p, q) && rook_at(*board, q, color) implies #[trigger] group@.contains(q) by {
            assert(ns@.contains(q));
            let k = choose|k: int| 0 <= k < ns@.len() && ns@[k] == q;
        }
    }
}

/// Each position of `g` is next to `from` or to an earlier one.
pub open spec fn joined(from: Pos, g: Seq<Pos>) -> bool {
    forall|k: int|
        0 <= k < g.len() ==> adjacent(from, #[trigger] g[k]) || exists|m: int| 0 <= m < k && adjacent(g[m], g[k])
}

/// `g` is the group of rooks that a rook throw from `from` gathers: rooks of
/// `color`, each once, each joined to `from` through the others, and every
/// rook of `color` next to `from` or to a member is in it.
pub open spec fn rook_group_of(board: Board, from: Pos, color: Color, g: Seq<Pos>) -> bool {
    &&& g.no_duplicates()
    &&& forall|k: int| 0 <= k < g.len() ==> rook_at(board, #[trigger] g[k], color)
    &&& joined(from, g)
    &&& forall|q: Pos| adjacent(from, q) && rook_at(board, q, color) ==> #[trigger] g.contains(q)
    &&& forall|k: int, q: Pos| 0 <= k < g.len() && #[trigger] adjacent(g[k], q) && rook_at(board, q, color) ==> g.contains(q)
}

/// `after` is `before` once the piece on `p` slid along (dx, dy) to the last
/// of the empty squares before it (staying when there is none).
pub open spec fn slid(after: Board, before: Board, p: Pos, dx: int, dy: int) -> bool {
    exists|n: nat|
        #![trigger free_run(before, p, dx, dy, n)]
        free_run(before, p, dx, dy, n) && if n == 0 {
            after == before
        } else {
            after.moved_from(before, p, ray_step(p, dx, dy, n).unwrap())
        }
}

/// The rooks of `color` joined to `from` through neighbouring rooks of
/// `color`: every such rook next to `from` or to a member is a member.
fn rook_group(board: &Board, from: &Pos, color: Color) -> (r: Vec<Pos>)
    requires
        board.wf(),
    ensures
        r@.no_duplicates(),
        forall|k: int| 0 <= k < r@.len() ==> rook_at(*board, #[trigger] r@[k], color),
        forall|q: Pos| adjacent(*from, q) && rook_at(*board, q, color) ==> #[trigger] r@.contains(q),
        forall|k: int, q: Pos| 0 <= k < r@.len() && #[trigger] adjacent(r@[k], q) && rook_at(*board, q, color) ==> r@.contains(q),
        joined(*from, r@),
{
    let mut group: Vec<Pos> = Vec::new();
    add_rook_neighbours(board, from, color, &mut group);
    let mut i: usize = 0;
    proof {
        board.lemma_distinct_tiles_bound(group@);
    }
    while i < group.len()
        invariant
            board.wf(),
            i <= group@.len(),
            group@.len() <= board.tiles@.len(),
            group@.no_duplicates(),
            forall|k: int| 0 <= k < group@.len() ==> rook_at(*board, #[trigger] group@[k], color),
            forall|q: Pos| adjacent(*from, q) && rook_at(*board, q, color) ==> #[trigger] group@.contains(q),
            forall|k: int, q: Pos| 0 <= k < i && #[trigger] adjacent(group@[k], q) && rook_at(*board, q, color) ==> group@.contains(q),
            joined(*from, group@),
        decreases board.tiles@.len() - i,
    {
        let p = group[i];
        let ghost before = group@;
        add_rook_neighbours(board, &p, color, &mut group);
        proof {
            board.lemma_distinct_tiles_bound(group@);
            assert forall|k: int| 0 <= k < i + 1 implies group@[k] == before[k] by {
                assert(group@.subrange(0, before.len() as int)[k] == before[k]);
            }
            assert forall|q: Pos| before.contains(q) implies group@.contains(q) by {
                let k = choose|k: int| 0 <= k < before.len() && before[k] == q;
                assert(group@.subrange(0, before.len() as int)[k] == before[k]);
            }
            assert forall|q: Pos| adjacent(*from, q) && rook_at(*board, q, color) implies #[trigger] group@.contains(q) by {
                assert(before.contains(q));
            }
            assert forall|k: int| 0 <= k < group@.len() implies adjacent(*from, #[trigger] group@[k]) || exists|m: int|
                0 <= m < k && adjacent(group@[m], group@[k]) by {
                if k < before.len() {
                    assert(group@.subrange(0, before.len() as int)[k] == before[k]);
                    if !adjacent(*from, before[k]) {
                        let m = choose|m: int| 0 <= m < k && adjacent(before[m], before[k]);
                        assert(group@.subrange(0, before.len() as int)[m] == before[m]);
                    }
                } else {
                    assert(adjacent(group@[i as int], group@[k]));
                }
            }
            assert forall|k: int, q: Pos| 0 <= k < i + 1 && #[trigger] adjacent(group@[k], q) && rook_at(*board, q, color) implies group@.contains(q) by {
                if k < i {
                    assert(adjacent(before[k], q));
                    assert(before.contains(q));
                }
            }
        }
        i += 1;
    }
    group
}

/// How near to the edge in direction `d` the square `p` lies: the smaller,
/// the nearer.
pub open spec fn edge_rank(d: Direction, p: Pos) -> int {
    match d {
        Direction::N => -(p.y as int),
        Direction::E => -(p.x as int),
        Direction::S => p.y as int,
        Direction::W => p.x as int,
    }
}

/// Whether `a` lies at least as near to the edge in direction `d` as `b`.
fn nearer_edge(d: &Direction, a: &Pos, b: &Pos) -> (r: bool)
    ensures
        r == (edge_rank(*d, *a) <= edge_rank(*d, *b)),
{
    match d {
        Direction::N => a.y >= b.y,
        Direction::E => a.x >= b.x,
        Direction::S => a.y <= b.y,
        Direction::W => a.x <= b.x,
    }
}

/// The same positions, nearest to the edge in direction `d` first.
fn order_for_throw(group: Vec<Pos>, d: &Direction) -> (r: Vec<Pos>)
    requires
        group@.no_duplicates(),
    ensures
        r@.no_duplicates(),
        r@.len() == group@.len(),
        forall|q: Pos| r@.contains(q) <==> group@.contains(q),
        forall|i: int, j: int| 0 <= i < j < r@.len() ==> edge_rank(*d, r@[i]) <= edge_rank(*d, r@[j]),
{
    let mut rest = group;
    let mut out: Vec<Pos> = Vec::new();
    while rest.len() > 0
        invariant
            out@.no_duplicates(),
            rest@.no_duplicates(),
            out@.len() + rest@.len() == group@.len(),
            forall|q: Pos| group@.contains(q) <==> (out@.contains(q) || rest@.contains(q)),
            forall|q: Pos| !(out@.contains(q) && rest@.contains(q)),
            forall|i: int, j: int| 0 <= i < j < out@.len() ==> edge_rank(*d, out@[i]) <= edge_rank(*d, out@[j]),
            forall|i: int, j: int| 0 <= i < out@.len() && 0 <= j < rest@.len() ==> edge_rank(*d, out@[i]) <= edge_rank(*d, rest@[j]),
        decreases rest@.len(),
    {
        let mut m: usize = 0;
        let mut k: usize = 1;
        while k < rest.len()
            invariant
                0 < rest@.len(),
                m < rest@.len(),
                1 <= k <= rest@.len(),
                forall|j: int| 0 <= j < k ==> edge_rank(*d, rest@[m as int]) <= edge_rank(*d, rest@[j]),
            decreases rest@.len() - k,
        {
            if !nearer_edge(d, &rest[m], &rest[k]) {
                m = k;
            }
            k += 1;
        }
        let ghost before_rest = rest@;
        let ghost before_out = out@;
        let p = rest.remove(m);
        out.push(p);
        proof {
            assert(rest@ == before_rest.remove(m as int));
            assert forall|q: Pos| #[trigger] out@.contains(q) <==> (before_out.contains(q) || q == p) by {
                crate::lemma_push_contains(before_out, p, q);
            }
            assert forall|q: Pos| #[trigger] before_rest.contains(q) <==> (rest@.contains(q) || q == p) by {
                if before_rest.contains(q) {
                    let j = choose|j: int| 0 <= j < before_rest.len() && before_rest[j] == q;
                    if j < m {
                        assert(rest@[j] == q);
                    } else if j > m {
                        assert(rest@[j - 1] == q);
                    }
                }
                if rest@.contains(q) {
                    let j = choose|j: int| 0 <= j < rest@.len() && rest@[j] == q;
                    if j < m {
                        assert(before_rest[j] == q);
                    } else {
                        assert(before_rest[j + 1] == q);
                    }
                }
                if q == p {
                    assert(before_rest[m as int] == q);
                }
            }
            assert(!rest@.contains(p)) by {
                if rest@.contains(p) {
                    let j = choose|j: int| 0 <= j < rest@.len() && rest@[j] == p;
                    if j < m {
                        assert(before_rest[j] == before_rest[m as int]);
                    } else {
                        assert(before_rest[j + 1] == before_rest[m as int]);
                    }
                }
            }
            assert(out@.no_duplicates()) by {
                assert forall|a: int, b: int| 0 <= a < out@.len() && 0 <= b < out@.len() && a != b implies out@[a] != out@[b] by {
                    if a == out@.len() - 1 {
                        assert(before_out.contains(out@[b]));
                    } else if b == out@.len() - 1 {
                        assert(before_out.contains(out@[a]));
                    }
                }
            }
            assert forall|i: int, j: int| 0 <= i < out@.len() && 0 <= j < rest@.len() implies edge_rank(*d, out@[i]) <= edge_rank(*d, rest@[j]) by {
                assert(before_rest.contains(rest@[j]));
                let jj = choose|jj: int| 0 <= jj < before_rest.len() && before_rest[jj] == rest@[j];
                if i < before_out.len() {
                    assert(edge_rank(*d, before_out[i]) <= edge_rank(*d, before_rest[jj]));
                }
            }
            assert forall|i: int, j: int| 0 <= i < j < out@.len() implies edge_rank(*d, out@[i]) <= edge_rank(*d, out@[j]) by {
                if j == out@.len() - 1 {
                    assert(edge_rank(*d, before_out[i]) <= edge_rank(*d, before_rest[m as int]));
                }
            }
        }
    }
    out
}

/// The rook throws itself and every rook joined to it along a direction.
pub struct Rook;

impl Rook {
    pub fn data(&self) -> (r: AbilityData)
        ensures
            r == (AbilityData { cooldown: Time { round: 10, turn: 0, movement: 0 }, cost: Mana(0) }),
    {
        AbilityData { cooldown: Time::rounds(10), cost: Mana(0) }
    }

    pub fn can_use(_board: &Board, _from: &Pos, info: &Info) -> (r: bool)
        ensures
            r == info is Direction,
    {
        matches!(info, Info::Direction(_))
    }

    /// Every piece but a rook stays where it was, and every square now holds
    /// a rook, nothing, or what it held before.
    pub open spec fn only_rooks_moved(after: Board, before: Board) -> bool {
        &&& forall|q: Pos|
            !(before.piece_at(q) is Empty) && !(before.piece_at(q) is Rook) ==> #[trigger] after.piece_at(q)
                == before.piece_at(q)
        &&& forall|q: Pos|
            #![trigger after.piece_at(q)]
            after.piece_at(q) is Empty || after.piece_at(q) is Rook || after.piece_at(q) == before.piece_at(q)
    }

    /// What using the ability does: the result `r` and the board `after`
    /// that it leaves from `before`.
    pub open spec fn applied(before: Board, after: Board, from: Pos, info: Info, r: Result<(), AbilityError>) -> bool {
        &&& (!(info is Direction) ==> r == Err::<(), AbilityError>(AbilityError::WrongInfo) && after
            == before)
        &&& (info is Direction && color_at(before, from) is None ==> r == Err::<(), AbilityError>(
            AbilityError::Illegal
        ) && after == before)
        &&& (info is Direction && color_at(before, from) is Some ==> r is Ok && after.layout_kept(before)
            && after.same_but_tiles(before) && Self::only_rooks_moved(after, before) && exists|
            g: Seq<Pos>,
            order: Seq<Pos>,
        |
            #![trigger rook_group_of(before, from, color_at(before, from).unwrap(), g), Self::thrown(before, after, order, info->Direction_0)]
            rook_group_of(before, from, color_at(before, from).unwrap(), g) && order.no_duplicates() && order.len()
                == g.len() && (forall|q: Pos| order.contains(q) <==> g.contains(q)) && (forall|a: int, b: int|
                0 <= a < b < order.len() ==> edge_rank(info->Direction_0, order[a]) <= edge_rank(
                    info->Direction_0,
                    order[b],
                )) && Self::thrown(before, after, order, info->Direction_0))
    }

    /// `after` is `before` once the rooks on `order` slid along `d`, one
    /// after the other, in that order.
    pub open spec fn thrown(before: Board, after: Board, order: Seq<Pos>, d: Direction) -> bool {
        exists|hist: Seq<Board>|
            #![trigger hist.len(), hist[0]]
            hist.len() == order.len() + 1 && hist[0] == before && hist.last() == after && forall|k: int|
                0 <= k < order.len() ==> slid(hist[k + 1], #[trigger] hist[k], order[k], d.dx(), d.dy())
    }

    /// Gathers the rooks of the color of the piece on `from` that are joined
    /// to `from` through rooks of that color next to each other, takes them
    /// nearest to the edge in the direction first, and slides each along the
    /// direction to the last empty square before a piece or the edge. A rook
    /// with no empty square before it stays.
    pub fn apply(board: &mut Board, from: &Pos, info: Info) -> (r: Result<(), AbilityError>)
        requires
            old(board).wf(),
        ensures
            final(board).wf(),
            Self::applied(*old(board), *final(board), *from, info, r),
    {
        let direction = match info {
            Info::Direction(d) => d,
            _ => return Err(AbilityError::WrongInfo),
        };
        let color = match color_on(board, from) {
            Some(c) => c,
            None => return Err(AbilityError::Illegal),
        };
        let group = rook_group(board, from, color);
        let ghost g = group@;
        let order = order_for_throw(group, &direction);
        proof {
            assert forall|j: int| 0 <= j < order@.len() implies rook_at(*board, #[trigger] order@[j], color) by {
                assert(order@.contains(order@[j]));
                let i = choose|i: int| 0 <= i < group@.len() && group@[i] == order@[j];
            }
        }
        let shift = direction.offset();
        let ghost start = *board;
        let ghost mut hist: Seq<Board> = seq![*board];
        let mut k: usize = 0;
        while k < order.len()
            invariant
                hist.len() == k + 1,
                hist[0] == start,
                hist.last() == *board,
                forall|m: int| 0 <= m < k ==> slid(hist[m + 1], #[trigger] hist[m], order@[m], direction.dx(), direction.dy()),
                start == *old(board),
                start.wf(),
                board.wf(),
                k <= order@.len(),
                shift.0 == direction.dx() && shift.1 == direction.dy(),
                board.layout_kept(start),
                board.same_but_tiles(start),
                Self::only_rooks_moved(*board, start),
                forall|j: int| 0 <= j < order@.len() ==> rook_at(start, #[trigger] order@[j], color),
            decreases order@.len() - k,
        {
            let rook_pos = order[k];
            let ghost before = *board;
            let rc = board.ray_cast_empty(&rook_pos, None, &shift);
            let ghost (dx, dy) = (direction.dx(), direction.dy());
            let ghost n = rc.mid_seq().len();
            proof {
                reveal_with_fuel(ray_step, 2);
                assert forall|j: nat| 1 <= j <= n implies (#[trigger] ray_step(rook_pos, dx, dy, j)) is Some && before.empty_at(
                    ray_step(rook_pos, dx, dy, j).unwrap(),
                ) by {
                    assert(ray_step(rook_pos, dx, dy, ((j - 1) + 1) as nat) == Some(rc.mid_seq()[j - 1]));
                }
                assert(free_run(before, rook_pos, dx, dy, n));
                if n > 0 {
                    assert(ray_step(rook_pos, dx, dy, ((n - 1) + 1) as nat) == Some(rc.mid_seq()[n - 1]));
                }
            }
            if let Some(last) = rc.last() {
                let last = *last;
                proof {
                    let m = rc.mid_seq();
                    assert(m[m.len() - 1] == last);
                    assert(before.empty_at(last));
                    assert(rook_at(start, rook_pos, color));
                }
                board.move_piece(&rook_pos, &last);
                proof {
                    board.lemma_same_layout(before);
                    before.lemma_same_layout(start);
                }
            }
            proof {
                board.lemma_same_layout(start);
                assert(slid(*board, before, rook_pos, dx, dy));
                let h0 = hist;
                hist = hist.push(*board);
                assert forall|m: int| 0 <= m < k + 1 implies slid(hist[m + 1], #[trigger] hist[m], order@[m], direction.dx(), direction.dy()) by {
                    if m < k {
                        assert(hist[m] == h0[m] && hist[m + 1] == h0[m + 1]);
                    }
                }
            }
            k += 1;
        }
        proof {
            assert(rook_group_of(start, *from, color, g));
            assert(Self::thrown(start, *board, order@, direction));
        }
        Ok(())
    }
}

/// The ram charges along a direction, breaking through pieces.
pub struct Ram;

/// The first `n` squares from `p` along (dx, dy) are empty tiles, and the
/// next one is not (it is off the board or holds a piece).
pub open spec fn free_run(b: Board, p: Pos, dx: int, dy: int, n: nat) -> bool {
    &&& forall|k: nat|
        1 <= k <= n ==> (#[trigger] ray_step(p, dx, dy, k)) is Some && b.empty_at(ray_step(p, dx, dy, k).unwrap())
    &&& !(ray_step(p, dx, dy, n + 1) is Some && b.empty_at(ray_step(p, dx, dy, n + 1).unwrap()))
}

/// A ram of strength `s` can break into `q`: a tile whose piece (if any)
/// does not resist `s`.
pub open spec fn ram_can_enter(b: Board, q: Option<Pos>, s: usize) -> bool {
    q is Some && b.has_tile(q.unwrap()) && !b.piece_at(q.unwrap()).has_type(Type::Impenetrable(s))
}

/// `after` is `before` once `p` holds `piece`, everything else as it was.
pub open spec fn put_on(after: Board, before: Board, p: Pos, piece: Piece) -> bool {
    &&& after.layout_kept(before)
    &&& after.same_but_tiles(before)
    &&& forall|q: Pos| #[trigger] after.piece_at(q) == if q == p { piece } else { before.piece_at(q) }
}

impl Ram {
    pub fn data(&self) -> (r: AbilityData)
        ensures
            r == (AbilityData { cooldown: Time { round: 0, turn: 4, movement: 0 }, cost: Mana(0) }),
    {
        AbilityData { cooldown: Time::turns(4), cost: Mana(0) }
    }

    pub fn can_use(_board: &Board, _from: &Pos, info: &Info) -> (r: bool)
        ensures
            r == info is Direction,
    {
        matches!(info, Info::Direction(_))
    }

    /// How many more squares a ram that crossed `n` empty squares breaks
    /// into after the first piece it hits: one, and one more for every five
    /// squares crossed.
    pub open spec fn charge(n: nat) -> nat {
        n / 5 + 1
    }

    /// The charge, step by step: `hist[0]` is `before` with the ram lifted
    /// off `from`; each next board kills what stands on the next square from
    /// the hit square `c` on (`c` itself first); the ram goes on while the
    /// next square is a tile that does not resist strength `s`, for at most
    /// `charge` squares after `c`; it lands on the last square it broke.
    pub open spec fn breaks_through(
        before: Board,
        after: Board,
        from: Pos,
        c: Pos,
        d: Direction,
        s: usize,
        charge: nat,
        hist: Seq<Board>,
        j: nat,
    ) -> bool {
        &&& hist.len() == j + 2
        &&& j <= charge
        &&& put_on(hist[0], before, from, Piece::Empty)
        &&& forall|k: int|
            0 <= k <= j ==> (#[trigger] ray_step(c, d.dx(), d.dy(), k as nat)) is Some && hist[k + 1].attacked(
                hist[k],
                ray_step(c, d.dx(), d.dy(), k as nat).unwrap(),
            )
        &&& forall|k: int| 1 <= k <= j ==> ram_can_enter(hist[k], #[trigger] ray_step(c, d.dx(), d.dy(), k as nat), s)
        &&& j < charge ==> !ram_can_enter(hist[j + 1 as int], ray_step(c, d.dx(), d.dy(), j + 1), s)
        &&& put_on(after, hist[j + 1 as int], ray_step(c, d.dx(), d.dy(), j).unwrap(), before.piece_at(from))
    }

    /// What a ram of strength `s` on `from` charging along `d` does.
    pub open spec fn charged(before: Board, after: Board, from: Pos, d: Direction, s: usize) -> bool {
        exists|n: nat|
            #![trigger free_run(before, from, d.dx(), d.dy(), n)]
            free_run(before, from, d.dx(), d.dy(), n) && {
                let c = ray_step(from, d.dx(), d.dy(), n + 1);
                if !ram_can_enter(before, c, s) {
                    if n == 0 {
                        after == before
                    } else {
                        after.moved_from(before, from, ray_step(from, d.dx(), d.dy(), n).unwrap())
                    }
                } else {
                    exists|hist: Seq<Board>, j: nat|
                        #![trigger Self::breaks_through(before, after, from, c.unwrap(), d, s, Self::charge(n), hist, j)]
                        Self::breaks_through(before, after, from, c.unwrap(), d, s, Self::charge(n), hist, j)
                }
            }
    }

    /// What using the ability does: the result `r` and the board `after`
    /// that it leaves from `before`.
    pub open spec fn applied(before: Board, after: Board, from: Pos, info: Info, r: Result<(), AbilityError>) -> bool {
        &&& (!(info is Direction) ==> r == Err::<(), AbilityError>(AbilityError::WrongInfo) && after == before)
        &&& (info is Direction && before.piece_at(from).data_of() is None ==> r == Err::<(), AbilityError>(
            AbilityError::Illegal,
        ) && after == before)
        &&& (info is Direction && before.piece_at(from).data_of() is Some ==> r is Ok && Self::charged(
            before,
            after,
            from,
            info->Direction_0,
            capped(strength_sum(before.piece_at(from).data_of().unwrap().properties.0@)),
        ))
    }

    /// The ram slides along the direction over the empty squares. With no
    /// piece in the way it stops at the edge; before a piece that resists its
    /// strength it stops in front. Otherwise it kills that piece and the ones
    /// after it, up to its charge, stopping in front of a resisting piece or
    /// of the edge, and takes the place of the last piece killed.
    pub fn apply(board: &mut Board, from: &Pos, info: Info) -> (r: Result<(), AbilityError>)
        requires
            old(board).wf(),
        ensures
            final(board).wf(),
            Self::applied(*old(board), *final(board), *from, info, r),
    {
        let direction = match info {
            Info::Direction(d) => d,
            _ => return Err(AbilityError::WrongInfo),
        };
        let strength = match board.get_data(from) {
            Some(data) => data.get_strength(),
            None => return Err(AbilityError::Illegal),
        };
        let ghost (dx, dy) = (direction.dx(), direction.dy());
        let shift = direction.offset();
        let ghost start = *board;
        let rc = board.ray_cast_empty(from, None, &shift);
        let n = match &rc.mid {
            Some(m) => m.len(),
            None => 0,
        };
        let last = match rc.last() {
            Some(p) => Some(*p),
            None => None,
        };
        let collision = rc.collision;
        proof {
            reveal_with_fuel(ray_step, 2);
            assert(n == rc.mid_seq().len());
            assert forall|k: nat| 1 <= k <= n implies (#[trigger] ray_step(*from, dx, dy, k)) is Some && start.empty_at(
                ray_step(*from, dx, dy, k).unwrap(),
            ) by {
                assert(ray_step(*from, dx, dy, ((k - 1) + 1) as nat) == Some(rc.mid_seq()[k - 1]));
            }
            assert(free_run(start, *from, dx, dy, n as nat));
            if n > 0 {
                assert(ray_step(*from, dx, dy, ((n - 1) + 1) as nat) == Some(rc.mid_seq()[n - 1]));
            }
        }
        let blocked = match collision {
            None => true,
            Some(c) => match board.get(&c) {
                None => true,
                Some(t) => t.piece.is_impenetrable(&strength),
            },
        };
        if blocked {
            if let Some(last) = last {
                board.move_piece(from, &last);
            }
            return Ok(());
        }
        let c = match collision {
            Some(c) => c,
            None => return Ok(()),
        };
        let charge = n / 5 + 1;
        let ram = match board.place(from, Piece::Empty) {
            Some(p) => p,
            None => Piece::Empty,
        };
        let ghost lifted = *board;
        board.attack_piece(from, &c);
        let ghost mut hist: Seq<Board> = seq![lifted, *board];
        let mut to = c;
        let mut j: usize = 0;
        proof {
            reveal_with_fuel(ray_step, 2);
        }
        loop
            invariant_except_break
                board.wf(),
                j <= charge,
                charge == Ram::charge(n as nat),
                hist.len() == j + 2,
                hist[0] == lifted,
                hist.last() == *board,
                ray_step(c, dx, dy, j as nat) == Some(to),
                dx == direction.dx() && dy == direction.dy(),
                forall|k: int|
                    0 <= k <= j ==> (#[trigger] ray_step(c, dx, dy, k as nat)) is Some && hist[k + 1].attacked(
                        hist[k],
                        ray_step(c, dx, dy, k as nat).unwrap(),
                    ),
                forall|k: int| 1 <= k <= j ==> ram_can_enter(hist[k], #[trigger] ray_step(c, dx, dy, k as nat), strength),
                board.has_tile(to),
            ensures
                board.wf(),
                j <= charge,
                hist.len() == j + 2,
                hist[0] == lifted,
                hist.last() == *board,
                ray_step(c, dx, dy, j as nat) == Some(to),
                forall|k: int|
                    0 <= k <= j ==> (#[trigger] ray_step(c, dx, dy, k as nat)) is Some && hist[k + 1].attacked(
                        hist[k],
                        ray_step(c, dx, dy, k as nat).unwrap(),
                    ),
                forall|k: int| 1 <= k <= j ==> ram_can_enter(hist[k], #[trigger] ray_step(c, dx, dy, k as nat), strength),
                j < charge ==> !ram_can_enter(hist[j + 1], ray_step(c, dx, dy, (j + 1) as nat), strength),
                board.has_tile(to),
            decreases charge - j,
        {
            if j >= charge {
                break;
            }
            let next = match to.direction_shift(&direction) {
                Some(p) => p,
                None => break,
            };
            let resists = match board.get(&next) {
                None => true,
                Some(t) => t.piece.is_impenetrable(&strength),
            };
            if resists {
                break;
            }
            let ghost prev = *board;
            board.attack_piece(from, &next);
            proof {
                hist = hist.push(*board);
                assert(ram_can_enter(prev, ray_step(c, dx, dy, (j + 1) as nat), strength));
                assert(board.has_tile(next)) by {
                    board.lemma_same_layout(prev);
                }
            }
            to = next;
            j += 1;
        }
        let ghost broken = *board;
        board.place(&to, ram);
        proof {
            let s = capped(strength_sum(start.piece_at(*from).data_of().unwrap().properties.0@));
            assert(strength == s);
            assert(put_on(lifted, start, *from, Piece::Empty));
            assert(Ram::breaks_through(start, *board, *from, c, direction, s, Ram::charge(n as nat), hist, j as nat));
            assert(free_run(start, *from, dx, dy, n as nat));
        }
        Ok(())
    }
}

} // verus!
