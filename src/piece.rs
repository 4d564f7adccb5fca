use vstd::prelude::*;

use crate::ability::{self, AbilityError};
use crate::board::Board;
use crate::pattern::{
    spec_bishop, spec_blockeable_cross, spec_crazy_pawn, spec_king, spec_knight, spec_magician_move, spec_pawn_move,
    spec_pawn_take, spec_rook, spec_square, spec_cross, spec_structure_move, spec_super_pawn_move, spec_super_pawn_take,
};
use crate::{pattern, Action, Color, Info, Pos, Time};

verus! {

/// What every piece carries, whatever its kind.
#[derive(Debug, PartialEq, Eq)]
pub struct PieceData {
    pub moved: bool,
    pub cooldown: Time,
    pub color: Color,
    pub types: Types,
    pub effects: Effects,
    pub properties: Properties,
}

impl Default for PieceData {
    fn default() -> (r: PieceData)
        ensures
            r.fresh(Color::White),
            r.types.0@ == Seq::<Type>::empty(),
            r.properties.0@ == Seq::<Property>::empty(),
    {
        PieceData {
            moved: false,
            cooldown: Time { round: 0, turn: 0, movement: 0 },
            color: Color::White,
            types: Types(Vec::new()),
            effects: Effects(Vec::new()),
            properties: Properties(Vec::new()),
        }
    }
}

impl PieceData {
    /// Not moved, no cooldown, no effect, and of the given color.
    pub open spec fn fresh(self, color: Color) -> bool {
        &&& !self.moved
        &&& self.cooldown == Time { round: 0, turn: 0, movement: 0 }
        &&& self.color == color
        &&& self.effects.0@ == Seq::<Effect>::empty()
    }

    pub open spec fn allows(self, action: Action) -> bool {
        self.types.allows(action) && self.effects.allows(action)
    }

    pub open spec fn admits(self, action: Action) -> bool {
        self.types.admits(action) && self.effects.admits(action)
    }

    pub fn new(color: Color, types: Vec<Type>) -> (r: PieceData)
        ensures
            r.fresh(color),
            r.types.0@ == types@,
            r.properties.0@ == Seq::<Property>::empty(),
    {
        PieceData {
            moved: false,
            cooldown: Time { round: 0, turn: 0, movement: 0 },
            color,
            types: Types(types),
            effects: Effects(Vec::new()),
            properties: Properties(Vec::new()),
        }
    }

    pub fn with_props(color: Color, types: Vec<Type>, properties: Vec<Property>) -> (r: PieceData)
        ensures
            r.fresh(color),
            r.types.0@ == types@,
            r.properties.0@ == properties@,
    {
        PieceData {
            moved: false,
            cooldown: Time { round: 0, turn: 0, movement: 0 },
            color,
            types: Types(types),
            effects: Effects(Vec::new()),
            properties: Properties(properties),
        }
    }

    /// Whether every type and every effect of the piece lets it do `action`.
    pub fn can_do(&self, action: &Action) -> (r: bool)
        ensures
            r == self.allows(*action),
    {
        self.types.can_do(action) && self.effects.can_do(action)
    }

    pub fn on_do(&self, action: &Action) {
        self.types.on_do(action);
        self.effects.on_do(action);
    }

    /// Whether every type and every effect of the piece lets `action` be done to it.
    pub fn can_be(&self, action: &Action) -> (r: bool)
        ensures
            r == self.admits(*action),
    {
        self.types.can_be(action) && self.effects.can_be(action)
    }

    pub fn on_be(&self, action: &Action) {
        self.types.on_be(action);
        self.effects.on_be(action);
    }

    pub fn get_strength(&self) -> (r: usize)
        ensures
            r == capped(strength_sum(self.properties.0@)),
    {
        self.properties.strength()
    }

    /// `self` is `before` after ticks of the grains `grains`: the cooldown
    /// and every effect counted down, nothing else changed.
    pub open spec fn aged_from(self, before: PieceData, grains: Seq<Time>) -> bool {
        &&& self.cooldown == before.cooldown.after(grains)
        &&& self.effects.0@.len() == before.effects.0@.len()
        &&& forall|i: int|
            0 <= i < self.effects.0@.len() ==> #[trigger] self.effects.0@[i] == before.effects.0@[i].with_time(
                before.effects.0@[i].time_of().after(grains),
            )
        &&& self.moved == before.moved
        &&& self.color == before.color
        &&& self.types == before.types
        &&& self.properties == before.properties
    }

    /// Counts the cooldown and every effect down by one tick of grain `time`.
    pub fn tick(&mut self, time: &Time)
        ensures
            final(self).aged_from(*old(self), seq![*time]),
    {
        self.cooldown.tick(time);
        let mut i: usize = 0;
        while i < self.effects.0.len()
            invariant
                i <= self.effects.0@.len(),
                self.effects.0@.len() == old(self).effects.0@.len(),
                self.cooldown == old(self).cooldown.ticked(*time),
                self.moved == old(self).moved,
                self.color == old(self).color,
                self.types == old(self).types,
                self.properties == old(self).properties,
                forall|k: int|
                    0 <= k < self.effects.0@.len() ==> #[trigger] self.effects.0@[k] == if k < i {
                        old(self).effects.0@[k].with_time(old(self).effects.0@[k].time_of().ticked(*time))
                    } else {
                        old(self).effects.0@[k]
                    },
            decreases self.effects.0@.len() - i,
        {
            let mut e = self.effects.0[i];
            e.tick(time);
            self.effects.0.set(i, e);
            i += 1;
        }
        proof {
            old(self).cooldown.lemma_after_one(*time);
            assert forall|k: int| 0 <= k < self.effects.0@.len() implies #[trigger] self.effects.0@[k]
                == old(self).effects.0@[k].with_time(old(self).effects.0@[k].time_of().after(seq![*time])) by {
                old(self).effects.0@[k].time_of().lemma_after_one(*time);
            }
        }
    }

    pub fn add_effect(&mut self, effect: Effect)
        ensures
            final(self).effects.0@ == old(self).effects.0@.push(effect),
            final(self).moved == old(self).moved,
            final(self).cooldown == old(self).cooldown,
            final(self).color == old(self).color,
            final(self).types == old(self).types,
            final(self).properties == old(self).properties,
    {
        self.effects.0.push(effect)
    }

    pub fn has_effect(&self, effect: &Effect) -> (r: bool)
        ensures
            r == self.effects.0@.contains(*effect),
    {
        let mut i: usize = 0;
        while i < self.effects.0.len()
            invariant
                i <= self.effects.0@.len(),
                forall|j: int| 0 <= j < i ==> self.effects.0@[j] != *effect,
            decreases self.effects.0@.len() - i,
        {
            if self.effects.0[i] == *effect {
                return true;
            }
            i += 1;
        }
        false
    }
}

/// A piece on a tile, or nothing.
#[derive(Debug, PartialEq, Eq)]
pub enum Piece {
    Empty,
    Pawn(PieceData),
    Knight(PieceData),
    Bishop(PieceData),
    Rook(PieceData),
    Queen(PieceData),
    King(PieceData),
    Archer(PieceData),
    Ballista(PieceData),
    Builder(PieceData),
    Cannon(PieceData),
    Catapult(PieceData),
    CrazyPawn(PieceData),
    Magician(PieceData),
    Paladin(PieceData),
    Ram(PieceData),
    ShieldBearer(PieceData),
    Ship(PieceData),
    SuperPawn(PieceData),
    TeslaTower(PieceData),
    Wall(PieceData),
    Warlock(PieceData),
    Portal(PieceData),
}

impl Default for Piece {
    fn default() -> (r: Piece)
        ensures
            r is Empty,
    {
        Piece::Empty
    }
}

/// A number that stops at `usize::MAX`.
pub open spec fn capped(n: nat) -> usize {
    if n > usize::MAX {
        usize::MAX
    } else {
        n as usize
    }
}

/// The strengths that the properties give, added up.
pub open spec fn strength_sum(props: Seq<Property>) -> nat
    decreases props.len(),
{
    if props.len() == 0 {
        0
    } else {
        strength_sum(props.drop_last()) + match props.last() {
            Property::Strength(s) => s as nat,
            _ => 0,
        }
    }
}

/// The times taken that the properties record, added up.
pub open spec fn taken_sum(props: Seq<Property>) -> nat
    decreases props.len(),
{
    if props.len() == 0 {
        0
    } else {
        taken_sum(props.drop_last()) + match props.last() {
            Property::Taken(s) => s as nat,
            _ => 0,
        }
    }
}

impl Piece {
    pub open spec fn data_of(self) -> Option<PieceData> {
        match self {
            Piece::Empty => None,
            Piece::Pawn(d) => Some(d),
            Piece::Knight(d) => Some(d),
            Piece::Bishop(d) => Some(d),
            Piece::Rook(d) => Some(d),
            Piece::Queen(d) => Some(d),
            Piece::King(d) => Some(d),
            Piece::Archer(d) => Some(d),
            Piece::Ballista(d) => Some(d),
            Piece::Builder(d) => Some(d),
            Piece::Cannon(d) => Some(d),
            Piece::Catapult(d) => Some(d),
            Piece::CrazyPawn(d) => Some(d),
            Piece::Magician(d) => Some(d),
            Piece::Paladin(d) => Some(d),
            Piece::Ram(d) => Some(d),
            Piece::ShieldBearer(d) => Some(d),
            Piece::Ship(d) => Some(d),
            Piece::SuperPawn(d) => Some(d),
            Piece::TeslaTower(d) => Some(d),
            Piece::Wall(d) => Some(d),
            Piece::Warlock(d) => Some(d),
            Piece::Portal(d) => Some(d),
        }
    }

    /// The same kind of piece, carrying `d`.
    pub open spec fn with_data(self, d: PieceData) -> Piece {
        match self {
            Piece::Empty => Piece::Empty,
            Piece::Pawn(_) => Piece::Pawn(d),
            Piece::Knight(_) => Piece::Knight(d),
            Piece::Bishop(_) => Piece::Bishop(d),
            Piece::Rook(_) => Piece::Rook(d),
            Piece::Queen(_) => Piece::Queen(d),
            Piece::King(_) => Piece::King(d),
            Piece::Archer(_) => Piece::Archer(d),
            Piece::Ballista(_) => Piece::Ballista(d),
            Piece::Builder(_) => Piece::Builder(d),
            Piece::Cannon(_) => Piece::Cannon(d),
            Piece::Catapult(_) => Piece::Catapult(d),
            Piece::CrazyPawn(_) => Piece::CrazyPawn(d),
            Piece::Magician(_) => Piece::Magician(d),
            Piece::Paladin(_) => Piece::Paladin(d),
            Piece::Ram(_) => Piece::Ram(d),
            Piece::ShieldBearer(_) => Piece::ShieldBearer(d),
            Piece::Ship(_) => Piece::Ship(d),
            Piece::SuperPawn(_) => Piece::SuperPawn(d),
            Piece::TeslaTower(_) => Piece::TeslaTower(d),
            Piece::Wall(_) => Piece::Wall(d),
            Piece::Warlock(_) => Piece::Warlock(d),
            Piece::Portal(_) => Piece::Portal(d),
        }
    }

    pub open spec fn color_of(self) -> Option<Color> {
        match self.data_of() {
            None => None,
            Some(d) => Some(d.color),
        }
    }

    /// Whether one of the piece's types meets `query` (see `Type::meets`).
    pub open spec fn has_type(self, query: Type) -> bool {
        match self.data_of() {
            None => false,
            Some(d) => exists|i: int| 0 <= i < d.types.0@.len() && (#[trigger] d.types.0@[i]).meets(query),
        }
    }

    /// `self` is `before` with `added` appended to its effects; an empty
    /// square stays as it was.
    pub open spec fn gained_effects(self, before: Piece, added: Seq<Effect>) -> bool {
        match before.data_of() {
            None => self == before,
            Some(d) => self.data_of() is Some && self == before.with_data(self.data_of().unwrap()) && {
                let n = self.data_of().unwrap();
                &&& n.effects.0@ == d.effects.0@ + added
                &&& n.moved == d.moved
                &&& n.cooldown == d.cooldown
                &&& n.color == d.color
                &&& n.types == d.types
                &&& n.properties == d.properties
            },
        }
    }

    /// `self` is `before` with `added` appended to its types; an empty
    /// square stays as it was.
    pub open spec fn gained_types(self, before: Piece, added: Seq<Type>) -> bool {
        match before.data_of() {
            None => self == before,
            Some(d) => self.data_of() is Some && self == before.with_data(self.data_of().unwrap()) && {
                let n = self.data_of().unwrap();
                &&& n.types.0@ == d.types.0@ + added
                &&& n.moved == d.moved
                &&& n.cooldown == d.cooldown
                &&& n.color == d.color
                &&& n.effects == d.effects
                &&& n.properties == d.properties
            },
        }
    }

    /// Gaining effects twice is gaining both lists in turn.
    pub proof fn lemma_gained_effects_trans(self, mid: Piece, before: Piece, s1: Seq<Effect>, s2: Seq<Effect>)
        requires
            mid.gained_effects(before, s1),
            self.gained_effects(mid, s2),
        ensures
            self.gained_effects(before, s1 + s2),
    {
        if before.data_of() is Some {
            before.lemma_with_data(mid.data_of().unwrap(), self.data_of().unwrap());
            assert(mid.data_of().unwrap().effects.0@ + s2 == before.data_of().unwrap().effects.0@ + (s1 + s2));
        }
    }

    /// Gaining types twice is gaining both lists in turn.
    pub proof fn lemma_gained_types_trans(self, mid: Piece, before: Piece, s1: Seq<Type>, s2: Seq<Type>)
        requires
            mid.gained_types(before, s1),
            self.gained_types(mid, s2),
        ensures
            self.gained_types(before, s1 + s2),
    {
        if before.data_of() is Some {
            before.lemma_with_data(mid.data_of().unwrap(), self.data_of().unwrap());
            assert(mid.data_of().unwrap().types.0@ + s2 == before.data_of().unwrap().types.0@ + (s1 + s2));
        }
    }

    /// `self` is `before` after ticks of the grains `grains`; an empty
    /// square stays empty.
    pub open spec fn aged_from(self, before: Piece, grains: Seq<Time>) -> bool {
        match before.data_of() {
            None => self == before,
            Some(d) => self.data_of() is Some && self == before.with_data(self.data_of().unwrap())
                && self.data_of().unwrap().aged_from(d, grains),
        }
    }

    /// Ageing by some grains and then by one more is ageing by all of them.
    pub proof fn lemma_aged_trans(self, mid: Piece, before: Piece, grains: Seq<Time>, grain: Time)
        requires
            mid.aged_from(before, grains),
            self.aged_from(mid, seq![grain]),
        ensures
            self.aged_from(before, grains.push(grain)),
    {
        reveal_with_fuel(Time::after, 2);
        assert(seq![grain].drop_last() =~= Seq::<Time>::empty());
        assert(grains.push(grain).drop_last() =~= grains);
        if before.data_of() is Some {
            before.lemma_with_data(mid.data_of().unwrap(), self.data_of().unwrap());
            let (d, m, n) = (before.data_of().unwrap(), mid.data_of().unwrap(), self.data_of().unwrap());
            assert forall|i: int| 0 <= i < n.effects.0@.len() implies #[trigger] n.effects.0@[i] == d.effects.0@[i].with_time(
                d.effects.0@[i].time_of().after(grains.push(grain)),
            ) by {
                assert(m.effects.0@[i] == d.effects.0@[i].with_time(d.effects.0@[i].time_of().after(grains)));
            }
        }
    }

    /// Counts the piece's cooldown and effects down by one tick of grain `time`.
    pub fn tick(&mut self, time: &Time)
        ensures
            final(self).aged_from(*old(self), seq![*time]),
    {
        match self.mut_data() {
            Some(data) => {
                data.tick(time);
            },
            None => {},
        }
        proof {
            if old(self).data_of() is Some {
                old(self).lemma_with_data(self.data_of().unwrap(), old(self).data_of().unwrap());
            }
        }
    }

    pub proof fn lemma_with_data(self, d: PieceData, e: PieceData)
        requires
            self.data_of() is Some,
        ensures
            self.with_data(d).data_of() == Some(d),
            self.with_data(d).with_data(e) == self.with_data(e),
    {
    }

    /// Appends `effect` to the piece's effects; an empty square stays empty.
    pub fn add_effect(&mut self, effect: Effect)
        ensures
            final(self).gained_effects(*old(self), seq![effect]),
    {
        match self.mut_data() {
            Some(data) => {
                let ghost before = *data;
                data.add_effect(effect);
                proof {
                    assert(before.effects.0@.push(effect) =~= before.effects.0@ + seq![effect]);
                }
            },
            None => {},
        }
        proof {
            if old(self).data_of() is Some {
                old(self).lemma_with_data(self.data_of().unwrap(), old(self).data_of().unwrap());
            }
        }
    }

    pub fn color(&self) -> (r: Option<&Color>)
        ensures
            r is Some == self.color_of() is Some,
            r matches Some(c) ==> self.color_of() == Some(*c),
    {
        match self.data() {
            None => None,
            Some(data) => Some(&data.color),
        }
    }

    pub fn data(&self) -> (r: Option<&PieceData>)
        ensures
            r is Some == self.data_of() is Some,
            r matches Some(d) ==> self.data_of() == Some(*d),
    {
        match self {
            Piece::Empty => None,
            Piece::Pawn(d) => Some(d),
            Piece::Knight(d) => Some(d),
            Piece::Bishop(d) => Some(d),
            Piece::Rook(d) => Some(d),
            Piece::Queen(d) => Some(d),
            Piece::King(d) => Some(d),
            Piece::Archer(d) => Some(d),
            Piece::Ballista(d) => Some(d),
            Piece::Builder(d) => Some(d),
            Piece::Cannon(d) => Some(d),
            Piece::Catapult(d) => Some(d),
            Piece::CrazyPawn(d) => Some(d),
            Piece::Magician(d) => Some(d),
            Piece::Paladin(d) => Some(d),
            Piece::Ram(d) => Some(d),
            Piece::ShieldBearer(d) => Some(d),
            Piece::Ship(d) => Some(d),
            Piece::SuperPawn(d) => Some(d),
            Piece::TeslaTower(d) => Some(d),
            Piece::Wall(d) => Some(d),
            Piece::Warlock(d) => Some(d),
            Piece::Portal(d) => Some(d),
        }
    }

    pub fn mut_data(&mut self) -> (r: Option<&mut PieceData>)
        ensures
            old(self).data_of() is None ==> r is None && *final(self) == *old(self),
            old(self).data_of() is Some ==> r is Some && *r.unwrap() == old(self).data_of().unwrap()
                && *final(self) == old(self).with_data(*final(r.unwrap())),
    {
        match self {
            Piece::Empty => None,
            Piece::Pawn(d) => Some(d),
            Piece::Knight(d) => Some(d),
            Piece::Bishop(d) => Some(d),
            Piece::Rook(d) => Some(d),
            Piece::Queen(d) => Some(d),
            Piece::King(d) => Some(d),
            Piece::Archer(d) => Some(d),
            Piece::Ballista(d) => Some(d),
            Piece::Builder(d) => Some(d),
            Piece::Cannon(d) => Some(d),
            Piece::Catapult(d) => Some(d),
            Piece::CrazyPawn(d) => Some(d),
            Piece::Magician(d) => Some(d),
            Piece::Paladin(d) => Some(d),
            Piece::Ram(d) => Some(d),
            Piece::ShieldBearer(d) => Some(d),
            Piece::Ship(d) => Some(d),
            Piece::SuperPawn(d) => Some(d),
            Piece::TeslaTower(d) => Some(d),
            Piece::Wall(d) => Some(d),
            Piece::Warlock(d) => Some(d),
            Piece::Portal(d) => Some(d),
        }
    }

    /// Gives the piece one more type; an empty square stays empty.
    pub fn add_type(&mut self, type_: Type)
        ensures
            final(self).gained_types(*old(self), seq![type_]),
    {
        match self.mut_data() {
            Some(data) => {
                let ghost before = *data;
                data.types.0.push(type_);
                proof {
                    assert(before.types.0@.push(type_) =~= before.types.0@ + seq![type_]);
                }
            },
            None => {},
        }
        proof {
            if old(self).data_of() is Some {
                old(self).lemma_with_data(self.data_of().unwrap(), old(self).data_of().unwrap());
            }
        }
    }

    pub fn is_type(&self, type_: &Type) -> (r: bool)
        ensures
            r == self.has_type(*type_),
    {
        match self.data() {
            None => false,
            Some(data) => data.types.any_meets(type_),
        }
    }

    pub fn is_biologic(&self) -> (r: bool)
        ensures
            r == self.has_type(Type::Biologic),
    {
        self.is_type(&Type::Biologic)
    }

    pub fn is_structure(&self) -> (r: bool)
        ensures
            r == self.has_type(Type::Structure),
    {
        self.is_type(&Type::Structure)
    }

    /// Whether the piece weighs at most `max_weight`.
    pub fn is_transportable(&self, max_weight: &usize) -> (r: bool)
        ensures
            r == self.has_type(Type::Transportable(*max_weight)),
    {
        self.is_type(&Type::Transportable(*max_weight))
    }

    /// Whether the piece resists a strength of at least `min_strength`.
    pub fn is_impenetrable(&self, min_strength: &usize) -> (r: bool)
        ensures
            r == self.has_type(Type::Impenetrable(*min_strength)),
    {
        self.is_type(&Type::Impenetrable(*min_strength))
    }

    pub fn is_immune(&self) -> (r: bool)
        ensures
            r == self.has_type(Type::Immune),
    {
        self.is_type(&Type::Immune)
    }

    pub fn is_heroic(&self) -> (r: bool)
        ensures
            r == self.has_type(Type::Heroic),
    {
        self.is_type(&Type::Heroic)
    }

    pub fn is_demonic(&self) -> (r: bool)
        ensures
            r == self.has_type(Type::Demonic),
    {
        self.is_type(&Type::Demonic)
    }

    /// Whether the piece has at most `max_life` lives.
    pub fn is_tough(&self, max_life: &usize) -> (r: bool)
        ensures
            r == self.has_type(Type::Tough(*max_life)),
    {
        self.is_type(&Type::Tough(*max_life))
    }

    pub fn is_dead(&self) -> (r: bool)
        ensures
            r == self.has_type(Type::Dead),
    {
        self.is_type(&Type::Dead)
    }
}

impl Piece {
    pub fn pawn(color: Color) -> (r: Piece)
        ensures
            r matches Piece::Pawn(d) && d.fresh(color) && d.types.0@ == seq![Type::Biologic, Type::Transportable(2)]
                && d.properties.0@.len() == 0,
    {
        Piece::Pawn(PieceData::new(color, vec![Type::Biologic, Type::Transportable(2)]))
    }

    pub fn knight(color: Color) -> (r: Piece)
        ensures
            r matches Piece::Knight(d) && d.fresh(color) && d.types.0@ == seq![Type::Biologic, Type::Transportable(4)]
                && d.properties.0@.len() == 0,
    {
        Piece::Knight(PieceData::new(color, vec![Type::Biologic, Type::Transportable(4)]))
    }

    pub fn bishop(color: Color) -> (r: Piece)
        ensures
            r matches Piece::Bishop(d) && d.fresh(color) && d.types.0@ == seq![Type::Biologic, Type::Transportable(3)]
                && d.properties.0@.len() == 0,
    {
        Piece::Bishop(PieceData::new(color, vec![Type::Biologic, Type::Transportable(3)]))
    }

    pub fn rook(color: Color) -> (r: Piece)
        ensures
            r matches Piece::Rook(d) && d.fresh(color) && d.types.0@ == seq![Type::Structure]
                && d.properties.0@.len() == 0,
    {
        Piece::Rook(PieceData::new(color, vec![Type::Structure]))
    }

    pub fn queen(color: Color) -> (r: Piece)
        ensures
            r matches Piece::Queen(d) && d.fresh(color) && d.types.0@ == seq![Type::Biologic, Type::Heroic]
                && d.properties.0@.len() == 0,
    {
        Piece::Queen(PieceData::new(color, vec![Type::Biologic, Type::Heroic]))
    }

    pub fn king(color: Color) -> (r: Piece)
        ensures
            r matches Piece::King(d) && d.fresh(color) && d.types.0@ == seq![Type::Biologic, Type::Heroic, Type::Immune]
                && d.properties.0@.len() == 1 && d.properties.0@[0] == Property::AbilityUsed(false),
    {
        Piece::King(
            PieceData::with_props(
                color,
                vec![Type::Biologic, Type::Heroic, Type::Immune],
                vec![Property::AbilityUsed(false)],
            ),
        )
    }

    pub fn archer(color: Color) -> (r: Piece)
        ensures
            r matches Piece::Archer(d) && d.fresh(color) && d.types.0@ == seq![Type::Biologic, Type::Transportable(3)]
                && d.properties.0@.len() == 0,
    {
        Piece::Archer(PieceData::new(color, vec![Type::Biologic, Type::Transportable(3)]))
    }

    pub fn ballista(color: Color) -> (r: Piece)
        ensures
            r matches Piece::Ballista(d) && d.fresh(color) && d.types.0@ == seq![Type::Structure]
                && d.properties.0@.len() == 1 && d.properties.0@[0] == Property::Strength(3),
    {
        Piece::Ballista(PieceData::with_props(color, vec![Type::Structure], vec![Property::Strength(3)]))
    }

    pub fn builder(color: Color) -> (r: Piece)
        ensures
            r matches Piece::Builder(d) && d.fresh(color) && d.types.0@ == seq![Type::Biologic, Type::Transportable(3)]
                && d.properties.0@.len() == 0,
    {
        Piece::Builder(PieceData::new(color, vec![Type::Biologic, Type::Transportable(3)]))
    }

    pub fn cannon(color: Color) -> (r: Piece)
        ensures
            r matches Piece::Cannon(d) && d.fresh(color) && d.types.0@ == seq![Type::Structure]
                && d.properties.0@.len() == 0,
    {
        Piece::Cannon(PieceData::new(color, vec![Type::Structure]))
    }

    pub fn catapult(color: Color) -> (r: Piece)
        ensures
            r matches Piece::Catapult(d) && d.fresh(color) && d.types.0@ == seq![Type::Structure]
                && d.properties.0@.len() == 0,
    {
        Piece::Catapult(PieceData::new(color, vec![Type::Structure]))
    }

    pub fn crazy_pawn(color: Color) -> (r: Piece)
        ensures
            r matches Piece::CrazyPawn(d) && d.fresh(color) && d.types.0@ == seq![Type::Biologic, Type::Transportable(2)]
                && d.properties.0@.len() == 0,
    {
        Piece::CrazyPawn(PieceData::new(color, vec![Type::Biologic, Type::Transportable(2)]))
    }

    pub fn magician(color: Color) -> (r: Piece)
        ensures
            r matches Piece::Magician(d) && d.fresh(color) && d.types.0@ == seq![
                Type::Biologic,
                Type::Transportable(4),
                Type::Heroic,
                Type::Immune,
            ] && d.properties.0@.len() == 0,
    {
        Piece::Magician(
            PieceData::new(
                color,
                vec![Type::Biologic, Type::Transportable(4), Type::Heroic, Type::Immune],
            ),
        )
    }

    pub fn paladin(color: Color) -> (r: Piece)
        ensures
            r matches Piece::Paladin(d) && d.fresh(color) && d.types.0@ == seq![
                Type::Biologic,
                Type::Transportable(4),
                Type::Heroic,
                Type::Immune,
            ] && d.properties.0@.len() == 0,
    {
        Piece::Paladin(
            PieceData::new(
                color,
                vec![Type::Biologic, Type::Transportable(4), Type::Heroic, Type::Immune],
            ),
        )
    }

    pub fn ram(color: Color) -> (r: Piece)
        ensures
            r matches Piece::Ram(d) && d.fresh(color) && d.types.0@ == seq![Type::Structure]
                && d.properties.0@.len() == 1 && d.properties.0@[0] == Property::Strength(2),
    {
        Piece::Ram(PieceData::with_props(color, vec![Type::Structure], vec![Property::Strength(2)]))
    }

    pub fn shield_bearer(color: Color) -> (r: Piece)
        ensures
            r matches Piece::ShieldBearer(d) && d.fresh(color) && d.types.0@ == seq![
                Type::Biologic,
                Type::Transportable(2),
                Type::Impenetrable(5),
            ] && d.properties.0@.len() == 0,
    {
        Piece::ShieldBearer(
            PieceData::new(
                color,
                vec![Type::Biologic, Type::Transportable(2), Type::Impenetrable(5)],
            ),
        )
    }

    pub fn ship(color: Color) -> (r: Piece)
        ensures
            r matches Piece::Ship(d) && d.fresh(color) && d.types.0@ == seq![Type::Structure]
                && d.properties.0@.len() == 0,
    {
        Piece::Ship(PieceData::new(color, vec![Type::Structure]))
    }

    pub fn super_pawn(color: Color) -> (r: Piece)
        ensures
            r matches Piece::SuperPawn(d) && d.fresh(color) && d.types.0@ == seq![Type::Biologic, Type::Transportable(2)]
                && d.properties.0@.len() == 0,
    {
        Piece::SuperPawn(PieceData::new(color, vec![Type::Biologic, Type::Transportable(2)]))
    }

    pub fn tesla_tower(color: Color) -> (r: Piece)
        ensures
            r matches Piece::TeslaTower(d) && d.fresh(color) && d.types.0@ == seq![Type::Structure]
                && d.properties.0@.len() == 0,
    {
        Piece::TeslaTower(PieceData::new(color, vec![Type::Structure]))
    }

    pub fn wall(color: Color) -> (r: Piece)
        ensures
            r matches Piece::Wall(d) && d.fresh(color) && d.types.0@ == seq![Type::Structure, Type::Impenetrable(2)]
                && d.properties.0@.len() == 0,
    {
        Piece::Wall(PieceData::new(color, vec![Type::Structure, Type::Impenetrable(2)]))
    }

    pub fn warlock(color: Color) -> (r: Piece)
        ensures
            r matches Piece::Warlock(d) && d.fresh(color) && d.types.0@ == seq![
                Type::Transportable(5),
                Type::Demonic,
                Type::Immune,
            ] && d.properties.0@.len() == 0,
    {
        Piece::Warlock(
            PieceData::new(color, vec![Type::Transportable(5), Type::Demonic, Type::Immune]),
        )
    }

    pub fn portal(color: Color) -> (r: Piece)
        ensures
            r matches Piece::Portal(d) && d.fresh(color) && d.types.0@ == seq![Type::Structure]
                && d.properties.0@.len() == 0,
    {
        Piece::Portal(PieceData::new(color, vec![Type::Structure]))
    }
}

/// A lasting capability or restriction of a piece.
#[derive(Debug, Clone, Copy, PartialEq, Eq, Structural)]
pub enum Type {
    Biologic,
    Structure,
    /// The piece can be carried; it has a weight.
    Transportable(usize),
    /// Abilities cannot go through the piece; it has a strength.
    Impenetrable(usize),
    /// Abilities cannot target the piece.
    Immune,
    /// Attacks cannot target the piece.
    Heroic,
    /// The piece gives mana back when it dies.
    Demonic,
    /// The piece must be killed several times; it has lives.
    Tough(usize),
    /// The piece is under a necromancer's control.
    Dead,
}

impl Type {
    /// Whether a piece of this type answers the question `query`: for the
    /// types with a number, a weight at most the asked one, a strength at
    /// least the asked one, lives at most the asked number.
    pub open spec fn meets(self, query: Type) -> bool {
        match (self, query) {
            (Type::Transportable(w), Type::Transportable(max)) => w <= max,
            (Type::Impenetrable(s), Type::Impenetrable(min)) => s >= min,
            (Type::Tough(l), Type::Tough(max)) => l <= max,
            (Type::Biologic, Type::Biologic) => true,
            (Type::Structure, Type::Structure) => true,
            (Type::Immune, Type::Immune) => true,
            (Type::Heroic, Type::Heroic) => true,
            (Type::Demonic, Type::Demonic) => true,
            (Type::Dead, Type::Dead) => true,
            _ => false,
        }
    }

    /// No type keeps its piece from acting.
    pub open spec fn allows(self, action: Action) -> bool {
        true
    }

    /// Immune pieces cannot be the target of an ability, heroic ones of an attack.
    pub open spec fn admits(self, action: Action) -> bool {
        match self {
            Type::Immune => !(action is Ability),
            Type::Heroic => !(action is Attack),
            _ => true,
        }
    }

    pub fn meets_query(&self, query: &Type) -> (r: bool)
        ensures
            r == self.meets(*query),
    {
        match (self, query) {
            (Type::Transportable(w), Type::Transportable(max)) => *w <= *max,
            (Type::Impenetrable(s), Type::Impenetrable(min)) => *s >= *min,
            (Type::Tough(l), Type::Tough(max)) => *l <= *max,
            (Type::Biologic, Type::Biologic) => true,
            (Type::Structure, Type::Structure) => true,
            (Type::Immune, Type::Immune) => true,
            (Type::Heroic, Type::Heroic) => true,
            (Type::Demonic, Type::Demonic) => true,
            (Type::Dead, Type::Dead) => true,
            _ => false,
        }
    }

    pub fn can_do(&self, action: &Action) -> (r: bool)
        ensures
            r == self.allows(*action),
    {
        true
    }

    /// No type reacts yet when its piece acts.
    pub fn on_do(&self, action: &Action) {
    }

    pub fn can_be(&self, action: &Action) -> (r: bool)
        ensures
            r == self.admits(*action),
    {
        match self {
            Type::Immune => !action.is_ability(),
            Type::Heroic => !action.is_attack(),
            _ => true,
        }
    }

    /// No type reacts yet when something is done to its piece: the mana that
    /// a demonic piece gives back and the lives of a tough one are still to
    /// be specified.
    pub fn on_be(&self, action: &Action) {
    }
}

/// A status that lasts for a time.
#[derive(Debug, Clone, Copy, PartialEq, Eq, Structural)]
pub enum Effect {
    Deactivate(Time),
    Fire(Time),
    Ice(Time),
    Invulnerability(Time),
}

impl Effect {
    pub open spec fn time_of(self) -> Time {
        match self {
            Effect::Deactivate(t) | Effect::Fire(t) | Effect::Ice(t) | Effect::Invulnerability(t) => t,
        }
    }

    /// The same effect, lasting `t`.
    pub open spec fn with_time(self, t: Time) -> Effect {
        match self {
            Effect::Deactivate(_) => Effect::Deactivate(t),
            Effect::Fire(_) => Effect::Fire(t),
            Effect::Ice(_) => Effect::Ice(t),
            Effect::Invulnerability(_) => Effect::Invulnerability(t),
        }
    }

    /// Counts the remaining time down by one tick of grain `time`.
    pub fn tick(&mut self, time: &Time)
        ensures
            *final(self) == old(self).with_time(old(self).time_of().ticked(*time)),
    {
        match self {
            Effect::Deactivate(t) => t.tick(time),
            Effect::Fire(t) => t.tick(time),
            Effect::Ice(t) => t.tick(time),
            Effect::Invulnerability(t) => t.tick(time),
        }
    }

    /// Deactivated and frozen pieces cannot act.
    pub open spec fn allows(self, action: Action) -> bool {
        match self {
            Effect::Deactivate(_) | Effect::Ice(_) => false,
            _ => true,
        }
    }

    /// Nothing can be done to an invulnerable piece.
    pub open spec fn admits(self, action: Action) -> bool {
        !(self is Invulnerability)
    }

    pub fn deactivate() -> (r: Effect)
        ensures
            r == Effect::Deactivate(Time { round: 6, turn: 0, movement: 0 }),
    {
        Effect::Deactivate(Time::rounds(6))
    }

    pub fn fire() -> (r: Effect)
        ensures
            r == Effect::Fire(Time { round: 5, turn: 0, movement: 0 }),
    {
        Effect::Fire(Time::rounds(5))
    }

    pub fn ice() -> (r: Effect)
        ensures
            r == Effect::Ice(Time { round: 3, turn: 0, movement: 0 }),
    {
        Effect::Ice(Time::rounds(3))
    }

    pub fn invulnerability() -> (r: Effect)
        ensures
            r == Effect::Invulnerability(Time { round: 3, turn: 0, movement: 0 }),
    {
        Effect::Invulnerability(Time::rounds(3))
    }

    pub fn can_do(&self, action: &Action) -> (r: bool)
        ensures
            r == self.allows(*action),
    {
        match self {
            Effect::Deactivate(_) => false,
            Effect::Fire(_) => true,
            Effect::Ice(_) => false,
            Effect::Invulnerability(_) => true,
        }
    }

    /// No effect reacts yet when its piece acts.
    pub fn on_do(&self, action: &Action) {
    }

    pub fn can_be(&self, action: &Action) -> (r: bool)
        ensures
            r == self.admits(*action),
    {
        match self {
            Effect::Invulnerability(_) => false,
            _ => true,
        }
    }

    /// No effect reacts yet when something is done to its piece.
    pub fn on_be(&self, action: &Action) {
    }
}

/// A fact attached to a piece.
#[derive(Debug, PartialEq, Eq)]
pub enum Property {
    Nothing,
    /// For pieces that can use their ability once, like the king.
    AbilityUsed(bool),
    /// How many times the piece has been taken; tough pieces need it.
    Taken(usize),
    /// The pieces that this one holds, like a necromancer's.
    Pieces(Vec<Piece>),
    /// The strength of the piece against impenetrable ones, like a ballista's.
    Strength(usize),
}

impl Default for Property {
    fn default() -> (r: Property)
        ensures
            r is Nothing,
    {
        Property::Nothing
    }
}

#[derive(Debug, PartialEq, Eq)]
pub struct Types(pub Vec<Type>);

impl Types {
    pub open spec fn allows(self, action: Action) -> bool {
        forall|i: int| 0 <= i < self.0@.len() ==> (#[trigger] self.0@[i]).allows(action)
    }

    pub open spec fn admits(self, action: Action) -> bool {
        forall|i: int| 0 <= i < self.0@.len() ==> (#[trigger] self.0@[i]).admits(action)
    }

    /// Whether one of the types meets `query`.
    pub fn any_meets(&self, query: &Type) -> (r: bool)
        ensures
            r == exists|i: int| 0 <= i < self.0@.len() && (#[trigger] self.0@[i]).meets(*query),
    {
        let mut i: usize = 0;
        while i < self.0.len()
            invariant
                i <= self.0@.len(),
                forall|j: int| 0 <= j < i ==> !(#[trigger] self.0@[j]).meets(*query),
            decreases self.0@.len() - i,
        {
            if self.0[i].meets_query(query) {
                return true;
            }
            i += 1;
        }
        false
    }

    pub fn can_do(&self, action: &Action) -> (r: bool)
        ensures
            r == self.allows(*action),
    {
        let mut i: usize = 0;
        while i < self.0.len()
            invariant
                i <= self.0@.len(),
                forall|j: int| 0 <= j < i ==> (#[trigger] self.0@[j]).allows(*action),
            decreases self.0@.len() - i,
        {
            if !self.0[i].can_do(action) {
                return false;
            }
            i += 1;
        }
        true
    }

    pub fn on_do(&self, action: &Action) {
        let mut i: usize = 0;
        while i < self.0.len()
            decreases self.0@.len() - i,
        {
            self.0[i].on_do(action);
            i += 1;
        }
    }

    pub fn can_be(&self, action: &Action) -> (r: bool)
        ensures
            r == self.admits(*action),
    {
        let mut i: usize = 0;
        while i < self.0.len()
            invariant
                i <= self.0@.len(),
                forall|j: int| 0 <= j < i ==> (#[trigger] self.0@[j]).admits(*action),
            decreases self.0@.len() - i,
        {
            if !self.0[i].can_be(action) {
                return false;
            }
            i += 1;
        }
        true
    }

    pub fn on_be(&self, action: &Action) {
        let mut i: usize = 0;
        while i < self.0.len()
            decreases self.0@.len() - i,
        {
            self.0[i].on_be(action);
            i += 1;
        }
    }
}

#[derive(Debug, PartialEq, Eq)]
pub struct Effects(pub Vec<Effect>);

impl Effects {
    pub open spec fn allows(self, action: Action) -> bool {
        forall|i: int| 0 <= i < self.0@.len() ==> (#[trigger] self.0@[i]).allows(action)
    }

    pub open spec fn admits(self, action: Action) -> bool {
        forall|i: int| 0 <= i < self.0@.len() ==> (#[trigger] self.0@[i]).admits(action)
    }

    pub fn can_do(&self, action: &Action) -> (r: bool)
        ensures
            r == self.allows(*action),
    {
        let mut i: usize = 0;
        while i < self.0.len()
            invariant
                i <= self.0@.len(),
                forall|j: int| 0 <= j < i ==> (#[trigger] self.0@[j]).allows(*action),
            decreases self.0@.len() - i,
        {
            if !self.0[i].can_do(action) {
                return false;
            }
            i += 1;
        }
        true
    }

    pub fn on_do(&self, action: &Action) {
        let mut i: usize = 0;
        while i < self.0.len()
            decreases self.0@.len() - i,
        {
            self.0[i].on_do(action);
            i += 1;
        }
    }

    pub fn can_be(&self, action: &Action) -> (r: bool)
        ensures
            r == self.admits(*action),
    {
        let mut i: usize = 0;
        while i < self.0.len()
            invariant
                i <= self.0@.len(),
                forall|j: int| 0 <= j < i ==> (#[trigger] self.0@[j]).admits(*action),
            decreases self.0@.len() - i,
        {
            if !self.0[i].can_be(action) {
                return false;
            }
            i += 1;
        }
        true
    }

    pub fn on_be(&self, action: &Action) {
        let mut i: usize = 0;
        while i < self.0.len()
            decreases self.0@.len() - i,
        {
            self.0[i].on_be(action);
            i += 1;
        }
    }
}

#[derive(Debug, PartialEq, Eq)]
pub struct Properties(pub Vec<Property>);

/// The pieces that a property holds.
pub open spec fn held(p: Property) -> Seq<Piece> {
    match p {
        Property::Pieces(ps) => ps@,
        _ => Seq::empty(),
    }
}

/// Whether some held piece is of the kind with tag `tag` (see `Piece::tag`).
pub open spec fn holds_tag(props: Seq<Property>, tag: usize) -> bool {
    exists|i: int, j: int|
        0 <= i < props.len() && 0 <= j < held(props[i]).len() && (#[trigger] held(props[i])[j]).tag() == tag
}

impl Properties {
    pub fn has_used_ability(&self) -> (r: bool)
        ensures
            r == self.0@.contains(Property::AbilityUsed(true)),
    {
        let mut i: usize = 0;
        while i < self.0.len()
            invariant
                i <= self.0@.len(),
                forall|j: int| 0 <= j < i ==> self.0@[j] != Property::AbilityUsed(true),
            decreases self.0@.len() - i,
        {
            if let Property::AbilityUsed(true) = &self.0[i] {
                return true;
            }
            i += 1;
        }
        false
    }

    /// The times taken that the properties record, added up (at most `usize::MAX`).
    pub fn taken_times(&self) -> (r: usize)
        ensures
            r == capped(taken_sum(self.0@)),
    {
        let mut sum: usize = 0;
        let mut i: usize = 0;
        while i < self.0.len()
            invariant
                i <= self.0@.len(),
                sum == capped(taken_sum(self.0@.take(i as int))),
            decreases self.0@.len() - i,
        {
            proof {
                assert(self.0@.take(i + 1).drop_last() == self.0@.take(i as int));
            }
            if let Property::Taken(t) = &self.0[i] {
                sum = sum.saturating_add(*t);
            }
            i += 1;
        }
        proof {
            assert(self.0@.take(i as int) == self.0@);
        }
        sum
    }

    /// The strengths that the properties give, added up (at most `usize::MAX`).
    pub fn strength(&self) -> (r: usize)
        ensures
            r == capped(strength_sum(self.0@)),
    {
        let mut sum: usize = 0;
        let mut i: usize = 0;
        while i < self.0.len()
            invariant
                i <= self.0@.len(),
                sum == capped(strength_sum(self.0@.take(i as int))),
            decreases self.0@.len() - i,
        {
            proof {
                assert(self.0@.take(i + 1).drop_last() == self.0@.take(i as int));
            }
            if let Property::Strength(t) = &self.0[i] {
                sum = sum.saturating_add(*t);
            }
            i += 1;
        }
        proof {
            assert(self.0@.take(i as int) == self.0@);
        }
        sum
    }

    /// Whether one of the held pieces has the kind tag `tag`.
    fn holds(&self, tag: usize) -> (r: bool)
        ensures
            r == holds_tag(self.0@, tag),
    {
        let mut i: usize = 0;
        while i < self.0.len()
            invariant
                i <= self.0@.len(),
                forall|a: int, b: int|
                    0 <= a < i && 0 <= b < held(self.0@[a]).len() ==> (#[trigger] held(
                        self.0@[a],
                    )[b]).tag() != tag,
            decreases self.0@.len() - i,
        {
            if let Property::Pieces(ps) = &self.0[i] {
                let mut j: usize = 0;
                while j < ps.len()
                    invariant
                        j <= ps@.len(),
                                i < self.0@.len(),
                        held(self.0@[i as int]) == ps@,
                        forall|b: int| 0 <= b < j ==> (#[trigger] ps@[b]).tag() != tag,
                    decreases ps@.len() - j,
                {
                    if ps[j].kind_tag() == tag {
                        assert(held(self.0@[i as int])[j as int].tag() == tag);
                        return true;
                    }
                    j += 1;
                }
            }
            i += 1;
        }
        false
    }

    pub fn contains_pawn(&self) -> (r: bool)
        ensures
            r == (exists|i: int, j: int|
                0 <= i < self.0@.len() && 0 <= j < held(self.0@[i]).len() && (#[trigger] held(self.0@[i])[j]) is Pawn),
    {
        self.holds(1)
    }

    pub fn contains_knight(&self) -> (r: bool)
        ensures
            r == (exists|i: int, j: int|
                0 <= i < self.0@.len() && 0 <= j < held(self.0@[i]).len() && (#[trigger] held(self.0@[i])[j]) is Knight),
    {
        self.holds(2)
    }

    pub fn contains_bishop(&self) -> (r: bool)
        ensures
            r == (exists|i: int, j: int|
                0 <= i < self.0@.len() && 0 <= j < held(self.0@[i]).len() && (#[trigger] held(self.0@[i])[j]) is Bishop),
    {
        self.holds(3)
    }

    pub fn contains_rook(&self) -> (r: bool)
        ensures
            r == (exists|i: int, j: int|
                0 <= i < self.0@.len() && 0 <= j < held(self.0@[i]).len() && (#[trigger] held(self.0@[i])[j]) is Rook),
    {
        self.holds(4)
    }

    pub fn contains_queen(&self) -> (r: bool)
        ensures
            r == (exists|i: int, j: int|
                0 <= i < self.0@.len() && 0 <= j < held(self.0@[i]).len() && (#[trigger] held(self.0@[i])[j]) is Queen),
    {
        self.holds(5)
    }

    pub fn contains_king(&self) -> (r: bool)
        ensures
            r == (exists|i: int, j: int|
                0 <= i < self.0@.len() && 0 <= j < held(self.0@[i]).len() && (#[trigger] held(self.0@[i])[j]) is King),
    {
        self.holds(6)
    }

    pub fn contains_archer(&self) -> (r: bool)
        ensures
            r == (exists|i: int, j: int|
                0 <= i < self.0@.len() && 0 <= j < held(self.0@[i]).len() && (#[trigger] held(self.0@[i])[j]) is Archer),
    {
        self.holds(7)
    }

    pub fn contains_ballista(&self) -> (r: bool)
        ensures
            r == (exists|i: int, j: int|
                0 <= i < self.0@.len() && 0 <= j < held(self.0@[i]).len() && (#[trigger] held(self.0@[i])[j]) is Ballista),
    {
        self.holds(8)
    }
}

impl Piece {
    /// The place of the piece's kind in the list of kinds, from 0 for an empty square.
    pub open spec fn tag(self) -> usize {
        match self {
            Piece::Empty => 0,
            Piece::Pawn(_) => 1,
            Piece::Knight(_) => 2,
            Piece::Bishop(_) => 3,
            Piece::Rook(_) => 4,
            Piece::Queen(_) => 5,
            Piece::King(_) => 6,
            Piece::Archer(_) => 7,
            Piece::Ballista(_) => 8,
            Piece::Builder(_) => 9,
            Piece::Cannon(_) => 10,
            Piece::Catapult(_) => 11,
            Piece::CrazyPawn(_) => 12,
            Piece::Magician(_) => 13,
            Piece::Paladin(_) => 14,
            Piece::Ram(_) => 15,
            Piece::ShieldBearer(_) => 16,
            Piece::Ship(_) => 17,
            Piece::SuperPawn(_) => 18,
            Piece::TeslaTower(_) => 19,
            Piece::Wall(_) => 20,
            Piece::Warlock(_) => 21,
            Piece::Portal(_) => 22,
        }
    }

    pub fn kind_tag(&self) -> (r: usize)
        ensures
            r == self.tag(),
    {
        match self {
            Piece::Empty => 0,
            Piece::Pawn(_) => 1,
            Piece::Knight(_) => 2,
            Piece::Bishop(_) => 3,
            Piece::Rook(_) => 4,
            Piece::Queen(_) => 5,
            Piece::King(_) => 6,
            Piece::Archer(_) => 7,
            Piece::Ballista(_) => 8,
            Piece::Builder(_) => 9,
            Piece::Cannon(_) => 10,
            Piece::Catapult(_) => 11,
            Piece::CrazyPawn(_) => 12,
            Piece::Magician(_) => 13,
            Piece::Paladin(_) => 14,
            Piece::Ram(_) => 15,
            Piece::ShieldBearer(_) => 16,
            Piece::Ship(_) => 17,
            Piece::SuperPawn(_) => 18,
            Piece::TeslaTower(_) => 19,
            Piece::Wall(_) => 20,
            Piece::Warlock(_) => 21,
            Piece::Portal(_) => 22,
        }
    }
}

impl Piece {
    /// Whether the kind of piece allows `action`, whatever its types and effects.
    pub open spec fn pattern_allows(self, board: Board, action: Action) -> bool {
        match action {
            Action::Move { from, to } => match self {
                Piece::Pawn(d) => spec_pawn_move(board, d.color, from, to),
                Piece::Knight(_) => spec_knight(from, to),
                Piece::Bishop(_) => spec_bishop(board, from, to),
                Piece::Rook(_) => spec_rook(board, from, to),
                Piece::Queen(_) | Piece::Paladin(_) => spec_bishop(board, from, to) || spec_rook(board, from, to),
                Piece::King(_) => spec_king(from, to),
                Piece::Archer(_) => spec_magician_move(from, to) || spec_king(from, to),
                Piece::Ballista(_) | Piece::Cannon(_) | Piece::Catapult(_) | Piece::Ram(_) => spec_structure_move(from, to),
                Piece::Builder(_) | Piece::Magician(_) | Piece::Ship(_) | Piece::TeslaTower(_) | Piece::Warlock(_) => spec_magician_move(from, to),
                Piece::CrazyPawn(_) => spec_crazy_pawn(board, from, to),
                Piece::ShieldBearer(d) => spec_pawn_move(board, d.color, from, to),
                Piece::SuperPawn(d) => spec_super_pawn_move(board, d.color, from, to),
                _ => false,
            },
            Action::Take { from, to } => match self {
                Piece::Pawn(d) | Piece::ShieldBearer(d) => spec_pawn_take(d.color, from, to),
                Piece::Knight(_) => spec_knight(from, to),
                Piece::Bishop(_) => spec_bishop(board, from, to),
                Piece::Rook(_) => spec_rook(board, from, to),
                Piece::Queen(_) | Piece::Paladin(_) => spec_bishop(board, from, to) || spec_rook(board, from, to),
                Piece::King(_) | Piece::Ship(_) => spec_king(from, to),
                Piece::Builder(_) => spec_cross(from, to, 1),
                Piece::CrazyPawn(_) => spec_crazy_pawn(board, from, to),
                Piece::SuperPawn(d) => spec_super_pawn_take(d.color, from, to),
                Piece::TeslaTower(_) => spec_structure_move(from, to),
                _ => false,
            },
            Action::Attack { from, to } => match self {
                Piece::Archer(_) => spec_square(from, to, 4),
                Piece::Ballista(d) => spec_blockeable_cross(board, from, to, d.color, 6, capped(strength_sum(d.properties.0@))),
                Piece::Cannon(_) => spec_square(from, to, 3),
                _ => false,
            },
            Action::Ability { from, info } => match self {
                Piece::Pawn(_) => ability::Pawn::spec_can_use(board, from),
                Piece::Knight(_) => ability::Knight::spec_can_use(board, from),
                Piece::Bishop(_) => ability::Bishop::spec_can_use(board, from, info),
                Piece::Rook(_) | Piece::Builder(_) | Piece::Ram(_) => info is Direction,
                Piece::Queen(_) => ability::Queen::spec_can_use(board, from, info),
                Piece::King(_) => ability::King::spec_can_use(board, from, info),
                Piece::Catapult(_) => ability::Catapult::spec_can_use(board, from, info),
                Piece::CrazyPawn(_) | Piece::ShieldBearer(_) | Piece::Ship(_) | Piece::TeslaTower(_) | Piece::Portal(_) => true,
                Piece::Magician(_) => board.cards.0@.contains(crate::card::Card::Ice) || board.cards.0@.contains(crate::card::Card::Fire),
                Piece::Paladin(_) => ability::Paladin::spec_can_use(board, from, info),
                Piece::SuperPawn(_) => ability::SuperPawn::spec_can_use(board, from),
                Piece::Warlock(_) => exists|q: Pos| #[trigger] ability::Warlock::portal_site(board, from, q),
                _ => false,
            },
        }
    }

    /// A piece can do an action when its types and effects let it and its
    /// kind allows it.
    pub open spec fn spec_can_do(self, board: Board, action: Action) -> bool {
        match self.data_of() {
            None => false,
            Some(d) => d.allows(action) && self.pattern_allows(board, action),
        }
    }

    /// Whether the piece may do `action` on `board`. Reading the board never
    /// changes it, so asking twice gives the same answer.
    pub fn can_do(&self, board: &Board, action: Action) -> (r: bool)
        requires
            board.wf(),
        ensures
            r == self.spec_can_do(*board, action),
    {
        let data = match self.data() {
            None => return false,
            Some(data) => data,
        };
        if !data.can_do(&action) {
            return false;
        }
        match (self, action) {
            (Piece::Empty, _) => false,
            (Piece::Pawn(d), Action::Move { from, to }) => pattern::pawn_move(board, &d.color, &from, &to),
            (Piece::Pawn(d), Action::Take { from, to }) => pattern::pawn_take(board, &d.color, &from, &to),
            (Piece::Pawn(_), Action::Attack { .. }) => false,
            (Piece::Pawn(_), Action::Ability { from, info }) => ability::Pawn::can_use(board, &from, &info),
            (Piece::Knight(_), Action::Move { from, to }) => pattern::knight(&from, &to),
            (Piece::Knight(_), Action::Take { from, to }) => pattern::knight(&from, &to),
            (Piece::Knight(_), Action::Attack { .. }) => false,
            (Piece::Knight(_), Action::Ability { from, info }) => ability::Knight::can_use(board, &from, &info),
            (Piece::Bishop(_), Action::Move { from, to }) => pattern::bishop(board, &from, &to),
            (Piece::Bishop(_), Action::Take { from, to }) => pattern::bishop(board, &from, &to),
            (Piece::Bishop(_), Action::Attack { .. }) => false,
            (Piece::Bishop(_), Action::Ability { from, info }) => ability::Bishop::can_use(board, &from, &info),
            (Piece::Rook(_), Action::Move { from, to }) => pattern::rook(board, &from, &to),
            (Piece::Rook(_), Action::Take { from, to }) => pattern::rook(board, &from, &to),
            (Piece::Rook(_), Action::Attack { .. }) => false,
            (Piece::Rook(_), Action::Ability { from, info }) => ability::Rook::can_use(board, &from, &info),
            (Piece::Queen(_), Action::Move { from, to }) => pattern::queen(board, &from, &to),
            (Piece::Queen(_), Action::Take { from, to }) => pattern::queen(board, &from, &to),
            (Piece::Queen(_), Action::Attack { .. }) => false,
            (Piece::Queen(_), Action::Ability { from, info }) => ability::Queen::can_use(board, &from, &info),
            (Piece::King(_), Action::Move { from, to }) => pattern::king(&from, &to),
            (Piece::King(_), Action::Take { from, to }) => pattern::king(&from, &to),
            (Piece::King(_), Action::Attack { .. }) => false,
            (Piece::King(_), Action::Ability { from, info }) => ability::King::can_use(board, &from, &info),
            (Piece::Archer(_), Action::Move { from, to }) => pattern::archer_move(&from, &to),
            (Piece::Archer(_), Action::Take { .. }) => false,
            (Piece::Archer(_), Action::Attack { from, to }) => pattern::square(&from, &to, 4),
            (Piece::Archer(_), Action::Ability { .. }) => false,
            (Piece::Ballista(_), Action::Move { from, to }) => pattern::structure_move(&from, &to),
            (Piece::Ballista(_), Action::Take { .. }) => false,
            (Piece::Ballista(d), Action::Attack { from, to }) => pattern::blockeable_cross(
                board,
                &from,
                &to,
                &d.color,
                6,
                d.get_strength(),
            ),
            (Piece::Ballista(_), Action::Ability { .. }) => false,
            (Piece::Builder(_), Action::Move { from, to }) => pattern::magician_move(&from, &to),
            (Piece::Builder(_), Action::Take { from, to }) => pattern::cross(&from, &to, 1),
            (Piece::Builder(_), Action::Attack { .. }) => false,
            (Piece::Builder(_), Action::Ability { from, info }) => ability::Builder::can_use(board, &from, &info),
            (Piece::Cannon(_), Action::Move { from, to }) => pattern::structure_move(&from, &to),
            (Piece::Cannon(_), Action::Take { .. }) => false,
            (Piece::Cannon(_), Action::Attack { from, to }) => pattern::square(&from, &to, 3),
            (Piece::Cannon(_), Action::Ability { .. }) => false,
            (Piece::Catapult(_), Action::Move { from, to }) => pattern::structure_move(&from, &to),
            (Piece::Catapult(_), Action::Take { .. }) => false,
            (Piece::Catapult(_), Action::Attack { .. }) => false,
            (Piece::Catapult(_), Action::Ability { from, info }) => ability::Catapult::can_use(board, &from, &info),
            (Piece::CrazyPawn(_), Action::Move { from, to }) => pattern::crazy_pawn(board, &from, &to),
            (Piece::CrazyPawn(_), Action::Take { from, to }) => pattern::crazy_pawn(board, &from, &to),
            (Piece::CrazyPawn(_), Action::Attack { .. }) => false,
            (Piece::CrazyPawn(_), Action::Ability { from, info }) => ability::CrazyPawn::can_use(board, &from, &info),
            (Piece::Magician(_), Action::Move { from, to }) => pattern::magician_move(&from, &to),
            (Piece::Magician(_), Action::Take { .. }) => false,
            (Piece::Magician(_), Action::Attack { .. }) => false,
            (Piece::Magician(_), Action::Ability { from, info }) => ability::Magician::can_use(board, &from, &info),
            (Piece::Paladin(_), Action::Move { from, to }) => pattern::queen(board, &from, &to),
            (Piece::Paladin(_), Action::Take { from, to }) => pattern::queen(board, &from, &to),
            (Piece::Paladin(_), Action::Attack { .. }) => false,
            (Piece::Paladin(_), Action::Ability { from, info }) => ability::Paladin::can_use(board, &from, &info),
            (Piece::Ram(_), Action::Move { from, to }) => pattern::structure_move(&from, &to),
            (Piece::Ram(_), Action::Take { .. }) => false,
            (Piece::Ram(_), Action::Attack { .. }) => false,
            (Piece::Ram(_), Action::Ability { from, info }) => ability::Ram::can_use(board, &from, &info),
            (Piece::ShieldBearer(d), Action::Move { from, to }) => pattern::pawn_move(board, &d.color, &from, &to),
            (Piece::ShieldBearer(d), Action::Take { from, to }) => pattern::pawn_take(board, &d.color, &from, &to),
            (Piece::ShieldBearer(_), Action::Attack { .. }) => false,
            (Piece::ShieldBearer(_), Action::Ability { from, info }) => ability::ShieldBearer::can_use(board, &from, &info),
            (Piece::Ship(_), Action::Move { from, to }) => pattern::magician_move(&from, &to),
            (Piece::Ship(_), Action::Take { from, to }) => pattern::king(&from, &to),
            (Piece::Ship(_), Action::Attack { .. }) => false,
            (Piece::Ship(_), Action::Ability { from, info }) => ability::Ship::can_use(board, &from, &info),
            (Piece::SuperPawn(d), Action::Move { from, to }) => pattern::super_pawn_move(board, &d.color, &from, &to),
            (Piece::SuperPawn(d), Action::Take { from, to }) => pattern::super_pawn_take(board, &d.color, &from, &to),
            (Piece::SuperPawn(_), Action::Attack { .. }) => false,
            (Piece::SuperPawn(_), Action::Ability { from, info }) => ability::SuperPawn::can_use(board, &from, &info),
            (Piece::TeslaTower(_), Action::Move { from, to }) => pattern::magician_move(&from, &to),
            (Piece::TeslaTower(_), Action::Take { from, to }) => pattern::structure_move(&from, &to),
            (Piece::TeslaTower(_), Action::Attack { .. }) => false,
            (Piece::TeslaTower(_), Action::Ability { from, info }) => ability::TeslaTower::can_use(board, &from, &info),
            (Piece::Wall(_), _) => false,
            (Piece::Warlock(_), Action::Move { from, to }) => pattern::magician_move(&from, &to),
            (Piece::Warlock(_), Action::Take { .. }) => false,
            (Piece::Warlock(_), Action::Attack { .. }) => false,
            (Piece::Warlock(_), Action::Ability { from, info }) => ability::Warlock::can_use(board, &from, &info),
            (Piece::Portal(_), Action::Ability { from, info }) => ability::Portal::can_use(board, &from, &info),
            (Piece::Portal(_), _) => false,
        }
    }

    /// What `Piece::ability` promises: the board stays well formed; off the
    /// board, on an empty square, or for a piece without an ability, nothing
    /// happens (an error off the board or on an empty square); otherwise the
    /// piece's kind uses its own ability, as that ability's `applied` says.
    pub open spec fn ability_done(
        before: Board,
        after: Board,
        from: Pos,
        info: Info,
        r: Result<(), AbilityError>,
    ) -> bool {
        &&& after.wf()
        &&& before.piece_at(from) is Empty ==> r == Err::<(), AbilityError>(AbilityError::Illegal) && after == before
        &&& (before.piece_at(from) is Archer || before.piece_at(from) is Ballista || before.piece_at(from) is Cannon
            || before.piece_at(from) is Wall) ==> r is Ok && after == before
        &&& before.piece_at(from) is Pawn ==> ability::Pawn::applied(before, after, from, info, r)
        &&& before.piece_at(from) is Knight ==> ability::Knight::applied(before, after, from, info, r)
        &&& before.piece_at(from) is Bishop ==> ability::Bishop::applied(before, after, from, info, r)
        &&& before.piece_at(from) is Rook ==> ability::Rook::applied(before, after, from, info, r)
        &&& before.piece_at(from) is Queen ==> ability::Queen::applied(before, after, from, info, r)
        &&& before.piece_at(from) is King ==> ability::King::applied(before, after, from, info, r)
        &&& before.piece_at(from) is Builder ==> ability::Builder::applied(before, after, from, info, r)
        &&& before.piece_at(from) is Catapult ==> ability::Catapult::applied(before, after, from, info, r)
        &&& before.piece_at(from) is CrazyPawn ==> ability::CrazyPawn::applied(before, after, from, info, r)
        &&& before.piece_at(from) is Magician ==> ability::Magician::applied(before, after, from, info, r)
        &&& before.piece_at(from) is Paladin ==> ability::Paladin::applied(before, after, from, info, r)
        &&& before.piece_at(from) is Ram ==> ability::Ram::applied(before, after, from, info, r)
        &&& before.piece_at(from) is ShieldBearer ==> ability::ShieldBearer::applied(before, after, from, info, r)
        &&& before.piece_at(from) is Ship ==> ability::Ship::applied(before, after, from, info, r)
        &&& before.piece_at(from) is SuperPawn ==> ability::SuperPawn::applied(before, after, from, info, r)
        &&& before.piece_at(from) is TeslaTower ==> ability::TeslaTower::applied(before, after, from, info, r)
        &&& before.piece_at(from) is Warlock ==> ability::Warlock::applied(before, after, from, info, r)
        &&& before.piece_at(from) is Portal ==> ability::Portal::applied(before, after, from, info, r)
    }

    /// Uses the ability of the piece on `from`, as its kind defines it.
    pub fn ability(board: &mut Board, from: Pos, info: Info) -> (r: Result<(), AbilityError>)
        requires
            old(board).wf(),
        ensures
            Self::ability_done(*old(board), *final(board), from, info, r),
    {
        let tag = match board.get(&from) {
            None => return Err(AbilityError::Illegal),
            Some(tile) => tile.piece.kind_tag(),
        };
        if tag == 0 {
            Err(AbilityError::Illegal)
        } else if tag == 1 {
            ability::Pawn::apply(board, &from, info)
        } else if tag == 2 {
            ability::Knight::apply(board, &from, info)
        } else if tag == 3 {
            ability::Bishop::apply(board, &from, info)
        } else if tag == 4 {
            ability::Rook::apply(board, &from, info)
        } else if tag == 5 {
            ability::Queen::apply(board, &from, info)
        } else if tag == 6 {
            ability::King::apply(board, &from, info)
        } else if tag == 9 {
            ability::Builder::apply(board, &from, info)
        } else if tag == 11 {
            ability::Catapult::apply(board, &from, info)
        } else if tag == 12 {
            ability::CrazyPawn::apply(board, &from, info)
        } else if tag == 13 {
            ability::Magician::apply(board, &from, info)
        } else if tag == 14 {
            ability::Paladin::apply(board, &from, info)
        } else if tag == 15 {
            ability::Ram::apply(board, &from, info)
        } else if tag == 16 {
            ability::ShieldBearer::apply(board, &from, info)
        } else if tag == 17 {
            ability::Ship::apply(board, &from, info)
        } else if tag == 18 {
            ability::SuperPawn::apply(board, &from, info)
        } else if tag == 19 {
            ability::TeslaTower::apply(board, &from, info)
        } else if tag == 21 {
            ability::Warlock::apply(board, &from, info)
        } else if tag == 22 {
            ability::Portal::apply(board, &from, info)
        } else {
            Ok(())
        }
    }
}

/// A pawn moves one square forward (up for White, down for Black), or two
/// when the square between is an empty tile; it takes only on the two
/// squares diagonally forward. (Its types and effects must let it act.)
pub proof fn lemma_pawn_rules(board: Board, d: PieceData, from: Pos, to: Pos)
    requires
        board.wf(),
        d.allows(Action::Move { from, to }),
        d.allows(Action::Take { from, to }),
    ensures
        Piece::Pawn(d).spec_can_do(board, Action::Move { from, to }) == {
            let f: int = if d.color == Color::White { 1 } else { -1 };
            from.shifted(0, f) == Some(to) || (from.shifted(0, 2 * f) == Some(to) && from.shifted(0, f) is Some
                && board.empty_at(from.shifted(0, f).unwrap()))
        },
        Piece::Pawn(d).spec_can_do(board, Action::Take { from, to }) == {
            let f: int = if d.color == Color::White { 1 } else { -1 };
            from.shifted(-1, f) == Some(to) || from.shifted(1, f) == Some(to)
        },
{
}

/// A knight may split exactly when the squares east and west of it are
/// empty tiles. (Its types and effects must let it act.)
pub proof fn lemma_knight_split_rule(board: Board, d: PieceData, from: Pos, info: Info)
    requires
        board.wf(),
        d.allows(Action::Ability { from, info }),
    ensures
        Piece::Knight(d).spec_can_do(board, Action::Ability { from, info }) == (from.shifted(1, 0) is Some
            && from.shifted(-1, 0) is Some && board.empty_at(from.shifted(1, 0).unwrap())
            && board.empty_at(from.shifted(-1, 0).unwrap())),
{
}

/// Archers attack only within 4 squares (as a king walks), cannons within
/// 3, and ballistas only along a row or a column within 6, whatever lies
/// between.
pub proof fn lemma_attack_ranges(board: Board, d: PieceData, from: Pos, to: Pos)
    ensures
        !spec_square(from, to, 4) ==> !Piece::Archer(d).spec_can_do(board, Action::Attack { from, to }),
        !spec_square(from, to, 3) ==> !Piece::Cannon(d).spec_can_do(board, Action::Attack { from, to }),
        !spec_cross(from, to, 6) ==> !Piece::Ballista(d).spec_can_do(board, Action::Attack { from, to }),
{
}

} // verus!
