use vstd::prelude::*;

pub mod shape;

use crate::card::{Card, CardPlace, Cards};
use crate::piece::{Effect, Piece, PieceData, Type};
use crate::{Action, Color, Pos, Time};

use self::shape::Shape;

verus! {

#[derive(Debug, Clone, Copy, PartialEq, Eq, Structural)]
pub struct Mana(pub usize);

impl Default for Mana {
    fn default() -> (r: Mana)
        ensures
            r.0 == 0,
    {
        Mana(0)
    }
}

impl core::ops::Add for Mana {
    type Output = Mana;

    fn add(self, rhs: Mana) -> (r: Mana) {
        Mana(self.0 + rhs.0)
    }
}

impl vstd::std_specs::ops::AddSpecImpl for Mana {
    open spec fn obeys_add_spec() -> bool {
        true
    }

    open spec fn add_req(self, rhs: Mana) -> bool {
        self.0 + rhs.0 <= usize::MAX
    }

    open spec fn add_spec(self, rhs: Mana) -> Mana {
        Mana((self.0 + rhs.0) as usize)
    }
}

impl core::ops::AddAssign for Mana {
    /// Adds, stopping at `usize::MAX`.
    fn add_assign(&mut self, rhs: Mana) {
        self.0 = self.0.saturating_add(rhs.0);
    }
}

impl core::ops::Sub for Mana {
    type Output = Mana;

    /// Subtracts, stopping at zero.
    fn sub(self, rhs: Mana) -> (r: Mana) {
        Mana(self.0.saturating_sub(rhs.0))
    }
}

impl vstd::std_specs::ops::SubSpecImpl for Mana {
    open spec fn obeys_sub_spec() -> bool {
        true
    }

    open spec fn sub_req(self, rhs: Mana) -> bool {
        true
    }

    open spec fn sub_spec(self, rhs: Mana) -> Mana {
        Mana(
            if self.0 >= rhs.0 {
                (self.0 - rhs.0) as usize
            } else {
                0
            },
        )
    }
}

impl core::ops::SubAssign for Mana {
    /// Subtracts, stopping at zero.
    fn sub_assign(&mut self, rhs: Mana) {
        self.0 = self.0.saturating_sub(rhs.0);
    }
}

#[derive(Debug, Clone, Copy, PartialEq, Eq, Structural)]
pub struct Movements(pub usize);

impl Default for Movements {
    fn default() -> (r: Movements)
        ensures
            r.0 == 0,
    {
        Movements(0)
    }
}

impl core::ops::Add for Movements {
    type Output = Movements;

    fn add(self, rhs: Movements) -> (r: Movements) {
        Movements(self.0 + rhs.0)
    }
}

impl vstd::std_specs::ops::AddSpecImpl for Movements {
    open spec fn obeys_add_spec() -> bool {
        true
    }

    open spec fn add_req(self, rhs: Movements) -> bool {
        self.0 + rhs.0 <= usize::MAX
    }

    open spec fn add_spec(self, rhs: Movements) -> Movements {
        Movements((self.0 + rhs.0) as usize)
    }
}

impl core::ops::AddAssign for Movements {
    /// Adds, stopping at `usize::MAX`.
    fn add_assign(&mut self, rhs: Movements) {
        self.0 = self.0.saturating_add(rhs.0);
    }
}

impl core::ops::Sub for Movements {
    type Output = Movements;

    /// Subtracts, stopping at zero.
    fn sub(self, rhs: Movements) -> (r: Movements) {
        Movements(self.0.saturating_sub(rhs.0))
    }
}

impl vstd::std_specs::ops::SubSpecImpl for Movements {
    open spec fn obeys_sub_spec() -> bool {
        true
    }

    open spec fn sub_req(self, rhs: Movements) -> bool {
        true
    }

    open spec fn sub_spec(self, rhs: Movements) -> Movements {
        Movements(
            if self.0 >= rhs.0 {
                (self.0 - rhs.0) as usize
            } else {
                0
            },
        )
    }
}

impl core::ops::SubAssign for Movements {
    /// Subtracts, stopping at zero.
    fn sub_assign(&mut self, rhs: Movements) {
        self.0 = self.0.saturating_sub(rhs.0);
    }
}

#[derive(Debug, Clone, PartialEq, Eq)]
pub struct Player {
    pub movements: Movements,
    pub mana: Mana,
    pub hand: Cards,
    pub deck: Cards,
    pub discard_pile: Cards,
    pub id: usize,
    pub color: Color,
}

impl Player {
    /// The player after a tick of grain `time`: a round gives one mana.
    pub open spec fn ticked(self, time: Time) -> Player {
        Player {
            mana: Mana(
                if time.round > 0 {
                    crate::piece::capped((self.mana.0 + 1) as nat)
                } else {
                    self.mana.0
                },
            ),
            ..self
        }
    }

    /// A player of `color` and id `id` with one movement a turn, no mana,
    /// and no card anywhere.
    pub open spec fn starts(self, color: Color, id: usize) -> bool {
        &&& self.movements.0 == 1
        &&& self.mana.0 == 0
        &&& self.hand.0@.len() == 0
        &&& self.deck.0@.len() == 0
        &&& self.discard_pile.0@.len() == 0
        &&& self.id == id
        &&& self.color == color
    }

    /// One movement a turn, no mana, nothing in hand or discarded.
    pub fn new(color: Color, id: usize, deck: Cards) -> (r: Player)
        ensures
            r.movements.0 == 1,
            r.mana.0 == 0,
            r.hand.0@.len() == 0,
            r.deck.0@ == deck.0@,
            r.discard_pile.0@.len() == 0,
            r.id == id,
            r.color == color,
    {
        Player {
            movements: Movements(1),
            mana: Mana(0),
            hand: Cards(Vec::new()),
            deck,
            discard_pile: Cards(Vec::new()),
            id,
            color,
        }
    }

    pub fn color(&self) -> (r: &Color)
        ensures
            *r == self.color,
    {
        &self.color
    }

    pub fn id(&self) -> (r: &usize)
        ensures
            *r == self.id,
    {
        &self.id
    }

    /// Draws the top card of the deck into the hand.
    pub fn take_from_deck(&mut self) -> (r: Result<(), EventFunctionError>)
        ensures
            old(self).deck.0@.len() == 0 ==> r == Err::<(), EventFunctionError>(
                EventFunctionError::EmptyDeck,
            ) && *final(self) == *old(self),
            old(self).deck.0@.len() > 0 ==> r is Ok && final(self).deck.0@ == old(self).deck.0@.drop_last()
                && final(self).hand.0@ == old(self).hand.0@.push(old(self).deck.0@.last())
                && final(self).movements == old(self).movements && final(self).mana == old(self).mana
                && final(self).discard_pile == old(self).discard_pile && final(self).id == old(self).id
                && final(self).color == old(self).color,
    {
        if self.deck.is_empty() {
            return Err(EventFunctionError::EmptyDeck);
        }
        match self.deck.take() {
            Some(card) => {
                self.hand.add(card);
                Ok(())
            },
            None => Err(EventFunctionError::EmptyDeck),
        }
    }

    /// Shuffles the deck.
    pub fn shuffle_deck(&mut self)
        ensures
            final(self).deck.0@.to_multiset() == old(self).deck.0@.to_multiset(),
            final(self).hand == old(self).hand,
            final(self).movements == old(self).movements,
            final(self).mana == old(self).mana,
            final(self).discard_pile == old(self).discard_pile,
            final(self).id == old(self).id,
            final(self).color == old(self).color,
    {
        self.deck.shuffle();
    }

    pub fn tick(&mut self, time: &Time)
        ensures
            *final(self) == old(self).ticked(*time),
    {
        if time.is_round() {
            self.mana = Mana(self.mana.0.saturating_add(1));
        }
        self.discard_pile.tick(time, CardPlace::DiscardPile);
        self.deck.tick(time, CardPlace::Deck);
        self.hand.tick(time, CardPlace::Hand);
    }
}

#[derive(Debug, PartialEq, Eq)]
pub struct Tile {
    pub magic: bool,
    pub buildable: bool,
    pub piece: Piece,
    pub pos: Pos,
}

impl Tile {
    pub open spec fn spec_pos(self) -> Pos {
        self.pos
    }

    /// An empty, buildable, non-magic tile.
    pub open spec fn blank(pos: Pos) -> Tile {
        Tile { magic: false, buildable: true, piece: Piece::Empty, pos }
    }

    pub fn new(pos: Pos) -> (r: Tile)
        ensures
            r == Tile::blank(pos),
    {
        Tile { magic: false, buildable: true, piece: Piece::Empty, pos }
    }

    pub fn get_color(&self) -> (r: Option<&Color>)
        ensures
            r is Some == self.piece.color_of() is Some,
            r matches Some(c) ==> self.piece.color_of() == Some(*c),
    {
        self.piece.color()
    }

    pub fn is_controlled_by(&self, color: &Color) -> (r: bool)
        ensures
            r == (self.piece.color_of() == Some(*color)),
    {
        match self.get_color() {
            Some(c) => *c == *color,
            None => false,
        }
    }

    pub fn is_empty(&self) -> (r: bool)
        ensures
            r == self.piece is Empty,
    {
        matches!(self.piece, Piece::Empty)
    }

    pub fn has_piece(&self) -> (r: bool)
        ensures
            r == !(self.piece is Empty),
    {
        !self.is_empty()
    }

    pub fn replace(&mut self, piece: Piece) -> (r: Piece)
        ensures
            r == old(self).piece,
            final(self).piece == piece,
            final(self).pos == old(self).pos,
            final(self).magic == old(self).magic,
            final(self).buildable == old(self).buildable,
    {
        let mut piece = piece;
        core::mem::swap(&mut self.piece, &mut piece);
        piece
    }

    pub fn remove(&mut self) -> (r: Piece)
        ensures
            r == old(self).piece,
            final(self).piece is Empty,
            final(self).pos == old(self).pos,
            final(self).magic == old(self).magic,
            final(self).buildable == old(self).buildable,
    {
        self.replace(Piece::Empty)
    }

    pub fn pos(&self) -> (r: &Pos)
        ensures
            *r == self.pos,
    {
        &self.pos
    }

    pub fn has_pawn(&self) -> (r: bool)
        ensures
            r == self.piece is Pawn,
    {
        matches!(self.piece, Piece::Pawn(_))
    }

    pub fn has_knight(&self) -> (r: bool)
        ensures
            r == self.piece is Knight,
    {
        matches!(self.piece, Piece::Knight(_))
    }

    pub fn has_bishop(&self) -> (r: bool)
        ensures
            r == self.piece is Bishop,
    {
        matches!(self.piece, Piece::Bishop(_))
    }

    pub fn has_rook(&self) -> (r: bool)
        ensures
            r == self.piece is Rook,
    {
        matches!(self.piece, Piece::Rook(_))
    }

    pub fn has_queen(&self) -> (r: bool)
        ensures
            r == self.piece is Queen,
    {
        matches!(self.piece, Piece::Queen(_))
    }

    pub fn has_king(&self) -> (r: bool)
        ensures
            r == self.piece is King,
    {
        matches!(self.piece, Piece::King(_))
    }

    pub fn has_archer(&self) -> (r: bool)
        ensures
            r == self.piece is Archer,
    {
        matches!(self.piece, Piece::Archer(_))
    }

    /// Counts the piece's cooldown and effects down by one tick of grain `time`.
    pub fn tick(&mut self, time: &Time)
        ensures
            final(self).piece.aged_from(old(self).piece, seq![*time]),
            final(self).pos == old(self).pos,
            final(self).magic == old(self).magic,
            final(self).buildable == old(self).buildable,
    {
        self.piece.tick(time);
    }

    pub fn has_ballista(&self) -> (r: bool)
        ensures
            r == self.piece is Ballista,
    {
        matches!(self.piece, Piece::Ballista(_))
    }
}

/// The dead pile after `p` is killed: empty squares leave no trace.
pub open spec fn buried(dead: Seq<Piece>, p: Piece) -> Seq<Piece> {
    if p is Empty {
        dead
    } else {
        dead.push(p)
    }
}

/// No two tiles stand on one position.
pub open spec fn tiles_unique(tiles: Seq<Tile>) -> bool {
    forall|i: int, j: int|
        0 <= i < tiles.len() && 0 <= j < tiles.len() && tiles[i].pos == tiles[j].pos ==> i == j
}

/// Two lists of tiles that stand on the same positions, in the same order.
pub open spec fn same_layout(a: Seq<Tile>, b: Seq<Tile>) -> bool {
    a.len() == b.len() && forall|i: int| 0 <= i < a.len() ==> (#[trigger] a[i]).pos == b[i].pos
}

/// The game state.
#[derive(Debug, PartialEq, Eq)]
pub struct Board {
    pub tiles: Vec<Tile>,
    pub rng: BoardRng,
    pub time: Time,
    pub players: Vec<Player>,
    pub cards: Cards,
    pub dead_pieces: Vec<Piece>,
    pub shape: Shape,
    pub events: Events,
}

impl Board {
    /// Whether a tile stands on `p`.
    pub open spec fn has_tile(self, p: Pos) -> bool {
        exists|i: int| 0 <= i < self.tiles@.len() && (#[trigger] self.tiles@[i]).pos == p
    }

    /// The index of the tile on `p` (meaningful when `has_tile(p)`).
    pub open spec fn index_of(self, p: Pos) -> int {
        choose|i: int| 0 <= i < self.tiles@.len() && (#[trigger] self.tiles@[i]).pos == p
    }

    /// The tile on `p` (meaningful when `has_tile(p)`).
    pub open spec fn tile_at(self, p: Pos) -> Tile {
        self.tiles@[self.index_of(p)]
    }

    /// What stands on `p`: empty off the board.
    pub open spec fn piece_at(self, p: Pos) -> Piece {
        if self.has_tile(p) {
            self.tile_at(p).piece
        } else {
            Piece::Empty
        }
    }

    /// A tile that holds no piece.
    pub open spec fn empty_at(self, p: Pos) -> bool {
        self.has_tile(p) && self.tile_at(p).piece is Empty
    }

    /// A tile that holds a piece.
    pub open spec fn occupied_at(self, p: Pos) -> bool {
        self.has_tile(p) && !(self.tile_at(p).piece is Empty)
    }

    /// One tile on each square of the shape and nowhere else; a valid
    /// player to move, with at least one movement a turn each; working
    /// random number generators.
    pub open spec fn wf(self) -> bool {
        &&& tiles_unique(self.tiles@)
        &&& self.shape.wf()
        &&& forall|p: Pos| self.shape.spec_contains(p) <==> #[trigger] self.has_tile(p)
        &&& self.players@.len() > 0
        &&& self.time.turn < self.players@.len()
        &&& forall|k: int| 0 <= k < self.players@.len() ==> (#[trigger] self.players@[k]).movements.0 >= 1
        &&& self.time.movement < self.players@[self.time.turn as int].movements.0
        &&& self.rng.wf()
    }

    /// Everything but the tiles is as in `other`.
    pub open spec fn same_but_tiles(self, other: Board) -> bool {
        &&& self.rng == other.rng
        &&& self.time == other.time
        &&& self.players == other.players
        &&& self.cards == other.cards
        &&& self.dead_pieces == other.dead_pieces
        &&& self.shape == other.shape
        &&& self.events == other.events
    }

    pub proof fn lemma_index_of(self, i: int)
        requires
            tiles_unique(self.tiles@),
            0 <= i < self.tiles@.len(),
        ensures
            self.has_tile(self.tiles@[i].pos),
            self.index_of(self.tiles@[i].pos) == i,
    {
        let p = self.tiles@[i].pos;
        assert(self.tiles@[i].pos == p);
        let j = self.index_of(p);
        assert(0 <= j < self.tiles@.len() && self.tiles@[j].pos == p);
    }

    /// Equal tiles answer for the same positions.
    pub proof fn lemma_same_tiles(self, other: Board)
        requires
            self.tiles == other.tiles,
        ensures
            forall|p: Pos| #[trigger] self.has_tile(p) == other.has_tile(p),
            forall|p: Pos| #[trigger] self.piece_at(p) == other.piece_at(p),
    {
        assert forall|p: Pos| #[trigger] self.has_tile(p) == other.has_tile(p) by {}
    }

    /// Tiles on the same positions answer for the same positions.
    pub proof fn lemma_same_layout(self, other: Board)
        requires
            tiles_unique(other.tiles@),
            same_layout(self.tiles@, other.tiles@),
        ensures
            tiles_unique(self.tiles@),
            forall|p: Pos| self.has_tile(p) == other.has_tile(p),
            forall|p: Pos| other.has_tile(p) ==> self.index_of(p) == other.index_of(p),
    {
        assert forall|p: Pos| self.has_tile(p) == other.has_tile(p) by {
            if self.has_tile(p) {
                let i = choose|i: int| 0 <= i < self.tiles@.len() && (#[trigger] self.tiles@[i]).pos == p;
                assert(other.tiles@[i].pos == p);
            }
            if other.has_tile(p) {
                let i = choose|i: int| 0 <= i < other.tiles@.len() && (#[trigger] other.tiles@[i]).pos == p;
                assert(self.tiles@[i].pos == p);
            }
        }
        assert forall|p: Pos| other.has_tile(p) implies self.index_of(p) == other.index_of(p) by {
            let i = other.index_of(p);
            assert(self.tiles@[i].pos == p);
            let j = self.index_of(p);
            assert(self.tiles@[j].pos == p);
            assert(other.tiles@[j].pos == p);
        }
    }

    /// Finds the index of the tile on `pos`.
    fn find(&self, pos: &Pos) -> (r: Option<usize>)
        requires
            tiles_unique(self.tiles@),
        ensures
            r is Some == self.has_tile(*pos),
            r matches Some(i) ==> i == self.index_of(*pos) && self.tiles@[i as int].pos == *pos,
    {
        let mut i: usize = 0;
        while i < self.tiles.len()
            invariant
                tiles_unique(self.tiles@),
                i <= self.tiles@.len(),
                forall|k: int| 0 <= k < i ==> (#[trigger] self.tiles@[k]).pos != *pos,
            decreases self.tiles@.len() - i,
        {
            if self.tiles[i].pos == *pos {
                proof {
                    self.lemma_index_of(i as int);
                }
                return Some(i);
            }
            i += 1;
        }
        None
    }

    pub fn contains(&self, pos: &Pos) -> (r: bool)
        ensures
            r == self.shape.spec_contains(*pos),
    {
        self.shape.contains(pos)
    }

    pub fn get(&self, pos: &Pos) -> (r: Option<&Tile>)
        requires
            self.wf(),
        ensures
            r is Some == self.has_tile(*pos),
            r matches Some(t) ==> *t == self.tile_at(*pos),
    {
        match self.find(pos) {
            Some(i) => Some(&self.tiles[i]),
            None => None,
        }
    }

    pub fn get_mut(&mut self, pos: &Pos) -> (r: Option<&mut Tile>)
        requires
            old(self).wf(),
        ensures
            r is Some == old(self).has_tile(*pos),
            r is None ==> *final(self) == *old(self),
            r matches Some(t) ==> *t == old(self).tile_at(*pos) && final(self).tiles@ == old(
                self,
            ).tiles@.update(old(self).index_of(*pos), *final(t)) && final(self).same_but_tiles(
                *old(self),
            ),
    {
        match self.find(pos) {
            Some(i) => Some(&mut self.tiles[i]),
            None => None,
        }
    }

    pub fn is_empty(&self, pos: &Pos) -> (r: bool)
        requires
            self.wf(),
        ensures
            r == self.empty_at(*pos),
    {
        match self.get(pos) {
            None => false,
            Some(tile) => tile.is_empty(),
        }
    }

    pub fn has_piece(&self, pos: &Pos) -> (r: bool)
        requires
            self.wf(),
        ensures
            r == self.occupied_at(*pos),
    {
        match self.get(pos) {
            None => false,
            Some(tile) => tile.has_piece(),
        }
    }

    /// Whether both positions are on the board and hold pieces of one color,
    /// or are both empty.
    pub fn same_color(&self, pos1: &Pos, pos2: &Pos) -> (r: bool)
        requires
            self.wf(),
        ensures
            r == (self.has_tile(*pos1) && self.has_tile(*pos2) && self.tile_at(*pos1).piece.color_of()
                == self.tile_at(*pos2).piece.color_of()),
    {
        match (self.get(pos1), self.get(pos2)) {
            (Some(tile1), Some(tile2)) => match (tile1.get_color(), tile2.get_color()) {
                (Some(c1), Some(c2)) => *c1 == *c2,
                (None, None) => true,
                _ => false,
            },
            _ => false,
        }
    }

    pub fn shape(&self) -> (r: &Shape)
        ensures
            *r == self.shape,
    {
        &self.shape
    }

    /// `r` is the ray cast from `from` along (dx, dy), at most `len` steps
    /// long, over tiles that `passes` lets through, stopped on the first tile
    /// where `stops` holds.
    pub open spec fn is_ray(
        self,
        from: Pos,
        len: Option<usize>,
        dx: int,
        dy: int,
        passes: spec_fn(Tile) -> bool,
        stops: spec_fn(Tile) -> bool,
        r: RayCastInfo,
    ) -> bool {
        let m = r.mid_seq();
        let n = m.len();
        if !self.has_tile(from) {
            r.start is None && r.mid is None && r.collision is None
        } else if ray_step(from, dx, dy, 1) is None {
            r.start == Some(from) && r.mid is None && r.collision is None
        } else {
            &&& r.start == Some(from)
            &&& r.mid is Some
            &&& len matches Some(l) ==> n <= l
            &&& forall|k: int|
                0 <= k < n ==> ray_step(from, dx, dy, (k + 1) as nat) == Some(#[trigger] m[k])
                    && self.has_tile(m[k]) && passes(self.tile_at(m[k]))
            &&& r.collision matches Some(c) ==> (len matches Some(l) ==> n < l) && ray_step(
                from,
                dx,
                dy,
                n + 1,
            ) == Some(c) && self.has_tile(c) && stops(self.tile_at(c))
            &&& r.collision is None ==> (len matches Some(l) && l == n) || ray_step(from, dx, dy, n + 1) is None
                || !self.has_tile(ray_step(from, dx, dy, n + 1).unwrap())
        }
    }

    /// Same tiles, in the same order, with the same flags; only pieces may differ.
    pub open spec fn layout_kept(self, other: Board) -> bool {
        &&& same_layout(self.tiles@, other.tiles@)
        &&& forall|i: int|
            0 <= i < self.tiles@.len() ==> (#[trigger] self.tiles@[i]).magic == other.tiles@[i].magic
                && self.tiles@[i].buildable == other.tiles@[i].buildable
    }

    /// Everything but the tiles and the players is as in `other`.
    pub open spec fn same_frame_but_players(self, other: Board) -> bool {
        &&& self.rng == other.rng
        &&& self.time == other.time
        &&& self.shape == other.shape
        &&& self.cards == other.cards
        &&& self.dead_pieces == other.dead_pieces
        &&& self.events == other.events
    }

    /// What well-formedness depends on, besides the tiles, is as in `other`.
    pub open spec fn same_frame(self, other: Board) -> bool {
        &&& self.rng == other.rng
        &&& self.time == other.time
        &&& self.players == other.players
        &&& self.shape == other.shape
    }

    pub proof fn lemma_layout_kept(self, other: Board)
        requires
            other.wf(),
            self.layout_kept(other),
            self.same_frame(other),
        ensures
            self.wf(),
            forall|p: Pos| self.has_tile(p) == other.has_tile(p),
            forall|p: Pos| other.has_tile(p) ==> self.index_of(p) == other.index_of(p),
            forall|p: Pos|
                other.has_tile(p) ==> (#[trigger] self.tile_at(p)).magic == other.tile_at(p).magic
                    && self.tile_at(p).buildable == other.tile_at(p).buildable && self.tile_at(p).pos == p,
    {
        self.lemma_same_layout(other);
        assert forall|p: Pos| other.has_tile(p) implies (#[trigger] self.tile_at(p)).magic
            == other.tile_at(p).magic && self.tile_at(p).buildable == other.tile_at(p).buildable
            && self.tile_at(p).pos == p by {
            let i = other.index_of(p);
            assert(self.tiles@[i].magic == other.tiles@[i].magic);
        }
    }

    /// Puts `piece` on `pos` and gives back what stood there; off the board
    /// nothing changes (and `piece` is dropped).
    pub fn place(&mut self, pos: &Pos, piece: Piece) -> (r: Option<Piece>)
        requires
            old(self).wf(),
        ensures
            final(self).wf(),
            !old(self).has_tile(*pos) ==> r is None && *final(self) == *old(self),
            old(self).has_tile(*pos) ==> r == Some(old(self).piece_at(*pos)) && final(self).layout_kept(
                *old(self),
            ) && final(self).same_but_tiles(*old(self)) && forall|q: Pos|
                #[trigger] final(self).piece_at(q) == if q == *pos {
                    piece
                } else {
                    old(self).piece_at(q)
                },
    {
        match self.find(pos) {
            None => None,
            Some(i) => {
                let ghost before = *self;
                let prev = self.tiles[i].replace(piece);
                proof {
                    assert(self.tiles@ == before.tiles@.update(i as int, self.tiles@[i as int]));
                    assert(same_layout(self.tiles@, before.tiles@));
                    self.lemma_layout_kept(before);
                    assert forall|q: Pos| #[trigger] self.piece_at(q) == if q == *pos {
                        piece
                    } else {
                        before.piece_at(q)
                    } by {
                        if before.has_tile(q) && q != *pos {
                            assert(before.tiles@[i as int].pos == *pos);
                            assert(before.index_of(q) != i);
                        }
                    }
                }
                Some(prev)
            },
        }
    }

    /// Whether the next movement tick ends the current player's turn.
    pub open spec fn turn_ends(self) -> bool {
        self.time.movement + 1 == self.players@[self.time.turn as int].movements.0
    }

    /// Whether the next movement tick ends the round.
    pub open spec fn round_ends(self) -> bool {
        self.turn_ends() && self.time.turn + 1 == self.players@.len()
    }

    /// The grains of the ticks that the next movement tick brings: a
    /// movement, then a turn if the turn ends, then a round if the round ends.
    pub open spec fn grains(self) -> Seq<Time> {
        seq![Time { round: 0, turn: 0, movement: 1 }] + (if self.turn_ends() {
            seq![Time { round: 0, turn: 1, movement: 0 }]
        } else {
            Seq::empty()
        }) + (if self.round_ends() {
            seq![Time { round: 1, turn: 0, movement: 0 }]
        } else {
            Seq::empty()
        })
    }

    /// The clock after the next movement tick.
    pub open spec fn next_time(self) -> Time {
        if !self.turn_ends() {
            Time { movement: (self.time.movement + 1) as usize, ..self.time }
        } else if !self.round_ends() {
            Time { round: self.time.round, turn: (self.time.turn + 1) as usize, movement: 0 }
        } else {
            Time { round: (self.time.round + 1) as usize, turn: 0, movement: 0 }
        }
    }

    /// Ticks every tile by one grain.
    fn tick_tiles(&mut self, grain: &Time)
        requires
            old(self).wf(),
        ensures
            final(self).wf(),
            final(self).layout_kept(*old(self)),
            final(self).same_but_tiles(*old(self)),
            forall|i: int|
                0 <= i < final(self).tiles@.len() ==> (#[trigger] final(self).tiles@[i]).piece.aged_from(
                    old(self).tiles@[i].piece,
                    seq![*grain],
                ),
    {
        let mut i: usize = 0;
        while i < self.tiles.len()
            invariant
                old(self).wf(),
                i <= self.tiles@.len(),
                self.layout_kept(*old(self)),
                self.same_but_tiles(*old(self)),
                forall|k: int|
                    0 <= k < self.tiles@.len() ==> if k < i {
                        (#[trigger] self.tiles@[k]).piece.aged_from(old(self).tiles@[k].piece, seq![*grain])
                    } else {
                        self.tiles@[k] == old(self).tiles@[k]
                    },
            decreases self.tiles@.len() - i,
        {
            let ghost before = self.tiles@;
            self.tiles[i].tick(grain);
            proof {
                assert(self.tiles@ == before.update(i as int, self.tiles@[i as int]));
            }
            i += 1;
        }
        proof {
            self.lemma_layout_kept(*old(self));
        }
    }

    /// Advances the clock by one movement and ages everything by it: tiles
    /// (cooldowns and effects), the player to move, the cards on the board,
    /// the events, and the movement stream. When that movement was the last
    /// one of the player's turn, the turn passes and everything ages by a
    /// turn (the turn stream too); when it was the last player's turn, the
    /// round passes, every player ages by a round (and gains a mana), and
    /// everything else ages by a round (the round stream too).
    pub fn tick(&mut self)
        requires
            old(self).wf(),
            old(self).time.round < usize::MAX,
        ensures
            final(self).wf(),
            final(self).time == old(self).next_time(),
            final(self).shape == old(self).shape,
            final(self).cards == old(self).cards,
            final(self).dead_pieces == old(self).dead_pieces,
            final(self).rng.spec_movement_rng() == old(self).rng.spec_movement_rng().advanced(),
            final(self).rng.spec_turn_rng() == if old(self).turn_ends() {
                old(self).rng.spec_turn_rng().advanced()
            } else {
                old(self).rng.spec_turn_rng()
            },
            final(self).rng.spec_round_rng() == if old(self).round_ends() {
                old(self).rng.spec_round_rng().advanced()
            } else {
                old(self).rng.spec_round_rng()
            },
            final(self).players@.len() == old(self).players@.len(),
            forall|k: int|
                0 <= k < final(self).players@.len() ==> #[trigger] final(self).players@[k] == if old(self).round_ends() {
                    old(self).players@[k].ticked(Time { round: 1, turn: 0, movement: 0 })
                } else {
                    old(self).players@[k]
                },
            same_layout(final(self).tiles@, old(self).tiles@),
            forall|i: int|
                0 <= i < final(self).tiles@.len() ==> (#[trigger] final(self).tiles@[i]).piece.aged_from(
                    old(self).tiles@[i].piece,
                    old(self).grains(),
                ) && final(self).tiles@[i].magic == old(self).tiles@[i].magic && final(self).tiles@[i].buildable
                    == old(self).tiles@[i].buildable,
            final(self).events.events@.len() == old(self).events.events@.len(),
            forall|i: int|
                0 <= i < final(self).events.events@.len() ==> #[trigger] final(self).events.events@[i] == (Event {
                    time: old(self).events.events@[i].time.after(old(self).grains()),
                    ..old(self).events.events@[i]
                }),
    {
        let movement = Time::movements(1);
        let turn = Time::turns(1);
        let round = Time::rounds(1);
        let ghost start = *self;
        let ghost g1 = seq![movement];
        let ghost g2 = g1.push(turn);
        let ghost g3 = g2.push(round);
        let t = self.time.turn;
        let turn_ends = self.time.movement + 1 == self.players[t].movements.0;
        let round_ends = turn_ends && t == self.players.len() - 1;

        self.phase(&movement, false);
        proof {
            assert forall|i: int| 0 <= i < self.events.events@.len() implies #[trigger] self.events.events@[i] == (Event {
                time: start.events.events@[i].time.after(g1),
                ..start.events.events@[i]
            }) by {
                start.events.events@[i].time.lemma_after_one(movement);
            }
            assert forall|i: int| 0 <= i < self.tiles@.len() implies (#[trigger] self.tiles@[i]).piece.aged_from(
                start.tiles@[i].piece, g1) by {}
        }
        let ghost mid = *self;
        if turn_ends {
            self.phase(&turn, false);
            proof {
                assert forall|i: int| 0 <= i < self.tiles@.len() implies (#[trigger] self.tiles@[i]).piece.aged_from(
                    start.tiles@[i].piece, g2) by {
                    self.tiles@[i].piece.lemma_aged_trans(mid.tiles@[i].piece, start.tiles@[i].piece, g1, turn);
                }
                assert forall|i: int| 0 <= i < self.events.events@.len() implies #[trigger] self.events.events@[i] == (Event {
                    time: start.events.events@[i].time.after(g2),
                    ..start.events.events@[i]
                }) by {
                    assert(g2.drop_last() =~= g1);
                }
            }
        }
        let ghost mid2 = *self;
        if round_ends {
            self.phase(&round, true);
            proof {
                assert forall|i: int| 0 <= i < self.tiles@.len() implies (#[trigger] self.tiles@[i]).piece.aged_from(
                    start.tiles@[i].piece, g3) by {
                    self.tiles@[i].piece.lemma_aged_trans(mid2.tiles@[i].piece, start.tiles@[i].piece, g2, round);
                }
                assert forall|i: int| 0 <= i < self.events.events@.len() implies #[trigger] self.events.events@[i] == (Event {
                    time: start.events.events@[i].time.after(g3),
                    ..start.events.events@[i]
                }) by {
                    assert(g3.drop_last() =~= g2);
                }
            }
        }
        let ghost before_clock = *self;
        if !turn_ends {
            self.time.movement = self.time.movement + 1;
        } else if !round_ends {
            self.time.movement = 0;
            self.time.turn = self.time.turn + 1;
        } else {
            self.time.movement = 0;
            self.time.turn = 0;
            self.time.round = self.time.round + 1;
        }
        proof {
            let gs = start.grains();
            if !turn_ends {
                assert(gs =~= g1);
            } else if !round_ends {
                assert(gs =~= g2);
            } else {
                assert(gs =~= g3);
            }
            self.lemma_same_tiles(before_clock);
            self.lemma_same_layout(start);
        }
    }

    /// One grain of a tick: the tiles, the cards on the board and the events
    /// age by `grain`; so does the player to move, or every player when
    /// `everyone`; and the stream of that grain advances.
    fn phase(&mut self, grain: &Time, everyone: bool)
        requires
            old(self).wf(),
            grain == (Time { round: 0, turn: 0, movement: 1 }) || grain == (Time { round: 0, turn: 1, movement: 0 })
                || (grain == (Time { round: 1, turn: 0, movement: 0 }) && everyone),
        ensures
            final(self).wf(),
            final(self).layout_kept(*old(self)),
            final(self).time == old(self).time,
            final(self).shape == old(self).shape,
            final(self).cards == old(self).cards,
            final(self).dead_pieces == old(self).dead_pieces,
            forall|i: int|
                0 <= i < final(self).tiles@.len() ==> (#[trigger] final(self).tiles@[i]).piece.aged_from(
                    old(self).tiles@[i].piece,
                    seq![*grain],
                ),
            final(self).events.events@.len() == old(self).events.events@.len(),
            forall|i: int|
                0 <= i < final(self).events.events@.len() ==> #[trigger] final(self).events.events@[i] == (Event {
                    time: old(self).events.events@[i].time.ticked(*grain),
                    ..old(self).events.events@[i]
                }),
            final(self).players@.len() == old(self).players@.len(),
            forall|k: int|
                0 <= k < final(self).players@.len() ==> #[trigger] final(self).players@[k] == if everyone {
                    old(self).players@[k].ticked(*grain)
                } else {
                    old(self).players@[k]
                },
            final(self).rng.spec_movement_rng() == if grain.movement > 0 {
                old(self).rng.spec_movement_rng().advanced()
            } else {
                old(self).rng.spec_movement_rng()
            },
            final(self).rng.spec_turn_rng() == if grain.turn > 0 {
                old(self).rng.spec_turn_rng().advanced()
            } else {
                old(self).rng.spec_turn_rng()
            },
            final(self).rng.spec_round_rng() == if grain.round > 0 {
                old(self).rng.spec_round_rng().advanced()
            } else {
                old(self).rng.spec_round_rng()
            },
    {
        self.age_by(grain);
        let ghost aged = *self;
        if everyone {
            let mut k: usize = 0;
            while k < self.players.len()
                invariant
                    k <= self.players@.len(),
                    self.players@.len() == aged.players@.len(),
                    forall|j: int|
                        0 <= j < self.players@.len() ==> #[trigger] self.players@[j] == if j < k {
                            aged.players@[j].ticked(*grain)
                        } else {
                            aged.players@[j]
                        },
                    self.tiles == aged.tiles,
                    self.rng == aged.rng,
                    self.time == aged.time,
                    self.shape == aged.shape,
                    self.cards == aged.cards,
                    self.events == aged.events,
                    self.dead_pieces == aged.dead_pieces,
                decreases self.players@.len() - k,
            {
                let ghost before = self.players@;
                self.players[k].tick(grain);
                proof {
                    assert(self.players@ == before.update(k as int, self.players@[k as int]));
                }
                k += 1;
            }
        } else {
            let t = self.time.turn;
            let ghost before = self.players@;
            self.players[t].tick(grain);
            proof {
                assert(self.players@ =~= before);
            }
        }
        if grain.movement > 0 {
            self.rng.next_movement();
        } else if grain.turn > 0 {
            self.rng.next_turn();
        } else {
            self.rng.next_round();
        }
        proof {
            self.lemma_same_tiles_wf(aged);
            self.lemma_same_layout(aged);
            aged.lemma_same_layout(*old(self));
        }
    }

    /// Ages the tiles, the cards on the board and the events by one grain.
    fn age_by(&mut self, grain: &Time)
        requires
            old(self).wf(),
        ensures
            final(self).wf(),
            final(self).layout_kept(*old(self)),
            final(self).same_frame(*old(self)),
            final(self).cards == old(self).cards,
            final(self).dead_pieces == old(self).dead_pieces,
            forall|i: int|
                0 <= i < final(self).tiles@.len() ==> (#[trigger] final(self).tiles@[i]).piece.aged_from(
                    old(self).tiles@[i].piece,
                    seq![*grain],
                ),
            final(self).events.events@.len() == old(self).events.events@.len(),
            forall|i: int|
                0 <= i < final(self).events.events@.len() ==> #[trigger] final(self).events.events@[i] == (Event {
                    time: old(self).events.events@[i].time.ticked(*grain),
                    ..old(self).events.events@[i]
                }),
    {
        self.tick_tiles(grain);
        self.cards.tick(grain, CardPlace::OnBoard);
        self.events.tick(grain);
        proof {
            self.lemma_layout_kept(*old(self));
        }
    }

    /// Changing what lies beside the tiles, but not the players' movements,
    /// the clock, the shape or the generators' well-formedness, keeps the
    /// board well formed.
    pub proof fn lemma_same_tiles_wf(self, other: Board)
        requires
            other.wf(),
            self.tiles == other.tiles,
            self.shape == other.shape,
            self.time == other.time,
            self.players@.len() == other.players@.len(),
            forall|k: int| 0 <= k < self.players@.len() ==> (#[trigger] self.players@[k]).movements == other.players@[k].movements,
            self.rng.wf(),
        ensures
            self.wf(),
    {
        self.lemma_same_tiles(other);
        assert(self.players@[self.time.turn as int].movements == other.players@[other.time.turn as int].movements);
    }

    /// `self` is `before` after the piece on `from` moved to `to`.
    pub open spec fn moved_from(self, before: Board, from: Pos, to: Pos) -> bool {
        if before.has_tile(from) && before.has_tile(to) {
            self.layout_kept(before) && self.same_but_tiles(before) && forall|q: Pos|
                #[trigger] self.piece_at(q) == if q == to {
                    before.piece_at(from)
                } else if q == from {
                    Piece::Empty
                } else {
                    before.piece_at(q)
                }
        } else {
            self == before
        }
    }

    /// `self` is `before` after the piece on `from` took the one on `to`.
    pub open spec fn took(self, before: Board, from: Pos, to: Pos) -> bool {
        if before.has_tile(from) && before.has_tile(to) {
            self.layout_kept(before) && self.same_frame(before) && self.cards == before.cards
                && self.events == before.events && self.dead_pieces@ == buried(
                before.dead_pieces@,
                if from == to {
                    Piece::Empty
                } else {
                    before.piece_at(to)
                },
            ) && forall|q: Pos|
                #[trigger] self.piece_at(q) == if q == to {
                    before.piece_at(from)
                } else if q == from {
                    Piece::Empty
                } else {
                    before.piece_at(q)
                }
        } else {
            self == before
        }
    }

    /// `self` is `before` after the piece on `to` was killed where it stood.
    pub open spec fn attacked(self, before: Board, to: Pos) -> bool {
        if before.has_tile(to) {
            self.layout_kept(before) && self.same_frame(before) && self.cards == before.cards
                && self.events == before.events && self.dead_pieces@ == buried(before.dead_pieces@, before.piece_at(to)) && forall|q: Pos|
                #[trigger] self.piece_at(q) == if q == to {
                    Piece::Empty
                } else {
                    before.piece_at(q)
                }
        } else {
            self == before
        }
    }

    /// Carries out an action: a move, a take, an attack, or an ability.
    pub fn make(&mut self, action: Action) -> (r: Result<(), crate::ability::AbilityError>)
        requires
            old(self).wf(),
        ensures
            final(self).wf(),
            action matches Action::Move { from, to } ==> r is Ok && final(self).moved_from(*old(self), from, to),
            action matches Action::Take { from, to } ==> r is Ok && final(self).took(*old(self), from, to),
            action matches Action::Attack { from, to } ==> r is Ok && final(self).attacked(*old(self), to),
            action matches Action::Ability { from, info } ==> Piece::ability_done(*old(self), *final(self), from, info, r),
    {
        match action {
            Action::Move { from, to } => {
                self.move_piece(&from, &to);
                Ok(())
            },
            Action::Take { from, to } => {
                self.take_piece(&from, &to);
                Ok(())
            },
            Action::Attack { from, to } => {
                self.attack_piece(&from, &to);
                Ok(())
            },
            Action::Ability { from, info } => Piece::ability(self, from, info),
        }
    }

    /// Moves the piece on `from` to `to`; what stood on `to` is gone. Off
    /// the board nothing changes.
    pub fn move_piece(&mut self, from: &Pos, to: &Pos)
        requires
            old(self).wf(),
        ensures
            final(self).wf(),
            !(old(self).has_tile(*from) && old(self).has_tile(*to)) ==> *final(self) == *old(self),
            old(self).has_tile(*from) && old(self).has_tile(*to) ==> final(self).layout_kept(*old(self))
                && final(self).same_but_tiles(*old(self)) && forall|q: Pos|
                #[trigger] final(self).piece_at(q) == if q == *to {
                    old(self).piece_at(*from)
                } else if q == *from {
                    Piece::Empty
                } else {
                    old(self).piece_at(q)
                },
    {
        if !self.contains(from) || !self.contains(to) {
            return;
        }
        let piece = self.place(from, Piece::Empty);
        if let Some(piece) = piece {
            self.place(to, piece);
        }
    }

    /// Moves the piece on `from` onto `to`, and puts what stood on `to` on
    /// the dead pile. Off the board nothing changes.
    pub fn take_piece(&mut self, from: &Pos, to: &Pos)
        requires
            old(self).wf(),
        ensures
            final(self).wf(),
            !(old(self).has_tile(*from) && old(self).has_tile(*to)) ==> *final(self) == *old(self),
            old(self).has_tile(*from) && old(self).has_tile(*to) ==> final(self).layout_kept(*old(self))
                && final(self).same_frame(*old(self)) && final(self).cards == old(self).cards
                && final(self).events == old(self).events && final(self).dead_pieces@ == buried(
                old(self).dead_pieces@,
                if *from == *to {
                    Piece::Empty
                } else {
                    old(self).piece_at(*to)
                },
            ) && forall|q: Pos|
                #[trigger] final(self).piece_at(q) == if q == *to {
                    old(self).piece_at(*from)
                } else if q == *from {
                    Piece::Empty
                } else {
                    old(self).piece_at(q)
                },
    {
        if !self.contains(from) || !self.contains(to) {
            return;
        }
        let piece = self.place(from, Piece::Empty);
        if let Some(piece) = piece {
            let dead = self.place(to, piece);
            if let Some(dead) = dead {
                self.bury(dead);
            }
        }
    }

    /// Removes the piece on `to` and puts it on the dead pile; the attacker
    /// stays. Off the board nothing changes.
    pub fn attack_piece(&mut self, from: &Pos, to: &Pos)
        requires
            old(self).wf(),
        ensures
            final(self).wf(),
            !old(self).has_tile(*to) ==> *final(self) == *old(self),
            old(self).has_tile(*to) ==> final(self).layout_kept(*old(self)) && final(self).same_frame(
                *old(self),
            ) && final(self).cards == old(self).cards && final(self).events == old(self).events
                && final(self).dead_pieces@ == buried(old(self).dead_pieces@, old(self).piece_at(*to))
                && forall|q: Pos|
                #[trigger] final(self).piece_at(q) == if q == *to {
                    Piece::Empty
                } else {
                    old(self).piece_at(q)
                },
    {
        let dead = self.place(to, Piece::Empty);
        if let Some(dead) = dead {
            self.bury(dead);
        }
    }

    /// Puts `piece` on top of the dead pile, unless it is an empty square.
    fn bury(&mut self, piece: Piece)
        requires
            old(self).wf(),
        ensures
            final(self).wf(),
            final(self).tiles == old(self).tiles,
            final(self).same_frame(*old(self)),
            final(self).cards == old(self).cards,
            final(self).events == old(self).events,
            final(self).dead_pieces@ == buried(old(self).dead_pieces@, piece),
            final(self).layout_kept(*old(self)),
            forall|q: Pos| #[trigger] final(self).piece_at(q) == old(self).piece_at(q),
    {
        if !matches!(piece, Piece::Empty) {
            self.dead_pieces.push(piece);
        }
        proof {
            self.lemma_layout_kept(*old(self));
        }
    }

    /// The positions of the tiles next to `pos`, north, east, south and west.
    pub fn nearby_positions(&self, pos: &Pos) -> (r: Vec<Pos>)
        requires
            self.wf(),
        ensures
            forall|q: Pos|
                r@.contains(q) <==> (self.has_tile(q) && (pos.shifted(0, 1) == Some(q) || pos.shifted(1, 0)
                    == Some(q) || pos.shifted(0, -1) == Some(q) || pos.shifted(-1, 0) == Some(q))),
    {
        let candidates = [pos.north(), pos.east(), pos.south(), pos.west()];
        let mut r: Vec<Pos> = Vec::new();
        let mut i: usize = 0;
        while i < 4
            invariant
                self.wf(),
                i <= 4,
                candidates@ == seq![pos.shifted(0, 1), pos.shifted(1, 0), pos.shifted(0, -1), pos.shifted(-1, 0)],
                forall|q: Pos|
                    #[trigger] r@.contains(q) <==> (self.has_tile(q) && exists|k: int|
                        0 <= k < i && candidates@[k] == Some(q)),
            decreases 4 - i,
        {
            let c = candidates[i];
            let ghost before = r@;
            if let Some(q) = c {
                if self.contains(&q) {
                    r.push(q);
                }
            }
            proof {
                assert forall|q: Pos|
                    #[trigger] r@.contains(q) <==> (self.has_tile(q) && exists|k: int|
                        0 <= k < i + 1 && candidates@[k] == Some(q)) by {
                    if r@ != before {
                        assert(r@ == before.push(c.unwrap()));
                        crate::lemma_push_contains(before, c.unwrap(), q);
                    }
                    if exists|k: int| 0 <= k < i + 1 && candidates@[k] == Some(q) {
                        let k = choose|k: int| 0 <= k < i + 1 && candidates@[k] == Some(q);
                        if k < i {
                            assert(exists|k: int| 0 <= k < i && candidates@[k] == Some(q));
                        }
                    }
                }
            }
            i += 1;
        }
        proof {
            assert forall|q: Pos|
                r@.contains(q) <==> (self.has_tile(q) && (pos.shifted(0, 1) == Some(q) || pos.shifted(1, 0)
                    == Some(q) || pos.shifted(0, -1) == Some(q) || pos.shifted(-1, 0) == Some(q))) by {
                if pos.shifted(0, 1) == Some(q) {
                    assert(candidates@[0] == Some(q));
                }
                if pos.shifted(1, 0) == Some(q) {
                    assert(candidates@[1] == Some(q));
                }
                if pos.shifted(0, -1) == Some(q) {
                    assert(candidates@[2] == Some(q));
                }
                if pos.shifted(-1, 0) == Some(q) {
                    assert(candidates@[3] == Some(q));
                }
            }
        }
        r
    }

    pub fn get_last_dead(&self) -> (r: Option<&Piece>)
        ensures
            self.dead_pieces@.len() == 0 ==> r is None,
            self.dead_pieces@.len() > 0 ==> (r matches Some(p) && *p == self.dead_pieces@.last()),
    {
        self.dead_pieces.last()
    }

    /// Takes the top of the dead pile; an empty piece when the pile is empty.
    pub fn remove_last_dead(&mut self) -> (r: Piece)
        requires
            old(self).wf(),
        ensures
            final(self).wf(),
            final(self).tiles == old(self).tiles,
            final(self).same_frame(*old(self)),
            final(self).cards == old(self).cards,
            final(self).events == old(self).events,
            old(self).dead_pieces@.len() == 0 ==> r is Empty && final(self).dead_pieces@ == old(
                self,
            ).dead_pieces@,
            old(self).dead_pieces@.len() > 0 ==> r == old(self).dead_pieces@.last() && final(self).dead_pieces@ == old(self).dead_pieces@.drop_last(),
    {
        let r = match self.dead_pieces.pop() {
            Some(p) => p,
            None => Piece::Empty,
        };
        proof {
            self.lemma_layout_kept(*old(self));
        }
        r
    }

    /// The index of the most recently killed piece of `color`, if any.
    pub open spec fn last_dead_index(self, color: Color) -> Option<int> {
        if exists|i: int| 0 <= i < self.dead_pieces@.len() && (#[trigger] self.dead_pieces@[i]).color_of()
            == Some(color) {
            Some(
                choose|i: int|
                    0 <= i < self.dead_pieces@.len() && (#[trigger] self.dead_pieces@[i]).color_of() == Some(
                        color,
                    ) && forall|j: int|
                        i < j < self.dead_pieces@.len() ==> (#[trigger] self.dead_pieces@[j]).color_of()
                            != Some(color),
            )
        } else {
            None
        }
    }

    /// Searches the dead pile from the top for a piece of `color`.
    fn find_last_dead(&self, color: &Color) -> (r: Option<usize>)
        ensures
            r is Some <==> exists|i: int|
                0 <= i < self.dead_pieces@.len() && (#[trigger] self.dead_pieces@[i]).color_of() == Some(
                    *color,
                ),
            r matches Some(i) ==> i < self.dead_pieces@.len() && self.dead_pieces@[i as int].color_of()
                == Some(*color) && forall|j: int|
                i < j < self.dead_pieces@.len() ==> (#[trigger] self.dead_pieces@[j]).color_of() != Some(
                    *color,
                ),
    {
        let mut k: usize = self.dead_pieces.len();
        while k > 0
            invariant
                k <= self.dead_pieces@.len(),
                forall|j: int|
                    k <= j < self.dead_pieces@.len() ==> (#[trigger] self.dead_pieces@[j]).color_of()
                        != Some(*color),
            decreases k,
        {
            k -= 1;
            let c = self.dead_pieces[k].color();
            if let Some(c) = c {
                if *c == *color {
                    return Some(k);
                }
            }
        }
        None
    }

    pub fn get_last_dead_with_color(&self, color: &Color) -> (r: Option<&Piece>)
        ensures
            r is Some == self.last_dead_index(*color) is Some,
            r matches Some(p) ==> *p == self.dead_pieces@[self.last_dead_index(*color).unwrap()],
    {
        match self.find_last_dead(color) {
            None => None,
            Some(i) => {
                proof {
                    self.lemma_last_dead_index(*color, i as int);
                }
                Some(&self.dead_pieces[i])
            },
        }
    }

    proof fn lemma_last_dead_index(self, color: Color, i: int)
        requires
            0 <= i < self.dead_pieces@.len(),
            self.dead_pieces@[i].color_of() == Some(color),
            forall|j: int|
                i < j < self.dead_pieces@.len() ==> (#[trigger] self.dead_pieces@[j]).color_of() != Some(color),
        ensures
            self.last_dead_index(color) == Some(i),
    {
        assert(exists|i: int| 0 <= i < self.dead_pieces@.len() && (#[trigger] self.dead_pieces@[i]).color_of() == Some(color));
        let k = self.last_dead_index(color).unwrap();
        if k < i {
            assert(self.dead_pieces@[i].color_of() != Some(color));
        } else if k > i {
            assert(self.dead_pieces@[k].color_of() != Some(color));
        }
    }

    /// Takes the most recently killed piece of `color` out of the dead pile;
    /// an empty piece when there is none.
    pub fn remove_last_dead_with_color(&mut self, color: &Color) -> (r: Piece)
        requires
            old(self).wf(),
        ensures
            final(self).wf(),
            final(self).tiles == old(self).tiles,
            final(self).same_frame(*old(self)),
            final(self).cards == old(self).cards,
            final(self).events == old(self).events,
            old(self).last_dead_index(*color) is None ==> r is Empty && final(self).dead_pieces@ == old(
                self,
            ).dead_pieces@,
            old(self).last_dead_index(*color) matches Some(i) ==> r == old(self).dead_pieces@[i] && final(self).dead_pieces@ == old(self).dead_pieces@.remove(i),
    {
        let r = match self.find_last_dead(color) {
            None => Piece::Empty,
            Some(i) => {
                proof {
                    self.lemma_last_dead_index(*color, i as int);
                }
                self.dead_pieces.remove(i)
            },
        };
        proof {
            self.lemma_layout_kept(*old(self));
        }
        r
    }

    pub fn get_nearby_tiles(&self, pos: &Pos) -> (r: Vec<&Tile>)
        requires
            self.wf(),
        ensures
            forall|i: int| 0 <= i < r@.len() ==> #[trigger] r@[i] == self.tile_at(r@[i].pos),
            forall|q: Pos|
                (exists|i: int| 0 <= i < r@.len() && (#[trigger] r@[i]).pos == q) <==> (self.has_tile(q) && (
                pos.shifted(0, 1) == Some(q) || pos.shifted(1, 0) == Some(q) || pos.shifted(0, -1) == Some(q)
                    || pos.shifted(-1, 0) == Some(q))),
    {
        let ps = self.nearby_positions(pos);
        let mut r: Vec<&Tile> = Vec::new();
        let mut i: usize = 0;
        while i < ps.len()
            invariant
                self.wf(),
                i <= ps@.len(),
                r@.len() == i,
                forall|q: Pos| ps@.contains(q) ==> self.has_tile(q),
                forall|k: int| 0 <= k < i ==> (#[trigger] r@[k]) == self.tile_at(ps@[k]) && r@[k].pos == ps@[k],
            decreases ps@.len() - i,
        {
            assert(ps@.contains(ps@[i as int]));
            match self.get(&ps[i]) {
                Some(t) => {
                    proof {
                        self.lemma_index_of(self.index_of(ps@[i as int]));
                    }
                    r.push(t);
                },
                None => {},
            }
            i += 1;
        }
        proof {
            assert forall|q: Pos|
                (exists|i: int| 0 <= i < r@.len() && (#[trigger] r@[i]).pos == q) <==> ps@.contains(q) by {
                if ps@.contains(q) {
                    let k = choose|k: int| 0 <= k < ps@.len() && ps@[k] == q;
                    assert(r@[k].pos == q);
                }
            }
        }
        r
    }

    pub fn player_from_id(&self, player_id: usize) -> (r: Option<&Player>)
        ensures
            r is Some <==> exists|i: int| 0 <= i < self.players@.len() && (#[trigger] self.players@[i]).id == player_id,
            r matches Some(p) ==> p.id == player_id && exists|i: int| 0 <= i < self.players@.len() && (#[trigger] self.players@[i]) == *p,
    {
        let mut i: usize = 0;
        while i < self.players.len()
            invariant
                i <= self.players@.len(),
                forall|k: int| 0 <= k < i ==> (#[trigger] self.players@[k]).id != player_id,
            decreases self.players@.len() - i,
        {
            if self.players[i].id == player_id {
                return Some(&self.players[i]);
            }
            i += 1;
        }
        None
    }

    pub fn player_from_color(&self, color: &Color) -> (r: Option<&Player>)
        ensures
            r is Some <==> exists|i: int| 0 <= i < self.players@.len() && (#[trigger] self.players@[i]).color == *color,
            r matches Some(p) ==> p.color == *color && exists|i: int| 0 <= i < self.players@.len() && (#[trigger] self.players@[i]) == *p,
    {
        let mut i: usize = 0;
        while i < self.players.len()
            invariant
                i <= self.players@.len(),
                forall|k: int| 0 <= k < i ==> (#[trigger] self.players@[k]).color != *color,
            decreases self.players@.len() - i,
        {
            if self.players[i].color == *color {
                return Some(&self.players[i]);
            }
            i += 1;
        }
        None
    }

    /// The index of the first player with this id.
    fn player_index(&self, player_id: usize) -> (r: Option<usize>)
        ensures
            r is Some <==> exists|i: int| 0 <= i < self.players@.len() && (#[trigger] self.players@[i]).id == player_id,
            r matches Some(i) ==> i == self.first_player_with_id(player_id) && i < self.players@.len(),
    {
        let mut i: usize = 0;
        while i < self.players.len()
            invariant
                i <= self.players@.len(),
                forall|k: int| 0 <= k < i ==> (#[trigger] self.players@[k]).id != player_id,
            decreases self.players@.len() - i,
        {
            if self.players[i].id == player_id {
                proof {
                    self.lemma_first_player(player_id, i as int);
                }
                return Some(i);
            }
            i += 1;
        }
        None
    }

    /// Whether a player has this id.
    pub open spec fn has_player(self, player_id: usize) -> bool {
        exists|i: int| 0 <= i < self.players@.len() && (#[trigger] self.players@[i]).id == player_id
    }

    /// The index of the first player with this id (meaningful when there is one).
    pub open spec fn first_player_with_id(self, player_id: usize) -> int {
        choose|i: int|
            0 <= i < self.players@.len() && (#[trigger] self.players@[i]).id == player_id && forall|j: int|
                0 <= j < i ==> (#[trigger] self.players@[j]).id != player_id
    }

    proof fn lemma_first_player(self, player_id: usize, i: int)
        requires
            0 <= i < self.players@.len(),
            self.players@[i].id == player_id,
            forall|j: int| 0 <= j < i ==> (#[trigger] self.players@[j]).id != player_id,
        ensures
            self.first_player_with_id(player_id) == i,
    {
        let k = self.first_player_with_id(player_id);
        if k < i {
            assert(self.players@[k].id != player_id);
        } else if k > i {
            assert(self.players@[i].id != player_id);
        }
    }

    pub fn mut_player_from_id(&mut self, player_id: usize) -> (r: Option<&mut Player>)
        ensures
            r is Some <==> exists|i: int| 0 <= i < old(self).players@.len() && (#[trigger] old(self).players@[i]).id == player_id,
            r is None ==> *final(self) == *old(self),
            r matches Some(p) ==> *p == old(self).players@[old(self).first_player_with_id(player_id)]
                && final(self).players@ == old(self).players@.update(old(self).first_player_with_id(player_id), *final(p))
                && final(self).tiles == old(self).tiles && final(self).rng == old(self).rng
                && final(self).time == old(self).time && final(self).cards == old(self).cards
                && final(self).dead_pieces == old(self).dead_pieces && final(self).shape == old(self).shape
                && final(self).events == old(self).events,
    {
        match self.player_index(player_id) {
            None => None,
            Some(i) => Some(&mut self.players[i]),
        }
    }

    pub fn current_player(&self) -> (r: &Player)
        requires
            self.wf(),
        ensures
            *r == self.players@[self.time.turn as int],
    {
        &self.players[self.time.turn]
    }

    pub fn add_event(&mut self, event: Event)
        requires
            old(self).wf(),
        ensures
            final(self).wf(),
            final(self).tiles == old(self).tiles,
            final(self).same_frame(*old(self)),
            final(self).cards == old(self).cards,
            final(self).dead_pieces == old(self).dead_pieces,
            final(self).events.events@ == old(self).events.events@.push(event),
            final(self).layout_kept(*old(self)),
            forall|q: Pos| #[trigger] final(self).piece_at(q) == old(self).piece_at(q),
    {
        self.events.events.push(event);
        proof {
            self.lemma_layout_kept(*old(self));
        }
    }

    pub fn has_card_on_board(&self, card: Card) -> (r: bool)
        ensures
            r == self.cards.0@.contains(card),
    {
        let mut i: usize = 0;
        while i < self.cards.0.len()
            invariant
                i <= self.cards.0@.len(),
                forall|k: int| 0 <= k < i ==> self.cards.0@[k] != card,
            decreases self.cards.0@.len() - i,
        {
            if self.cards.0[i] == card {
                return true;
            }
            i += 1;
        }
        false
    }

    pub fn has_any_card_on_board(&self, cards: Vec<Card>) -> (r: bool)
        ensures
            r == exists|i: int| 0 <= i < cards@.len() && self.cards.0@.contains(#[trigger] cards@[i]),
    {
        let mut i: usize = 0;
        while i < cards.len()
            invariant
                i <= cards@.len(),
                forall|k: int| 0 <= k < i ==> !self.cards.0@.contains(#[trigger] cards@[k]),
            decreases cards@.len() - i,
        {
            if self.has_card_on_board(cards[i]) {
                return true;
            }
            i += 1;
        }
        false
    }

    pub fn get_data(&self, pos: &Pos) -> (r: Option<&PieceData>)
        requires
            self.wf(),
        ensures
            r is Some == (self.piece_at(*pos).data_of() is Some),
            r matches Some(d) ==> self.piece_at(*pos).data_of() == Some(*d),
    {
        match self.get(pos) {
            None => None,
            Some(tile) => tile.piece.data(),
        }
    }

    pub fn get_piece(&self, pos: &Pos) -> (r: Option<&Piece>)
        requires
            self.wf(),
        ensures
            r is Some == self.has_tile(*pos),
            r matches Some(p) ==> *p == self.piece_at(*pos),
    {
        match self.get(pos) {
            None => None,
            Some(tile) => Some(&tile.piece),
        }
    }

    /// Appends `added` to the effects of the piece on every tile `i` with
    /// `mask[i]`.
    pub fn add_effects_where(&mut self, mask: &Vec<bool>, added: &Vec<Effect>)
        requires
            old(self).wf(),
            mask@.len() == old(self).tiles@.len(),
        ensures
            final(self).wf(),
            final(self).layout_kept(*old(self)),
            final(self).same_but_tiles(*old(self)),
            forall|q: Pos|
                old(self).has_tile(q) ==> if mask@[old(self).index_of(q)] {
                    (#[trigger] final(self).piece_at(q)).gained_effects(old(self).piece_at(q), added@)
                } else {
                    final(self).piece_at(q) == old(self).piece_at(q)
                },
            forall|q: Pos| !old(self).has_tile(q) ==> #[trigger] final(self).piece_at(q) is Empty,
    {
        let mut i: usize = 0;
        while i < self.tiles.len()
            invariant
                old(self).wf(),
                mask@.len() == old(self).tiles@.len(),
                i <= self.tiles@.len(),
                self.layout_kept(*old(self)),
                self.same_but_tiles(*old(self)),
                forall|k: int|
                    0 <= k < self.tiles@.len() ==> if k < i && mask@[k] {
                        (#[trigger] self.tiles@[k]).piece.gained_effects(old(self).tiles@[k].piece, added@)
                    } else {
                        self.tiles@[k] == old(self).tiles@[k]
                    },
            decreases self.tiles@.len() - i,
        {
            if mask[i] {
                let mut j: usize = 0;
                while j < added.len()
                    invariant
                        i < self.tiles@.len(),
                        mask@.len() == old(self).tiles@.len(),
                        mask@[i as int],
                        j <= added@.len(),
                        self.layout_kept(*old(self)),
                        self.same_but_tiles(*old(self)),
                        self.tiles@[i as int].piece.gained_effects(old(self).tiles@[i as int].piece, added@.take(j as int)),
                        forall|k: int|
                            0 <= k < self.tiles@.len() && k != i ==> if k < i && mask@[k] {
                                (#[trigger] self.tiles@[k]).piece.gained_effects(old(self).tiles@[k].piece, added@)
                            } else {
                                self.tiles@[k] == old(self).tiles@[k]
                            },
                    decreases added@.len() - j,
                {
                    let ghost mid = self.tiles@[i as int].piece;
                    let ghost before = self.tiles@;
                    let e = added[j];
                    self.tiles[i].piece.add_effect(e);
                    proof {
                        assert(self.tiles@ == before.update(i as int, self.tiles@[i as int]));
                        self.tiles@[i as int].piece.lemma_gained_effects_trans(
                            mid,
                            old(self).tiles@[i as int].piece,
                            added@.take(j as int),
                            seq![e],
                        );
                        assert(added@.take(j as int) + seq![e] == added@.take(j + 1));
                    }
                    j += 1;
                }
                proof {
                    assert(added@.take(j as int) == added@);
                }
            }
            i += 1;
        }
        proof {
            self.lemma_layout_kept(*old(self));
        }
    }

    /// Appends `added` to the types of the piece on every tile `i` with
    /// `mask[i]`.
    pub fn add_type_where(&mut self, mask: &Vec<bool>, added: Type)
        requires
            old(self).wf(),
            mask@.len() == old(self).tiles@.len(),
        ensures
            final(self).wf(),
            final(self).layout_kept(*old(self)),
            final(self).same_but_tiles(*old(self)),
            forall|q: Pos|
                old(self).has_tile(q) ==> if mask@[old(self).index_of(q)] {
                    (#[trigger] final(self).piece_at(q)).gained_types(old(self).piece_at(q), seq![added])
                } else {
                    final(self).piece_at(q) == old(self).piece_at(q)
                },
            forall|q: Pos| !old(self).has_tile(q) ==> #[trigger] final(self).piece_at(q) is Empty,
    {
        let mut i: usize = 0;
        while i < self.tiles.len()
            invariant
                old(self).wf(),
                mask@.len() == old(self).tiles@.len(),
                i <= self.tiles@.len(),
                self.layout_kept(*old(self)),
                self.same_but_tiles(*old(self)),
                forall|k: int|
                    0 <= k < self.tiles@.len() ==> if k < i && mask@[k] {
                        (#[trigger] self.tiles@[k]).piece.gained_types(old(self).tiles@[k].piece, seq![added])
                    } else {
                        self.tiles@[k] == old(self).tiles@[k]
                    },
            decreases self.tiles@.len() - i,
        {
            if mask[i] {
                let ghost before = self.tiles@;
                self.tiles[i].piece.add_type(added);
                proof {
                    assert(self.tiles@ == before.update(i as int, self.tiles@[i as int]));
                }
            }
            i += 1;
        }
        proof {
            self.lemma_layout_kept(*old(self));
        }
    }

    /// Walks from `from` by `shift`, one step at a time, and stops after
    /// `len` steps, at the edge of the board, or on the first tile where
    /// `stop_at` holds (the collision).
    pub fn ray_cast<F: Fn(&Tile) -> bool>(
        &self,
        from: &Pos,
        len: Option<usize>,
        shift: &(isize, isize),
        stop_at: F,
    ) -> (r: RayCastInfo)
        requires
            self.wf(),
            forall|t: &Tile| stop_at.requires((t,)),
            len is Some || shift.0 != 0 || shift.1 != 0,
        ensures
            self.is_ray(
                *from,
                len,
                shift.0 as int,
                shift.1 as int,
                |t: Tile| stop_at.ensures((&t,), false),
                |t: Tile| stop_at.ensures((&t,), true),
                r,
            ),
    {
        let ghost (dx, dy) = (shift.0 as int, shift.1 as int);
        proof {
            reveal_with_fuel(ray_step, 2);
        }
        if !self.contains(from) {
            return RayCastInfo::empty();
        }
        let next = from.shift(shift.0, shift.1);
        let mut next = match next {
            None => return RayCastInfo::start(*from),
            Some(pos) => pos,
        };
        let mut mid: Vec<Pos> = Vec::new();
        let mut collision: Option<Pos> = None;
        loop
            invariant_except_break
                self.wf(),
                forall|t: &Tile| stop_at.requires((t,)),
                len is Some || dx != 0 || dy != 0,
                dx == shift.0 && dy == shift.1,
                ray_step(*from, dx, dy, (mid@.len() + 1) as nat) == Some(next),
                forall|k: int|
                    0 <= k < mid@.len() ==> ray_step(*from, dx, dy, (k + 1) as nat) == Some(#[trigger] mid@[k])
                        && self.has_tile(mid@[k]) && stop_at.ensures((&self.tile_at(mid@[k]),), false),
                len matches Some(l) ==> mid@.len() <= l,
                collision is None,
            ensures
                forall|k: int|
                    0 <= k < mid@.len() ==> ray_step(*from, dx, dy, (k + 1) as nat) == Some(#[trigger] mid@[k])
                        && self.has_tile(mid@[k]) && stop_at.ensures((&self.tile_at(mid@[k]),), false),
                len matches Some(l) ==> mid@.len() <= l,
                collision matches Some(c) ==> (len matches Some(l) ==> mid@.len() < l) && ray_step(
                    *from,
                    dx,
                    dy,
                    (mid@.len() + 1) as nat,
                ) == Some(c) && self.has_tile(c) && stop_at.ensures((&self.tile_at(c),), true),
                collision is None ==> (len matches Some(l) && l == mid@.len()) || ray_step(
                    *from,
                    dx,
                    dy,
                    (mid@.len() + 1) as nat,
                ) is None || !self.has_tile(ray_step(*from, dx, dy, (mid@.len() + 1) as nat).unwrap()),
            decreases
                (match len {
                    Some(l) => l - mid@.len(),
                    None => 0,
                }),
                ray_room(next, dx, dy),
        {
            if let Some(l) = len {
                if mid.len() == l {
                    break;
                }
            }
            let tile = match self.get(&next) {
                None => break,
                Some(tile) => tile,
            };
            if stop_at(tile) {
                collision = Some(next);
                break;
            }
            mid.push(next);
            next = match next.shift(shift.0, shift.1) {
                None => break,
                Some(pos) => pos,
            };
        }
        match collision {
            None => RayCastInfo::mid(*from, mid),
            Some(collision) => RayCastInfo::collision(*from, mid, collision),
        }
    }

    /// A ray cast stopped by the first piece in the way.
    pub fn ray_cast_empty(&self, from: &Pos, len: Option<usize>, shift: &(isize, isize)) -> (r:
        RayCastInfo)
        requires
            self.wf(),
            len is Some || shift.0 != 0 || shift.1 != 0,
        ensures
            self.is_ray(
                *from,
                len,
                shift.0 as int,
                shift.1 as int,
                |t: Tile| t.piece is Empty,
                |t: Tile| !(t.piece is Empty),
                r,
            ),
    {
        self.ray_cast(from, len, shift, tile_occupied)
    }
}

/// On a line whose first `n` squares are free tiles, a ray cast stopped by
/// pieces crosses exactly those `n` squares; it collides on the next square
/// when a piece stands there, and has no collision when the line leaves the
/// board there.
pub proof fn lemma_ray_cast_empty_line(b: Board, from: Pos, dx: int, dy: int, n: nat, r: RayCastInfo)
    requires
        b.wf(),
        b.has_tile(from),
        forall|k: nat| 1 <= k <= n ==> (#[trigger] ray_step(from, dx, dy, k)) is Some && b.empty_at(
            ray_step(from, dx, dy, k).unwrap(),
        ),
        b.is_ray(from, None, dx, dy, |t: Tile| t.piece is Empty, |t: Tile| !(t.piece is Empty), r),
    ensures
        ray_step(from, dx, dy, n + 1) is Some && b.occupied_at(ray_step(from, dx, dy, n + 1).unwrap())
            ==> r.mid_seq().len() == n && r.collision == ray_step(from, dx, dy, n + 1),
        ray_step(from, dx, dy, n + 1) is None || !b.has_tile(ray_step(from, dx, dy, n + 1).unwrap())
            ==> r.mid_seq().len() == n && r.collision is None,
{
    let m = r.mid_seq();
    if ray_step(from, dx, dy, 1) is None {
        if n >= 1 {
            assert(ray_step(from, dx, dy, 1) is Some);
        }
    } else {
        if m.len() < n {
            let k = (m.len() + 1) as nat;
            assert(ray_step(from, dx, dy, k) is Some);
            assert(b.empty_at(ray_step(from, dx, dy, k).unwrap()));
        } else if m.len() > n {
            let q = m[n as int];
            assert(ray_step(from, dx, dy, (n + 1) as nat) == Some(q));
        }
    }
}

impl Board {
    /// Whether a ray from `from` along (dx, dy), at most `range` steps long,
    /// reaches `to`: `to` is the start, or is on the board `k` steps away
    /// with every square before it a tile that `blocks` lets through.
    pub open spec fn reaches(
        self,
        from: Pos,
        to: Pos,
        dx: int,
        dy: int,
        range: Option<usize>,
        blocks: spec_fn(Tile) -> bool,
    ) -> bool {
        self.has_tile(from) && (to == from || exists|k: nat|
            1 <= k && (range matches Some(l) ==> k <= l) && #[trigger] ray_step(from, dx, dy, k) == Some(
                to,
            ) && self.has_tile(to) && forall|j: nat|
                1 <= j < k ==> (#[trigger] ray_step(from, dx, dy, j)) is Some && self.has_tile(
                    ray_step(from, dx, dy, j).unwrap(),
                ) && !blocks(self.tile_at(ray_step(from, dx, dy, j).unwrap())))
    }

    /// Distinct positions of tiles are no more than the tiles.
    pub proof fn lemma_distinct_tiles_bound(self, ps: Seq<Pos>)
        requires
            tiles_unique(self.tiles@),
            ps.no_duplicates(),
            forall|i: int| 0 <= i < ps.len() ==> self.has_tile(#[trigger] ps[i]),
        ensures
            ps.len() <= self.tiles@.len(),
    {
        let idx = ps.map_values(|p: Pos| self.index_of(p));
        assert forall|i: int, j: int| 0 <= i < idx.len() && 0 <= j < idx.len() && i != j implies idx[i] != idx[j] by {
            assert(self.has_tile(ps[i]));
            assert(self.has_tile(ps[j]));
            let a = self.index_of(ps[i]);
            let b = self.index_of(ps[j]);
            assert(self.tiles@[a].pos == ps[i]);
            assert(self.tiles@[b].pos == ps[j]);
        }
        assert(idx.no_duplicates());
        idx.unique_seq_to_set();
        vstd::set_lib::lemma_int_range(0, self.tiles@.len() as int);
        assert forall|x: int| idx.to_set().contains(x) implies vstd::set_lib::set_int_range(0, self.tiles@.len() as int).contains(x) by {
            let i = choose|i: int| 0 <= i < idx.len() && idx[i] == x;
            assert(self.has_tile(ps[i]));
        }
        vstd::set_lib::lemma_len_subset(idx.to_set(), vstd::set_lib::set_int_range(0, self.tiles@.len() as int));
    }

    /// A ray holds `to` exactly when it reaches `to`.
    pub proof fn lemma_ray_contains(
        self,
        from: Pos,
        len: Option<usize>,
        dx: int,
        dy: int,
        passes: spec_fn(Tile) -> bool,
        stops: spec_fn(Tile) -> bool,
        blocks: spec_fn(Tile) -> bool,
        r: RayCastInfo,
        to: Pos,
    )
        requires
            self.wf(),
            self.is_ray(from, len, dx, dy, passes, stops, r),
            forall|t: Tile| #[trigger] passes(t) ==> !blocks(t),
            forall|t: Tile| #[trigger] stops(t) ==> blocks(t),
        ensures
            r.spec_contains(to) == self.reaches(from, to, dx, dy, len, blocks),
    {
        reveal_with_fuel(ray_step, 2);
        let m = r.mid_seq();
        let n = m.len();
        if !self.has_tile(from) {
        } else if ray_step(from, dx, dy, 1) is None {
            if self.reaches(from, to, dx, dy, len, blocks) && to != from {
                let k = choose|k: nat|
                    1 <= k && (len matches Some(l) ==> k <= l) && #[trigger] ray_step(from, dx, dy, k)
                        == Some(to) && self.has_tile(to) && forall|j: nat|
                        1 <= j < k ==> (#[trigger] ray_step(from, dx, dy, j)) is Some && self.has_tile(
                            ray_step(from, dx, dy, j).unwrap(),
                        ) && !blocks(self.tile_at(ray_step(from, dx, dy, j).unwrap()));
                lemma_ray_step_none_after(from, dx, dy, 1, k);
            }
        } else {
            if r.spec_contains(to) && to != from {
                if m.contains(to) {
                    let i = choose|i: int| 0 <= i < m.len() && m[i] == to;
                    let k = (i + 1) as nat;
                    assert(ray_step(from, dx, dy, k) == Some(to));
                    assert forall|j: nat| 1 <= j < k implies (#[trigger] ray_step(from, dx, dy, j)) is Some
                        && self.has_tile(ray_step(from, dx, dy, j).unwrap()) && !blocks(
                        self.tile_at(ray_step(from, dx, dy, j).unwrap()),
                    ) by {
                        assert(ray_step(from, dx, dy, ((j - 1) + 1) as nat) == Some(m[j - 1]));
                    }
                } else {
                    let k = (n + 1) as nat;
                    assert(ray_step(from, dx, dy, k) == Some(to));
                    assert forall|j: nat| 1 <= j < k implies (#[trigger] ray_step(from, dx, dy, j)) is Some
                        && self.has_tile(ray_step(from, dx, dy, j).unwrap()) && !blocks(
                        self.tile_at(ray_step(from, dx, dy, j).unwrap()),
                    ) by {
                        assert(ray_step(from, dx, dy, ((j - 1) + 1) as nat) == Some(m[j - 1]));
                    }
                }
            }
            if self.reaches(from, to, dx, dy, len, blocks) && to != from {
                let k = choose|k: nat|
                    1 <= k && (len matches Some(l) ==> k <= l) && #[trigger] ray_step(from, dx, dy, k)
                        == Some(to) && self.has_tile(to) && forall|j: nat|
                        1 <= j < k ==> (#[trigger] ray_step(from, dx, dy, j)) is Some && self.has_tile(
                            ray_step(from, dx, dy, j).unwrap(),
                        ) && !blocks(self.tile_at(ray_step(from, dx, dy, j).unwrap()));
                if k <= n {
                    assert(m[k - 1] == to);
                    assert(m.contains(to));
                } else if k == n + 1 {
                } else {
                    let j = (n + 1) as nat;
                    assert(ray_step(from, dx, dy, j) is Some);
                }
            }
        }
    }
}

/// Once a ray leaves `usize`, it never comes back.
pub proof fn lemma_ray_step_none_after(from: Pos, dx: int, dy: int, i: nat, k: nat)
    requires
        ray_step(from, dx, dy, i) is None,
        i <= k,
    ensures
        ray_step(from, dx, dy, k) is None,
    decreases k - i,
{
    if i < k {
        lemma_ray_step_none_after(from, dx, dy, i, (k - 1) as nat);
    }
}

/// One blank tile on each square of `shape`.
fn tiles_of(shape: &Shape) -> (r: Vec<Tile>)
    requires
        shape.wf(),
    ensures
        tiles_unique(r@),
        forall|p: Pos| shape.spec_contains(p) <==> exists|i: int| 0 <= i < r@.len() && (#[trigger] r@[i]).pos == p,
        forall|i: int| 0 <= i < r@.len() ==> #[trigger] r@[i] == Tile::blank(r@[i].pos),
{
    let points = shape.points_iter();
    let mut seen: Vec<Pos> = Vec::new();
    let mut tiles: Vec<Tile> = Vec::new();
    let mut i: usize = 0;
    while i < points.len()
        invariant
            i <= points@.len(),
            forall|p: Pos| points@.contains(p) <==> shape.spec_contains(p),
            seen@.len() == tiles@.len(),
            forall|k: int| 0 <= k < tiles@.len() ==> (#[trigger] tiles@[k]) == Tile::blank(seen@[k]),
            seen@.no_duplicates(),
            forall|p: Pos| seen@.contains(p) <==> exists|k: int| 0 <= k < i && points@[k] == p,
        decreases points@.len() - i,
    {
        let p = points[i];
        let mut found = false;
        let mut j: usize = 0;
        while j < seen.len()
            invariant
                j <= seen@.len(),
                found <==> exists|k: int| 0 <= k < j && seen@[k] == p,
            decreases seen@.len() - j,
        {
            if seen[j] == p {
                found = true;
            }
            j += 1;
        }
        let ghost before = seen@;
        if !found {
            seen.push(p);
            tiles.push(Tile::new(p));
        }
        proof {
            assert forall|q: Pos| seen@.contains(q) <==> exists|k: int| 0 <= k < i + 1 && points@[k] == q by {
                if !found {
                    crate::lemma_push_contains(before, p, q);
                }
                if exists|k: int| 0 <= k < i + 1 && points@[k] == q {
                    let k = choose|k: int| 0 <= k < i + 1 && points@[k] == q;
                    if k < i {
                        assert(before.contains(q));
                        if !found {
                            crate::lemma_push_contains(before, p, q);
                        }
                    } else if found {
                        let m = choose|m: int| 0 <= m < before.len() && before[m] == p;
                        assert(before.contains(p));
                    } else {
                        crate::lemma_push_contains(before, p, q);
                    }
                }
            }
        }
        i += 1;
    }
    proof {
        assert forall|a: int, b: int| 0 <= a < tiles@.len() && 0 <= b < tiles@.len() && tiles@[a].pos == tiles@[b].pos implies a == b by {
            assert(seen@[a] == seen@[b]);
        }
        assert forall|p: Pos| shape.spec_contains(p) <==> exists|k: int| 0 <= k < tiles@.len() && (#[trigger] tiles@[k]).pos == p by {
            if shape.spec_contains(p) {
                assert(points@.contains(p));
                let k = choose|k: int| 0 <= k < points@.len() && points@[k] == p;
                assert(seen@.contains(p));
                let m = choose|m: int| 0 <= m < seen@.len() && seen@[m] == p;
                assert(tiles@[m].pos == p);
            }
            if exists|k: int| 0 <= k < tiles@.len() && (#[trigger] tiles@[k]).pos == p {
                let k = choose|k: int| 0 <= k < tiles@.len() && (#[trigger] tiles@[k]).pos == p;
                assert(seen@.contains(seen@[k]));
                let m = choose|m: int| 0 <= m < i && points@[m] == p;
                assert(points@.contains(p));
            }
        }
    }
    tiles
}

/// The kind on column `x` of a back rank: rook, knight, bishop, queen,
/// king, bishop, knight, rook.
pub open spec fn back_rank(x: usize) -> usize {
    if x == 0 || x == 7 {
        4
    } else if x == 1 || x == 6 {
        2
    } else if x == 2 || x == 5 {
        3
    } else if x == 3 {
        5
    } else {
        6
    }
}

fn back_rank_kind(x: usize) -> (r: usize)
    ensures
        r == back_rank(x),
{
    if x == 0 || x == 7 {
        4
    } else if x == 1 || x == 6 {
        2
    } else if x == 2 || x == 5 {
        3
    } else if x == 3 {
        5
    } else {
        6
    }
}

/// The kind (see `Piece::tag`) on column `x` of row `row` of the extended
/// game's white side (rows 0 to 3), 0 for an empty square; the black side
/// mirrors it from row 16 down.
pub open spec fn cchess_table(x: usize, row: usize) -> usize {
    if row == 0 {
        if x == 0 || x == 15 { 10 }
        else if x == 1 || x == 14 { 4 }
        else if x == 2 || x == 13 { 11 }
        else if x == 3 || x == 12 { 2 }
        else if x == 4 || x == 11 { 21 }
        else if x == 5 || x == 10 { 3 }
        else if x == 6 { 13 }
        else if x == 7 { 5 }
        else if x == 8 { 6 }
        else if x == 9 { 14 }
        else { 0 }
    } else if row == 1 {
        if x == 0 || x == 15 { 17 }
        else if x == 1 || x == 14 { 19 }
        else if x == 2 || x == 13 { 15 }
        else if x == 3 || x == 12 { 9 }
        else if x == 4 || x == 11 || x == 5 || x == 10 { 1 }
        else if x == 6 || x == 9 { 12 }
        else if x == 7 || x == 8 { 18 }
        else { 0 }
    } else if row == 2 {
        if x == 0 || x == 15 { 8 }
        else if x == 1 || x == 14 || x == 2 || x == 13 { 7 }
        else if x == 3 || x == 12 { 16 }
        else { 0 }
    } else if row == 3 {
        if x == 0 || x == 15 || x == 2 || x == 13 { 1 }
        else if x == 1 || x == 14 { 12 }
        else { 0 }
    } else {
        0
    }
}

fn cchess_kind(x: usize, row: usize) -> (r: usize)
    ensures
        r == cchess_table(x, row),
{
    if row == 0 {
        if x == 0 || x == 15 { 10 }
        else if x == 1 || x == 14 { 4 }
        else if x == 2 || x == 13 { 11 }
        else if x == 3 || x == 12 { 2 }
        else if x == 4 || x == 11 { 21 }
        else if x == 5 || x == 10 { 3 }
        else if x == 6 { 13 }
        else if x == 7 { 5 }
        else if x == 8 { 6 }
        else if x == 9 { 14 }
        else { 0 }
    } else if row == 1 {
        if x == 0 || x == 15 { 17 }
        else if x == 1 || x == 14 { 19 }
        else if x == 2 || x == 13 { 15 }
        else if x == 3 || x == 12 { 9 }
        else if x == 4 || x == 11 || x == 5 || x == 10 { 1 }
        else if x == 6 || x == 9 { 12 }
        else if x == 7 || x == 8 { 18 }
        else { 0 }
    } else if row == 2 {
        if x == 0 || x == 15 { 8 }
        else if x == 1 || x == 14 || x == 2 || x == 13 { 7 }
        else if x == 3 || x == 12 { 16 }
        else { 0 }
    } else if row == 3 {
        if x == 0 || x == 15 || x == 2 || x == 13 { 1 }
        else if x == 1 || x == 14 { 12 }
        else { 0 }
    } else {
        0
    }
}

/// How far `p` lies from its own side's back rank in the extended game
/// (row `y` for White, row `16 - y` for Black); 17 outside rows 0 to 3 and
/// 13 to 16.
pub open spec fn cchess_row(p: Pos) -> usize {
    if p.y <= 3 {
        p.y
    } else if 13 <= p.y <= 16 {
        (16 - p.y) as usize
    } else {
        17
    }
}

/// The kind and color that the extended game's opening puts on `p`, if any.
pub open spec fn cchess_square(p: Pos) -> Option<(usize, Color)> {
    if p.x >= 16 || cchess_row(p) > 3 || cchess_table(p.x, cchess_row(p)) == 0 {
        None
    } else if p.y <= 3 {
        Some((cchess_table(p.x, p.y), Color::White))
    } else {
        Some((cchess_table(p.x, cchess_row(p)), Color::Black))
    }
}

/// The kind (see `Piece::tag`) and color that the chess opening puts on
/// `p`, if any.
pub open spec fn opening_square(p: Pos) -> Option<(usize, Color)> {
    if p.x >= 8 {
        None
    } else if p.y == 0 {
        Some((back_rank(p.x), Color::White))
    } else if p.y == 1 {
        Some((1, Color::White))
    } else if p.y == 6 {
        Some((1, Color::Black))
    } else if p.y == 7 {
        Some((back_rank(p.x), Color::Black))
    } else {
        None
    }
}

/// The kind with tag `kind` (see `Piece::tag`), of color `color`; an empty
/// square for tags of no kind.
fn piece_of(kind: usize, color: Color) -> (r: Piece)
    ensures
        1 <= kind <= 22 ==> r.tag() == kind && r.color_of() == Some(color) && r.data_of() is Some
            && r.data_of().unwrap().fresh(color),
        !(1 <= kind <= 22) ==> r is Empty,
{
    if kind == 1 {
        Piece::pawn(color)
    } else if kind == 2 {
        Piece::knight(color)
    } else if kind == 3 {
        Piece::bishop(color)
    } else if kind == 4 {
        Piece::rook(color)
    } else if kind == 5 {
        Piece::queen(color)
    } else if kind == 6 {
        Piece::king(color)
    } else if kind == 7 {
        Piece::archer(color)
    } else if kind == 8 {
        Piece::ballista(color)
    } else if kind == 9 {
        Piece::builder(color)
    } else if kind == 10 {
        Piece::cannon(color)
    } else if kind == 11 {
        Piece::catapult(color)
    } else if kind == 12 {
        Piece::crazy_pawn(color)
    } else if kind == 13 {
        Piece::magician(color)
    } else if kind == 14 {
        Piece::paladin(color)
    } else if kind == 15 {
        Piece::ram(color)
    } else if kind == 16 {
        Piece::shield_bearer(color)
    } else if kind == 17 {
        Piece::ship(color)
    } else if kind == 18 {
        Piece::super_pawn(color)
    } else if kind == 19 {
        Piece::tesla_tower(color)
    } else if kind == 20 {
        Piece::wall(color)
    } else if kind == 21 {
        Piece::warlock(color)
    } else if kind == 22 {
        Piece::portal(color)
    } else {
        Piece::Empty
    }
}

impl Default for Board {
    /// An empty 8 by 8 board, with a white player (id 0) and a black one
    /// (id 1), randomly seeded generators, and the clock at zero.
    fn default() -> (r: Board)
        ensures
            r.wf(),
            r.shape.squares@ == seq![shape::Square { anchor: Pos { x: 0, y: 0 }, width: 8, height: 8 }],
            forall|p: Pos| r.has_tile(p) ==> #[trigger] r.tile_at(p) == Tile::blank(p),
            r.time == (Time { round: 0, turn: 0, movement: 0 }),
            r.players@.len() == 2,
            r.players@[0].starts(Color::White, 0),
            r.players@[1].starts(Color::Black, 1),
            r.cards.0@.len() == 0,
            r.dead_pieces@.len() == 0,
            r.events.events@.len() == 0,
    {
        Board::with_shape(Shape::default_chessboard())
    }
}

impl Board {
    /// A board of blank tiles on `shape`, with a white player (id 0) and a
    /// black one (id 1), randomly seeded generators, and the clock at zero.
    pub fn with_shape(shape: Shape) -> (r: Board)
        requires
            shape.wf(),
        ensures
            r.wf(),
            r.shape == shape,
            forall|p: Pos| r.has_tile(p) ==> #[trigger] r.tile_at(p) == Tile::blank(p),
            r.time == (Time { round: 0, turn: 0, movement: 0 }),
            r.players@.len() == 2,
            r.players@[0].starts(Color::White, 0),
            r.players@[1].starts(Color::Black, 1),
            r.cards.0@.len() == 0,
            r.dead_pieces@.len() == 0,
            r.events.events@.len() == 0,
    {
        let tiles = tiles_of(&shape);
        let r = Board {
            tiles,
            rng: BoardRng::default(),
            time: Time::default(),
            players: vec![
                Player::new(Color::White, 0, Cards::default()),
                Player::new(Color::Black, 1, Cards::default()),
            ],
            cards: Cards::default(),
            dead_pieces: Vec::new(),
            shape,
            events: Events::default(),
        };
        proof {
            assert forall|p: Pos| r.has_tile(p) implies #[trigger] r.tile_at(p) == Tile::blank(p) by {
                let i = r.index_of(p);
                assert(r.tiles@[i] == Tile::blank(r.tiles@[i].pos));
            }
        }
        r
    }

    pub fn with_empty_tiles(shape: Shape) -> (r: Board)
        requires
            shape.wf(),
        ensures
            r.wf(),
            r.shape == shape,
            forall|p: Pos| r.has_tile(p) ==> #[trigger] r.tile_at(p) == Tile::blank(p),
            r.players@.len() == 2,
    {
        Board::with_shape(shape)
    }

    /// A board with these tiles and players, randomly seeded generators, no
    /// card, no dead piece, no event, and the clock at zero.
    pub fn new(tiles: Vec<Tile>, shape: Shape, players: Vec<Player>) -> (r: Board)
        requires
            tiles_unique(tiles@),
            shape.wf(),
            forall|p: Pos| shape.spec_contains(p) <==> exists|i: int| 0 <= i < tiles@.len() && (#[trigger] tiles@[i]).pos == p,
            players@.len() > 0,
            forall|k: int| 0 <= k < players@.len() ==> (#[trigger] players@[k]).movements.0 >= 1,
        ensures
            r.wf(),
            r.tiles == tiles,
            r.shape == shape,
            r.players == players,
            r.time == (Time { round: 0, turn: 0, movement: 0 }),
            r.cards.0@.len() == 0,
            r.dead_pieces@.len() == 0,
            r.events.events@.len() == 0,
    {
        let r = Board {
            tiles,
            rng: BoardRng::default(),
            time: Time::default(),
            players,
            cards: Cards::default(),
            dead_pieces: Vec::new(),
            shape,
            events: Events::default(),
        };
        proof {
            assert(r.players@[0].movements.0 >= 1);
        }
        r
    }

    /// A board with these tiles, a white player (id 0) and a black one (id 1).
    pub fn with_default_players(tiles: Vec<Tile>, shape: Shape) -> (r: Board)
        requires
            tiles_unique(tiles@),
            shape.wf(),
            forall|p: Pos| shape.spec_contains(p) <==> exists|i: int| 0 <= i < tiles@.len() && (#[trigger] tiles@[i]).pos == p,
        ensures
            r.wf(),
            r.tiles == tiles,
            r.shape == shape,
            r.players@.len() == 2,
            r.players@[0].color == Color::White && r.players@[0].id == 0,
            r.players@[1].color == Color::Black && r.players@[1].id == 1,
    {
        let players = vec![
            Player::new(Color::White, 0, Cards::default()),
            Player::new(Color::Black, 1, Cards::default()),
        ];
        Board::new(tiles, shape, players)
    }

    /// Puts each (column, row, kind, color) of `layout` on the board.
    pub(crate) fn lay_out(&mut self, layout: &Vec<(usize, usize, usize, Color)>)
        requires
            old(self).wf(),
        ensures
            final(self).wf(),
            final(self).shape == old(self).shape,
            final(self).players == old(self).players,
            final(self).time == old(self).time,
            final(self).cards == old(self).cards,
            final(self).dead_pieces == old(self).dead_pieces,
            final(self).events == old(self).events,
            final(self).layout_kept(*old(self)),
    {
        let ghost start = *self;
        let mut i: usize = 0;
        while i < layout.len()
            invariant
                start == *old(self),
                start.wf(),
                self.wf(),
                i <= layout@.len(),
                self.layout_kept(start),
                self.same_but_tiles(start),
            decreases layout@.len() - i,
        {
            let (x, y, kind, color) = layout[i];
            let ghost before = *self;
            self.place(&Pos::new(x, y), piece_of(kind, color));
            proof {
                self.lemma_same_layout(before);
                before.lemma_same_layout(start);
                self.lemma_same_layout(start);
            }
            i += 1;
        }
    }

    /// The standard chess opening on an 8 by 8 board.
    pub fn default_chessboard() -> (r: Board)
        ensures
            r.wf(),
            r.shape.squares@ == seq![shape::Square { anchor: Pos { x: 0, y: 0 }, width: 8, height: 8 }],
            r.time == (Time { round: 0, turn: 0, movement: 0 }),
            r.players@.len() == 2,
            r.players@[0].starts(Color::White, 0),
            r.players@[1].starts(Color::Black, 1),
            r.cards.0@.len() == 0,
            r.dead_pieces@.len() == 0,
            r.events.events@.len() == 0,
            forall|p: Pos|
                #![trigger r.piece_at(p)]
                match opening_square(p) {
                    Some((kind, color)) => r.piece_at(p).tag() == kind && r.piece_at(p).color_of() == Some(color)
                        && r.piece_at(p).data_of() is Some && r.piece_at(p).data_of().unwrap().fresh(color),
                    None => r.piece_at(p) is Empty,
                },
    {
        let mut board = Board::default();
        let ghost start = board;
        let mut x: usize = 0;
        while x < 8
            invariant
                x <= 8,
                board.wf(),
                board.shape == start.shape,
                board.shape.squares@ == seq![shape::Square { anchor: Pos { x: 0, y: 0 }, width: 8, height: 8 }],
                board.time == (Time { round: 0, turn: 0, movement: 0 }),
                board.players == start.players,
                board.cards == start.cards,
                board.dead_pieces == start.dead_pieces,
                board.events == start.events,
                start.players@.len() == 2,
                start.players@[0].starts(Color::White, 0),
                start.players@[1].starts(Color::Black, 1),
                start.cards.0@.len() == 0,
                start.dead_pieces@.len() == 0,
                start.events.events@.len() == 0,
                forall|p: Pos|
                    #![trigger board.piece_at(p)]
                    if p.x < x && opening_square(p) is Some {
                        board.piece_at(p).tag() == opening_square(p).unwrap().0 && board.piece_at(p).color_of() == Some(
                            opening_square(p).unwrap().1,
                        ) && board.piece_at(p).data_of() is Some && board.piece_at(p).data_of().unwrap().fresh(
                            opening_square(p).unwrap().1,
                        )
                    } else {
                        board.piece_at(p) is Empty
                    },
            decreases 8 - x,
        {
            let kind = back_rank_kind(x);
            proof {
                let sq = board.shape.squares@[0];
                assert(sq.spec_contains(Pos { x, y: 0 }) && board.shape.spec_contains(Pos { x, y: 0 }));
                assert(sq.spec_contains(Pos { x, y: 1 }) && board.shape.spec_contains(Pos { x, y: 1 }));
                assert(sq.spec_contains(Pos { x, y: 6 }) && board.shape.spec_contains(Pos { x, y: 6 }));
                assert(sq.spec_contains(Pos { x, y: 7 }) && board.shape.spec_contains(Pos { x, y: 7 }));
            }
            let ghost b0 = board;
            board.place(&Pos::new(x, 0), piece_of(kind, Color::White));
            let ghost b1 = board;
            board.place(&Pos::new(x, 1), piece_of(1, Color::White));
            let ghost b2 = board;
            board.place(&Pos::new(x, 6), piece_of(1, Color::Black));
            let ghost b3 = board;
            board.place(&Pos::new(x, 7), piece_of(kind, Color::Black));
            proof {
                assert forall|p: Pos|
                    #![trigger board.piece_at(p)]
                    if p.x < x + 1 && opening_square(p) is Some {
                        board.piece_at(p).tag() == opening_square(p).unwrap().0 && board.piece_at(p).color_of() == Some(
                            opening_square(p).unwrap().1,
                        ) && board.piece_at(p).data_of() is Some && board.piece_at(p).data_of().unwrap().fresh(
                            opening_square(p).unwrap().1,
                        )
                    } else {
                        board.piece_at(p) is Empty
                    } by {
                    assert(b1.piece_at(p) == if p == (Pos { x, y: 0 }) { b1.piece_at(p) } else { b0.piece_at(p) });
                    assert(b2.piece_at(p) == if p == (Pos { x, y: 1 }) { b2.piece_at(p) } else { b1.piece_at(p) });
                    assert(b3.piece_at(p) == if p == (Pos { x, y: 6 }) { b3.piece_at(p) } else { b2.piece_at(p) });
                    assert(board.piece_at(p) == if p == (Pos { x, y: 7 }) { board.piece_at(p) } else { b3.piece_at(p) });
                }
            }
            x += 1;
        }
        board
    }

    /// The opening of the extended game on a 16 by 17 board: each player
    /// starts with 5 mana, an extra movement card in hand and three in the
    /// deck; four magic squares lie on the side columns.
    pub fn cchessboard() -> (r: Board)
        ensures
            r.wf(),
            forall|p: Pos|
                #![trigger r.piece_at(p)]
                match cchess_square(p) {
                    Some((kind, color)) => r.piece_at(p).tag() == kind && r.piece_at(p).color_of() == Some(color)
                        && r.piece_at(p).data_of() is Some && r.piece_at(p).data_of().unwrap().fresh(color),
                    None => r.piece_at(p) is Empty,
                },
            r.shape.squares@ == seq![shape::Square { anchor: Pos { x: 0, y: 0 }, width: 16, height: 17 }],
            r.time == (Time { round: 0, turn: 0, movement: 0 }),
            r.players@.len() == 2,
            r.players@[0].color == Color::White && r.players@[0].id == 0 && r.players@[0].mana.0 == 5,
            r.players@[1].color == Color::Black && r.players@[1].id == 1 && r.players@[1].mana.0 == 5,
            forall|k: int|
                0 <= k < 2 ==> (#[trigger] r.players@[k]).movements.0 == 1 && r.players@[k].hand.0@ == seq![
                    Card::AddMovement,
                ] && r.players@[k].deck.0@ == seq![Card::AddMovement, Card::AddMovement, Card::AddMovement]
                    && r.players@[k].discard_pile.0@.len() == 0,
            r.cards.0@.len() == 0,
            r.dead_pieces@.len() == 0,
            r.events.events@.len() == 0,
    {
        let mut white = Player::new(
            Color::White,
            0,
            Cards(vec![Card::AddMovement, Card::AddMovement, Card::AddMovement]),
        );
        white.hand.add(Card::AddMovement);
        white.mana = Mana(5);
        let mut black = Player::new(
            Color::Black,
            1,
            Cards(vec![Card::AddMovement, Card::AddMovement, Card::AddMovement]),
        );
        black.hand.add(Card::AddMovement);
        black.mana = Mana(5);

        let shape = Shape::cchessboard();
        let tiles = tiles_of(&shape);
        let mut board = Board::new(tiles, shape, vec![white, black]);
        let ghost start0 = board;
        let magic = vec![Pos::new(0, 7), Pos::new(0, 9), Pos::new(15, 7), Pos::new(15, 9)];
        proof {
            assert forall|k: int| 0 <= k < board.tiles@.len() implies (#[trigger] board.tiles@[k]).piece is Empty by {
                assert(board.tiles@[k] == Tile::blank(board.tiles@[k].pos));
            }
        }
        let mut i: usize = 0;
        while i < magic.len()
            invariant
                forall|k: int| 0 <= k < board.tiles@.len() ==> (#[trigger] board.tiles@[k]).piece is Empty,
                board.wf(),
                i <= magic@.len(),
                board.shape.squares@ == seq![shape::Square { anchor: Pos { x: 0, y: 0 }, width: 16, height: 17 }],
                board.time == (Time { round: 0, turn: 0, movement: 0 }),
                board.players@.len() == 2,
                board.players@[0].color == Color::White && board.players@[0].id == 0 && board.players@[0].mana.0 == 5,
                board.players@[1].color == Color::Black && board.players@[1].id == 1 && board.players@[1].mana.0 == 5,
                board.players == start0.players,
                board.cards == start0.cards,
                board.dead_pieces == start0.dead_pieces,
                board.events == start0.events,
            decreases magic@.len() - i,
        {
            let ghost before = board;
            match board.get_mut(&magic[i]) {
                Some(tile) => {
                    tile.magic = true;
                },
                None => {},
            }
            proof {
                if before.has_tile(magic@[i as int]) {
                    assert(same_layout(board.tiles@, before.tiles@)) by {
                        assert forall|k: int| 0 <= k < board.tiles@.len() implies (#[trigger] board.tiles@[k]).pos == before.tiles@[k].pos by {
                            before.lemma_index_of(before.index_of(magic@[i as int]));
                        }
                    }
                    board.lemma_same_layout(before);
                }
            }
            i += 1;
        }
        proof {
            assert forall|p: Pos| #[trigger] board.piece_at(p) is Empty by {
                if board.has_tile(p) {
                    assert(board.tiles@[board.index_of(p)].piece is Empty);
                }
            }
        }
        let ghost start = board;
        let mut row: usize = 0;
        while row < 4
            invariant
                row <= 4,
                board.wf(),
                board.shape == start.shape,
                board.shape.squares@ == seq![shape::Square { anchor: Pos { x: 0, y: 0 }, width: 16, height: 17 }],
                board.time == (Time { round: 0, turn: 0, movement: 0 }),
                board.players == start.players,
                board.cards == start.cards,
                board.dead_pieces == start.dead_pieces,
                board.events == start.events,
                forall|p: Pos|
                    #![trigger board.piece_at(p)]
                    if cchess_row(p) < row && cchess_square(p) is Some {
                        board.piece_at(p).tag() == cchess_square(p).unwrap().0 && board.piece_at(p).color_of() == Some(
                            cchess_square(p).unwrap().1,
                        ) && board.piece_at(p).data_of() is Some && board.piece_at(p).data_of().unwrap().fresh(cchess_square(p).unwrap().1)
                    } else {
                        board.piece_at(p) == start.piece_at(p)
                    },
            decreases 4 - row,
        {
            let mut x: usize = 0;
            while x < 16
                invariant
                    row < 4,
                    x <= 16,
                    board.wf(),
                    board.shape == start.shape,
                    board.shape.squares@ == seq![shape::Square { anchor: Pos { x: 0, y: 0 }, width: 16, height: 17 }],
                    board.time == (Time { round: 0, turn: 0, movement: 0 }),
                    board.players == start.players,
                    board.cards == start.cards,
                    board.dead_pieces == start.dead_pieces,
                    board.events == start.events,
                    forall|p: Pos|
                        #![trigger board.piece_at(p)]
                        if (cchess_row(p) < row || (cchess_row(p) == row && p.x < x)) && cchess_square(p) is Some {
                            board.piece_at(p).tag() == cchess_square(p).unwrap().0 && board.piece_at(p).color_of()
                                == Some(cchess_square(p).unwrap().1) && board.piece_at(p).data_of() is Some && board.piece_at(p).data_of().unwrap().fresh(cchess_square(p).unwrap().1)
                        } else {
                            board.piece_at(p) == start.piece_at(p)
                        },
                decreases 16 - x,
            {
                let kind = cchess_kind(x, row);
                let ghost b0 = board;
                let white_pos = Pos::new(x, row);
                let black_pos = Pos::new(x, 16 - row);
                proof {
                    let sq = board.shape.squares@[0];
                    assert(sq.spec_contains(white_pos) && board.shape.spec_contains(white_pos));
                    assert(sq.spec_contains(black_pos) && board.shape.spec_contains(black_pos));
                }
                if kind != 0 {
                    board.place(&white_pos, piece_of(kind, Color::White));
                    let ghost b1 = board;
                    board.place(&black_pos, piece_of(kind, Color::Black));
                    proof {
                        assert forall|p: Pos|
                            #![trigger board.piece_at(p)]
                            if (cchess_row(p) < row || (cchess_row(p) == row && p.x < x + 1)) && cchess_square(p) is Some {
                                board.piece_at(p).tag() == cchess_square(p).unwrap().0 && board.piece_at(p).color_of()
                                    == Some(cchess_square(p).unwrap().1) && board.piece_at(p).data_of() is Some && board.piece_at(p).data_of().unwrap().fresh(cchess_square(p).unwrap().1)
                            } else {
                                board.piece_at(p) == start.piece_at(p)
                            } by {
                            assert(b1.piece_at(p) == if p == white_pos { b1.piece_at(p) } else { b0.piece_at(p) });
                            assert(board.piece_at(p) == if p == black_pos { board.piece_at(p) } else { b1.piece_at(p) });
                        }
                    }
                }
                x += 1;
            }
            row += 1;
        }
        board
    }

    /// The northmost edge of the board's shape.
    pub fn height(&self) -> (r: usize)
        requires
            self.wf(),
        ensures
            forall|i: int| 0 <= i < self.shape.squares@.len() ==> (#[trigger] self.shape.squares@[i]).anchor.y
                + self.shape.squares@[i].height <= r,
    {
        self.shape.height()
    }

    /// The positions of the tiles, in the board's order, that `f(from, p)`
    /// selects, `from` itself left out.
    pub fn pos_vec_from_pattern<F: Fn(&Pos, &Pos) -> bool>(&self, from: &Pos, f: F) -> (r: Vec<Pos>)
        requires
            forall|a: &Pos, b: &Pos| f.requires((a, b)),
        ensures
            forall|p: Pos|
                #[trigger] r@.contains(p) ==> self.has_tile(p) && p != *from && f.ensures((from, &p), true),
            forall|i: int|
                0 <= i < self.tiles@.len() && (#[trigger] self.tiles@[i]).pos != *from && f.ensures(
                    (from, &self.tiles@[i].pos),
                    true,
                ) && !f.ensures((from, &self.tiles@[i].pos), false) ==> r@.contains(self.tiles@[i].pos),
    {
        let mut r: Vec<Pos> = Vec::new();
        let mut i: usize = 0;
        while i < self.tiles.len()
            invariant
                i <= self.tiles@.len(),
                forall|a: &Pos, b: &Pos| f.requires((a, b)),
                forall|p: Pos|
                    #[trigger] r@.contains(p) ==> self.has_tile(p) && p != *from && f.ensures((from, &p), true),
                forall|k: int|
                    0 <= k < i && (#[trigger] self.tiles@[k]).pos != *from && f.ensures((from, &self.tiles@[k].pos), true)
                        && !f.ensures((from, &self.tiles@[k].pos), false) ==> r@.contains(self.tiles@[k].pos),
            decreases self.tiles@.len() - i,
        {
            let p = self.tiles[i].pos;
            let ghost before = r@;
            if p != *from && f(from, &p) {
                r.push(p);
            }
            proof {
                assert(self.tiles@[i as int].pos == p);
                assert forall|q: Pos| #[trigger] r@.contains(q) implies self.has_tile(q) && q != *from && f.ensures((from, &q), true) by {
                    if r@ != before {
                        crate::lemma_push_contains(before, p, q);
                    }
                }
                assert forall|k: int|
                    0 <= k < i + 1 && (#[trigger] self.tiles@[k]).pos != *from && f.ensures((from, &self.tiles@[k].pos), true)
                        && !f.ensures((from, &self.tiles@[k].pos), false) implies r@.contains(self.tiles@[k].pos) by {
                    if r@ != before {
                        crate::lemma_push_contains(before, p, self.tiles@[k].pos);
                    }
                }
            }
            i += 1;
        }
        r
    }

    pub fn get_mut_piece(&mut self, pos: &Pos) -> (r: Option<&mut Piece>)
        requires
            old(self).wf(),
        ensures
            r is Some == old(self).has_tile(*pos),
            r is None ==> *final(self) == *old(self),
            r matches Some(p) ==> *p == old(self).piece_at(*pos) && final(self).tiles@ == old(self).tiles@.update(
                old(self).index_of(*pos),
                Tile { piece: *final(p), ..old(self).tile_at(*pos) },
            ) && final(self).same_but_tiles(*old(self)),
    {
        match self.find(pos) {
            Some(i) => Some(&mut self.tiles[i].piece),
            None => None,
        }
    }

    pub fn mut_player_from_color(&mut self, color: &Color) -> (r: Option<&mut Player>)
        ensures
            r is Some <==> exists|i: int| 0 <= i < old(self).players@.len() && (#[trigger] old(self).players@[i]).color == *color,
            r is None ==> *final(self) == *old(self),
            r matches Some(p) ==> p.color == *color && exists|i: int|
                0 <= i < old(self).players@.len() && old(self).players@[i] == *p && final(self).players@
                    == old(self).players@.update(i, *final(p)),
    {
        let mut i: usize = 0;
        while i < self.players.len()
            invariant
                i <= self.players@.len(),
                *self == *old(self),
                forall|k: int| 0 <= k < i ==> (#[trigger] self.players@[k]).color != *color,
            decreases self.players@.len() - i,
        {
            if self.players[i].color == *color {
                return Some(&mut self.players[i]);
            }
            i += 1;
        }
        None
    }

    pub fn mut_current_player(&mut self) -> (r: &mut Player)
        requires
            old(self).wf(),
        ensures
            *r == old(self).players@[old(self).time.turn as int],
            final(self).players@ == old(self).players@.update(old(self).time.turn as int, *final(r)),
            final(self).tiles == old(self).tiles,
            final(self).time == old(self).time,
    {
        let t = self.time.turn;
        &mut self.players[t]
    }

    /// Whether the board is well formed (see `wf`): what a board read from
    /// storage must be checked for before the rules can work on it.
    pub fn is_well_formed(&self) -> (r: bool)
        ensures
            r == self.wf(),
    {
        // Each rectangle's edges fit in `usize`.
        let mut k: usize = 0;
        while k < self.shape.squares.len()
            invariant
                k <= self.shape.squares@.len(),
                forall|m: int| 0 <= m < k ==> (#[trigger] self.shape.squares@[m]).wf(),
            decreases self.shape.squares@.len() - k,
        {
            let sq = self.shape.squares[k];
            if sq.anchor.x.checked_add(sq.width).is_none() || sq.anchor.y.checked_add(sq.height).is_none() {
                assert(!self.shape.squares@[k as int].wf());
                return false;
            }
            k += 1;
        }
        // No two tiles on one position, and every tile in the shape.
        let mut i: usize = 0;
        while i < self.tiles.len()
            invariant
                self.shape.wf(),
                i <= self.tiles@.len(),
                forall|a: int, b: int|
                    0 <= a < i && 0 <= b < self.tiles@.len() && a != b ==> (#[trigger] self.tiles@[a]).pos
                        != (#[trigger] self.tiles@[b]).pos,
                forall|a: int| 0 <= a < i ==> self.shape.spec_contains((#[trigger] self.tiles@[a]).pos),
            decreases self.tiles@.len() - i,
        {
            if !self.shape.contains(&self.tiles[i].pos) {
                assert(self.has_tile(self.tiles@[i as int].pos));
                return false;
            }
            let mut j: usize = 0;
            while j < self.tiles.len()
                invariant
                    i < self.tiles@.len(),
                    j <= self.tiles@.len(),
                    forall|b: int| 0 <= b < j && b != i ==> self.tiles@[i as int].pos != (#[trigger] self.tiles@[b]).pos,
                decreases self.tiles@.len() - j,
            {
                if j != i && self.tiles[j].pos == self.tiles[i].pos {
                    assert(!tiles_unique(self.tiles@));
                    return false;
                }
                j += 1;
            }
            i += 1;
        }
        // Every square of the shape has a tile.
        let points = self.shape.points_iter();
        let mut n: usize = 0;
        while n < points.len()
            invariant
                tiles_unique(self.tiles@),
                n <= points@.len(),
                forall|p: Pos| points@.contains(p) <==> self.shape.spec_contains(p),
                forall|m: int| 0 <= m < n ==> self.has_tile(#[trigger] points@[m]),
            decreases points@.len() - n,
        {
            if self.find(&points[n]).is_none() {
                assert(points@.contains(points@[n as int]));
                return false;
            }
            n += 1;
        }
        proof {
            assert forall|p: Pos| self.shape.spec_contains(p) <==> #[trigger] self.has_tile(p) by {
                if self.shape.spec_contains(p) {
                    assert(points@.contains(p));
                    let m = choose|m: int| 0 <= m < points@.len() && points@[m] == p;
                    assert(self.has_tile(points@[m]));
                }
                if self.has_tile(p) {
                    let a = choose|a: int| 0 <= a < self.tiles@.len() && (#[trigger] self.tiles@[a]).pos == p;
                    assert(self.shape.spec_contains(self.tiles@[a].pos));
                }
            }
        }
        // Players, clock and random streams.
        if self.players.len() == 0 || self.time.turn >= self.players.len() {
            return false;
        }
        let mut q: usize = 0;
        while q < self.players.len()
            invariant
                q <= self.players@.len(),
                forall|m: int| 0 <= m < q ==> (#[trigger] self.players@[m]).movements.0 >= 1,
            decreases self.players@.len() - q,
        {
            if self.players[q].movements.0 < 1 {
                return false;
            }
            q += 1;
        }
        if self.time.movement >= self.players[self.time.turn].movements.0 {
            return false;
        }
        self.rng.movement_rng.m > 0 && self.rng.movement_rng.seed < self.rng.movement_rng.m && self.rng.turn_rng.m > 0
            && self.rng.turn_rng.seed < self.rng.turn_rng.m && self.rng.round_rng.m > 0 && self.rng.round_rng.seed
            < self.rng.round_rng.m
    }

    /// Every square of the shape.
    pub fn pos_vec(&self) -> (r: Vec<Pos>)
        requires
            self.wf(),
        ensures
            forall|p: Pos| r@.contains(p) <==> self.has_tile(p),
    {
        self.shape.points_iter()
    }

    /// The tiles of row `row`, in the board's order.
    pub fn row_iter(&self, row: usize) -> (r: Vec<&Tile>)
        ensures
            forall|i: int| 0 <= i < r@.len() ==> (#[trigger] r@[i]).pos.y == row && self.tiles@.contains(*r@[i]),
            forall|i: int| 0 <= i < self.tiles@.len() && (#[trigger] self.tiles@[i]).pos.y == row ==> r@.contains(&self.tiles@[i]),
    {
        let mut r: Vec<&Tile> = Vec::new();
        let mut i: usize = 0;
        while i < self.tiles.len()
            invariant
                i <= self.tiles@.len(),
                forall|k: int| 0 <= k < r@.len() ==> (#[trigger] r@[k]).pos.y == row && self.tiles@.contains(*r@[k]),
                forall|k: int| 0 <= k < i && (#[trigger] self.tiles@[k]).pos.y == row ==> r@.contains(&self.tiles@[k]),
            decreases self.tiles@.len() - i,
        {
            let t = &self.tiles[i];
            if t.pos.y == row {
                let ghost before = r@;
                r.push(t);
                proof {
                    assert(self.tiles@.contains(self.tiles@[i as int]));
                    assert forall|k: int| 0 <= k < i + 1 && (#[trigger] self.tiles@[k]).pos.y == row implies r@.contains(&self.tiles@[k]) by {
                        crate::lemma_push_contains(before, t, &self.tiles@[k]);
                    }
                }
            }
            i += 1;
        }
        r
    }
}

/// On a well-formed board, a position is in the shape exactly when a tile
/// stands on it, so `contains` and `get` agree everywhere.
pub proof fn lemma_contains_iff_tile(b: Board, p: Pos)
    requires
        b.wf(),
    ensures
        b.shape.spec_contains(p) == b.has_tile(p),
{
}

/// The clock after one movement tick, for a player allotted `allotted`
/// movements a turn among `players` players.
pub open spec fn clock_after(t: Time, allotted: nat, players: nat) -> Time {
    if t.movement + 1 < allotted {
        Time { movement: (t.movement + 1) as usize, ..t }
    } else if t.turn + 1 < players {
        Time { round: t.round, turn: (t.turn + 1) as usize, movement: 0 }
    } else {
        Time { round: (t.round + 1) as usize, turn: 0, movement: 0 }
    }
}

/// The clock after `k` movement ticks within one turn.
pub open spec fn clock_run(t: Time, allotted: nat, players: nat, k: nat) -> Time
    decreases k,
{
    if k == 0 {
        t
    } else {
        clock_after(clock_run(t, allotted, players, (k - 1) as nat), allotted, players)
    }
}

/// A board's tick moves its clock as `clock_after` says, for the player to
/// move.
pub proof fn lemma_tick_clock(b: Board)
    requires
        b.wf(),
    ensures
        b.next_time() == clock_after(
            b.time,
            b.players@[b.time.turn as int].movements.0 as nat,
            b.players@.len(),
        ),
{
}

/// From the start of a turn, the first `allotted - 1` movement ticks only
/// count movements, and the `allotted`-th one passes the turn: the movement
/// count goes back to zero and the turn goes up by one, or, after the last
/// player's turn, the turn goes back to zero and the round goes up by one.
pub proof fn lemma_turn_boundary(t: Time, allotted: nat, players: nat, k: nat)
    requires
        t.movement == 0,
        allotted >= 1,
        t.turn < players,
        t.round < usize::MAX,
        players <= usize::MAX,
        allotted <= usize::MAX,
        k <= allotted,
    ensures
        k < allotted ==> clock_run(t, allotted, players, k) == (Time { movement: k as usize, ..t }),
        k == allotted ==> clock_run(t, allotted, players, k) == (if t.turn + 1 < players {
            Time { round: t.round, turn: (t.turn + 1) as usize, movement: 0 }
        } else {
            Time { round: (t.round + 1) as usize, turn: 0, movement: 0 }
        }),
    decreases k,
{
    if k > 0 {
        lemma_turn_boundary(t, allotted, players, (k - 1) as nat);
    }
}

/// Whether the tile holds a piece.
fn tile_occupied(t: &Tile) -> (b: bool)
    ensures
        b == !(t.piece is Empty),
{
    t.has_piece()
}

/// The position `k` steps from `from` along (dx, dy), when every step stays in `usize`.
pub open spec fn ray_step(from: Pos, dx: int, dy: int, k: nat) -> Option<Pos>
    decreases k,
{
    if k == 0 {
        Some(from)
    } else {
        match ray_step(from, dx, dy, (k - 1) as nat) {
            Some(p) => p.shifted(dx, dy),
            None => None,
        }
    }
}

/// How many more steps along (dx, dy) can stay in `usize`, along the first
/// axis that moves.
pub open spec fn ray_room(p: Pos, dx: int, dy: int) -> int {
    if dx > 0 {
        usize::MAX - p.x
    } else if dx < 0 {
        p.x as int
    } else if dy > 0 {
        usize::MAX - p.y
    } else {
        p.y as int
    }
}

/// The result of a ray cast: where it started, the squares it crossed, and
/// the square where it was stopped, if something stopped it.
#[derive(Debug, Clone, PartialEq, Eq)]
pub struct RayCastInfo {
    pub start: Option<Pos>,
    pub mid: Option<Vec<Pos>>,
    pub collision: Option<Pos>,
}

impl RayCastInfo {
    pub open spec fn mid_seq(self) -> Seq<Pos> {
        match self.mid {
            Some(m) => m@,
            None => Seq::empty(),
        }
    }

    pub open spec fn spec_contains(self, p: Pos) -> bool {
        self.start == Some(p) || self.mid_seq().contains(p) || self.collision == Some(p)
    }

    pub fn empty() -> (r: RayCastInfo)
        ensures
            r.start is None && r.mid is None && r.collision is None,
    {
        RayCastInfo { start: None, mid: None, collision: None }
    }

    pub fn start(start: Pos) -> (r: RayCastInfo)
        ensures
            r.start == Some(start) && r.mid is None && r.collision is None,
    {
        RayCastInfo { start: Some(start), mid: None, collision: None }
    }

    pub fn mid(start: Pos, mid: Vec<Pos>) -> (r: RayCastInfo)
        ensures
            r.start == Some(start) && r.mid == Some(mid) && r.collision is None,
    {
        RayCastInfo { start: Some(start), mid: Some(mid), collision: None }
    }

    pub fn collision(start: Pos, mid: Vec<Pos>, end: Pos) -> (r: RayCastInfo)
        ensures
            r.start == Some(start) && r.mid == Some(mid) && r.collision == Some(end),
    {
        RayCastInfo { start: Some(start), mid: Some(mid), collision: Some(end) }
    }

    pub fn is_empty(&self) -> (r: bool)
        ensures
            r == (self.start is None && self.mid is None && self.collision is None),
    {
        self.start.is_none() && self.mid.is_none() && self.collision.is_none()
    }

    /// How many positions the ray holds, start and collision included.
    pub fn len(&self) -> (r: usize)
        requires
            self.mid_seq().len() + 2 <= usize::MAX,
        ensures
            r == (if self.start is Some { 1int } else { 0 }) + self.mid_seq().len() + (
            if self.collision is Some { 1int } else { 0 }),
    {
        let mut len: usize = 0;
        if self.start.is_some() {
            len += 1;
        }
        if let Some(mid) = &self.mid {
            len += mid.len();
        }
        if self.collision.is_some() {
            len += 1;
        }
        len
    }

    pub fn contains(&self, pos: &Pos) -> (r: bool)
        ensures
            r == self.spec_contains(*pos),
    {
        if let Some(start) = &self.start {
            if *start == *pos {
                return true;
            }
        }
        if self.contains_mid(pos) {
            return true;
        }
        if let Some(collision) = &self.collision {
            if *collision == *pos {
                return true;
            }
        }
        false
    }

    pub fn contains_mid(&self, pos: &Pos) -> (r: bool)
        ensures
            r == self.mid_seq().contains(*pos),
    {
        if let Some(mid) = &self.mid {
            let mut i: usize = 0;
            while i < mid.len()
                invariant
                    i <= mid@.len(),
                    self.mid_seq() == mid@,
                    forall|k: int| 0 <= k < i ==> mid@[k] != *pos,
                decreases mid@.len() - i,
            {
                if mid[i] == *pos {
                    return true;
                }
                i += 1;
            }
        }
        false
    }

    pub fn first(&self) -> (r: Option<&Pos>)
        ensures
            self.mid_seq().len() == 0 ==> r is None,
            self.mid_seq().len() > 0 ==> (r matches Some(p) && *p == self.mid_seq()[0]),
    {
        match &self.mid {
            None => None,
            Some(mid) => mid.first(),
        }
    }

    pub fn last(&self) -> (r: Option<&Pos>)
        ensures
            self.mid_seq().len() == 0 ==> r is None,
            self.mid_seq().len() > 0 ==> (r matches Some(p) && *p == self.mid_seq().last()),
    {
        match &self.mid {
            None => None,
            Some(mid) => mid.last(),
        }
    }
}

/// The three random streams of a board: one moves on every movement, one on
/// every turn, one on every round.
#[derive(Debug, Clone, Copy, PartialEq, Eq, Structural)]
pub struct BoardRng {
    pub movement_rng: RandomNumberGenerator,
    pub turn_rng: RandomNumberGenerator,
    pub round_rng: RandomNumberGenerator,
}

/// Relies on rand's `random::<u64>` (the thread's generator): any number.
#[verifier::external_body]
fn random_seed() -> (r: u64) {
    rand::random::<u64>()
}

impl Default for BoardRng {
    /// Three streams seeded at random.
    fn default() -> (r: BoardRng)
        ensures
            r.wf(),
    {
        BoardRng {
            movement_rng: RandomNumberGenerator::with_seed(random_seed()),
            turn_rng: RandomNumberGenerator::with_seed(random_seed()),
            round_rng: RandomNumberGenerator::with_seed(random_seed()),
        }
    }
}

impl BoardRng {
    pub open spec fn wf(self) -> bool {
        self.movement_rng.wf() && self.turn_rng.wf() && self.round_rng.wf()
    }

    pub open spec fn spec_movement_rng(self) -> RandomNumberGenerator {
        self.movement_rng
    }

    pub open spec fn spec_turn_rng(self) -> RandomNumberGenerator {
        self.turn_rng
    }

    pub open spec fn spec_round_rng(self) -> RandomNumberGenerator {
        self.round_rng
    }

    /// Streams seeded with the given numbers.
    pub fn with_seeds(movement: u64, turn: u64, round: u64) -> (r: BoardRng)
        ensures
            r.wf(),
            r.movement_rng == RandomNumberGenerator::seeded(movement),
            r.turn_rng == RandomNumberGenerator::seeded(turn),
            r.round_rng == RandomNumberGenerator::seeded(round),
    {
        BoardRng {
            movement_rng: RandomNumberGenerator::with_seed(movement),
            turn_rng: RandomNumberGenerator::with_seed(turn),
            round_rng: RandomNumberGenerator::with_seed(round),
        }
    }

    /// The movement stream's draw, scaled to `0..n`.
    pub fn movement_below(&self, n: u64) -> (r: u64)
        requires
            self.wf(),
            n > 0,
        ensures
            r == self.movement_rng.scaled(n),
            r < n,
    {
        self.movement_rng.get_below(n)
    }

    pub fn next_movement(&mut self)
        requires
            old(self).wf(),
        ensures
            final(self).wf(),
            final(self).movement_rng == old(self).movement_rng.advanced(),
            final(self).turn_rng == old(self).turn_rng,
            final(self).round_rng == old(self).round_rng,
    {
        self.movement_rng.next();
    }

    pub fn next_turn(&mut self)
        requires
            old(self).wf(),
        ensures
            final(self).wf(),
            final(self).movement_rng == old(self).movement_rng,
            final(self).turn_rng == old(self).turn_rng.advanced(),
            final(self).round_rng == old(self).round_rng,
    {
        self.turn_rng.next();
    }

    pub fn next_round(&mut self)
        requires
            old(self).wf(),
        ensures
            final(self).wf(),
            final(self).movement_rng == old(self).movement_rng,
            final(self).turn_rng == old(self).turn_rng,
            final(self).round_rng == old(self).round_rng.advanced(),
    {
        self.round_rng.next();
    }
}

/// A linear congruential generator: `seed` becomes `(a * seed + c) % m`.
#[derive(Debug, Clone, Copy, PartialEq, Eq, Structural)]
pub struct RandomNumberGenerator {
    pub seed: u64,
    pub a: u64,
    pub c: u64,
    pub m: u64,
}

pub const RNG_A: u64 = 1103515245;

pub const RNG_C: u64 = 12345;

pub const RNG_M: u64 = 32768;

impl Default for RandomNumberGenerator {
    fn default() -> (r: RandomNumberGenerator)
        ensures
            r == (RandomNumberGenerator { seed: 1, a: RNG_A, c: RNG_C, m: RNG_M }),
    {
        RandomNumberGenerator { seed: 1, a: RNG_A, c: RNG_C, m: RNG_M }
    }
}

impl RandomNumberGenerator {
    /// A modulus above zero and a seed below it.
    pub open spec fn wf(self) -> bool {
        self.m > 0 && self.seed < self.m
    }

    pub open spec fn seeded(seed: u64) -> RandomNumberGenerator {
        RandomNumberGenerator { seed: (seed % RNG_M) as u64, a: RNG_A, c: RNG_C, m: RNG_M }
    }

    pub open spec fn advanced(self) -> RandomNumberGenerator {
        RandomNumberGenerator { seed: ((self.a * self.seed + self.c) % (self.m as int)) as u64, ..self }
    }

    /// The draw `seed / m`, scaled to `0..n` and rounded down.
    pub open spec fn scaled(self, n: u64) -> u64 {
        ((self.seed as int * n as int) / (self.m as int)) as u64
    }

    pub fn with_seed(seed: u64) -> (r: RandomNumberGenerator)
        ensures
            r == RandomNumberGenerator::seeded(seed),
            r.wf(),
    {
        RandomNumberGenerator { seed: seed % RNG_M, a: RNG_A, c: RNG_C, m: RNG_M }
    }

    pub fn next(&mut self)
        requires
            old(self).wf(),
        ensures
            *final(self) == old(self).advanced(),
            final(self).wf(),
    {
        proof {
            let (a, s) = (self.a as int, self.seed as int);
            assert(a * s <= 0xffff_ffff_ffff_ffff * 0xffff_ffff_ffff_ffff) by (nonlinear_arith)
                requires 0 <= a <= 0xffff_ffff_ffff_ffff, 0 <= s <= 0xffff_ffff_ffff_ffff;
        }
        let next = ((self.a as u128) * (self.seed as u128) + (self.c as u128)) % (self.m as u128);
        self.seed = next as u64;
    }

    pub fn get_u64(&self) -> (r: u64)
        ensures
            r == self.seed,
    {
        self.seed
    }

    /// The draw `seed / m`, scaled to `0..n` and rounded down.
    pub fn get_below(&self, n: u64) -> (r: u64)
        requires
            self.wf(),
            n > 0,
        ensures
            r == self.scaled(n),
            r < n,
    {
        proof {
            let (s, k, m) = (self.seed as int, n as int, self.m as int);
            assert(s * k <= 0xffff_ffff_ffff_ffff * 0xffff_ffff_ffff_ffff) by (nonlinear_arith)
                requires 0 <= s <= 0xffff_ffff_ffff_ffff, 0 <= k <= 0xffff_ffff_ffff_ffff;
            assert((s * k) / m < k) by (nonlinear_arith)
                requires 0 <= s < m, k > 0;
            assert((s * k) / m >= 0) by (nonlinear_arith)
                requires 0 <= s < m, k > 0;
        }
        let r = ((self.seed as u128) * (n as u128)) / (self.m as u128);
        r as u64
    }
}

/// The events waiting on the board, in the order they were added.
#[derive(Debug, PartialEq, Eq)]
pub struct Events {
    pub events: Vec<Event>,
}

impl Default for Events {
    fn default() -> (r: Events)
        ensures
            r.events@.len() == 0,
    {
        Events { events: Vec::new() }
    }
}

impl Events {
    /// Counts every event down by one tick of grain `time`.
    pub fn tick(&mut self, time: &Time)
        ensures
            final(self).events@.len() == old(self).events@.len(),
            forall|i: int|
                0 <= i < final(self).events@.len() ==> #[trigger] final(self).events@[i] == (Event {
                    time: old(self).events@[i].time.ticked(*time),
                    ..old(self).events@[i]
                }),
    {
        let mut i: usize = 0;
        while i < self.events.len()
            invariant
                i <= self.events@.len(),
                self.events@.len() == old(self).events@.len(),
                forall|k: int|
                    0 <= k < self.events@.len() ==> #[trigger] self.events@[k] == if k < i {
                        Event { time: old(self).events@[k].time.ticked(*time), ..old(self).events@[k] }
                    } else {
                        old(self).events@[k]
                    },
            decreases self.events@.len() - i,
        {
            let ghost before = self.events@;
            self.events[i].tick(time);
            proof {
                assert(self.events@ == before.update(i as int, self.events@[i as int]));
            }
            i += 1;
        }
    }
}

/// A named action deferred by a countdown.
#[derive(Debug, PartialEq, Eq)]
pub struct Event {
    pub name: String,
    pub time: Time,
    pub pos: Option<Pos>,
    pub functions: Vec<EventFunction>,
}

impl Event {
    /// Due in one turn, at no position.
    pub fn new(name: String, functions: Vec<EventFunction>) -> (r: Event)
        ensures
            r.name == name,
            r.time == (Time { round: 0, turn: 1, movement: 0 }),
            r.pos is None,
            r.functions == functions,
    {
        Event { name, time: Time::turns(1), pos: None, functions }
    }

    pub fn with_time(name: String, time: Time, functions: Vec<EventFunction>) -> (r: Event)
        ensures
            r.name == name,
            r.time == time,
            r.pos is None,
            r.functions == functions,
    {
        Event { name, time, pos: None, functions }
    }

    pub fn with_pos(name: String, pos: Pos, functions: Vec<EventFunction>) -> (r: Event)
        ensures
            r.name == name,
            r.time == (Time { round: 0, turn: 1, movement: 0 }),
            r.pos == Some(pos),
            r.functions == functions,
    {
        Event { name, time: Time::turns(1), pos: Some(pos), functions }
    }

    /// Counts the event down by one tick of grain `time`.
    pub fn tick(&mut self, time: &Time)
        ensures
            *final(self) == (Event { time: old(self).time.ticked(*time), ..*old(self) }),
    {
        self.time.tick(time);
    }

    pub fn full(name: String, time: Time, pos: Pos, functions: Vec<EventFunction>) -> (r: Event)
        ensures
            r.name == name,
            r.time == time,
            r.pos == Some(pos),
            r.functions == functions,
    {
        Event { name, time, pos: Some(pos), functions }
    }
}

/// One deferred effect of an event.
#[derive(Debug, PartialEq, Eq)]
pub enum EventFunction {
    Nothing,
    /// The player with this id draws a card.
    TakeCard(usize),
    /// The player with this id shuffles the deck.
    ShuffleDeck(usize),
    /// Every piece that the filter selects around the position gets the effect.
    ApplyEffect(Effect, Pos, FilterFunction),
}

/// `after` is `before` once the player with id `id` drew a card, with `r`
/// saying how it went.
pub open spec fn drew(after: Board, before: Board, id: usize, r: Result<(), EventFunctionError>) -> bool {
    if !before.has_player(id) {
        r == Err::<(), EventFunctionError>(EventFunctionError::PlayerNotFound) && after == before
    } else {
        let k = before.first_player_with_id(id);
        let p = before.players@[k];
        &&& after.tiles == before.tiles
        &&& after.same_frame_but_players(before)
        &&& after.players@.len() == before.players@.len()
        &&& forall|j: int| 0 <= j < before.players@.len() && j != k ==> #[trigger] after.players@[j] == before.players@[j]
        &&& if p.deck.0@.len() == 0 {
            r == Err::<(), EventFunctionError>(EventFunctionError::EmptyDeck) && after.players@[k] == p
        } else {
            r is Ok && after.players@[k].hand.0@ == p.hand.0@.push(p.deck.0@.last()) && after.players@[k].deck.0@
                == p.deck.0@.drop_last()
        }
    }
}

/// `after` is `before` once the player with id `id` shuffled the deck, with
/// `r` saying how it went.
pub open spec fn shuffled(after: Board, before: Board, id: usize, r: Result<(), EventFunctionError>) -> bool {
    if !before.has_player(id) {
        r == Err::<(), EventFunctionError>(EventFunctionError::PlayerNotFound) && after == before
    } else {
        let k = before.first_player_with_id(id);
        &&& r is Ok
        &&& after.tiles == before.tiles
        &&& after.same_frame_but_players(before)
        &&& after.players@.len() == before.players@.len()
        &&& forall|j: int| 0 <= j < before.players@.len() && j != k ==> #[trigger] after.players@[j] == before.players@[j]
        &&& after.players@[k].deck.0@.to_multiset() == before.players@[k].deck.0@.to_multiset()
    }
}

/// `after` is `before` once every piece that `filter` selects around `from`
/// (`from` itself left out) gained `effect`.
pub open spec fn effect_applied(after: Board, before: Board, effect: Effect, from: Pos, filter: FilterFunction) -> bool {
    &&& after.layout_kept(before)
    &&& after.same_but_tiles(before)
    &&& forall|q: Pos|
        #![trigger after.piece_at(q)]
        if q != from && before.has_tile(q) && filter.holds(before, from, q) {
            after.piece_at(q).gained_effects(before.piece_at(q), seq![effect])
        } else {
            after.piece_at(q) == before.piece_at(q)
        }
}

impl Board {
    /// The player with id `id` draws a card.
    #[verifier::rlimit(50)]
    fn draw_for(&mut self, id: usize) -> (r: Result<(), EventFunctionError>)
        requires
            old(self).wf(),
        ensures
            final(self).wf(),
            drew(*final(self), *old(self), id, r),
    {
        let r = match self.player_index(id) {
            Some(k) => {
                let ghost before = self.players@;
                let r = self.players[k].take_from_deck();
                proof {
                    assert(self.players@ == before.update(k as int, self.players@[k as int]));
                }
                r
            },
            None => Err(EventFunctionError::PlayerNotFound),
        };
        proof {
            self.lemma_same_tiles_wf(*old(self));
        }
        r
    }

    /// The player with id `id` shuffles the deck.
    #[verifier::rlimit(50)]
    fn shuffle_for(&mut self, id: usize) -> (r: Result<(), EventFunctionError>)
        requires
            old(self).wf(),
        ensures
            final(self).wf(),
            shuffled(*final(self), *old(self), id, r),
    {
        let r = match self.player_index(id) {
            Some(k) => {
                let ghost before = self.players@;
                self.players[k].shuffle_deck();
                proof {
                    assert(self.players@ == before.update(k as int, self.players@[k as int]));
                }
                Ok(())
            },
            None => Err(EventFunctionError::PlayerNotFound),
        };
        proof {
            self.lemma_same_tiles_wf(*old(self));
        }
        r
    }

    /// Every piece that `filter` selects around `from` gains `effect`.
    fn apply_effect(&mut self, effect: Effect, from: Pos, filter: &FilterFunction)
        requires
            old(self).wf(),
        ensures
            final(self).wf(),
            effect_applied(*final(self), *old(self), effect, from, *filter),
    {
        let mut mask: Vec<bool> = Vec::new();
        let mut i: usize = 0;
        while i < self.tiles.len()
            invariant
                self.wf(),
                i <= self.tiles@.len(),
                mask@.len() == i,
                forall|k: int|
                    0 <= k < i ==> #[trigger] mask@[k] == (self.tiles@[k].pos != from && filter.holds(
                        *self,
                        from,
                        self.tiles@[k].pos,
                    )),
            decreases self.tiles@.len() - i,
        {
            let p = self.tiles[i].pos;
            mask.push(p != from && filter.filter(self, &from, &p));
            i += 1;
        }
        let ghost start = *self;
        let added = vec![effect];
        proof {
            assert(added@ =~= seq![effect]);
        }
        self.add_effects_where(&mask, &added);
        proof {
            assert forall|q: Pos| start.has_tile(q) implies start.tiles@[start.index_of(q)].pos == q by {}
        }
    }
}

impl EventFunction {
    /// Carries out the deferred effect.
    pub fn act(self, board: &mut Board) -> (r: Result<(), EventFunctionError>)
        requires
            old(board).wf(),
        ensures
            final(board).wf(),
            self is Nothing ==> r is Ok && *final(board) == *old(board),
            self matches EventFunction::TakeCard(id) ==> drew(*final(board), *old(board), id, r),
            self matches EventFunction::ShuffleDeck(id) ==> shuffled(*final(board), *old(board), id, r),
            self matches EventFunction::ApplyEffect(effect, from, filter) ==> r is Ok && effect_applied(
                *final(board),
                *old(board),
                effect,
                from,
                filter,
            ),
    {
        match self {
            EventFunction::Nothing => Ok(()),
            EventFunction::TakeCard(player_id) => board.draw_for(player_id),
            EventFunction::ShuffleDeck(player_id) => board.shuffle_for(player_id),
            EventFunction::ApplyEffect(effect, from, filter) => {
                board.apply_effect(effect, from, &filter);
                Ok(())
            },
        }
    }
}

#[derive(Debug, Clone, Copy, PartialEq, Eq, Structural)]
pub enum EventFunctionError {
    PlayerNotFound,
    EmptyDeck,
}

/// A test on a candidate position, seen from an origin.
#[derive(Debug, PartialEq, Eq)]
pub enum FilterFunction {
    Square(usize),
    Cross(usize),
    IsType(Type),
    IsNotType(Type),
    IsColor(Color),
    IsNotColor(Color),
    HasEffect(Effect),
    Pair(Box<FilterFunction>, Box<FilterFunction>),
    Trio(Box<FilterFunction>, Box<FilterFunction>, Box<FilterFunction>),
}

impl FilterFunction {
    /// Whether the candidate `to`, seen from `from`, passes the filter.
    pub open spec fn holds(self, board: Board, from: Pos, to: Pos) -> bool
        decreases self,
    {
        match self {
            FilterFunction::Cross(range) => crate::pattern::spec_cross(from, to, range),
            FilterFunction::Square(range) => crate::pattern::spec_square(from, to, range),
            FilterFunction::IsType(t) => board.has_tile(to) && board.piece_at(to).has_type(t),
            FilterFunction::IsNotType(t) => board.has_tile(to) && !board.piece_at(to).has_type(t),
            FilterFunction::IsColor(c) => board.piece_at(to).color_of() == Some(c),
            FilterFunction::IsNotColor(c) => board.piece_at(to).color_of() is Some && board.piece_at(to).color_of()
                != Some(c),
            FilterFunction::HasEffect(e) => board.piece_at(to).data_of() is Some && board.piece_at(
                to,
            ).data_of().unwrap().effects.0@.contains(e),
            FilterFunction::Pair(a, b) => a.holds(board, from, to) && b.holds(board, from, to),
            FilterFunction::Trio(a, b, c) => a.holds(board, from, to) && b.holds(board, from, to) && c.holds(
                board,
                from,
                to,
            ),
        }
    }

    pub fn filter(&self, board: &Board, from: &Pos, to: &Pos) -> (r: bool)
        requires
            board.wf(),
        ensures
            r == self.holds(*board, *from, *to),
        decreases self,
    {
        match self {
            FilterFunction::Cross(range) => crate::pattern::cross(from, to, *range),
            FilterFunction::Square(range) => crate::pattern::square(from, to, *range),
            FilterFunction::IsType(t) => match board.get_piece(to) {
                Some(piece) => piece.is_type(t),
                None => false,
            },
            FilterFunction::IsNotType(t) => match board.get_piece(to) {
                Some(piece) => !piece.is_type(t),
                None => false,
            },
            FilterFunction::IsColor(color) => match board.get_data(to) {
                Some(data) => data.color == *color,
                None => false,
            },
            FilterFunction::IsNotColor(color) => match board.get_data(to) {
                Some(data) => data.color != *color,
                None => false,
            },
            FilterFunction::HasEffect(effect) => match board.get_data(to) {
                Some(data) => data.has_effect(effect),
                None => false,
            },
            FilterFunction::Pair(ff1, ff2) => ff1.filter(board, from, to) && ff2.filter(board, from, to),
            FilterFunction::Trio(ff1, ff2, ff3) => ff1.filter(board, from, to) && ff2.filter(board, from, to)
                && ff3.filter(board, from, to),
        }
    }

    pub fn pair(ff1: FilterFunction, ff2: FilterFunction) -> (r: FilterFunction)
        ensures
            r == FilterFunction::Pair(Box::new(ff1), Box::new(ff2)),
    {
        FilterFunction::Pair(Box::new(ff1), Box::new(ff2))
    }

    pub fn trio(ff1: FilterFunction, ff2: FilterFunction, ff3: FilterFunction) -> (r: FilterFunction)
        ensures
            r == FilterFunction::Trio(Box::new(ff1), Box::new(ff2), Box::new(ff3)),
    {
        FilterFunction::Trio(Box::new(ff1), Box::new(ff2), Box::new(ff3))
    }
}

} // verus!
