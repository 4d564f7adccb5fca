//! Turns clicks on squares into actions on the board.
use vstd::prelude::*;

use crate::board::shape::{Shape, Square};
use crate::board::{Board, Tile};
use crate::{Action, Color, Pos};

verus! {

/// A board with the square the player selected and the squares where the
/// selected piece can move, take, attack or use its ability.
#[derive(Debug, PartialEq)]
pub struct CChess {
    pub board: Board,
    pub selected: Option<Pos>,
    pub moves: Vec<Pos>,
    pub takes: Vec<Pos>,
    pub attacks: Vec<Pos>,
    pub abilities: Vec<Pos>,
}

fn has_pos(v: &Vec<Pos>, p: &Pos) -> (r: bool)
    ensures
        r == v@.contains(*p),
{
    let mut i: usize = 0;
    while i < v.len()
        invariant
            i <= v@.len(),
            forall|k: int| 0 <= k < i ==> v@[k] != *p,
        decreases v@.len() - i,
    {
        if v[i] == *p {
            return true;
        }
        i += 1;
    }
    false
}

impl CChess {
    /// A selection on a well-formed board.
    pub open spec fn wf(self) -> bool {
        self.board.wf()
    }

    /// Whether the piece on `from` may move to the empty tile `to`.
    pub open spec fn may_move(self, from: Pos, to: Pos) -> bool {
        self.board.piece_at(from).spec_can_do(self.board, Action::Move { from, to }) && self.board.empty_at(to)
    }

    /// Whether the piece on `from` may take the enemy on `to`.
    pub open spec fn may_take(self, from: Pos, to: Pos) -> bool {
        self.board.piece_at(from).spec_can_do(self.board, Action::Take { from, to }) && self.board.occupied_at(to)
            && !(self.board.piece_at(from).color_of() == self.board.piece_at(to).color_of())
    }

    /// Whether the piece on `from` may attack the enemy on `to`.
    pub open spec fn may_attack(self, from: Pos, to: Pos) -> bool {
        self.board.piece_at(from).spec_can_do(self.board, Action::Attack { from, to }) && self.board.occupied_at(to)
            && !(self.board.piece_at(from).color_of() == self.board.piece_at(to).color_of())
    }

    /// Whether the piece on `c` may do to `p` the action of kind `kind`:
    /// 0 a move, 1 a take, 2 an attack.
    pub open spec fn wants(self, c: Pos, p: Pos, kind: nat) -> bool {
        p != c && if kind == 0 {
            self.may_move(c, p)
        } else if kind == 1 {
            self.may_take(c, p)
        } else {
            self.may_attack(c, p)
        }
    }

    /// The positions of `pts`, in order, where the piece on `c` may do the
    /// action of kind `kind`.
    pub open spec fn picked(self, c: Pos, pts: Seq<Pos>, kind: nat) -> Seq<Pos>
        decreases pts.len(),
    {
        if pts.len() == 0 {
            Seq::empty()
        } else {
            self.picked(c, pts.drop_last(), kind) + if self.wants(c, pts.last(), kind) {
                seq![pts.last()]
            } else {
                Seq::empty()
            }
        }
    }

    /// Handles a click on `click_pos`. Off the board it does nothing and
    /// answers false. With nothing selected, it selects the square and lists
    /// where its piece can move, take and attack. With a square selected, it
    /// carries out the attack, take or move listed for the clicked square
    /// (in that order of preference), lets the clock tick if it did, and
    /// clears the selection.
    pub fn click(&mut self, click_pos: Pos) -> (r: bool)
        requires
            old(self).wf(),
            old(self).board.time.round < usize::MAX,
        ensures
            final(self).wf(),
            r == old(self).board.has_tile(click_pos),
            !r ==> *final(self) == *old(self),
            r && old(self).selected is None ==> final(self).selected == Some(click_pos) && final(self).board
                == old(self).board && final(self).moves@ == old(self).moves@ + old(self).picked(
                click_pos,
                old(self).board.shape.points(),
                0,
            ) && final(self).takes@ == old(self).takes@ + old(self).picked(
                click_pos,
                old(self).board.shape.points(),
                1,
            ) && final(self).attacks@ == old(self).attacks@ + old(self).picked(
                click_pos,
                old(self).board.shape.points(),
                2,
            ),
            r && old(self).selected is Some ==> final(self).selected is None && final(self).moves@.len() == 0
                && final(self).takes@.len() == 0 && final(self).attacks@.len() == 0 && final(self).abilities@.len()
                == 0 && (!(old(self).attacks@.contains(click_pos) || old(self).takes@.contains(click_pos)
                || old(self).moves@.contains(click_pos)) ==> final(self).board == old(self).board),
    {
        if !self.board.contains(&click_pos) {
            return false;
        }
        match self.selected {
            None => {
                let points = self.board.shape().points_iter();
                let ghost start = *self;
                let mut i: usize = 0;
                while i < points.len()
                    invariant
                        self.board == start.board,
                        self.selected == start.selected,
                        self.wf(),
                        i <= points@.len(),
                        points@ == start.board.shape.points(),
                        start.board.has_tile(click_pos),
                        self.moves@ == start.moves@ + start.picked(click_pos, points@.take(i as int), 0),
                        self.takes@ == start.takes@ + start.picked(click_pos, points@.take(i as int), 1),
                        self.attacks@ == start.attacks@ + start.picked(click_pos, points@.take(i as int), 2),
                    decreases points@.len() - i,
                {
                    let other_pos = points[i];
                    let ghost (m0, t0, a0) = (self.moves@, self.takes@, self.attacks@);
                    if other_pos != click_pos {
                        let piece = match self.board.get(&click_pos) {
                            Some(tile) => &tile.piece,
                            None => {
                                i += 1;
                                continue;
                            },
                        };
                        let can_move = piece.can_do(&self.board, Action::move_to(&click_pos, &other_pos));
                        let can_take = piece.can_do(&self.board, Action::take(&click_pos, &other_pos));
                        let can_attack = piece.can_do(&self.board, Action::attack(&click_pos, &other_pos));
                        let enemy = self.board.has_piece(&other_pos) && !self.board.same_color(&click_pos, &other_pos);
                        let move_ok = can_move && self.board.is_empty(&other_pos);
                        let take_ok = can_take && enemy;
                        let attack_ok = can_attack && enemy;
                        proof {
                            assert(move_ok == start.may_move(click_pos, other_pos));
                            assert(take_ok == start.may_take(click_pos, other_pos));
                            assert(attack_ok == start.may_attack(click_pos, other_pos));
                        }
                        if move_ok {
                            self.moves.push(other_pos);
                        }
                        if take_ok {
                            self.takes.push(other_pos);
                        }
                        if attack_ok {
                            self.attacks.push(other_pos);
                        }
                    }
                    proof {
                        let t = points@.take(i + 1);
                        assert(t.drop_last() =~= points@.take(i as int));
                        assert(t.last() == other_pos);
                        assert(self.moves@ =~= start.moves@ + start.picked(click_pos, t, 0));
                        assert(self.takes@ =~= start.takes@ + start.picked(click_pos, t, 1));
                        assert(self.attacks@ =~= start.attacks@ + start.picked(click_pos, t, 2));
                    }
                    i += 1;
                }
                proof {
                    assert(points@.take(i as int) == points@);
                }
                self.selected = Some(click_pos);
            },
            Some(selected_pos) => {
                let mut tick = false;
                if has_pos(&self.attacks, &click_pos) {
                    let _ = self.board.make(Action::attack(&selected_pos, &click_pos));
                    tick = true;
                } else if has_pos(&self.takes, &click_pos) {
                    let _ = self.board.make(Action::take(&selected_pos, &click_pos));
                    tick = true;
                } else if has_pos(&self.moves, &click_pos) {
                    let _ = self.board.make(Action::move_to(&selected_pos, &click_pos));
                    tick = true;
                }
                if tick && self.board.time.round < usize::MAX {
                    self.board.tick();
                }
                self.clear();
            },
        }
        true
    }

    fn clear(&mut self)
        ensures
            final(self).board == old(self).board,
            final(self).selected is None,
            final(self).moves@.len() == 0,
            final(self).takes@.len() == 0,
            final(self).attacks@.len() == 0,
            final(self).abilities@.len() == 0,
    {
        self.moves.clear();
        self.takes.clear();
        self.attacks.clear();
        self.abilities.clear();
        self.selected = None;
    }

    /// The actions that a click on `pos` would carry out for the selection.
    pub fn actions_at(&self, pos: &Pos) -> (r: Vec<Action>)
        requires
            self.wf(),
        ensures
            (self.selected is None || !self.board.has_tile(*pos)) ==> r@.len() == 0,
            self.selected is Some && self.board.has_tile(*pos) ==> r@ == (if self.moves@.contains(*pos) {
                seq![Action::Move { from: self.selected.unwrap(), to: *pos }]
            } else {
                Seq::empty()
            }) + (if self.takes@.contains(*pos) {
                seq![Action::Take { from: self.selected.unwrap(), to: *pos }]
            } else {
                Seq::empty()
            }) + (if self.attacks@.contains(*pos) {
                seq![Action::Attack { from: self.selected.unwrap(), to: *pos }]
            } else {
                Seq::empty()
            }),
    {
        let mut actions: Vec<Action> = Vec::new();
        match (self.board.get(pos), &self.selected) {
            (Some(_), Some(selected)) => {
                if has_pos(&self.moves, pos) {
                    actions.push(Action::move_to(selected, pos));
                }
                let ghost a1 = actions@;
                if has_pos(&self.takes, pos) {
                    actions.push(Action::take(selected, pos));
                }
                let ghost a2 = actions@;
                if has_pos(&self.attacks, pos) {
                    actions.push(Action::attack(selected, pos));
                }
                proof {
                    assert(a1 =~= (if self.moves@.contains(*pos) {
                        seq![Action::Move { from: *selected, to: *pos }]
                    } else {
                        Seq::empty()
                    }));
                    assert(a2 =~= a1 + (if self.takes@.contains(*pos) {
                        seq![Action::Take { from: *selected, to: *pos }]
                    } else {
                        Seq::empty()
                    }));
                    assert(actions@ =~= a2 + (if self.attacks@.contains(*pos) {
                        seq![Action::Attack { from: *selected, to: *pos }]
                    } else {
                        Seq::empty()
                    }));
                }
                actions
            },
            _ => actions,
        }
    }

    /// A 30 by 2 board showing every kind of piece: white on the first row,
    /// black on the second.
    pub fn default_display() -> (r: CChess)
        ensures
            r.wf(),
            r.selected is None,
            r.moves@.len() == 0,
    {
        let mut board = Board::with_shape(Shape::new(vec![Square { anchor: Pos::new(0, 0), height: 2, width: 30 }]));
        let mut layout: Vec<(usize, usize, usize, Color)> = Vec::new();
        let mut kind: usize = 1;
        while kind <= 22
            invariant
                1 <= kind <= 23,
            decreases 23 - kind,
        {
            layout.push((kind - 1, 0, kind, Color::White));
            layout.push((kind - 1, 1, kind, Color::Black));
            kind += 1;
        }
        board.lay_out(&layout);
        CChess::with_board(board)
    }

    /// A controller over `board` with nothing selected.
    fn with_board(board: Board) -> (r: CChess)
        ensures
            r.board == board,
            r.selected is None,
            r.moves@.len() == 0,
            r.takes@.len() == 0,
            r.attacks@.len() == 0,
            r.abilities@.len() == 0,
    {
        CChess {
            board,
            selected: None,
            moves: Vec::new(),
            takes: Vec::new(),
            attacks: Vec::new(),
            abilities: Vec::new(),
        }
    }

    pub fn default_chessboard() -> (r: CChess)
        ensures
            r.wf(),
            r.selected is None,
    {
        CChess::with_board(Board::default_chessboard())
    }

    pub fn cchessboard() -> (r: CChess)
        ensures
            r.wf(),
            r.selected is None,
    {
        CChess::with_board(Board::cchessboard())
    }

    pub fn height(&self) -> (r: usize)
        requires
            self.wf(),
    {
        self.board.height()
    }

    pub fn row_iter(&self, row: usize) -> (r: Vec<&Tile>)
        ensures
            forall|i: int| 0 <= i < r@.len() ==> (#[trigger] r@[i]).spec_pos().y == row,
    {
        self.board.row_iter(row)
    }

    pub fn has_move(&self, pos: &Pos) -> (r: bool)
        ensures
            r == self.moves@.contains(*pos),
    {
        has_pos(&self.moves, pos)
    }

    pub fn has_take(&self, pos: &Pos) -> (r: bool)
        ensures
            r == self.takes@.contains(*pos),
    {
        has_pos(&self.takes, pos)
    }

    pub fn has_attack(&self, pos: &Pos) -> (r: bool)
        ensures
            r == self.attacks@.contains(*pos),
    {
        has_pos(&self.attacks, pos)
    }
}

} // verus!
