use vstd::prelude::*;

use crate::Pos;

verus! {

/// A rectangle of squares, given by its south-west corner and its size.
#[derive(Debug, Clone, Copy, PartialEq, Eq, Structural)]
pub struct Square {
    /// The south-west corner.
    pub anchor: Pos,
    pub width: usize,
    pub height: usize,
}

impl Square {
    /// Its edges fit in `usize`.
    pub open spec fn wf(self) -> bool {
        self.anchor.x + self.width <= usize::MAX && self.anchor.y + self.height <= usize::MAX
    }

    pub open spec fn spec_contains(self, p: Pos) -> bool {
        self.anchor.x <= p.x < self.anchor.x + self.width && self.anchor.y <= p.y < self.anchor.y
            + self.height
    }

    pub fn north(&self) -> (r: usize)
        requires
            self.wf(),
        ensures
            r == self.anchor.y + self.height,
    {
        self.anchor.y + self.height
    }

    pub fn east(&self) -> (r: usize)
        requires
            self.wf(),
        ensures
            r == self.anchor.x + self.width,
    {
        self.anchor.x + self.width
    }

    pub fn south(&self) -> (r: usize)
        ensures
            r == self.anchor.y,
    {
        self.anchor.y
    }

    pub fn west(&self) -> (r: usize)
        ensures
            r == self.anchor.x,
    {
        self.anchor.x
    }

    pub fn ne_point(&self) -> (r: Pos)
        requires
            self.wf(),
        ensures
            r == (Pos { x: (self.anchor.x + self.width) as usize, y: (self.anchor.y + self.height) as usize }),
    {
        self.anchor + Pos::new(self.width, self.height)
    }

    pub fn se_point(&self) -> (r: Pos)
        requires
            self.wf(),
        ensures
            r == (Pos { x: (self.anchor.x + self.width) as usize, y: self.anchor.y }),
    {
        self.anchor + Pos::new(self.width, 0)
    }

    pub fn sw_point(&self) -> (r: Pos)
        ensures
            r == self.anchor,
    {
        self.anchor
    }

    pub fn nw_point(&self) -> (r: Pos)
        requires
            self.wf(),
        ensures
            r == (Pos { x: self.anchor.x, y: (self.anchor.y + self.height) as usize }),
    {
        self.anchor + Pos::new(0, self.height)
    }

    pub fn contains(&self, pos: &Pos) -> (r: bool)
        ensures
            r == self.spec_contains(*pos),
    {
        pos.x >= self.anchor.x && pos.x - self.anchor.x < self.width && pos.y >= self.anchor.y
            && pos.y - self.anchor.y < self.height
    }

    /// Column `i` of the rectangle, from the south.
    pub open spec fn column(self, i: nat) -> Seq<Pos> {
        Seq::new(self.height as nat, |j: int| Pos { x: (self.anchor.x + i) as usize, y: (self.anchor.y + j) as usize })
    }

    /// The first `i` columns of the rectangle, from the west.
    pub open spec fn columns(self, i: nat) -> Seq<Pos>
        decreases i,
    {
        if i == 0 {
            Seq::empty()
        } else {
            self.columns((i - 1) as nat) + self.column((i - 1) as nat)
        }
    }

    /// Every square of the rectangle, column by column from the west.
    pub open spec fn points(self) -> Seq<Pos> {
        self.columns(self.width as nat)
    }

    /// Every square of the rectangle once, column by column from the west.
    pub fn points_iter(&self) -> (r: Vec<Pos>)
        requires
            self.wf(),
        ensures
            r@ == self.points(),
            forall|p: Pos| r@.contains(p) <==> self.spec_contains(p),
            r@.no_duplicates(),
    {
        let mut r: Vec<Pos> = Vec::new();
        let mut i: usize = 0;
        while i < self.width
            invariant
                self.wf(),
                i <= self.width,
                forall|p: Pos|
                    #[trigger] r@.contains(p) <==> (self.spec_contains(p) && p.x < self.anchor.x + i),
                r@.no_duplicates(),
                r@ == self.columns(i as nat),
            decreases self.width - i,
        {
            let mut j: usize = 0;
            while j < self.height
                invariant
                    self.wf(),
                    i < self.width,
                    j <= self.height,
                    forall|p: Pos|
                        #[trigger] r@.contains(p) <==> (self.spec_contains(p) && (p.x < self.anchor.x + i || (
                        p.x == self.anchor.x + i && p.y < self.anchor.y + j))),
                    r@.no_duplicates(),
                    r@ == self.columns(i as nat) + self.column(i as nat).take(j as int),
                decreases self.height - j,
            {
                let q = Pos::new(self.anchor.x + i, self.anchor.y + j);
                proof {
                    if r@.contains(q) {
                        assert(q.y < self.anchor.y + j);
                    }
                }
                let ghost before = r@;
                r.push(q);
                proof {
                    assert(r@ == before.push(q));
                    assert forall|p: Pos|
                        #[trigger] r@.contains(p) <==> (self.spec_contains(p) && (p.x < self.anchor.x + i
                            || (p.x == self.anchor.x + i && p.y < self.anchor.y + j + 1))) by {
                        crate::lemma_push_contains(before, q, p);
                    }
                    assert(self.column(i as nat).take(j + 1) =~= self.column(i as nat).take(j as int).push(q));
                    assert(r@ =~= self.columns(i as nat) + self.column(i as nat).take(j + 1));
                }
                j += 1;
            }
            proof {
                assert(self.column(i as nat).take(j as int) =~= self.column(i as nat));
                assert(self.columns((i + 1) as nat) == self.columns(i as nat) + self.column(i as nat));
            }
            i += 1;
        }
        r
    }
}

/// The playable area: a union of rectangles.
#[derive(Debug, Clone, PartialEq, Eq)]
pub struct Shape {
    pub squares: Vec<Square>,
}

impl Shape {
    pub open spec fn wf(self) -> bool {
        forall|i: int| 0 <= i < self.squares@.len() ==> (#[trigger] self.squares@[i]).wf()
    }

    pub open spec fn spec_contains(self, p: Pos) -> bool {
        exists|i: int| 0 <= i < self.squares@.len() && (#[trigger] self.squares@[i]).spec_contains(p)
    }

    /// The squares of the first `i` rectangles, rectangle after rectangle.
    pub open spec fn points_of(self, i: nat) -> Seq<Pos>
        decreases i,
    {
        if i == 0 || i > self.squares@.len() {
            Seq::empty()
        } else {
            self.points_of((i - 1) as nat) + self.squares@[i - 1].points()
        }
    }

    /// The squares of every rectangle, rectangle after rectangle.
    pub open spec fn points(self) -> Seq<Pos> {
        self.points_of(self.squares@.len())
    }

    /// No square lies in two of the rectangles.
    pub open spec fn disjoint(self) -> bool {
        forall|i: int, j: int, p: Pos|
            0 <= i < self.squares@.len() && 0 <= j < self.squares@.len() && i != j
                && #[trigger] self.squares@[i].spec_contains(p) ==> !#[trigger] self.squares@[j].spec_contains(p)
    }

    pub fn new(squares: Vec<Square>) -> (r: Shape)
        ensures
            r.squares@ == squares@,
    {
        Shape { squares }
    }

    /// One rectangle of 16 columns and 17 rows.
    pub fn cchessboard() -> (r: Shape)
        ensures
            r.squares@ == seq![Square { anchor: Pos { x: 0, y: 0 }, width: 16, height: 17 }],
            r.wf(),
    {
        Shape::new(vec![Square { anchor: Pos::new(0, 0), width: 16, height: 17 }])
    }

    /// One rectangle of 8 columns and 8 rows.
    pub fn default_chessboard() -> (r: Shape)
        ensures
            r.squares@ == seq![Square { anchor: Pos { x: 0, y: 0 }, width: 8, height: 8 }],
            r.wf(),
    {
        Shape::new(vec![Square { anchor: Pos::new(0, 0), width: 8, height: 8 }])
    }

    /// An 8 by 8 board without its four 2 by 2 corners.
    pub fn cross_shape() -> (r: Shape)
        ensures
            r.squares@ == seq![
                Square { anchor: Pos { x: 2, y: 0 }, width: 4, height: 2 },
                Square { anchor: Pos { x: 0, y: 2 }, width: 2, height: 4 },
                Square { anchor: Pos { x: 2, y: 2 }, width: 4, height: 4 },
                Square { anchor: Pos { x: 2, y: 6 }, width: 4, height: 2 },
                Square { anchor: Pos { x: 6, y: 2 }, width: 2, height: 4 },
            ],
            r.wf(),
            r.disjoint(),
    {
        Shape::new(
            vec![
                Square { anchor: Pos::new(2, 0), width: 4, height: 2 },
                Square { anchor: Pos::new(0, 2), width: 2, height: 4 },
                Square { anchor: Pos::new(2, 2), width: 4, height: 4 },
                Square { anchor: Pos::new(2, 6), width: 4, height: 2 },
                Square { anchor: Pos::new(6, 2), width: 2, height: 4 },
            ],
        )
    }

    pub fn contains(&self, pos: &Pos) -> (r: bool)
        ensures
            r == self.spec_contains(*pos),
    {
        let mut i: usize = 0;
        while i < self.squares.len()
            invariant
                i <= self.squares@.len(),
                forall|k: int| 0 <= k < i ==> !(#[trigger] self.squares@[k]).spec_contains(*pos),
            decreases self.squares@.len() - i,
        {
            if self.squares[i].contains(pos) {
                return true;
            }
            i += 1;
        }
        false
    }

    /// The squares of every rectangle, rectangle after rectangle; a square
    /// where rectangles overlap comes once for each of them.
    pub fn points_iter(&self) -> (r: Vec<Pos>)
        requires
            self.wf(),
        ensures
            r@ == self.points(),
            forall|p: Pos| r@.contains(p) <==> self.spec_contains(p),
            self.disjoint() ==> r@.no_duplicates(),
    {
        let mut r: Vec<Pos> = Vec::new();
        let mut i: usize = 0;
        while i < self.squares.len()
            invariant
                self.disjoint() ==> r@.no_duplicates(),
                r@ == self.points_of(i as nat),
                self.wf(),
                i <= self.squares@.len(),
                forall|p: Pos|
                    r@.contains(p) <==> exists|k: int|
                        0 <= k < i && (#[trigger] self.squares@[k]).spec_contains(p),
            decreases self.squares@.len() - i,
        {
            let mut pts = self.squares[i].points_iter();
            let ghost old_r = r@;
            let ghost pv = pts@;
            r.append(&mut pts);
            proof {
                assert(r@ == old_r + pv);
                assert(self.points_of((i + 1) as nat) == self.points_of(i as nat) + self.squares@[i as int].points());
                if self.disjoint() {
                    assert forall|a: int, b: int| 0 <= a < r@.len() && 0 <= b < r@.len() && a != b implies r@[a] != r@[b] by {
                        if a < old_r.len() && b >= old_r.len() {
                            assert(old_r.contains(old_r[a]));
                            let k = choose|k: int| 0 <= k < i && (#[trigger] self.squares@[k]).spec_contains(old_r[a]);
                            assert(pv.contains(pv[b - old_r.len()]));
                            assert(self.squares@[i as int].spec_contains(r@[b]));
                        } else if b < old_r.len() && a >= old_r.len() {
                            assert(old_r.contains(old_r[b]));
                            let k = choose|k: int| 0 <= k < i && (#[trigger] self.squares@[k]).spec_contains(old_r[b]);
                            assert(pv.contains(pv[a - old_r.len()]));
                            assert(self.squares@[i as int].spec_contains(r@[a]));
                        } else if a >= old_r.len() {
                            assert(pv[a - old_r.len()] != pv[b - old_r.len()]);
                        }
                    }
                }
                assert forall|p: Pos|
                    r@.contains(p) <==> exists|k: int|
                        0 <= k < i + 1 && (#[trigger] self.squares@[k]).spec_contains(p) by {
                    if r@.contains(p) {
                        let m = choose|m: int| 0 <= m < r@.len() && r@[m] == p;
                        if m < old_r.len() {
                            assert(old_r[m] == p);
                            assert(old_r.contains(p));
                        } else {
                            assert(r@[m] == pv[m - old_r.len()]);
                            assert(pv.contains(p));
                            assert(self.squares@[i as int].spec_contains(p));
                        }
                    }
                    if exists|k: int| 0 <= k < i + 1 && (#[trigger] self.squares@[k]).spec_contains(p) {
                        let k = choose|k: int| 0 <= k < i + 1 && (#[trigger] self.squares@[k]).spec_contains(p);
                        if k < i {
                            assert(old_r.contains(p));
                            let m = choose|m: int| 0 <= m < old_r.len() && old_r[m] == p;
                            assert(r@[m] == p);
                        } else {
                            assert(self.squares@[i as int].spec_contains(p));
                            assert(pv.contains(p));
                            let m = choose|m: int| 0 <= m < pv.len() && pv[m] == p;
                            assert(r@[old_r.len() + m] == p);
                        }
                    }
                }
            }
            i += 1;
        }
        r
    }

    /// The northmost edge of the rectangles, 0 when there are none.
    pub fn height(&self) -> (r: usize)
        requires
            self.wf(),
        ensures
            forall|i: int| 0 <= i < self.squares@.len() ==> (#[trigger] self.squares@[i]).anchor.y
                + self.squares@[i].height <= r,
            self.squares@.len() == 0 ==> r == 0,
            self.squares@.len() > 0 ==> exists|i: int|
                0 <= i < self.squares@.len() && (#[trigger] self.squares@[i]).anchor.y
                    + self.squares@[i].height == r,
    {
        let mut best: usize = 0;
        let mut i: usize = 0;
        while i < self.squares.len()
            invariant
                self.wf(),
                i <= self.squares@.len(),
                forall|k: int| 0 <= k < i ==> (#[trigger] self.squares@[k]).anchor.y
                    + self.squares@[k].height <= best,
                i == 0 ==> best == 0,
                i > 0 ==> exists|k: int|
                    0 <= k < i && (#[trigger] self.squares@[k]).anchor.y + self.squares@[k].height
                        == best,
            decreases self.squares@.len() - i,
        {
            let n = self.squares[i].north();
            if i == 0 || n > best {
                best = n;
            }
            i += 1;
        }
        best
    }
}

} // verus!
