use vstd::prelude::*;

use crate::board::{Board, Tile};
use crate::{dist, Color, Pos, SubDirection};

verus! {

/// The row step of a pawn of this color.
pub open spec fn forward(color: Color) -> int {
    match color {
        Color::White => 1,
        Color::Black => -1,
    }
}

/// -1, 0 or 1, as `b` is below, at or above `a`.
pub open spec fn sign_toward(a: usize, b: usize) -> int {
    if b > a {
        1
    } else if b < a {
        -1
    } else {
        0
    }
}

/// A tile stops a plain ray when it holds a piece.
pub open spec fn occupied(t: Tile) -> bool {
    !(t.piece is Empty)
}

/// One square forward, or two when the square between is an empty tile.
pub open spec fn spec_pawn_move(board: Board, color: Color, from: Pos, to: Pos) -> bool {
    let f = forward(color);
    from.shifted(0, f) == Some(to) || (from.shifted(0, 2 * f) == Some(to) && from.shifted(0, f) is Some
        && board.empty_at(from.shifted(0, f).unwrap()))
}

/// One of the two squares diagonally forward.
pub open spec fn spec_pawn_take(color: Color, from: Pos, to: Pos) -> bool {
    let f = forward(color);
    from.shifted(-1, f) == Some(to) || from.shifted(1, f) == Some(to)
}

pub open spec fn spec_knight(from: Pos, to: Pos) -> bool {
    let (x, y) = (dist(from.x, to.x), dist(from.y, to.y));
    (x == 2 && y == 1) || (x == 1 && y == 2)
}

pub open spec fn spec_king(from: Pos, to: Pos) -> bool {
    dist(from.x, to.x) < 2 && dist(from.y, to.y) < 2
}

/// On a diagonal, with no piece on the squares before `to`.
pub open spec fn spec_bishop(board: Board, from: Pos, to: Pos) -> bool {
    dist(from.x, to.x) == dist(from.y, to.y) && board.reaches(
        from,
        to,
        if to.x > from.x {
            1
        } else {
            -1
        },
        if to.y > from.y {
            1
        } else {
            -1
        },
        None,
        |t: Tile| occupied(t),
    )
}

/// On a row or a column, with no piece on the squares before `to`.
pub open spec fn spec_rook(board: Board, from: Pos, to: Pos) -> bool {
    (from.x == to.x || from.y == to.y) && board.reaches(
        from,
        to,
        sign_toward(from.x, to.x),
        sign_toward(from.y, to.y),
        None,
        |t: Tile| occupied(t),
    )
}

pub open spec fn spec_square(from: Pos, to: Pos, range: usize) -> bool {
    dist(from.x, to.x) <= range && dist(from.y, to.y) <= range
}

pub open spec fn spec_cross(from: Pos, to: Pos, range: usize) -> bool {
    (from.x == to.x || from.y == to.y) && dist(from.x, to.x) + dist(from.y, to.y) <= range
}

/// A tile blocks a ballista's bolt when it holds a piece of another color
/// that resists `strength`.
pub open spec fn blocks_bolt(t: Tile, color: Color, strength: usize) -> bool {
    t.piece.has_type(crate::piece::Type::Impenetrable(strength)) && t.piece.color_of() != Some(color)
}

/// Within `range` on a row or a column, with no blocking piece before `to`.
pub open spec fn spec_blockeable_cross(
    board: Board,
    from: Pos,
    to: Pos,
    color: Color,
    range: usize,
    strength: usize,
) -> bool {
    spec_cross(from, to, range) && board.reaches(
        from,
        to,
        sign_toward(from.x, to.x),
        sign_toward(from.y, to.y),
        Some(range),
        |t: Tile| blocks_bolt(t, color, strength),
    )
}

pub open spec fn spec_magician_move(from: Pos, to: Pos) -> bool {
    dist(from.x, to.x) == dist(from.y, to.y) && dist(from.x, to.x) <= 2
}

pub open spec fn spec_structure_move(from: Pos, to: Pos) -> bool {
    (dist(from.x, to.x) == 0 && dist(from.y, to.y) == 1) || (dist(from.x, to.x) == 1 && dist(
        from.y,
        to.y,
    ) == 0)
}

/// The sub-direction with this index in the order N, NE, E, SE, S, SW, W, NW.
pub open spec fn subdirection_at(i: u64) -> SubDirection {
    if i == 0 {
        SubDirection::N
    } else if i == 1 {
        SubDirection::NE
    } else if i == 2 {
        SubDirection::E
    } else if i == 3 {
        SubDirection::SE
    } else if i == 4 {
        SubDirection::S
    } else if i == 5 {
        SubDirection::SW
    } else if i == 6 {
        SubDirection::W
    } else {
        SubDirection::NW
    }
}

/// One or two steps in the sub-direction that the board's movement stream
/// draws.
pub open spec fn spec_crazy_pawn(board: Board, from: Pos, to: Pos) -> bool {
    let d = subdirection_at(board.rng.spec_movement_rng().scaled(8));
    from.shifted(d.dx(), d.dy()) == Some(to) || (from.shifted(d.dx(), d.dy()) is Some && from.shifted(
        d.dx(),
        d.dy(),
    ).unwrap().shifted(d.dx(), d.dy()) == Some(to))
}

/// Like a pawn's move, but also on the two forward diagonals.
pub open spec fn spec_super_pawn_move(board: Board, color: Color, from: Pos, to: Pos) -> bool {
    exists|i: int| -1 <= i <= 1 && #[trigger] super_step(board, color, from, to, i)
}

/// A pawn's move shifted `i` columns.
pub open spec fn super_step(board: Board, color: Color, from: Pos, to: Pos, i: int) -> bool {
    let f = forward(color);
    from.shifted(i, f) == Some(to) || (from.shifted(i, 2 * f) == Some(to) && from.shifted(i, f) is Some
        && board.empty_at(from.shifted(i, f).unwrap()))
}

pub open spec fn spec_super_pawn_take(color: Color, from: Pos, to: Pos) -> bool {
    let f = forward(color);
    from.shifted(-1, f) == Some(to) || from.shifted(1, f) == Some(to) || from.shifted(0, f) == Some(to)
}

pub fn pawn_move(board: &Board, color: &Color, from: &Pos, to: &Pos) -> (r: bool)
    requires
        board.wf(),
    ensures
        r == spec_pawn_move(*board, *color, *from, *to),
{
    let (next, next2) = match color {
        Color::White => (from.shift(0, 1), from.shift(0, 2)),
        Color::Black => (from.shift(0, -1), from.shift(0, -2)),
    };
    if next == Some(*to) {
        true
    } else {
        next2 == Some(*to) && match next {
            Some(n) => board.is_empty(&n),
            None => false,
        }
    }
}

pub fn pawn_take(_board: &Board, color: &Color, from: &Pos, to: &Pos) -> (r: bool)
    ensures
        r == spec_pawn_take(*color, *from, *to),
{
    let (left, right) = match color {
        Color::White => (from.shift(-1, 1), from.shift(1, 1)),
        Color::Black => (from.shift(-1, -1), from.shift(1, -1)),
    };
    left == Some(*to) || right == Some(*to)
}

pub fn knight(from: &Pos, to: &Pos) -> (r: bool)
    ensures
        r == spec_knight(*from, *to),
{
    let d = from.abs_diff(to);
    (d.x == 2 && d.y == 1) || (d.x == 1 && d.y == 2)
}

pub fn king(from: &Pos, to: &Pos) -> (r: bool)
    ensures
        r == spec_king(*from, *to),
{
    let d = from.abs_diff(to);
    d.x < 2 && d.y < 2
}

pub fn bishop(board: &Board, from: &Pos, to: &Pos) -> (r: bool)
    requires
        board.wf(),
    ensures
        r == spec_bishop(*board, *from, *to),
{
    let d = from.abs_diff(to);
    if d.x != d.y {
        return false;
    }
    let signx: isize = if to.x > from.x {
        1
    } else {
        -1
    };
    let signy: isize = if to.y > from.y {
        1
    } else {
        -1
    };
    let ray = board.ray_cast_empty(from, None, &(signx, signy));
    proof {
        board.lemma_ray_contains(
            *from,
            None,
            signx as int,
            signy as int,
            |t: Tile| t.piece is Empty,
            |t: Tile| !(t.piece is Empty),
            |t: Tile| occupied(t),
            ray,
            *to,
        );
    }
    ray.contains(to)
}

/// The sign of `b - a`.
fn step_toward(a: usize, b: usize) -> (r: isize)
    ensures
        r == sign_toward(a, b),
{
    if b > a {
        1
    } else if b < a {
        -1
    } else {
        0
    }
}

pub fn rook(board: &Board, from: &Pos, to: &Pos) -> (r: bool)
    requires
        board.wf(),
    ensures
        r == spec_rook(*board, *from, *to),
{
    if from.x != to.x && from.y != to.y {
        return false;
    }
    if *from == *to {
        return board.get(from).is_some();
    }
    let signx = step_toward(from.x, to.x);
    let signy = step_toward(from.y, to.y);
    let ray = board.ray_cast_empty(from, None, &(signx, signy));
    proof {
        board.lemma_ray_contains(
            *from,
            None,
            signx as int,
            signy as int,
            |t: Tile| t.piece is Empty,
            |t: Tile| !(t.piece is Empty),
            |t: Tile| occupied(t),
            ray,
            *to,
        );
    }
    ray.contains(to)
}

pub fn queen(board: &Board, from: &Pos, to: &Pos) -> (r: bool)
    requires
        board.wf(),
    ensures
        r == (spec_bishop(*board, *from, *to) || spec_rook(*board, *from, *to)),
{
    bishop(board, from, to) || rook(board, from, to)
}

pub fn square(from: &Pos, to: &Pos, range: usize) -> (r: bool)
    ensures
        r == spec_square(*from, *to, range),
{
    let d = from.abs_diff(to);
    d.x <= range && d.y <= range
}

pub fn cross(from: &Pos, to: &Pos, range: usize) -> (r: bool)
    ensures
        r == spec_cross(*from, *to, range),
{
    let d = from.abs_diff(to);
    (d.x == 0 || d.y == 0) && (d.x as u128 + d.y as u128 <= range as u128)
}

/// Whether a bolt of `strength` shot by `color` is stopped by the tile.
fn stops_bolt(t: &Tile, color: Color, strength: usize) -> (b: bool)
    ensures
        b == blocks_bolt(*t, color, strength),
{
    t.piece.is_impenetrable(&strength) && !t.is_controlled_by(&color)
}

pub fn blockeable_cross(
    board: &Board,
    from: &Pos,
    to: &Pos,
    color: &Color,
    range: usize,
    strength: usize,
) -> (r: bool)
    requires
        board.wf(),
    ensures
        r == spec_blockeable_cross(*board, *from, *to, *color, range, strength),
{
    if !cross(from, to, range) {
        return false;
    }
    let signx = step_toward(from.x, to.x);
    let signy = step_toward(from.y, to.y);
    let c = *color;
    let ray = board.ray_cast(
        from,
        Some(range),
        &(signx, signy),
        (|t: &Tile| -> (b: bool)
            ensures
                b == blocks_bolt(*t, c, strength),
            { stops_bolt(t, c, strength) }),
    );
    proof {
        board.lemma_ray_contains(
            *from,
            Some(range),
            signx as int,
            signy as int,
            |t: Tile| !blocks_bolt(t, c, strength),
            |t: Tile| blocks_bolt(t, c, strength),
            |t: Tile| blocks_bolt(t, c, strength),
            ray,
            *to,
        );
    }
    ray.contains(to)
}

pub fn archer_move(from: &Pos, to: &Pos) -> (r: bool)
    ensures
        r == (spec_magician_move(*from, *to) || spec_king(*from, *to)),
{
    magician_move(from, to) || king(from, to)
}

pub fn magician_move(from: &Pos, to: &Pos) -> (r: bool)
    ensures
        r == spec_magician_move(*from, *to),
{
    let d = from.abs_diff(to);
    d.x == d.y && d.x <= 2
}

pub fn structure_move(from: &Pos, to: &Pos) -> (r: bool)
    ensures
        r == spec_structure_move(*from, *to),
{
    let d = from.abs_diff(to);
    (d.x == 0 && d.y == 1) || (d.x == 1 && d.y == 0)
}

/// The sub-direction with index `i` in the order N, NE, E, SE, S, SW, W, NW.
fn subdirection_from_index(i: u64) -> (r: SubDirection)
    ensures
        r == subdirection_at(i),
{
    if i == 0 {
        SubDirection::N
    } else if i == 1 {
        SubDirection::NE
    } else if i == 2 {
        SubDirection::E
    } else if i == 3 {
        SubDirection::SE
    } else if i == 4 {
        SubDirection::S
    } else if i == 5 {
        SubDirection::SW
    } else if i == 6 {
        SubDirection::W
    } else {
        SubDirection::NW
    }
}

/// Reads the board's movement stream without moving it.
pub fn crazy_pawn(board: &Board, from: &Pos, to: &Pos) -> (r: bool)
    requires
        board.wf(),
    ensures
        r == spec_crazy_pawn(*board, *from, *to),
{
    let subdirection = subdirection_from_index(board.rng.movement_below(8));
    let one = from.subdirection_shift(&subdirection);
    if one == Some(*to) {
        return true;
    }
    match one {
        Some(p) => p.subdirection_shift(&subdirection) == Some(*to),
        None => false,
    }
}

pub fn super_pawn_move(board: &Board, color: &Color, from: &Pos, to: &Pos) -> (r: bool)
    requires
        board.wf(),
    ensures
        r == spec_super_pawn_move(*board, *color, *from, *to),
{
    let f: isize = match color {
        Color::White => 1,
        Color::Black => -1,
    };
    let mut i: isize = -1;
    while i <= 1
        invariant
            -1 <= i <= 2,
            f == forward(*color),
            board.wf(),
            forall|j: int| -1 <= j < i ==> !#[trigger] super_step(*board, *color, *from, *to, j),
        decreases 2 - i,
    {
        let next = from.shift(i, f);
        let next2 = from.shift(i, 2 * f);
        let hit = next == Some(*to) || (next2 == Some(*to) && match next {
            Some(n) => board.is_empty(&n),
            None => false,
        });
        if hit {
            proof {
                assert(super_step(*board, *color, *from, *to, i as int));
            }
            return true;
        }
        i += 1;
    }
    false
}

pub fn super_pawn_take(_board: &Board, color: &Color, from: &Pos, to: &Pos) -> (r: bool)
    ensures
        r == spec_super_pawn_take(*color, *from, *to),
{
    let (left, right, front) = match color {
        Color::White => (from.shift(-1, 1), from.shift(1, 1), from.shift(0, 1)),
        Color::Black => (from.shift(-1, -1), from.shift(1, -1), from.shift(0, -1)),
    };
    left == Some(*to) || right == Some(*to) || front == Some(*to)
}

} // verus!
