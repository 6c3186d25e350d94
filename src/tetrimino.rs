use vstd::prelude::*;

use crate::shape::{lemma_tiles_four_distinct, spawn_column, tile_table, Shape};

verus! {

/// Bound on the anchor coordinates of a piece, keeping every cell coordinate
/// and every offset position computed from it within `i32`.
pub const POS_LIMIT: i32 = 1_000_000;

/// The falling piece: anchor `(x, y)` of its local frame on the board, its
/// kind, and its rotation state (clockwise quarter turns, `0..4`).
#[derive(Clone, Copy, Debug, PartialEq, Eq, Structural)]
pub struct Tetrimino {
    pub x: i32,
    pub y: i32,
    pub shape: Shape,
    pub rotation: i32,
}

/// Integer view of a list of `i32` cells.
pub open spec fn int_cells(v: Seq<(i32, i32)>) -> Seq<(int, int)> {
    Seq::new(v.len(), |i: int| (v[i].0 as int, v[i].1 as int))
}

/// `tiles` translated by `(dx, dy)`.
pub open spec fn translated(tiles: Seq<(i32, i32)>, dx: int, dy: int) -> Seq<(int, int)> {
    Seq::new(tiles.len(), |i: int| (tiles[i].0 + dx, tiles[i].1 + dy))
}

/// Rotation state after one clockwise quarter turn from `rotation`.
pub open spec fn next_rotation(rotation: i32) -> i32 {
    ((rotation + 1) % 4) as i32
}

impl Tetrimino {
    /// The piece is in a rotation state and its anchor is within bounds.
    pub open spec fn inv(self) -> bool {
        &&& 0 <= self.rotation < 4
        &&& -POS_LIMIT <= self.x <= POS_LIMIT
        &&& -POS_LIMIT <= self.y <= POS_LIMIT
    }

    /// Absolute cells the piece would occupy if moved by `(dx, dy)`.
    pub open spec fn cells_at(self, dx: int, dy: int) -> Seq<(int, int)> {
        translated(tile_table(self.shape, self.rotation as int), self.x + dx, self.y + dy)
    }

    /// Absolute cells the piece occupies.
    pub open spec fn cells(self) -> Seq<(int, int)> {
        self.cells_at(0, 0)
    }

    /// The piece turned one quarter clockwise in place.
    pub open spec fn rotated(self) -> Tetrimino {
        Tetrimino { rotation: next_rotation(self.rotation), ..self }
    }

    /// The piece as it spawns on a board `width` columns wide.
    pub open spec fn spawned(shape: Shape, width: int) -> Tetrimino {
        Tetrimino { x: spawn_column(shape, width) as i32, y: 0, shape, rotation: 0 }
    }

    /// A new piece of kind `shape` at its spawn position on a board `width`
    /// columns wide, in rotation state 0.
    pub fn spawn(shape: Shape, width: i32) -> (r: Tetrimino)
        requires
            0 <= width <= POS_LIMIT,
        ensures
            r == Tetrimino::spawned(shape, width as int),
            r.inv(),
    {
        Tetrimino { x: shape.origin(width), y: 0, shape, rotation: 0 }
    }

    /// Absolute cells of the piece.
    pub fn tiles(&self) -> (r: Vec<(i32, i32)>)
        requires
            self.inv(),
        ensures
            int_cells(r@) == self.cells(),
    {
        let t = self.shape.tiles(self.rotation);
        translate(&t, self.x, self.y)
    }

    /// Absolute cells of the piece moved by `offset`.
    pub fn tiles_offset(&self, offset: (i32, i32)) -> (r: Vec<(i32, i32)>)
        requires
            self.inv(),
            -POS_LIMIT <= offset.0 <= POS_LIMIT,
            -POS_LIMIT <= offset.1 <= POS_LIMIT,
        ensures
            int_cells(r@) == self.cells_at(offset.0 as int, offset.1 as int),
    {
        let t = self.shape.tiles(self.rotation);
        translate(&t, self.x + offset.0, self.y + offset.1)
    }

    /// Turns the piece one quarter clockwise.
    pub fn rotate(&mut self)
        requires
            old(self).inv(),
        ensures
            *final(self) == old(self).rotated(),
            final(self).inv(),
    {
        self.rotation = (self.rotation + 1) % 4;
    }

    /// Absolute cells of the piece turned one quarter clockwise in place.
    pub fn tiles_rotated(&self) -> (r: Vec<(i32, i32)>)
        requires
            self.inv(),
        ensures
            int_cells(r@) == self.rotated().cells(),
    {
        let t = self.shape.tiles((self.rotation + 1) % 4);
        translate(&t, self.x, self.y)
    }
}

/// `tiles` translated by `(dx, dy)`, as `i32` cells.
fn translate(tiles: &Vec<(i32, i32)>, dx: i32, dy: i32) -> (r: Vec<(i32, i32)>)
    requires
        forall|i: int| 0 <= i < tiles@.len() ==> 0 <= #[trigger] tiles@[i].0 <= 3 && 0 <= tiles@[i].1 <= 3,
        -3 * POS_LIMIT <= dx <= 3 * POS_LIMIT,
        -3 * POS_LIMIT <= dy <= 3 * POS_LIMIT,
    ensures
        int_cells(r@) == translated(tiles@, dx as int, dy as int),
{
    let mut r: Vec<(i32, i32)> = Vec::new();
    let mut i: usize = 0;
    while i < tiles.len()
        invariant
            i <= tiles@.len(),
            forall|j: int| 0 <= j < tiles@.len() ==> 0 <= #[trigger] tiles@[j].0 <= 3 && 0 <= tiles@[j].1 <= 3,
            -3 * POS_LIMIT <= dx <= 3 * POS_LIMIT,
            -3 * POS_LIMIT <= dy <= 3 * POS_LIMIT,
            r@.len() == i,
            forall|j: int|
                0 <= j < i ==> #[trigger] r@[j].0 == tiles@[j].0 + dx && r@[j].1 == tiles@[j].1 + dy,
        decreases tiles@.len() - i,
    {
        let c = tiles[i];
        r.push((c.0 + dx, c.1 + dy));
        i = i + 1;
    }
    assert(int_cells(r@) =~= translated(tiles@, dx as int, dy as int));
    r
}

/// Turning a piece four times brings it back to where it started, occupying
/// the same cells.
pub proof fn lemma_four_turns(t: Tetrimino)
    requires
        t.inv(),
    ensures
        t.rotated().rotated().rotated().rotated() == t,
        t.rotated().rotated().rotated().rotated().cells() == t.cells(),
{
}

/// Every cell of a piece lies in the 4x4 frame anchored at its position.
pub proof fn lemma_cells_in_frame(t: Tetrimino, dx: int, dy: int)
    ensures
        t.cells_at(dx, dy).len() == 4,
        forall|i: int|
            0 <= i < 4 ==> t.x + dx <= #[trigger] t.cells_at(dx, dy)[i].0 <= t.x + dx + 3 && t.y
                + dy <= t.cells_at(dx, dy)[i].1 <= t.y + dy + 3,
{
    lemma_tiles_four_distinct(t.shape, t.rotation as int);
}

} // verus!
