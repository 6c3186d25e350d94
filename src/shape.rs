use vstd::prelude::*;

use rand::distributions::{IndependentSample, Range};

verus! {

/// The seven piece kinds.
#[derive(Clone, Copy, Debug, PartialEq, Eq, Structural, Hash)]
pub enum Shape {
    I,
    O,
    T,
    S,
    Z,
    J,
    L,
}

/// Number of piece kinds.
pub const SHAPE_COUNT: u8 = 7;

/// Offsets `(column, row)` of the four cells of `shape` in rotation state
/// `rotation`, inside the piece's local 4x4 frame. Any rotation other than
/// 0, 1 and 2 selects the last layout.
pub open spec fn tile_table(shape: Shape, rotation: int) -> Seq<(i32, i32)> {
    match shape {
        Shape::I => if rotation == 0 {
            seq![(0i32, 1i32), (1, 1), (2, 1), (3, 1)]
        } else if rotation == 1 {
            seq![(2i32, 0i32), (2, 1), (2, 2), (2, 3)]
        } else if rotation == 2 {
            seq![(0i32, 2i32), (1, 2), (2, 2), (3, 2)]
        } else {
            seq![(1i32, 0i32), (1, 1), (1, 2), (1, 3)]
        },
        Shape::O => seq![(1i32, 0i32), (2, 0), (1, 1), (2, 1)],
        Shape::T => if rotation == 0 {
            seq![(1i32, 0i32), (0, 1), (1, 1), (2, 1)]
        } else if rotation == 1 {
            seq![(1i32, 0i32), (1, 1), (1, 2), (2, 1)]
        } else if rotation == 2 {
            seq![(0i32, 1i32), (1, 1), (2, 1), (1, 2)]
        } else {
            seq![(1i32, 0i32), (1, 1), (1, 2), (0, 1)]
        },
        Shape::S => if rotation == 0 {
            seq![(1i32, 0i32), (2, 0), (0, 1), (1, 1)]
        } else if rotation == 1 {
            seq![(1i32, 0i32), (1, 1), (2, 1), (2, 2)]
        } else if rotation == 2 {
            seq![(1i32, 1i32), (2, 1), (0, 2), (1, 2)]
        } else {
            seq![(0i32, 0i32), (0, 1), (1, 1), (1, 2)]
        },
        Shape::Z => if rotation == 0 {
            seq![(0i32, 0i32), (1, 0), (1, 1), (2, 1)]
        } else if rotation == 1 {
            seq![(2i32, 0i32), (2, 1), (1, 1), (1, 2)]
        } else if rotation == 2 {
            seq![(0i32, 1i32), (1, 1), (1, 2), (2, 2)]
        } else {
            seq![(1i32, 0i32), (1, 1), (0, 1), (0, 2)]
        },
        Shape::J => if rotation == 0 {
            seq![(0i32, 0i32), (0, 1), (1, 1), (2, 1)]
        } else if rotation == 1 {
            seq![(1i32, 0i32), (2, 0), (1, 1), (1, 2)]
        } else if rotation == 2 {
            seq![(0i32, 1i32), (1, 1), (2, 1), (2, 2)]
        } else {
            seq![(2i32, 0i32), (2, 1), (2, 2), (1, 2)]
        },
        Shape::L => if rotation == 0 {
            seq![(2i32, 0i32), (0, 1), (1, 1), (2, 1)]
        } else if rotation == 1 {
            seq![(1i32, 0i32), (1, 1), (1, 2), (2, 2)]
        } else if rotation == 2 {
            seq![(0i32, 1i32), (1, 1), (2, 1), (0, 2)]
        } else {
            seq![(0i32, 0i32), (1, 0), (1, 1), (1, 2)]
        },
    }
}

/// Column at which a piece of `shape` spawns on a board `width` columns wide,
/// so that it starts out centred.
pub open spec fn spawn_column(shape: Shape, width: int) -> int {
    match shape {
        Shape::S => width / 2 - 1,
        _ => width / 2 - 2,
    }
}

/// The kind drawn for sample `i` of a uniform draw over `0..7`.
pub open spec fn shape_of_index(i: int) -> Shape {
    if i == 0 {
        Shape::I
    } else if i == 1 {
        Shape::O
    } else if i == 2 {
        Shape::T
    } else if i == 3 {
        Shape::S
    } else if i == 4 {
        Shape::Z
    } else if i == 5 {
        Shape::J
    } else {
        Shape::L
    }
}

/// Every layout of every kind has exactly four distinct cells, each inside
/// the local 4x4 frame.
pub proof fn lemma_tiles_four_distinct(shape: Shape, rotation: int)
    ensures
        tile_table(shape, rotation).len() == 4,
        forall|i: int|
            0 <= i < 4 ==> 0 <= #[trigger] tile_table(shape, rotation)[i].0 <= 3 && 0
                <= tile_table(shape, rotation)[i].1 <= 3,
        forall|i: int, j: int|
            0 <= i < 4 && 0 <= j < 4 && i != j ==> #[trigger] tile_table(shape, rotation)[i]
                != #[trigger] tile_table(shape, rotation)[j],
{
    let t = tile_table(shape, rotation);
    assert(t.len() == 4);
    assert(forall|i: int| 0 <= i < 4 ==> t[i] == t.index(i));
}

/// Builds the four-element vector `[a, b, c, d]`.
fn four(a: (i32, i32), b: (i32, i32), c: (i32, i32), d: (i32, i32)) -> (r: Vec<(i32, i32)>)
    ensures
        r@ == seq![a, b, c, d],
{
    let mut r: Vec<(i32, i32)> = Vec::new();
    r.push(a);
    r.push(b);
    r.push(c);
    r.push(d);
    assert(r@ =~= seq![a, b, c, d]);
    r
}

/// Draws a number uniformly from `0..n`.
/// Relies on rand's `Range::new(0, n).ind_sample(&mut thread_rng())`: it
/// panics unless `0 < n`, and otherwise returns a value in `[0, n)`.
#[verifier::external_body]
fn random_below(n: u8) -> (r: u8)
    requires
        0 < n,
    ensures
        r < n,
{
    let between: Range<u8> = Range::new(0, n);
    between.ind_sample(&mut rand::thread_rng())
}

impl Shape {
    /// The cell offsets of this kind in rotation state `rotation`.
    pub fn tiles(&self, rotation: i32) -> (r: Vec<(i32, i32)>)
        ensures
            r@ == tile_table(*self, rotation as int),
    {
        match *self {
            Shape::I => if rotation == 0 {
                four((0, 1), (1, 1), (2, 1), (3, 1))
            } else if rotation == 1 {
                four((2, 0), (2, 1), (2, 2), (2, 3))
            } else if rotation == 2 {
                four((0, 2), (1, 2), (2, 2), (3, 2))
            } else {
                four((1, 0), (1, 1), (1, 2), (1, 3))
            },
            Shape::O => four((1, 0), (2, 0), (1, 1), (2, 1)),
            Shape::T => if rotation == 0 {
                four((1, 0), (0, 1), (1, 1), (2, 1))
            } else if rotation == 1 {
                four((1, 0), (1, 1), (1, 2), (2, 1))
            } else if rotation == 2 {
                four((0, 1), (1, 1), (2, 1), (1, 2))
            } else {
                four((1, 0), (1, 1), (1, 2), (0, 1))
            },
            Shape::S => if rotation == 0 {
                four((1, 0), (2, 0), (0, 1), (1, 1))
            } else if rotation == 1 {
                four((1, 0), (1, 1), (2, 1), (2, 2))
            } else if rotation == 2 {
                four((1, 1), (2, 1), (0, 2), (1, 2))
            } else {
                four((0, 0), (0, 1), (1, 1), (1, 2))
            },
            Shape::Z => if rotation == 0 {
                four((0, 0), (1, 0), (1, 1), (2, 1))
            } else if rotation == 1 {
                four((2, 0), (2, 1), (1, 1), (1, 2))
            } else if rotation == 2 {
                four((0, 1), (1, 1), (1, 2), (2, 2))
            } else {
                four((1, 0), (1, 1), (0, 1), (0, 2))
            },
            Shape::J => if rotation == 0 {
                four((0, 0), (0, 1), (1, 1), (2, 1))
            } else if rotation == 1 {
                four((1, 0), (2, 0), (1, 1), (1, 2))
            } else if rotation == 2 {
                four((0, 1), (1, 1), (2, 1), (2, 2))
            } else {
                four((2, 0), (2, 1), (2, 2), (1, 2))
            },
            Shape::L => if rotation == 0 {
                four((2, 0), (0, 1), (1, 1), (2, 1))
            } else if rotation == 1 {
                four((1, 0), (1, 1), (1, 2), (2, 2))
            } else if rotation == 2 {
                four((0, 1), (1, 1), (2, 1), (0, 2))
            } else {
                four((0, 0), (1, 0), (1, 1), (1, 2))
            },
        }
    }

    /// Spawn column of this kind on a board `width` columns wide.
    pub fn origin(&self, width: i32) -> (r: i32)
        requires
            0 <= width,
        ensures
            r == spawn_column(*self, width as int),
    {
        match *self {
            Shape::S => width / 2 - 1,
            _ => width / 2 - 2,
        }
    }

    /// The kind for sample `i` of a uniform draw over `0..7`.
    pub fn from_index(i: u8) -> (r: Shape)
        requires
            i < SHAPE_COUNT,
        ensures
            r == shape_of_index(i as int),
    {
        match i {
            0 => Shape::I,
            1 => Shape::O,
            2 => Shape::T,
            3 => Shape::S,
            4 => Shape::Z,
            5 => Shape::J,
            _ => Shape::L,
        }
    }

    /// A kind drawn uniformly at random from all seven.
    pub fn random() -> (r: Shape)
        ensures
            exists|i: int| 0 <= i < SHAPE_COUNT && r == shape_of_index(i),
    {
        let i = random_below(SHAPE_COUNT);
        Shape::from_index(i)
    }
}

} // verus!
