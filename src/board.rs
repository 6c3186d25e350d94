use vstd::prelude::*;

use crate::shape::Shape;
use crate::tetrimino::{int_cells, lemma_cells_in_frame, Tetrimino, POS_LIMIT};

verus! {

/// Columns of the standard board.
pub const BOARD_WIDTH: i32 = 10;

/// Rows of the standard board.
pub const BOARD_HEIGHT: i32 = 30;

/// Score unit of the standard board: clearing `n` rows at once scores
/// `n * n` units.
pub const SCORE_PER_LINE: u32 = 100;

/// Largest number of columns or rows a board may have.
pub const MAX_SIDE: i32 = 1000;

/// A player command.
#[derive(Clone, Copy, Debug, PartialEq, Eq, Structural)]
pub enum Move {
    /// Turn the piece one quarter clockwise.
    RotateRight,
    /// Shift the piece one column left.
    MoveLeft,
    /// Shift the piece one column right.
    MoveRight,
    /// One step of gravity on demand.
    SoftDrop,
    /// Drop the piece as far as it goes and land it.
    HardDrop,
}

/// One row of settled cells, indexed by column.
pub type RowView = Seq<Option<Shape>>;

/// Mathematical state of a board. `rows[y][x]` is the settled cell at column
/// `x` of row `y`; row 0 is the top.
pub struct BoardView {
    pub in_progress: bool,
    pub rows: Seq<RowView>,
    pub piece: Tetrimino,
    pub score: nat,
    pub width: int,
    pub height: int,
    pub score_per_line: nat,
}

/// `rows` with every cell listed in `cells` holding `shape`. Cells outside
/// the grid are ignored.
pub open spec fn settle(rows: Seq<RowView>, cells: Seq<(int, int)>, shape: Shape) -> Seq<RowView> {
    Seq::new(
        rows.len(),
        |y: int|
            Seq::new(
                rows[y].len(),
                |x: int|
                    if cells.contains((x, y)) {
                        Some(shape)
                    } else {
                        rows[y][x]
                    },
            ),
    )
}

/// Some cell is on the top row or above it.
pub open spec fn topped_out(cells: Seq<(int, int)>) -> bool {
    exists|i: int| 0 <= i < cells.len() && #[trigger] cells[i].1 <= 0
}

/// Every column of `row` is settled.
pub open spec fn row_full(row: RowView) -> bool {
    forall|x: int| 0 <= x < row.len() ==> (#[trigger] row[x]) is Some
}

/// Number of full rows in `rows`.
pub open spec fn full_count(rows: Seq<RowView>) -> nat
    decreases rows.len(),
{
    if rows.len() == 0 {
        0
    } else {
        full_count(rows.drop_last()) + if row_full(rows.last()) {
            1nat
        } else {
            0nat
        }
    }
}

/// The rows of `rows` that are not full, in their order.
pub open spec fn kept_rows(rows: Seq<RowView>) -> Seq<RowView>
    decreases rows.len(),
{
    if rows.len() == 0 {
        Seq::empty()
    } else {
        kept_rows(rows.drop_last()) + if row_full(rows.last()) {
            Seq::empty()
        } else {
            seq![rows.last()]
        }
    }
}

/// A row of `width` empty cells.
pub open spec fn empty_row(width: int) -> RowView {
    Seq::new(width as nat, |x: int| None)
}

/// `n` empty rows of `width` cells.
pub open spec fn empty_rows(n: nat, width: int) -> Seq<RowView> {
    Seq::new(n, |i: int| empty_row(width))
}

/// `rows` with its full rows removed and as many empty rows added on top.
pub open spec fn clear_full_rows(rows: Seq<RowView>, width: int) -> Seq<RowView> {
    empty_rows(full_count(rows), width) + kept_rows(rows)
}

/// `score` plus `lines * lines * per_line`, saturating at `u64::MAX`.
pub open spec fn add_score(score: nat, lines: nat, per_line: nat) -> nat {
    let s = score + lines * lines * per_line;
    if s > u64::MAX {
        u64::MAX as nat
    } else {
        s
    }
}

impl BoardView {
    /// Well formed: the layout is, and while the game is in progress no row is
    /// full (full rows are cleared as soon as they form).
    pub open spec fn wf(self) -> bool {
        &&& self.wf_layout()
        &&& self.in_progress ==> forall|y: int| 0 <= y < self.height ==> !row_full(#[trigger] self.rows[y])
    }

    /// Dimensions within bounds, a grid of those dimensions, and a piece whose
    /// anchor stays near the grid.
    pub open spec fn wf_layout(self) -> bool {
        &&& 1 <= self.width <= MAX_SIDE
        &&& 1 <= self.height <= MAX_SIDE
        &&& self.rows.len() == self.height
        &&& forall|y: int| 0 <= y < self.height ==> (#[trigger] self.rows[y]).len() == self.width
        &&& self.piece.inv()
        &&& -4 <= self.piece.x <= self.width
        &&& 0 <= self.piece.y <= self.height
        &&& self.score <= u64::MAX
        &&& self.score_per_line <= u32::MAX
    }

    /// Cell `c` is off the left, right or bottom edge, or already settled.
    /// Cells above the top edge are free.
    pub open spec fn cell_blocked(self, c: (int, int)) -> bool {
        ||| c.0 < 0
        ||| c.0 >= self.width
        ||| c.1 >= self.height
        ||| (0 <= c.1 && self.rows[c.1][c.0] is Some)
    }

    /// Some cell of `cells` is blocked.
    pub open spec fn blocked(self, cells: Seq<(int, int)>) -> bool {
        exists|i: int| 0 <= i < cells.len() && #[trigger] self.cell_blocked(cells[i])
    }

    /// A fresh game on an empty `width` by `height` grid, with a piece of kind
    /// `first` at its spawn position and no score.
    pub open spec fn initial(width: int, height: int, score_per_line: nat, first: Shape) -> BoardView {
        BoardView {
            in_progress: true,
            rows: empty_rows(height as nat, width),
            piece: Tetrimino::spawned(first, width),
            score: 0,
            width,
            height,
            score_per_line,
        }
    }

    /// The same board with `piece` as the falling piece.
    pub open spec fn with_piece(self, piece: Tetrimino) -> BoardView {
        BoardView { piece, ..self }
    }

    /// Effect of shifting the piece `dx` columns.
    pub open spec fn shifted(self, dx: int) -> BoardView {
        if !self.in_progress || self.blocked(self.piece.cells_at(dx, 0)) {
            self
        } else {
            self.with_piece(Tetrimino { x: (self.piece.x + dx) as i32, ..self.piece })
        }
    }

    /// Effect of turning the piece a quarter clockwise.
    pub open spec fn turned(self) -> BoardView {
        if !self.in_progress || self.blocked(self.piece.rotated().cells()) {
            self
        } else {
            self.with_piece(self.piece.rotated())
        }
    }

    /// Landing: the piece's cells settle; if one of them is on the top row or
    /// above, the game ends; otherwise full rows are cleared and scored. A
    /// fresh piece of kind `next` spawns either way.
    pub open spec fn landed(self, next: Shape) -> BoardView {
        let cells = self.piece.cells();
        let rows = settle(self.rows, cells, self.piece.shape);
        let spawned = Tetrimino::spawned(next, self.width);
        if topped_out(cells) {
            BoardView { in_progress: false, rows, piece: spawned, ..self }
        } else {
            BoardView {
                rows: clear_full_rows(rows, self.width),
                score: add_score(self.score, full_count(rows), self.score_per_line),
                piece: spawned,
                ..self
            }
        }
    }

    /// One gravity step: the piece moves down a row, or lands if it cannot.
    pub open spec fn ticked(self, next: Shape) -> BoardView {
        if !self.in_progress {
            self
        } else if self.blocked(self.piece.cells_at(0, 1)) {
            self.landed(next)
        } else {
            self.with_piece(Tetrimino { y: (self.piece.y + 1) as i32, ..self.piece })
        }
    }

    /// Where piece `t` comes to rest when moved down row by row.
    pub open spec fn drop_target(self, t: Tetrimino) -> Tetrimino
        decreases self.height - t.y,
    {
        if t.y >= self.height || t.y >= POS_LIMIT || self.blocked(t.cells_at(0, 1)) {
            t
        } else {
            self.drop_target(Tetrimino { y: (t.y + 1) as i32, ..t })
        }
    }

    /// Hard drop: the piece moves down as far as it goes, then lands.
    pub open spec fn hard_dropped(self, next: Shape) -> BoardView {
        if !self.in_progress {
            self
        } else {
            self.with_piece(self.drop_target(self.piece)).landed(next)
        }
    }

    /// Every cell of `cells` is in a column of the grid, above the bottom edge,
    /// and not on a settled cell.
    pub open spec fn fits(self, cells: Seq<(int, int)>) -> bool {
        forall|i: int|
            0 <= i < cells.len() ==> {
                let c = #[trigger] cells[i];
                &&& 0 <= c.0 < self.width
                &&& c.1 < self.height
                &&& !(0 <= c.1 && self.rows[c.1][c.0] is Some)
            }
    }

    /// `n` gravity steps, each spawning a piece of kind `next` if one lands.
    pub open spec fn ticks(self, next: Shape, n: nat) -> BoardView
        decreases n,
    {
        if n == 0 {
            self
        } else {
            self.ticked(next).ticks(next, (n - 1) as nat)
        }
    }

    /// `n` soft-drop commands, each spawning a piece of kind `next` if one
    /// lands.
    pub open spec fn soft_drops(self, next: Shape, n: nat) -> BoardView
        decreases n,
    {
        if n == 0 {
            self
        } else {
            self.step(Move::SoftDrop, next).soft_drops(next, (n - 1) as nat)
        }
    }

    /// The board after `inputs` in turn: `(Some(mov), next)` is command `mov`,
    /// `(None, next)` a gravity step, `next` the kind that spawns if a piece
    /// lands.
    pub open spec fn play(self, inputs: Seq<(Option<Move>, Shape)>) -> BoardView
        decreases inputs.len(),
    {
        if inputs.len() == 0 {
            self
        } else {
            let (input, next) = inputs[0];
            let after = match input {
                Some(mov) => self.step(mov, next),
                None => self.ticked(next),
            };
            after.play(inputs.drop_first())
        }
    }

    /// Effect of command `mov`; `next` is the kind that spawns if a piece lands.
    pub open spec fn step(self, mov: Move, next: Shape) -> BoardView {
        match mov {
            Move::RotateRight => self.turned(),
            Move::MoveLeft => self.shifted(-1),
            Move::MoveRight => self.shifted(1),
            Move::SoftDrop => self.ticked(next),
            Move::HardDrop => self.hard_dropped(next),
        }
    }
}

/// Removing the full rows of a grid `width` columns wide keeps the other rows,
/// each still `width` long and not full, and the kept and removed rows add up
/// to the whole.
pub proof fn lemma_kept_rows(rows: Seq<RowView>, width: int)
    requires
        forall|y: int| 0 <= y < rows.len() ==> (#[trigger] rows[y]).len() == width,
    ensures
        kept_rows(rows).len() + full_count(rows) == rows.len(),
        forall|i: int|
            0 <= i < kept_rows(rows).len() ==> (#[trigger] kept_rows(rows)[i]).len() == width
                && !row_full(kept_rows(rows)[i]),
    decreases rows.len(),
{
    if rows.len() > 0 {
        let init = rows.drop_last();
        assert forall|y: int| 0 <= y < init.len() implies (#[trigger] init[y]).len() == width by {
            assert(init[y] == rows[y]);
        }
        lemma_kept_rows(init, width);
    }
}

/// Counting and keeping rows one more row at a time.
proof fn lemma_take_one_more(rows: Seq<RowView>, y: int)
    requires
        0 <= y < rows.len(),
    ensures
        full_count(rows.take(y + 1)) == full_count(rows.take(y)) + if row_full(rows[y]) {
            1nat
        } else {
            0nat
        },
        kept_rows(rows.take(y + 1)) == kept_rows(rows.take(y)) + if row_full(rows[y]) {
            Seq::<RowView>::empty()
        } else {
            seq![rows[y]]
        },
{
    assert(rows.take(y + 1).drop_last() =~= rows.take(y));
    assert(rows.take(y + 1).last() == rows[y]);
}

/// An empty row of a grid at least one column wide is not full.
pub proof fn lemma_empty_row_not_full(width: int)
    requires
        1 <= width,
    ensures
        !row_full(empty_row(width)),
        empty_row(width).len() == width,
{
    assert(empty_row(width)[0] is None);
}

/// After clearing, the grid has its height and width and no full row.
pub proof fn lemma_cleared_rows_not_full(rows: Seq<RowView>, width: int)
    requires
        1 <= width,
        forall|y: int| 0 <= y < rows.len() ==> (#[trigger] rows[y]).len() == width,
    ensures
        clear_full_rows(rows, width).len() == rows.len(),
        forall|y: int|
            0 <= y < rows.len() ==> (#[trigger] clear_full_rows(rows, width)[y]).len() == width
                && !row_full(clear_full_rows(rows, width)[y]),
{
    lemma_kept_rows(rows, width);
    lemma_empty_row_not_full(width);
    let k = full_count(rows);
    assert forall|y: int| 0 <= y < rows.len() implies (#[trigger] clear_full_rows(rows, width)[y]).len() == width
        && !row_full(clear_full_rows(rows, width)[y]) by {
        if y < k {
            assert(clear_full_rows(rows, width)[y] == empty_row(width));
        } else {
            assert(clear_full_rows(rows, width)[y] == kept_rows(rows)[y - k]);
        }
    }
}

/// Whether cells are blocked does not depend on the falling piece.
pub proof fn lemma_blocked_ignores_piece(b: BoardView, p: Tetrimino, cells: Seq<(int, int)>)
    ensures
        b.with_piece(p).blocked(cells) == b.blocked(cells),
{
    if b.blocked(cells) {
        let i = choose|i: int| 0 <= i < cells.len() && #[trigger] b.cell_blocked(cells[i]);
        assert(b.with_piece(p).cell_blocked(cells[i]));
    }
    if b.with_piece(p).blocked(cells) {
        let i = choose|i: int| 0 <= i < cells.len() && #[trigger] b.with_piece(p).cell_blocked(cells[i]);
        assert(b.cell_blocked(cells[i]));
    }
}

/// Where the piece can move by `(dx, dy)`, its anchor ends up within
/// `[-3, width)` and above the bottom row.
pub proof fn lemma_free_move_bounds(b: BoardView, dx: int, dy: int)
    requires
        b.wf(),
        !b.blocked(b.piece.cells_at(dx, dy)),
    ensures
        -3 <= b.piece.x + dx < b.width,
        b.piece.y + dy < b.height,
{
    lemma_cells_in_frame(b.piece, dx, dy);
    assert(!b.cell_blocked(b.piece.cells_at(dx, dy)[0]));
}

/// The rows of a grid of vectors, as sequences.
pub open spec fn rows_view(v: Seq<Vec<Option<Shape>>>) -> Seq<RowView> {
    Seq::new(v.len(), |y: int| v[y]@)
}

/// The board: settled cells, the falling piece, score and progress.
#[derive(Debug)]
pub struct Board {
    in_progress: bool,
    dead_tiles: Vec<Vec<Option<Shape>>>,
    tetrimino: Tetrimino,
    score: u64,
    width: i32,
    height: i32,
    score_per_line: u32,
}

impl View for Board {
    type V = BoardView;

    closed spec fn view(&self) -> BoardView {
        BoardView {
            in_progress: self.in_progress,
            rows: rows_view(self.dead_tiles@),
            piece: self.tetrimino,
            score: self.score as nat,
            width: self.width as int,
            height: self.height as int,
            score_per_line: self.score_per_line as nat,
        }
    }
}

/// Whether every cell of `row` is settled.
fn row_is_full(row: &Vec<Option<Shape>>) -> (r: bool)
    ensures
        r == row_full(row@),
{
    let mut x: usize = 0;
    while x < row.len()
        invariant
            x <= row@.len(),
            forall|j: int| 0 <= j < x ==> (#[trigger] row@[j]) is Some,
        decreases row@.len() - x,
    {
        if row[x].is_none() {
            assert(!(row@[x as int] is Some));
            return false;
        }
        x = x + 1;
    }
    true
}

/// A copy of `row`.
fn copy_row(row: &Vec<Option<Shape>>) -> (r: Vec<Option<Shape>>)
    ensures
        r@ == row@,
{
    let mut r: Vec<Option<Shape>> = Vec::new();
    let mut x: usize = 0;
    while x < row.len()
        invariant
            x <= row@.len(),
            r@ == row@.take(x as int),
        decreases row@.len() - x,
    {
        r.push(row[x]);
        x = x + 1;
        assert(r@ =~= row@.take(x as int));
    }
    assert(row@.take(x as int) =~= row@);
    r
}

/// A row of `width` empty cells.
fn new_empty_row(width: i32) -> (r: Vec<Option<Shape>>)
    requires
        0 <= width,
    ensures
        r@ == empty_row(width as int),
{
    let mut r: Vec<Option<Shape>> = Vec::new();
    let mut x: i32 = 0;
    while x < width
        invariant
            0 <= x <= width,
            r@ == empty_row(x as int),
        decreases width - x,
    {
        r.push(None);
        x = x + 1;
        assert(r@ =~= empty_row(x as int));
    }
    r
}

impl Board {
    /// The board's state is well formed.
    pub open spec fn wf(&self) -> bool {
        self@.wf()
    }

    /// Whether some cell of `tetrimino_tiles` is off the left, right or bottom
    /// edge or on a settled cell.
    pub fn illegal_position(&self, tetrimino_tiles: Vec<(i32, i32)>) -> (r: bool)
        requires
            self.wf(),
        ensures
            r == self@.blocked(int_cells(tetrimino_tiles@)),
    {
        let ghost cells = int_cells(tetrimino_tiles@);
        let mut i: usize = 0;
        while i < tetrimino_tiles.len()
            invariant
                self.wf(),
                i <= tetrimino_tiles@.len(),
                cells == int_cells(tetrimino_tiles@),
                forall|j: int| 0 <= j < i ==> !self@.cell_blocked(#[trigger] cells[j]),
            decreases tetrimino_tiles@.len() - i,
        {
            let (x, y) = tetrimino_tiles[i];
            assert(cells[i as int] == (x as int, y as int));
            if x < 0 || x >= self.width || y >= self.height {
                assert(self@.cell_blocked(cells[i as int]));
                return true;
            }
            if y >= 0 {
                assert(self@.rows[y as int] == self.dead_tiles@[y as int]@);
                if self.dead_tiles[y as usize][x as usize].is_some() {
                    assert(self@.cell_blocked(cells[i as int]));
                    return true;
                }
            }
            i = i + 1;
        }
        false
    }

    /// Writes the falling piece's kind into every cell it occupies.
    fn settle_piece(&mut self)
        requires
            old(self)@.wf_layout(),
        ensures
            final(self)@ == (BoardView {
                rows: settle(old(self)@.rows, old(self)@.piece.cells(), old(self)@.piece.shape),
                ..old(self)@
            }),
            final(self)@.wf_layout(),
    {
        let ghost b0 = self@;
        let cells = self.tetrimino.tiles();
        let shape = self.tetrimino.shape;
        assert(settle(b0.rows, int_cells(cells@).take(0), shape) =~~= b0.rows);
        let mut i: usize = 0;
        while i < cells.len()
            invariant
                b0.wf_layout(),
                int_cells(cells@) == b0.piece.cells(),
                i <= cells@.len(),
                self@ == (BoardView {
                    rows: settle(b0.rows, int_cells(cells@).take(i as int), shape),
                    ..b0
                }),
                shape == b0.piece.shape,
                self@.wf_layout(),
            decreases cells@.len() - i,
        {
            let (x, y) = cells[i];
            let ghost before = int_cells(cells@).take(i as int);
            let ghost after = int_cells(cells@).take(i as int + 1);
            assert(after =~= before.push((x as int, y as int)));
            assert forall|a: int, b: int| #[trigger] after.contains((a, b)) == (before.contains((a, b)) || (a, b) == (x as int, y as int)) by {
                if after.contains((a, b)) {
                    let k = choose|k: int| 0 <= k < after.len() && after[k] == (a, b);
                    if k < before.len() {
                        assert(before[k] == after[k]);
                    }
                }
                if before.contains((a, b)) {
                    let k = choose|k: int| 0 <= k < before.len() && before[k] == (a, b);
                    assert(after[k] == before[k]);
                }
                if (a, b) == (x as int, y as int) {
                    assert(after[i as int] == (a, b));
                }
            }
            let ghost prev = rows_view(self.dead_tiles@);
            if 0 <= x && x < self.width && 0 <= y && y < self.height {
                assert(self.dead_tiles@[y as int]@ == prev[y as int]);
                self.dead_tiles[y as usize][x as usize] = Some(shape);
                assert(rows_view(self.dead_tiles@) =~~= prev.update(
                    y as int,
                    prev[y as int].update(x as int, Some(shape)),
                ));
            }
            assert(rows_view(self.dead_tiles@) =~~= settle(b0.rows, after, shape));
            i = i + 1;
        }
        assert(int_cells(cells@).take(i as int) =~= int_cells(cells@));
    }
    /// Removes the full rows, adds as many empty rows on top, and returns how
    /// many were removed.
    fn clear_lines(&mut self) -> (lines: u64)
        requires
            old(self)@.wf_layout(),
        ensures
            final(self)@ == (BoardView { rows: clear_full_rows(old(self)@.rows, old(self)@.width), ..old(self)@ }),
            lines == full_count(old(self)@.rows),
            final(self)@.wf_layout(),
            forall|y: int| 0 <= y < final(self)@.height ==> !row_full(#[trigger] final(self)@.rows[y]),
    {
        let ghost b0 = self@;
        let ghost rows = b0.rows;
        let mut kept: Vec<Vec<Option<Shape>>> = Vec::new();
        let mut count: u64 = 0;
        let mut y: usize = 0;
        assert(rows.take(0) =~= Seq::<RowView>::empty());
        assert(rows_view(kept@) =~= kept_rows(rows.take(0)));
        while y < self.dead_tiles.len()
            invariant
                self@ == b0,
                b0.wf_layout(),
                rows == b0.rows,
                y <= rows.len(),
                self.dead_tiles@.len() == rows.len(),
                count == full_count(rows.take(y as int)),
                count <= y,
                rows_view(kept@) == kept_rows(rows.take(y as int)),
            decreases rows.len() - y,
        {
            proof {
                lemma_take_one_more(rows, y as int);
            }
            assert(self.dead_tiles@[y as int]@ == rows[y as int]);
            if row_is_full(&self.dead_tiles[y]) {
                count = count + 1;
            } else {
                let row = copy_row(&self.dead_tiles[y]);
                let ghost prev = kept@;
                kept.push(row);
                assert(rows_view(kept@) =~= rows_view(prev) + seq![rows[y as int]]);
            }
            y = y + 1;
        }
        assert(rows.take(y as int) =~= rows);
        proof {
            lemma_kept_rows(rows, b0.width);
            lemma_empty_row_not_full(b0.width);
        }
        let mut out: Vec<Vec<Option<Shape>>> = Vec::new();
        let mut i: u64 = 0;
        assert(rows_view(out@) =~= empty_rows(0, b0.width));
        while i < count
            invariant
                i <= count,
                b0.wf_layout(),
                out@.len() == i,
                rows_view(out@) == empty_rows(i as nat, b0.width),
                self.width == b0.width,
            decreases count - i,
        {
            let row = new_empty_row(self.width);
            let ghost prev = out@;
            out.push(row);
            assert forall|k: int| 0 <= k < prev.len() implies out@[k]@ == empty_row(b0.width) by {
                assert(out@[k] == prev[k]);
                assert(rows_view(prev)[k] == prev[k]@);
                assert(empty_rows(i as nat, b0.width)[k] == empty_row(b0.width));
            }
            assert(out@[prev.len() as int]@ == empty_row(b0.width));
            i = i + 1;
            assert forall|k: int| 0 <= k < i implies rows_view(out@)[k] == empty_rows(i as nat, b0.width)[k] by {
                assert(rows_view(out@)[k] == out@[k]@);
            }
            assert(rows_view(out@) =~= empty_rows(i as nat, b0.width));
        }
        let ghost front = out@;
        let ghost back = kept@;
        out.append(&mut kept);
        assert(rows_view(out@) =~= rows_view(front) + rows_view(back));
        assert(rows_view(out@) =~= clear_full_rows(rows, b0.width));
        proof {
            lemma_cleared_rows_not_full(rows, b0.width);
        }
        self.dead_tiles = out;
        count
    }
    /// Lands the falling piece (see `BoardView::landed`), with `next` as the
    /// kind of the piece that spawns. Does nothing once the game is over.
    pub fn land(&mut self, next: Shape)
        requires
            old(self).wf(),
        ensures
            final(self)@ == if old(self)@.in_progress {
                old(self)@.landed(next)
            } else {
                old(self)@
            },
            final(self).wf(),
    {
        if !self.in_progress {
            return;
        }
        let ghost b0 = self@;
        let cells = self.tetrimino.tiles();
        self.settle_piece();
        let mut lost = false;
        let mut i: usize = 0;
        while i < cells.len()
            invariant
                i <= cells@.len(),
                lost == exists|j: int| 0 <= j < i && #[trigger] int_cells(cells@)[j].1 <= 0,
            decreases cells@.len() - i,
        {
            if cells[i].1 <= 0 {
                assert(int_cells(cells@)[i as int].1 <= 0);
                lost = true;
            }
            i = i + 1;
        }
        assert(lost == topped_out(b0.piece.cells()));
        if lost {
            self.in_progress = false;
        } else {
            let ghost settled = self@.rows;
            let lines = self.clear_lines();
            proof {
                lemma_kept_rows(settled, b0.width);
                assert(lines <= 1000);
                assert(lines * lines <= 1000 * 1000 && lines * lines * (self.score_per_line as u64)
                    <= 1000 * 1000 * 0xffff_ffff) by (nonlinear_arith)
                    requires
                        lines <= 1000,
                        self.score_per_line <= 0xffff_ffffu32,
                ;
            }
            let gained = lines * lines * (self.score_per_line as u64);
            self.score = self.score.saturating_add(gained);
        }
        self.tetrimino = Tetrimino::spawn(next, self.width);
    }

    /// One gravity step (see `BoardView::ticked`), with `next` as the kind of
    /// the piece that spawns if the falling one lands.
    pub fn tick(&mut self, next: Shape)
        requires
            old(self).wf(),
        ensures
            final(self)@ == old(self)@.ticked(next),
            final(self).wf(),
    {
        if !self.in_progress {
            return;
        }
        if self.illegal_position(self.tetrimino.tiles_offset((0, 1))) {
            self.land(next);
        } else {
            proof {
                lemma_free_move_bounds(self@, 0, 1);
            }
            self.tetrimino.y = self.tetrimino.y + 1;
        }
    }

    /// Moves the piece down as far as it goes and lands it (see
    /// `BoardView::hard_dropped`), with `next` as the kind that spawns.
    pub fn hard_drop(&mut self, next: Shape)
        requires
            old(self).wf(),
        ensures
            final(self)@ == old(self)@.hard_dropped(next),
            final(self).wf(),
    {
        if !self.in_progress {
            return;
        }
        let ghost b0 = self@;
        loop
            invariant
                self.wf(),
                b0.wf(),
                b0.in_progress,
                self@ == b0.with_piece(self.tetrimino),
                b0.drop_target(self.tetrimino) == b0.drop_target(b0.piece),
            ensures
                self.wf(),
                self@ == b0.with_piece(self.tetrimino),
                self.tetrimino == b0.drop_target(b0.piece),
            decreases self.height - self.tetrimino.y,
        {
            let below = self.tetrimino.tiles_offset((0, 1));
            if self.illegal_position(below) {
                proof {
                    lemma_blocked_ignores_piece(b0, self.tetrimino, self.tetrimino.cells_at(0, 1));
                    assert(b0.blocked(self.tetrimino.cells_at(0, 1)));
                    assert(b0.drop_target(self.tetrimino) == self.tetrimino);
                }
                break;
            }
            proof {
                lemma_free_move_bounds(self@, 0, 1);
                lemma_blocked_ignores_piece(b0, self.tetrimino, self.tetrimino.cells_at(0, 1));
            }
            self.tetrimino.y = self.tetrimino.y + 1;
        }
        assert(self@ == b0.with_piece(b0.drop_target(b0.piece)));
        self.land(next);
    }

    /// Turns the piece a quarter clockwise where it fits (see
    /// `BoardView::turned`).
    pub fn rotate_tetrimino(&mut self)
        requires
            old(self).wf(),
        ensures
            final(self)@ == old(self)@.turned(),
            final(self).wf(),
    {
        if !self.in_progress {
            return;
        }
        if !self.illegal_position(self.tetrimino.tiles_rotated()) {
            self.tetrimino.rotate();
        }
    }

    /// Shifts the piece `distance` columns where it fits (see
    /// `BoardView::shifted`).
    pub fn move_tetrimino_horizontally(&mut self, distance: i32)
        requires
            old(self).wf(),
        ensures
            final(self)@ == old(self)@.shifted(distance as int),
            final(self).wf(),
    {
        if !self.in_progress {
            return;
        }
        if distance < -POS_LIMIT || distance > POS_LIMIT {
            // so far that the piece would leave the grid sideways
            proof {
                lemma_cells_in_frame(self.tetrimino, distance as int, 0);
                assert(self@.cell_blocked(self@.piece.cells_at(distance as int, 0)[0]));
            }
            return;
        }
        if !self.illegal_position(self.tetrimino.tiles_offset((distance, 0))) {
            proof {
                lemma_free_move_bounds(self@, distance as int, 0);
            }
            self.tetrimino.x = self.tetrimino.x + distance;
        }
    }

    /// Applies command `mov` (see `BoardView::step`), with `next` as the kind
    /// of the piece that spawns if the falling one lands.
    pub fn apply_command(&mut self, mov: Move, next: Shape)
        requires
            old(self).wf(),
        ensures
            final(self)@ == old(self)@.step(mov, next),
            final(self).wf(),
    {
        match mov {
            Move::RotateRight => self.rotate_tetrimino(),
            Move::MoveLeft => self.move_tetrimino_horizontally(-1),
            Move::MoveRight => self.move_tetrimino_horizontally(1),
            Move::SoftDrop => self.tick(next),
            Move::HardDrop => self.hard_drop(next),
        }
    }
    /// Lands the falling piece; the next piece's kind is drawn at random.
    pub fn tetrimino_landed(&mut self)
        requires
            old(self).wf(),
        ensures
            exists|next: Shape|
                final(self)@ == if old(self)@.in_progress {
                    old(self)@.landed(next)
                } else {
                    old(self)@
                },
            final(self).wf(),
    {
        let next = Shape::random();
        self.land(next);
    }

    /// One gravity step; the kind of a piece that spawns is drawn at random.
    pub fn gravity(&mut self)
        requires
            old(self).wf(),
        ensures
            exists|next: Shape| final(self)@ == old(self)@.ticked(next),
            final(self).wf(),
    {
        let next = Shape::random();
        self.tick(next);
    }

    /// Hard drop; the kind of the piece that spawns is drawn at random.
    pub fn drop_tetrimino(&mut self)
        requires
            old(self).wf(),
        ensures
            exists|next: Shape| final(self)@ == old(self)@.hard_dropped(next),
            final(self).wf(),
    {
        let next = Shape::random();
        self.hard_drop(next);
    }

    /// Applies command `mov`; the kind of a piece that spawns is drawn at
    /// random.
    pub fn move_tetrimino(&mut self, mov: Move)
        requires
            old(self).wf(),
        ensures
            exists|next: Shape| final(self)@ == old(self)@.step(mov, next),
            final(self).wf(),
    {
        let next = Shape::random();
        self.apply_command(mov, next);
    }

    /// A fresh game on an empty `width` by `height` grid, scoring
    /// `score_per_line` per cleared row squared, whose first piece is of kind
    /// `first`.
    pub fn new(width: i32, height: i32, score_per_line: u32, first: Shape) -> (r: Board)
        requires
            1 <= width <= MAX_SIDE,
            1 <= height <= MAX_SIDE,
        ensures
            r@ == BoardView::initial(width as int, height as int, score_per_line as nat, first),
            r.wf(),
    {
        let mut rows: Vec<Vec<Option<Shape>>> = Vec::new();
        let mut y: i32 = 0;
        while y < height
            invariant
                0 <= y <= height,
                1 <= width <= MAX_SIDE,
                rows@.len() == y,
                rows_view(rows@) == empty_rows(y as nat, width as int),
            decreases height - y,
        {
            let row = new_empty_row(width);
            let ghost prev = rows@;
            rows.push(row);
            assert forall|k: int| 0 <= k < prev.len() implies rows@[k]@ == empty_row(width as int) by {
                assert(rows@[k] == prev[k]);
                assert(rows_view(prev)[k] == prev[k]@);
                assert(empty_rows(y as nat, width as int)[k] == empty_row(width as int));
            }
            y = y + 1;
            assert forall|k: int| 0 <= k < y implies rows_view(rows@)[k] == empty_rows(y as nat, width as int)[k] by {
                assert(rows_view(rows@)[k] == rows@[k]@);
            }
            assert(rows_view(rows@) =~= empty_rows(y as nat, width as int));
        }
        let r = Board {
            in_progress: true,
            dead_tiles: rows,
            tetrimino: Tetrimino::spawn(first, width),
            score: 0,
            width,
            height,
            score_per_line,
        };
        proof {
            lemma_empty_row_not_full(width as int);
        }
        r
    }

    /// A fresh game on the standard board, with a first piece drawn at random.
    pub fn initial_board() -> (r: Board)
        ensures
            exists|first: Shape|
                r@ == BoardView::initial(
                    BOARD_WIDTH as int,
                    BOARD_HEIGHT as int,
                    SCORE_PER_LINE as nat,
                    first,
                ),
            r.wf(),
    {
        let first = Shape::random();
        Board::new(BOARD_WIDTH, BOARD_HEIGHT, SCORE_PER_LINE, first)
    }

    /// A piece of random kind at its spawn position on a board `width`
    /// columns wide.
    pub fn random_tetrimino(width: i32) -> (r: Tetrimino)
        requires
            0 <= width <= POS_LIMIT,
        ensures
            exists|shape: Shape| r == Tetrimino::spawned(shape, width as int),
            r.inv(),
    {
        Tetrimino::spawn(Shape::random(), width)
    }

    /// Whether the game is still going.
    pub fn in_progress(&self) -> (r: bool)
        ensures
            r == self@.in_progress,
    {
        self.in_progress
    }

    /// The score so far.
    pub fn score(&self) -> (r: u64)
        ensures
            r == self@.score,
    {
        self.score
    }

    /// Number of columns.
    pub fn width(&self) -> (r: i32)
        ensures
            r == self@.width,
    {
        self.width
    }

    /// Number of rows.
    pub fn height(&self) -> (r: i32)
        ensures
            r == self@.height,
    {
        self.height
    }

    /// The falling piece.
    pub fn tetrimino(&self) -> (r: Tetrimino)
        ensures
            r == self@.piece,
    {
        self.tetrimino
    }

    /// The settled cell at column `x` of row `y`; `None` where it is empty or
    /// outside the grid.
    pub fn cell(&self, x: i32, y: i32) -> (r: Option<Shape>)
        requires
            self.wf(),
        ensures
            r == if 0 <= x < self@.width && 0 <= y < self@.height {
                self@.rows[y as int][x as int]
            } else {
                None
            },
    {
        if 0 <= x && x < self.width && 0 <= y && y < self.height {
            assert(self@.rows[y as int] == self.dead_tiles@[y as int]@);
            self.dead_tiles[y as usize][x as usize]
        } else {
            None
        }
    }
}

} // verus!
