use vstd::prelude::*;

use crate::board::{
    add_score, clear_full_rows, empty_row, full_count, kept_rows, lemma_blocked_ignores_piece,
    lemma_cleared_rows_not_full, lemma_free_move_bounds, lemma_kept_rows, row_full, settle,
    topped_out, BoardView, Move, RowView,
};
use crate::shape::Shape;
use crate::tetrimino::{lemma_cells_in_frame, lemma_four_turns, Tetrimino, POS_LIMIT};

verus! {

/// A placement fits exactly when none of its cells is blocked.
pub proof fn lemma_fits_iff_not_blocked(b: BoardView, cells: Seq<(int, int)>)
    ensures
        b.fits(cells) == !b.blocked(cells),
{
    if b.blocked(cells) {
        let i = choose|i: int| 0 <= i < cells.len() && #[trigger] b.cell_blocked(cells[i]);
        assert(!b.fits(cells));
    } else {
        assert forall|i: int| 0 <= i < cells.len() implies {
            let c = #[trigger] cells[i];
            &&& 0 <= c.0 < b.width
            &&& c.1 < b.height
            &&& !(0 <= c.1 && b.rows[c.1][c.0] is Some)
        } by {
            assert(!b.cell_blocked(cells[i]));
        }
    }
}

/// A shift is applied exactly when every cell of the shifted piece is within
/// `[0, width)` by `(-inf, height)` and off the settled cells; otherwise the
/// board is left as it was.
pub proof fn lemma_shift_applied_iff_fits(b: BoardView, dx: int)
    requires
        b.wf(),
        b.in_progress,
        dx != 0,
        -POS_LIMIT <= dx <= POS_LIMIT,
    ensures
        b.shifted(dx) != b <==> b.fits(b.piece.cells_at(dx, 0)),
        b.fits(b.piece.cells_at(dx, 0)) ==> b.shifted(dx) == b.with_piece(
            Tetrimino { x: (b.piece.x + dx) as i32, ..b.piece },
        ),
        !b.fits(b.piece.cells_at(dx, 0)) ==> b.shifted(dx) == b,
{
    lemma_fits_iff_not_blocked(b, b.piece.cells_at(dx, 0));
    if b.fits(b.piece.cells_at(dx, 0)) {
        lemma_free_move_bounds(b, dx, 0);
        assert(b.shifted(dx).piece.x != b.piece.x);
    }
}

/// A turn is applied exactly when every cell of the turned piece is within
/// `[0, width)` by `(-inf, height)` and off the settled cells; otherwise the
/// board is left as it was.
pub proof fn lemma_turn_applied_iff_fits(b: BoardView)
    requires
        b.wf(),
        b.in_progress,
    ensures
        b.turned() != b <==> b.fits(b.piece.rotated().cells()),
        b.fits(b.piece.rotated().cells()) ==> b.turned() == b.with_piece(b.piece.rotated()),
        !b.fits(b.piece.rotated().cells()) ==> b.turned() == b,
{
    lemma_fits_iff_not_blocked(b, b.piece.rotated().cells());
    if b.fits(b.piece.rotated().cells()) {
        assert(b.turned().piece.rotation != b.piece.rotation);
    }
}

/// Four turns in a row, each of them applied, bring the board back to where
/// it started: the piece occupies its starting cells again.
pub proof fn lemma_four_applied_turns_restore(b: BoardView)
    requires
        b.wf(),
        b.in_progress,
        b.turned() != b,
        b.turned().turned() != b.turned(),
        b.turned().turned().turned() != b.turned().turned(),
        b.turned().turned().turned().turned() != b.turned().turned().turned(),
    ensures
        b.turned().turned().turned().turned() == b,
        b.turned().turned().turned().turned().piece.cells() == b.piece.cells(),
{
    lemma_four_turns(b.piece);
    let b1 = b.turned();
    let b2 = b1.turned();
    let b3 = b2.turned();
    assert(b1 == b.with_piece(b.piece.rotated()));
    assert(b2 == b1.with_piece(b1.piece.rotated()));
    assert(b3 == b2.with_piece(b2.piece.rotated()));
    assert(b3.turned() == b3.with_piece(b3.piece.rotated()));
}

/// Where a piece comes to rest does not depend on which piece the board holds.
proof fn lemma_drop_target_ignores_piece(b: BoardView, p: Tetrimino, t: Tetrimino)
    ensures
        b.with_piece(p).drop_target(t) == b.drop_target(t),
    decreases b.height - t.y,
{
    lemma_blocked_ignores_piece(b, p, t.cells_at(0, 1));
    if !(t.y >= b.height || t.y >= POS_LIMIT || b.blocked(t.cells_at(0, 1))) {
        lemma_drop_target_ignores_piece(b, p, Tetrimino { y: (t.y + 1) as i32, ..t });
    }
}

/// A hard drop ends where as many gravity steps as the drop distance take the
/// piece, and equals one more gravity step after that, which lands it.
pub proof fn lemma_hard_drop_is_ticks(b: BoardView, next: Shape)
    requires
        b.wf(),
        b.in_progress,
    ensures
        b.drop_target(b.piece).y >= b.piece.y,
        b.ticks(next, (b.drop_target(b.piece).y - b.piece.y) as nat) == b.with_piece(
            b.drop_target(b.piece),
        ),
        b.ticks(next, (b.drop_target(b.piece).y - b.piece.y + 1) as nat) == b.hard_dropped(next),
    decreases b.height - b.piece.y,
{
    if b.blocked(b.piece.cells_at(0, 1)) {
        assert(b.drop_target(b.piece) == b.piece);
        assert(b.with_piece(b.piece) == b);
        assert(b.ticks(next, 0) == b);
        assert(b.ticks(next, 1) == b.ticked(next).ticks(next, 0));
    } else {
        lemma_free_move_bounds(b, 0, 1);
        let down = Tetrimino { y: (b.piece.y + 1) as i32, ..b.piece };
        let b1 = b.ticked(next);
        assert(b1 == b.with_piece(down));
        assert(b.drop_target(b.piece) == b.drop_target(down));
        lemma_drop_target_ignores_piece(b, down, down);
        lemma_hard_drop_is_ticks(b1, next);
        let d = b.drop_target(b.piece).y - b.piece.y;
        assert(b.ticks(next, d as nat) == b1.ticks(next, (d - 1) as nat));
        assert(b.ticks(next, (d + 1) as nat) == b1.ticks(next, d as nat));
        assert(b1.with_piece(b.drop_target(b.piece)) == b.with_piece(b.drop_target(b.piece)));
    }
}

/// Soft drops are gravity steps.
pub proof fn lemma_soft_drops_are_ticks(b: BoardView, next: Shape, n: nat)
    ensures
        b.soft_drops(next, n) == b.ticks(next, n),
    decreases n,
{
    if n > 0 {
        lemma_soft_drops_are_ticks(b.ticked(next), next, (n - 1) as nat);
    }
}

/// A hard drop rests the piece where soft drops, repeated until it lands,
/// would: as many soft drops as the drop distance, and one more to land.
pub proof fn lemma_hard_drop_is_soft_drops(b: BoardView, next: Shape)
    requires
        b.wf(),
        b.in_progress,
    ensures
        b.soft_drops(next, (b.drop_target(b.piece).y - b.piece.y) as nat) == b.with_piece(
            b.drop_target(b.piece),
        ),
        b.soft_drops(next, (b.drop_target(b.piece).y - b.piece.y + 1) as nat) == b.hard_dropped(
            next,
        ),
{
    lemma_hard_drop_is_ticks(b, next);
    lemma_soft_drops_are_ticks(b, next, (b.drop_target(b.piece).y - b.piece.y) as nat);
    lemma_soft_drops_are_ticks(b, next, (b.drop_target(b.piece).y - b.piece.y + 1) as nat);
}

/// Keeping and counting rows distribute over concatenation.
proof fn lemma_rows_concat(s: Seq<RowView>, t: Seq<RowView>)
    ensures
        kept_rows(s + t) == kept_rows(s) + kept_rows(t),
        full_count(s + t) == full_count(s) + full_count(t),
    decreases t.len(),
{
    if t.len() == 0 {
        assert(s + t =~= s);
        assert(kept_rows(s) + kept_rows(t) =~= kept_rows(s));
    } else {
        assert((s + t).drop_last() =~= s + t.drop_last());
        assert((s + t).last() == t.last());
        lemma_rows_concat(s, t.drop_last());
        let tail = if row_full(t.last()) {
            Seq::<RowView>::empty()
        } else {
            seq![t.last()]
        };
        assert(kept_rows(s) + kept_rows(t.drop_last()) + tail =~= kept_rows(s) + (kept_rows(
            t.drop_last(),
        ) + tail));
    }
}

/// Rows none of which is full are all kept.
proof fn lemma_no_full_rows(s: Seq<RowView>)
    requires
        forall|y: int| 0 <= y < s.len() ==> !row_full(#[trigger] s[y]),
    ensures
        kept_rows(s) == s,
        full_count(s) == 0,
    decreases s.len(),
{
    if s.len() > 0 {
        let init = s.drop_last();
        assert forall|y: int| 0 <= y < init.len() implies !row_full(#[trigger] init[y]) by {
            assert(init[y] == s[y]);
        }
        lemma_no_full_rows(init);
        assert(!row_full(s[s.len() - 1]));
        assert(init + seq![s.last()] =~= s);
    }
}

/// Clearing a grid whose full rows all lie in rows `top..=bottom`: the
/// cleared rows come out, the `k` rows on top are empty, every row above
/// `top` moves down by exactly `k`, and every row below `bottom` stays, where
/// `k` is the number of full rows, at most `bottom - top + 1`. No full row is
/// left.
pub proof fn lemma_clear_shifts_rows(rows: Seq<RowView>, width: int, top: int, bottom: int)
    requires
        1 <= width,
        forall|y: int| 0 <= y < rows.len() ==> (#[trigger] rows[y]).len() == width,
        0 <= top <= bottom + 1,
        bottom < rows.len(),
        forall|y: int| 0 <= y < rows.len() && row_full(#[trigger] rows[y]) ==> top <= y <= bottom,
    ensures
        clear_full_rows(rows, width).len() == rows.len(),
        full_count(rows) <= bottom - top + 1,
        forall|y: int|
            0 <= y < full_count(rows) ==> #[trigger] clear_full_rows(rows, width)[y] == empty_row(
                width,
            ),
        forall|y: int| 0 <= y < rows.len() ==> !row_full(#[trigger] clear_full_rows(rows, width)[y]),
        forall|y: int|
            0 <= y < top ==> #[trigger] clear_full_rows(rows, width)[y + full_count(rows)] == rows[y],
        forall|y: int| bottom < y < rows.len() ==> #[trigger] clear_full_rows(rows, width)[y] == rows[y],
{
    let a = rows.subrange(0, top);
    let m = rows.subrange(top, bottom + 1);
    let c = rows.subrange(bottom + 1, rows.len() as int);
    assert(rows =~= a + m + c);
    assert forall|y: int| 0 <= y < a.len() implies !row_full(#[trigger] a[y]) by {
        assert(a[y] == rows[y]);
    }
    assert forall|y: int| 0 <= y < c.len() implies !row_full(#[trigger] c[y]) by {
        assert(c[y] == rows[y + bottom + 1]);
    }
    assert forall|y: int| 0 <= y < m.len() implies (#[trigger] m[y]).len() == width by {
        assert(m[y] == rows[y + top]);
    }
    lemma_no_full_rows(a);
    lemma_no_full_rows(c);
    lemma_rows_concat(a + m, c);
    lemma_rows_concat(a, m);
    lemma_kept_rows(m, width);
    lemma_kept_rows(rows, width);
    lemma_cleared_rows_not_full(rows, width);
    let k = full_count(rows);
    let r = clear_full_rows(rows, width);
    assert(k == full_count(m));
    assert(kept_rows(rows) == a + kept_rows(m) + c);
    assert forall|y: int| 0 <= y < top implies #[trigger] r[y + k] == rows[y] by {
        assert(r[y + k] == kept_rows(rows)[y]);
        assert(a[y] == rows[y]);
    }
    assert forall|y: int| bottom < y < rows.len() implies #[trigger] r[y] == rows[y] by {
        assert(r[y] == kept_rows(rows)[y - k]);
        assert(c[y - bottom - 1] == rows[y]);
    }
}

/// While the game is in progress, the rows that a landing fills all lie
/// within the four rows of the piece's frame, so at most four are cleared at
/// once.
pub proof fn lemma_full_rows_in_piece_frame(b: BoardView)
    requires
        b.wf(),
        b.in_progress,
    ensures
        forall|y: int|
            0 <= y < b.height && row_full(
                #[trigger] settle(b.rows, b.piece.cells(), b.piece.shape)[y],
            ) ==> b.piece.y <= y <= b.piece.y + 3,
        full_count(settle(b.rows, b.piece.cells(), b.piece.shape)) <= 4,
{
    let cells = b.piece.cells();
    let s = settle(b.rows, cells, b.piece.shape);
    lemma_cells_in_frame(b.piece, 0, 0);
    assert forall|y: int| 0 <= y < b.height && row_full(#[trigger] s[y]) implies b.piece.y <= y
        <= b.piece.y + 3 by {
        assert(!row_full(b.rows[y]));
        let x = choose|x: int| 0 <= x < b.rows[y].len() && !(#[trigger] b.rows[y][x] is Some);
        assert(s[y][x] is Some);
        assert(cells.contains((x, y)));
        let i = choose|i: int| 0 <= i < cells.len() && cells[i] == (x, y);
        assert(cells[i] == b.piece.cells_at(0, 0)[i]);
    }
    assert forall|y: int| 0 <= y < s.len() implies (#[trigger] s[y]).len() == b.width by {
        assert(s[y].len() == b.rows[y].len());
    }
    let bottom = if b.piece.y + 3 < b.height {
        b.piece.y + 3
    } else {
        b.height - 1
    };
    lemma_clear_shifts_rows(s, b.width, b.piece.y as int, bottom);
}

/// Landing without reaching the top, while in progress: the filled rows are
/// removed, at most four, the rows above the piece's frame move down by
/// exactly that number, the rows below it stay, the top rows are emptied, and
/// the score grows by `lines * lines * score_per_line` (saturating).
pub proof fn lemma_landing_clears_full_rows(b: BoardView, next: Shape)
    requires
        b.wf(),
        b.in_progress,
        !topped_out(b.piece.cells()),
    ensures
        ({
            let s = settle(b.rows, b.piece.cells(), b.piece.shape);
            let k = full_count(s);
            let after = b.landed(next);
            &&& after.in_progress
            &&& k <= 4
            &&& after.score == add_score(b.score, k, b.score_per_line)
            &&& after.rows.len() == b.height
            &&& forall|y: int| 0 <= y < k ==> #[trigger] after.rows[y] == empty_row(b.width)
            &&& forall|y: int| 0 <= y < b.piece.y ==> #[trigger] after.rows[y + k] == s[y]
            &&& forall|y: int| b.piece.y + 3 < y < b.height ==> #[trigger] after.rows[y] == s[y]
            &&& forall|y: int| 0 <= y < b.height ==> !row_full(#[trigger] after.rows[y])
        }),
{
    let s = settle(b.rows, b.piece.cells(), b.piece.shape);
    lemma_full_rows_in_piece_frame(b);
    assert forall|y: int| 0 <= y < s.len() implies (#[trigger] s[y]).len() == b.width by {
        assert(s[y].len() == b.rows[y].len());
    }
    let bottom = if b.piece.y + 3 < b.height {
        b.piece.y + 3
    } else {
        b.height - 1
    };
    lemma_clear_shifts_rows(s, b.width, b.piece.y as int, bottom);
}

/// Once the game is over, no command and no gravity step changes the board,
/// in any number and order.
pub proof fn lemma_game_over_is_final(b: BoardView, inputs: Seq<(Option<Move>, Shape)>)
    requires
        !b.in_progress,
    ensures
        b.play(inputs) == b,
        forall|mov: Move, next: Shape| #[trigger] b.step(mov, next) == b,
        forall|next: Shape| #[trigger] b.ticked(next) == b,
    decreases inputs.len(),
{
    assert forall|mov: Move, next: Shape| #[trigger] b.step(mov, next) == b by {
        match mov {
            Move::RotateRight => {},
            Move::MoveLeft => {},
            Move::MoveRight => {},
            Move::SoftDrop => {},
            Move::HardDrop => {},
        }
    }
    if inputs.len() > 0 {
        lemma_game_over_is_final(b, inputs.drop_first());
    }
}

/// Landing a piece with a cell on the top row or above ends the game, and
/// nothing changes the board after that.
pub proof fn lemma_top_out_ends_game(b: BoardView, next: Shape, inputs: Seq<(Option<Move>, Shape)>)
    requires
        b.in_progress,
        topped_out(b.piece.cells()),
    ensures
        !b.landed(next).in_progress,
        b.landed(next).play(inputs) == b.landed(next),
{
    lemma_game_over_is_final(b.landed(next), inputs);
}

} // verus!
