//! The grid of flowers that one frame draws.

use vstd::prelude::*;
use crate::canvas::{
    lemma_bracket_unwinds, lemma_own_saves_concat, lemma_own_saves_push, lemma_own_saves_without,
    lemma_run_concat, lemma_run_push, lemma_traced_concat, lemma_traced_push, open_saves,
    restores_own_saves, run, traced, unwound, Canvas, DrawOp,
};
use crate::motif::{
    flower, flower_ops, hexagon_triangles, lemma_flower_own_saves, lemma_flower_restores_state,
    lemma_flower_traces_hexagon,
};
use crate::transform::{lemma_translate_back, lemma_translate_twice, SurfaceState, Vector};

verus! {

/// A flower about the point one edge right of and one height below the
/// origin: move to the pivot, draw the flower, move back.
pub open spec fn placed_flower_ops() -> Seq<DrawOp> {
    seq![DrawOp::Translate { dx: 2, dy: 1 }] + flower_ops() + seq![
        DrawOp::Translate { dx: -2i64, dy: -1i64 },
    ]
}

/// One grid cell: a placed flower, a second one an edge and a half to the right and
/// one height down, and a move to the next cell, three edges to the right of
/// this one.
pub open spec fn cell_ops() -> Seq<DrawOp> {
    placed_flower_ops() + seq![DrawOp::Translate { dx: 3, dy: 1 }] + placed_flower_ops() + seq![
        DrawOp::Translate { dx: 3, dy: -1i64 },
    ]
}

/// `cells` grid cells, left to right.
pub open spec fn cells_ops(cells: nat) -> Seq<DrawOp>
    decreases cells,
{
    if cells == 0 {
        Seq::empty()
    } else {
        cells_ops((cells - 1) as nat) + cell_ops()
    }
}

/// The move that ends a row of a grid of `count` columns: `count * (count + 1)`
/// edges to the left and two heights down.
pub open spec fn row_return(count: nat) -> DrawOp {
    DrawOp::Translate { dx: (-2 * count * (count + 1)) as i64, dy: 2 }
}

/// One row of a grid of `count` columns.
pub open spec fn row_ops(count: nat) -> Seq<DrawOp> {
    cells_ops(count).push(row_return(count))
}

/// `rows` rows of a grid of `count` columns, top to bottom.
pub open spec fn rows_ops(rows: nat, count: nat) -> Seq<DrawOp>
    decreases rows,
{
    if rows == 0 {
        Seq::empty()
    } else {
        rows_ops((rows - 1) as nat, count) + row_ops(count)
    }
}

/// The side of the grid that `count` asks for: a count below one asks for no
/// cell at all.
pub open spec fn grid_side(count: int) -> nat {
    if count < 0 {
        0
    } else {
        count as nat
    }
}

/// A grid of `count` by `count` cells, bracketed by a save and a restore.
pub open spec fn col_ops(count: int) -> Seq<DrawOp> {
    seq![DrawOp::Save] + rows_ops(grid_side(count), grid_side(count)) + seq![DrawOp::Restore]
}

/// Draws a flower about the point one edge right of and one height below the
/// origin. Records exactly [`placed_flower_ops`]; the two moves cancel, so the
/// transform state on return is the one on entry.
pub fn placed_flower(ctx: &mut Canvas)
    requires
        old(ctx).wf(),
    ensures
        final(ctx).wf(),
        final(ctx).extends(old(ctx), placed_flower_ops()),
        final(ctx).state() == old(ctx).state(),
{
    ctx.translate(2, 1);
    flower(ctx);
    ctx.translate(-2, -1);
    proof {
        assert(ctx.pending() =~= old(ctx).pending() + placed_flower_ops());
        ctx.lemma_state_after(old(ctx), placed_flower_ops());
        lemma_placed_flower_restores_state(old(ctx).state());
    }
}

/// Draws a grid of `count` by `count` cells of two flowers each, rows two
/// heights apart. Records exactly [`col_ops`]. The grid is bracketed by a save
/// and a restore, so the transform state on return is the one on entry.
pub fn col(ctx: &mut Canvas, count: i32)
    requires
        old(ctx).wf(),
    ensures
        final(ctx).wf(),
        final(ctx).extends(old(ctx), col_ops(count as int)),
        final(ctx).state() == old(ctx).state(),
{
    let ghost side = grid_side(count as int);
    ctx.save();
    let mut y: i32 = 0;
    while y < count
        invariant
            0 <= y,
            y <= side,
            side == grid_side(count as int),
            ctx.wf(),
            ctx.extends(old(ctx), seq![DrawOp::Save] + rows_ops(y as nat, side)),
        decreases count - y,
    {
        let ghost row_start = ctx.pending();
        let mut x: i32 = 0;
        while x < count
            invariant
                0 <= x <= count,
                ctx.wf(),
                ctx.same_surface(old(ctx)),
                ctx.pending() == row_start + cells_ops(x as nat),
            decreases count - x,
        {
            placed_flower(ctx);
            ctx.translate(3, 1);
            placed_flower(ctx);
            ctx.translate(3, -1);
            x += 1;
            proof {
                assert(ctx.pending() =~= row_start + cells_ops(x as nat));
            }
        }
        let c: i64 = count as i64;
        assert(i64::MIN <= -2 * c * (c + 1) && 0 <= c * (c + 1) <= i64::MAX && -2 * c * (c + 1)
            == -2 * (c * (c + 1))) by (nonlinear_arith)
            requires
                0 < c <= i32::MAX,
        ;
        ctx.translate(-2 * (c * (c + 1)), 2);
        y += 1;
        proof {
            assert(ctx.pending() =~= old(ctx).pending() + (seq![DrawOp::Save] + rows_ops(
                y as nat,
                side,
            )));
        }
    }
    ctx.restore();
    proof {
        assert(ctx.pending() =~= old(ctx).pending() + col_ops(count as int));
        ctx.lemma_state_after(old(ctx), col_ops(count as int));
        lemma_col_restores_state(old(ctx).state(), count as int);
    }
}

/// A placed flower leaves the transform state as it found it.
pub proof fn lemma_placed_flower_restores_state(s: SurfaceState)
    requires
        0 <= s.current.turns < 6,
    ensures
        run(s, placed_flower_ops()) == s,
{
    let pivot = Vector::of_steps(2, 1);
    let to_pivot = seq![DrawOp::Translate { dx: 2, dy: 1 }];
    let back = DrawOp::Translate { dx: -2i64, dy: -1i64 };
    lemma_run_push(s, Seq::empty(), DrawOp::Translate { dx: 2, dy: 1 });
    assert(Seq::<DrawOp>::empty().push(DrawOp::Translate { dx: 2, dy: 1 }) =~= to_pivot);
    lemma_run_concat(s, to_pivot, flower_ops());
    lemma_flower_restores_state(s.translate(pivot));
    assert(placed_flower_ops() =~= (to_pivot + flower_ops()).push(back));
    lemma_run_push(s, to_pivot + flower_ops(), back);
    assert(Vector::of_steps(-2, -1) == pivot.negated());
    lemma_translate_back(s.current, pivot);
}

/// A placed flower traces the hexagon about the point one edge right of and
/// one height below the origin.
pub proof fn lemma_placed_flower_traces_hexagon(s: SurfaceState)
    requires
        0 <= s.current.turns < 6,
    ensures
        traced(s, placed_flower_ops()) == flower_hexagon(s),
{
    let to_pivot = seq![DrawOp::Translate { dx: 2, dy: 1 }];
    let back = DrawOp::Translate { dx: -2i64, dy: -1i64 };
    let at_pivot = s.translate(Vector::of_steps(2, 1));
    assert(to_pivot =~= Seq::<DrawOp>::empty().push(DrawOp::Translate { dx: 2, dy: 1 }));
    lemma_run_push(s, Seq::empty(), DrawOp::Translate { dx: 2, dy: 1 });
    lemma_traced_push(s, Seq::empty(), DrawOp::Translate { dx: 2, dy: 1 });
    lemma_traced_concat(s, to_pivot, flower_ops());
    lemma_flower_traces_hexagon(at_pivot);
    assert(placed_flower_ops() =~= (to_pivot + flower_ops()).push(back));
    lemma_traced_push(s, to_pivot + flower_ops(), back);
    assert(Seq::<Vector>::empty() + traced(at_pivot, flower_ops()) =~= traced(
        at_pivot,
        flower_ops(),
    ));
}

/// A placed flower restores only its own saves, and leaves none open.
pub proof fn lemma_placed_flower_own_saves()
    ensures
        restores_own_saves(placed_flower_ops()),
        open_saves(placed_flower_ops()) == 0,
{
    let to_pivot = seq![DrawOp::Translate { dx: 2, dy: 1 }];
    let back = seq![DrawOp::Translate { dx: -2i64, dy: -1i64 }];
    lemma_own_saves_without(to_pivot);
    lemma_own_saves_without(back);
    lemma_flower_own_saves();
    lemma_own_saves_concat(to_pivot, flower_ops());
    lemma_own_saves_concat(to_pivot + flower_ops(), back);
}

/// The state `s` with its origin moved by `dx` half edges and `dy` heights.
pub open spec fn moved(s: SurfaceState, dx: int, dy: int) -> SurfaceState {
    s.translate(Vector::of_steps(dx, dy))
}

/// Moving twice is moving by the sum.
pub proof fn lemma_moved_twice(s: SurfaceState, dx: int, dy: int, ex: int, ey: int)
    requires
        0 <= s.current.turns < 6,
    ensures
        moved(moved(s, dx, dy), ex, ey) == moved(s, dx + ex, dy + ey),
{
    lemma_translate_twice(s.current, Vector::of_steps(dx, dy), Vector::of_steps(ex, ey));
}

/// A cell moves the origin three edges to the right and changes nothing else.
pub proof fn lemma_cell_moves(s: SurfaceState)
    requires
        0 <= s.current.turns < 6,
    ensures
        run(s, cell_ops()) == moved(s, 6, 0),
{
    let down = DrawOp::Translate { dx: 3, dy: 1 };
    let up = DrawOp::Translate { dx: 3, dy: -1i64 };
    assert(cell_ops() =~= ((placed_flower_ops().push(down)) + placed_flower_ops()).push(up));
    lemma_placed_flower_restores_state(s);
    lemma_run_push(s, placed_flower_ops(), down);
    lemma_run_concat(s, placed_flower_ops().push(down), placed_flower_ops());
    lemma_placed_flower_restores_state(moved(s, 3, 1));
    lemma_run_push(s, placed_flower_ops().push(down) + placed_flower_ops(), up);
    lemma_moved_twice(s, 3, 1, 3, -1);
}

/// `cells` cells move the origin `3 * cells` edges to the right.
pub proof fn lemma_cells_move(s: SurfaceState, cells: nat)
    requires
        0 <= s.current.turns < 6,
    ensures
        run(s, cells_ops(cells)) == moved(s, 6 * (cells as int), 0),
    decreases cells,
{
    if cells == 0 {
        lemma_translate_back(s.current, Vector::of_steps(0, 0));
        assert(Vector::of_steps(0, 0).negated() == Vector::of_steps(0, 0));
    } else {
        lemma_cells_move(s, (cells - 1) as nat);
        lemma_run_concat(s, cells_ops((cells - 1) as nat), cell_ops());
        lemma_cell_moves(moved(s, 6 * (cells - 1), 0));
        lemma_moved_twice(s, 6 * (cells - 1), 0, 6, 0);
    }
}

/// Where a row leaves the origin. Its cells take it `3 * count` edges to the
/// right and its closing move `count * (count + 1)` edges back, so the next row
/// starts two heights down and `count * (2 - count)` edges to the right of
/// this one: straight below for a grid of two columns, and only for that among
/// the grids that have a column.
pub proof fn lemma_row_moves(s: SurfaceState, count: nat)
    requires
        0 <= s.current.turns < 6,
        count <= i32::MAX,
    ensures
        run(s, row_ops(count)) == moved(s, 2 * count * (2 - count), 2),
        count == 2 ==> run(s, row_ops(count)) == moved(s, 0, 2),
        count > 0 && count != 2 ==> 2 * count * (2 - count) != 0,
{
    let back: int = -2 * count * (count + 1);
    assert(i64::MIN <= back <= 0) by (nonlinear_arith)
        requires
            0 <= count <= i32::MAX,
            back == -2 * count * (count + 1),
    ;
    lemma_cells_move(s, count);
    lemma_run_push(s, cells_ops(count), row_return(count));
    lemma_moved_twice(s, 6 * (count as int), 0, back, 2);
    assert(6 * count + back == 2 * count * (2 - count)) by (nonlinear_arith)
        requires
            back == -2 * count * (count + 1),
    ;
    assert(count > 0 && count != 2 ==> 2 * count * (2 - count) != 0) by (nonlinear_arith);
    assert(count == 2 ==> 2 * count * (2 - count) == 0) by (nonlinear_arith);
}

/// `rows` rows leave the origin `2 * rows` heights down and `rows * count *
/// (2 - count)` edges to the right.
pub proof fn lemma_rows_move(s: SurfaceState, rows: nat, count: nat)
    requires
        0 <= s.current.turns < 6,
        count <= i32::MAX,
    ensures
        run(s, rows_ops(rows, count)) == moved(
            s,
            rows * (2 * count * (2 - count)),
            2 * (rows as int),
        ),
    decreases rows,
{
    let drift = 2 * count * (2 - count);
    if rows == 0 {
        lemma_translate_back(s.current, Vector::of_steps(0, 0));
        assert(Vector::of_steps(0, 0).negated() == Vector::of_steps(0, 0));
        assert(rows * drift == 0) by (nonlinear_arith)
            requires
                rows == 0,
        ;
    } else {
        let before = (rows - 1) as nat;
        lemma_rows_move(s, before, count);
        lemma_run_concat(s, rows_ops(before, count), row_ops(count));
        lemma_row_moves(moved(s, before * drift, 2 * (before as int)), count);
        lemma_moved_twice(s, before * drift, 2 * (before as int), drift, 2);
        assert(before * drift + drift == rows * drift) by (nonlinear_arith)
            requires
                before == rows - 1,
        ;
    }
}

/// Rows and cells leave the stack of saved transforms alone and keep the
/// rotation where it was.
pub proof fn lemma_rows_keep_stack(s: SurfaceState, rows: nat, count: nat)
    requires
        0 <= s.current.turns < 6,
        count <= i32::MAX,
    ensures
        run(s, rows_ops(rows, count)).saved == s.saved,
        run(s, rows_ops(rows, count)).current.turns == s.current.turns,
{
    lemma_rows_move(s, rows, count);
}

/// The grid leaves the transform state as it found it, whatever its size.
pub proof fn lemma_col_restores_state(s: SurfaceState, count: int)
    requires
        0 <= s.current.turns < 6,
        count <= i32::MAX,
    ensures
        run(s, col_ops(count)) == s,
{
    let side = grid_side(count);
    let rows = rows_ops(side, side);
    assert(seq![DrawOp::Save] =~= Seq::<DrawOp>::empty().push(DrawOp::Save));
    lemma_run_push(s, Seq::empty(), DrawOp::Save);
    lemma_run_concat(s, seq![DrawOp::Save], rows);
    lemma_rows_keep_stack(s.save(), side, side);
    assert(col_ops(count) =~= (seq![DrawOp::Save] + rows).push(DrawOp::Restore));
    lemma_run_push(s, seq![DrawOp::Save] + rows, DrawOp::Restore);
    assert(s.save().saved.drop_last() =~= s.saved);
}

/// The hexagon of the placed flower drawn from state `s`.
pub open spec fn flower_hexagon(s: SurfaceState) -> Seq<Vector> {
    hexagon_triangles(s.current.apply(Vector::of_steps(2, 1)), s.current.turns, 6)
}

/// The two hexagons of the cell drawn from state `s`: one about the point an
/// edge right of and a height below the origin, one an edge and a half
/// further right and a height further down.
pub open spec fn cell_hexagons(s: SurfaceState) -> Seq<Vector> {
    flower_hexagon(s) + flower_hexagon(moved(s, 3, 1))
}

/// The hexagons of `cells` cells drawn from state `s`, each cell three edges
/// to the right of the one before.
pub open spec fn cells_hexagons(s: SurfaceState, cells: nat) -> Seq<Vector>
    decreases cells,
{
    if cells == 0 {
        Seq::empty()
    } else {
        cells_hexagons(s, (cells - 1) as nat) + cell_hexagons(moved(s, 6 * (cells - 1), 0))
    }
}

/// The hexagons of `rows` rows of `count` cells drawn from state `s`, each
/// row two heights below and `count * (2 - count)` edges to the right of the
/// one before.
pub open spec fn rows_hexagons(s: SurfaceState, rows: nat, count: nat) -> Seq<Vector>
    decreases rows,
{
    if rows == 0 {
        Seq::empty()
    } else {
        rows_hexagons(s, (rows - 1) as nat, count) + cells_hexagons(
            moved(s, (rows - 1) * (2 * count * (2 - count)), 2 * (rows - 1)),
            count,
        )
    }
}

/// The state from which the flower `j` of the cell in column `x` of row `y`
/// is placed, in a grid of two columns drawn from state `s`.
pub open spec fn flower_state(s: SurfaceState, x: int, y: int, j: int) -> SurfaceState {
    let row = moved(s, y * (2 * 2 * (2 - 2)), 2 * y);
    let cell = moved(row, 6 * x, 0);
    if j == 0 {
        cell
    } else {
        moved(cell, 3, 1)
    }
}

/// The hexagons of a grid of two by two cells, one by one: those of its
/// eight flowers, row by row, cell by cell.
pub proof fn lemma_grid_of_two_hexagons(s: SurfaceState)
    ensures
        rows_hexagons(s, 2, 2) == flower_hexagon(flower_state(s, 0, 0, 0)) + flower_hexagon(
            flower_state(s, 0, 0, 1),
        ) + flower_hexagon(flower_state(s, 1, 0, 0)) + flower_hexagon(flower_state(s, 1, 0, 1))
            + flower_hexagon(flower_state(s, 0, 1, 0)) + flower_hexagon(flower_state(s, 0, 1, 1))
            + flower_hexagon(flower_state(s, 1, 1, 0)) + flower_hexagon(flower_state(s, 1, 1, 1)),
{
    reveal_with_fuel(rows_hexagons, 3);
    reveal_with_fuel(cells_hexagons, 3);
    let first = moved(s, 0int * (2 * 2 * (2 - 2)), 2 * 0int);
    let second = moved(s, 1int * (2 * 2 * (2 - 2)), 2 * 1int);
    assert(rows_hexagons(s, 2, 2) =~= cells_hexagons(first, 2) + cells_hexagons(second, 2));
    assert(cells_hexagons(first, 2) =~= cell_hexagons(moved(first, 6 * 0int, 0)) + cell_hexagons(
        moved(first, 6 * 1int, 0),
    ));
    assert(cells_hexagons(second, 2) =~= cell_hexagons(moved(second, 6 * 0int, 0)) + cell_hexagons(
        moved(second, 6 * 1int, 0),
    ));
    assert(rows_hexagons(s, 2, 2) =~= flower_hexagon(flower_state(s, 0, 0, 0)) + flower_hexagon(
        flower_state(s, 0, 0, 1),
    ) + flower_hexagon(flower_state(s, 1, 0, 0)) + flower_hexagon(flower_state(s, 1, 0, 1))
        + flower_hexagon(flower_state(s, 0, 1, 0)) + flower_hexagon(flower_state(s, 0, 1, 1))
        + flower_hexagon(flower_state(s, 1, 1, 0)) + flower_hexagon(flower_state(s, 1, 1, 1)));
}

/// Where the flowers of a grid of two columns have their pivots, if the grid
/// is drawn without rotation: flower `j` of the cell in column `x` of row `y`
/// is centred `d + 3 * d * x + 1.5 * d * j` right of and `h + 2 * h * y + h *
/// j` below the origin.
pub proof fn lemma_flower_pivot(s: SurfaceState, x: int, y: int, j: int)
    requires
        s.current.turns == 0,
        0 <= j <= 1,
    ensures
        flower_state(s, x, y, j).current.turns == 0,
        flower_state(s, x, y, j).current.apply(Vector::of_steps(2, 1)) == (Vector {
            x: s.current.origin.x + 4 + 12 * x + 6 * j,
            y: s.current.origin.y + 2 + 4 * y + 2 * j,
        }),
{
    reveal_with_fuel(Vector::turned_by, 1);
    assert(y * (2 * 2 * (2 - 2)) == 0) by (nonlinear_arith);
}

/// A cell traces its two hexagons.
pub proof fn lemma_cell_traces_hexagons(s: SurfaceState)
    requires
        0 <= s.current.turns < 6,
    ensures
        traced(s, cell_ops()) == cell_hexagons(s),
{
    let down = DrawOp::Translate { dx: 3, dy: 1 };
    let up = DrawOp::Translate { dx: 3, dy: -1i64 };
    let first = placed_flower_ops().push(down);
    assert(cell_ops() =~= (first + placed_flower_ops()).push(up));
    lemma_placed_flower_restores_state(s);
    lemma_placed_flower_traces_hexagon(s);
    lemma_run_push(s, placed_flower_ops(), down);
    lemma_traced_push(s, placed_flower_ops(), down);
    lemma_traced_concat(s, first, placed_flower_ops());
    lemma_placed_flower_traces_hexagon(moved(s, 3, 1));
    lemma_traced_push(s, first + placed_flower_ops(), up);
}

/// Cells trace their hexagons, cell by cell.
pub proof fn lemma_cells_trace_hexagons(s: SurfaceState, cells: nat)
    requires
        0 <= s.current.turns < 6,
    ensures
        traced(s, cells_ops(cells)) == cells_hexagons(s, cells),
    decreases cells,
{
    if cells > 0 {
        let before = (cells - 1) as nat;
        lemma_cells_trace_hexagons(s, before);
        lemma_cells_move(s, before);
        lemma_traced_concat(s, cells_ops(before), cell_ops());
        lemma_cell_traces_hexagons(moved(s, 6 * (before as int), 0));
    }
}

/// Rows trace their hexagons, row by row.
pub proof fn lemma_rows_trace_hexagons(s: SurfaceState, rows: nat, count: nat)
    requires
        0 <= s.current.turns < 6,
        count <= i32::MAX,
    ensures
        traced(s, rows_ops(rows, count)) == rows_hexagons(s, rows, count),
    decreases rows,
{
    if rows > 0 {
        let before = (rows - 1) as nat;
        let start = moved(s, before * (2 * count * (2 - count)), 2 * (before as int));
        lemma_rows_trace_hexagons(s, before, count);
        lemma_rows_move(s, before, count);
        lemma_traced_concat(s, rows_ops(before, count), row_ops(count));
        lemma_cells_trace_hexagons(start, count);
        lemma_traced_push(start, cells_ops(count), row_return(count));
    }
}

/// What a grid draws: the paths it traces are the hexagons of its rows and
/// nothing else. In a grid of two columns row `y` holds the hexagons about
/// the points `(d + 3 * d * x, h + 2 * h * y)` and `(2.5 * d + 3 * d * x,
/// 2 * h + 2 * h * y)` from the origin, for `x` from zero on: the hexagons of
/// a honeycomb, which repeats every `3 * d` across and every `2 * h` down.
pub proof fn lemma_col_traces_hexagons(s: SurfaceState, count: int)
    requires
        0 <= s.current.turns < 6,
        count <= i32::MAX,
    ensures
        traced(s, col_ops(count)) == rows_hexagons(s.save(), grid_side(count), grid_side(count)),
        count == 2 ==> forall|y: nat| #[trigger]
            rows_hexagons(s.save(), y + 1, 2) == rows_hexagons(s.save(), y, 2) + cells_hexagons(
                moved(s.save(), 0, 2 * (y as int)),
                2,
            ),
{
    let side = grid_side(count);
    let rows = rows_ops(side, side);
    assert(seq![DrawOp::Save] =~= Seq::<DrawOp>::empty().push(DrawOp::Save));
    lemma_run_push(s, Seq::empty(), DrawOp::Save);
    lemma_traced_push(s, Seq::empty(), DrawOp::Save);
    lemma_traced_concat(s, seq![DrawOp::Save], rows);
    lemma_rows_trace_hexagons(s.save(), side, side);
    assert(col_ops(count) =~= (seq![DrawOp::Save] + rows).push(DrawOp::Restore));
    lemma_traced_push(s, seq![DrawOp::Save] + rows, DrawOp::Restore);
    assert(Seq::<Vector>::empty() + traced(s.save(), rows) =~= traced(s.save(), rows));
    assert forall|y: nat| #[trigger]
        rows_hexagons(s.save(), y + 1, 2) == rows_hexagons(s.save(), y, 2) + cells_hexagons(
            moved(s.save(), 0, 2 * (y as int)),
            2,
        ) by {
        assert(y * (2 * 2 * (2 - 2)) == 0) by (nonlinear_arith);
    }
}

/// No drift after a failure: wherever the drawing of a grid is broken off,
/// once the saves still open are restored the surface is in the state the
/// grid started from, the transform in force included.
pub proof fn lemma_col_unwinds(s: SurfaceState, count: int, done: int)
    requires
        0 <= done <= col_ops(count).len(),
    ensures
        unwound(run(s, col_ops(count).take(done)), open_saves(col_ops(count).take(done))) == s,
{
    let side = grid_side(count);
    lemma_rows_own_saves(side, side);
    lemma_bracket_unwinds(s, rows_ops(side, side), done);
}

/// Cells restore only their own saves, and leave none open.
pub proof fn lemma_cells_own_saves(cells: nat)
    ensures
        restores_own_saves(cells_ops(cells)),
        open_saves(cells_ops(cells)) == 0,
    decreases cells,
{
    if cells > 0 {
        let down = seq![DrawOp::Translate { dx: 3, dy: 1 }];
        let up = seq![DrawOp::Translate { dx: 3, dy: -1i64 }];
        lemma_cells_own_saves((cells - 1) as nat);
        lemma_placed_flower_own_saves();
        lemma_own_saves_without(down);
        lemma_own_saves_without(up);
        lemma_own_saves_concat(placed_flower_ops(), down);
        lemma_own_saves_concat(placed_flower_ops() + down, placed_flower_ops());
        lemma_own_saves_concat(placed_flower_ops() + down + placed_flower_ops(), up);
        lemma_own_saves_concat(cells_ops((cells - 1) as nat), cell_ops());
    }
}

/// Rows restore only their own saves, and leave none open.
pub proof fn lemma_rows_own_saves(rows: nat, count: nat)
    ensures
        restores_own_saves(rows_ops(rows, count)),
        open_saves(rows_ops(rows, count)) == 0,
    decreases rows,
{
    if rows > 0 {
        lemma_rows_own_saves((rows - 1) as nat, count);
        lemma_cells_own_saves(count);
        lemma_own_saves_push(cells_ops(count), row_return(count));
        lemma_own_saves_concat(rows_ops((rows - 1) as nat, count), row_ops(count));
    }
}

/// A grid restores only its own saves, and leaves none open.
pub proof fn lemma_col_own_saves(count: int)
    ensures
        restores_own_saves(col_ops(count)),
        open_saves(col_ops(count)) == 0,
{
    let side = grid_side(count);
    let rows = rows_ops(side, side);
    lemma_rows_own_saves(side, side);
    lemma_own_saves_push(Seq::empty(), DrawOp::Save);
    assert(seq![DrawOp::Save] =~= Seq::<DrawOp>::empty().push(DrawOp::Save));
    lemma_own_saves_concat(seq![DrawOp::Save], rows);
    lemma_own_saves_push(seq![DrawOp::Save] + rows, DrawOp::Restore);
    assert(col_ops(count) =~= (seq![DrawOp::Save] + rows).push(DrawOp::Restore));
}

} // verus!
