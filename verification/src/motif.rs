//! The flower: six triangular wedges about a pivot.

use vstd::prelude::*;
use crate::canvas::{
    lemma_own_saves_concat, lemma_own_saves_push, lemma_own_saves_without, lemma_run_concat,
    lemma_run_push, lemma_traced_concat, lemma_traced_push, open_saves, restores_own_saves, run,
    traced, Canvas, DrawOp,
};
use crate::transform::{lemma_turned, lemma_turned_by_lattice, SurfaceState, Transform, Vector};

verus! {

/// Number of wedges in a flower, and of 60 degree steps in a full turn.
pub const PETALS: u32 = 6;

/// One wedge: the triangle with its apex at the origin and its base one
/// height away, outlined as a closed path and filled with the fill style
/// shifted by half an edge. The shift is undone before returning.
pub open spec fn wedge_ops() -> Seq<DrawOp> {
    seq![
        DrawOp::BeginPath,
        DrawOp::LineTo { x: 1, y: 1 },
        DrawOp::LineTo { x: 0, y: 0 },
        DrawOp::LineTo { x: -1i64, y: 1 },
        DrawOp::ClosePath,
        DrawOp::Save,
        DrawOp::Translate { dx: 1, dy: 0 },
        DrawOp::Fill,
        DrawOp::Restore,
    ]
}

/// `count` petals: each a rotation by 60 degrees and then a wedge.
pub open spec fn petals_ops(count: nat) -> Seq<DrawOp>
    decreases count,
{
    if count == 0 {
        Seq::empty()
    } else {
        petals_ops((count - 1) as nat) + seq![DrawOp::RotateSixth] + wedge_ops()
    }
}

/// A flower about the origin: six petals, and nothing else. Whoever wants the
/// flower elsewhere moves the origin there first.
pub open spec fn flower_ops() -> Seq<DrawOp> {
    petals_ops(PETALS as nat)
}

/// Draws one wedge. Records exactly [`wedge_ops`] and leaves the transform
/// state as it found it.
pub fn draw_triangle(ctx: &mut Canvas)
    ensures
        final(ctx).extends(old(ctx), wedge_ops()),
        final(ctx).state() == old(ctx).state(),
        old(ctx).wf() ==> final(ctx).wf(),
{
    ctx.begin_path();
    ctx.line_to(1, 1);
    ctx.line_to(0, 0);
    ctx.line_to(-1, 1);
    ctx.close_path();
    ctx.save();
    ctx.translate(1, 0);
    ctx.fill();
    ctx.restore();
    proof {
        assert(ctx.pending() =~= old(ctx).pending() + wedge_ops());
        ctx.lemma_state_after(old(ctx), wedge_ops());
        lemma_wedge_restores_state(old(ctx).state());
    }
}

/// Draws a flower about the origin, which is its pivot. Records exactly
/// [`flower_ops`]; the six rotations add up to a full turn, so the transform
/// state on return is the one on entry.
pub fn flower(ctx: &mut Canvas)
    requires
        old(ctx).wf(),
    ensures
        final(ctx).wf(),
        final(ctx).extends(old(ctx), flower_ops()),
        final(ctx).state() == old(ctx).state(),
{
    let mut i: u32 = 0;
    proof {
        assert(ctx.pending() =~= old(ctx).pending() + petals_ops(0));
    }
    while i < PETALS
        invariant
            i <= PETALS,
            ctx.extends(old(ctx), petals_ops(i as nat)),
        decreases PETALS - i,
    {
        ctx.rotate_sixth();
        draw_triangle(ctx);
        i += 1;
        proof {
            assert(ctx.pending() =~= old(ctx).pending() + petals_ops(i as nat));
        }
    }
    proof {
        ctx.lemma_state_after(old(ctx), flower_ops());
        lemma_flower_restores_state(old(ctx).state());
    }
}

/// A wedge leaves the transform state as it found it.
pub proof fn lemma_wedge_restores_state(s: SurfaceState)
    ensures
        run(s, wedge_ops()) == s,
{
    let ops = wedge_ops();
    let outline = ops.subrange(0, 5);
    let shifted = s.save().translate(Vector::of_steps(1, 0));
    assert(run(s, outline) == s) by {
        reveal_with_fuel(run, 6);
        assert(outline.drop_last() =~= ops.subrange(0, 4));
        assert(ops.subrange(0, 4).drop_last() =~= ops.subrange(0, 3));
        assert(ops.subrange(0, 3).drop_last() =~= ops.subrange(0, 2));
        assert(ops.subrange(0, 2).drop_last() =~= ops.subrange(0, 1));
    }
    assert(ops =~= outline.push(DrawOp::Save).push(DrawOp::Translate { dx: 1, dy: 0 }).push(
        DrawOp::Fill,
    ).push(DrawOp::Restore));
    lemma_run_push(s, outline, DrawOp::Save);
    lemma_run_push(s, outline.push(DrawOp::Save), DrawOp::Translate { dx: 1, dy: 0 });
    lemma_run_push(
        s,
        outline.push(DrawOp::Save).push(DrawOp::Translate { dx: 1, dy: 0 }),
        DrawOp::Fill,
    );
    lemma_run_push(
        s,
        outline.push(DrawOp::Save).push(DrawOp::Translate { dx: 1, dy: 0 }).push(DrawOp::Fill),
        DrawOp::Restore,
    );
    assert(shifted.restore().saved =~= s.saved);
}

/// After `count` petals the surface is rotated by `count` sixths of a turn and
/// otherwise as before.
pub proof fn lemma_petals_turn(s: SurfaceState, count: nat)
    requires
        0 <= s.current.turns < 6,
    ensures
        run(s, petals_ops(count)) == (SurfaceState {
            current: Transform {
                turns: (s.current.turns + count) % 6,
                origin: s.current.origin,
            },
            saved: s.saved,
        }),
    decreases count,
{
    if count > 0 {
        let before = petals_ops((count - 1) as nat);
        lemma_petals_turn(s, (count - 1) as nat);
        assert(petals_ops(count) =~= before.push(DrawOp::RotateSixth) + wedge_ops());
        lemma_run_concat(s, before.push(DrawOp::RotateSixth), wedge_ops());
        lemma_run_push(s, before, DrawOp::RotateSixth);
        lemma_wedge_restores_state(run(s, before).rotate_sixth());
    }
}

/// Six petals make a full turn: once a flower is drawn, the cumulative
/// transform shows no rotation and no offset relative to entry, and the stack
/// of saved transforms is what it was.
pub proof fn lemma_flower_restores_state(s: SurfaceState)
    requires
        0 <= s.current.turns < 6,
    ensures
        run(s, flower_ops()) == s,
{
    lemma_petals_turn(s, 6);
}

/// Corner number `k` of the hexagon of circumradius `d` about the origin,
/// counted from the corner at the lower right in steps of 60 degrees: half an
/// edge right and a height down, half an edge left and a height down, an edge
/// left, and so on around.
pub open spec fn hexagon_corner(k: int) -> Vector {
    let k = k % 6;
    if k == 0 {
        Vector { x: 2, y: 2 }
    } else if k == 1 {
        Vector { x: -2, y: 2 }
    } else if k == 2 {
        Vector { x: -4, y: 0 }
    } else if k == 3 {
        Vector { x: -2, y: -2 }
    } else if k == 4 {
        Vector { x: 2, y: -2 }
    } else {
        Vector { x: 4, y: 0 }
    }
}

/// The triangle between the pivot and the corners `k` and `k + 1` of the
/// hexagon about it, in the order in which a wedge traces it.
pub open spec fn hexagon_triangle(pivot: Vector, k: int) -> Seq<Vector> {
    seq![pivot.plus(hexagon_corner(k)), pivot, pivot.plus(hexagon_corner(k + 1))]
}

/// The triangles `first + 1` to `first + count` of the hexagon about `pivot`.
pub open spec fn hexagon_triangles(pivot: Vector, first: int, count: nat) -> Seq<Vector>
    decreases count,
{
    if count == 0 {
        Seq::empty()
    } else {
        hexagon_triangles(pivot, first, (count - 1) as nat) + hexagon_triangle(
            pivot,
            first + count,
        )
    }
}

/// Whether the point `(u / q, v / q)`, taken from the pivot, lies in the
/// triangle between the pivot and the corners `k` and `k + 1` of the hexagon
/// about it, the edges included: on the inner side of each of the three lines
/// through two of the triangle's corners.
pub open spec fn in_wedge(k: int, u: int, v: int, q: int) -> bool {
    let k = k % 6;
    if k == 0 {
        u <= v && -u <= v && v <= 2 * q
    } else if k == 1 {
        0 <= v && u + v <= 0 && -4 * q <= u - v
    } else if k == 2 {
        v <= 0 && u - v <= 0 && -4 * q <= u + v
    } else if k == 3 {
        v <= u && v <= -u && -2 * q <= v
    } else if k == 4 {
        v <= 0 && 0 <= u + v && u - v <= 4 * q
    } else {
        0 <= v && 0 <= u - v && u + v <= 4 * q
    }
}

/// Whether the point `(u / q, v / q)`, taken from the pivot, lies in the
/// hexagon of circumradius `d` about the pivot, the edges included.
pub open spec fn in_hexagon(u: int, v: int, q: int) -> bool {
    &&& -2 * q <= v <= 2 * q
    &&& -4 * q <= u + v <= 4 * q
    &&& -4 * q <= u - v <= 4 * q
}

/// The corners of the triangle that a wedge traces are the corners of
/// [`in_wedge`]: each lies in it, on two of its three lines.
pub proof fn lemma_wedge_corners(k: int)
    ensures
        in_wedge(k, 0, 0, 1),
        in_wedge(k, hexagon_corner(k).x, hexagon_corner(k).y, 1),
        in_wedge(k, hexagon_corner(k + 1).x, hexagon_corner(k + 1).y, 1),
        !in_wedge(k, -hexagon_corner(k).x, -hexagon_corner(k).y, 1),
{
}

/// The six triangles that a flower traces fill the hexagon about its pivot
/// and nothing else: a point, at any resolution, lies in the hexagon exactly
/// when it lies in one of the six.
pub proof fn lemma_hexagon_is_six_wedges(u: int, v: int, q: int)
    requires
        0 < q,
    ensures
        in_hexagon(u, v, q) <==> exists|k: int| 0 <= k < 6 && #[trigger] in_wedge(k, u, v, q),
{
    if in_hexagon(u, v, q) {
        assert(in_wedge(0, u, v, q) || in_wedge(1, u, v, q) || in_wedge(2, u, v, q) || in_wedge(
            3,
            u,
            v,
            q,
        ) || in_wedge(4, u, v, q) || in_wedge(5, u, v, q));
    }
    if exists|k: int| 0 <= k < 6 && #[trigger] in_wedge(k, u, v, q) {
        let k = choose|k: int| 0 <= k < 6 && #[trigger] in_wedge(k, u, v, q);
        assert(k == 0 || k == 1 || k == 2 || k == 3 || k == 4 || k == 5);
    }
}

/// A turn takes each corner of the hexagon to the next.
pub proof fn lemma_hexagon_corner_turned(k: int, turns: nat)
    ensures
        hexagon_corner(k).on_lattice(),
        hexagon_corner(k).turned_by(turns) == hexagon_corner(k + turns),
    decreases turns,
{
    if turns > 0 {
        lemma_hexagon_corner_turned(k, (turns - 1) as nat);
        lemma_turned(hexagon_corner(k + turns - 1));
    }
}

/// A wedge traces the triangle between the origin and two neighbouring
/// corners of the hexagon about it: the corners that the rotation in force
/// selects.
pub proof fn lemma_wedge_traces_triangle(s: SurfaceState)
    requires
        0 <= s.current.turns < 6,
    ensures
        traced(s, wedge_ops()) == hexagon_triangle(s.current.origin, s.current.turns),
{
    let outline = seq![
        DrawOp::BeginPath,
        DrawOp::LineTo { x: 1, y: 1 },
        DrawOp::LineTo { x: 0, y: 0 },
        DrawOp::LineTo { x: -1i64, y: 1 },
    ];
    let fill = seq![
        DrawOp::ClosePath,
        DrawOp::Save,
        DrawOp::Translate { dx: 1, dy: 0 },
        DrawOp::Fill,
        DrawOp::Restore,
    ];
    let turns = s.current.turns as nat;
    assert(wedge_ops() =~= outline + fill);
    lemma_traced_concat(s, outline, fill);
    assert(traced(run(s, outline), fill) =~= Seq::<Vector>::empty()) by {
        reveal_with_fuel(traced, 6);
    }
    assert(run(s, outline.subrange(0, 1)) == s && run(s, outline.subrange(0, 2)) == s && run(
        s,
        outline.subrange(0, 3),
    ) == s) by {
        reveal_with_fuel(run, 4);
        assert(outline.subrange(0, 3).drop_last() =~= outline.subrange(0, 2));
        assert(outline.subrange(0, 2).drop_last() =~= outline.subrange(0, 1));
    }
    assert(traced(s, outline) =~= seq![
        s.current.apply(Vector::of_steps(1, 1)),
        s.current.apply(Vector::of_steps(0, 0)),
        s.current.apply(Vector::of_steps(-1, 1)),
    ]) by {
        reveal_with_fuel(traced, 5);
        assert(outline.drop_last() =~= outline.subrange(0, 3));
        assert(outline.subrange(0, 3).drop_last() =~= outline.subrange(0, 2));
        assert(outline.subrange(0, 2).drop_last() =~= outline.subrange(0, 1));
    }
    assert(Vector::of_steps(1, 1) == hexagon_corner(0));
    assert(Vector::of_steps(-1, 1) == hexagon_corner(1));
    lemma_hexagon_corner_turned(0, turns);
    lemma_hexagon_corner_turned(1, turns);
    lemma_turned_by_lattice(Vector::of_steps(0, 0), turns);
    assert(Vector::of_steps(0, 0).negated() == Vector::of_steps(0, 0));
    assert(traced(s, wedge_ops()) =~= hexagon_triangle(s.current.origin, s.current.turns));
}

/// `count` petals trace the next `count` triangles of the hexagon about the
/// origin.
pub proof fn lemma_petals_trace_triangles(s: SurfaceState, count: nat)
    requires
        0 <= s.current.turns < 6,
    ensures
        traced(s, petals_ops(count)) == hexagon_triangles(
            s.current.origin,
            s.current.turns,
            count,
        ),
    decreases count,
{
    if count > 0 {
        let before = petals_ops((count - 1) as nat);
        let turn = seq![DrawOp::RotateSixth];
        lemma_petals_trace_triangles(s, (count - 1) as nat);
        lemma_petals_turn(s, (count - 1) as nat);
        assert(petals_ops(count) =~= before.push(DrawOp::RotateSixth) + wedge_ops());
        lemma_traced_concat(s, before.push(DrawOp::RotateSixth), wedge_ops());
        lemma_traced_push(s, before, DrawOp::RotateSixth);
        lemma_run_push(s, before, DrawOp::RotateSixth);
        let turned = run(s, before).rotate_sixth();
        lemma_wedge_traces_triangle(turned);
        assert(hexagon_corner(turned.current.turns) == hexagon_corner(s.current.turns + count));
        assert(hexagon_corner(turned.current.turns + 1) == hexagon_corner(
            s.current.turns + count + 1,
        ));
    }
}

/// A flower is the regular hexagon of circumradius `d` about the origin on
/// entry, its pivot, cut into six triangles there: its wedges trace exactly
/// the six triangles between the pivot and two neighbouring corners, each
/// once, and the pivot is the apex of every wedge.
pub proof fn lemma_flower_traces_hexagon(s: SurfaceState)
    requires
        0 <= s.current.turns < 6,
    ensures
        traced(s, flower_ops()) == hexagon_triangles(s.current.origin, s.current.turns, 6),
{
    lemma_petals_trace_triangles(s, 6);
}

/// A wedge restores only its own save, and leaves none open.
pub proof fn lemma_wedge_own_saves()
    ensures
        restores_own_saves(wedge_ops()),
        open_saves(wedge_ops()) == 0,
{
    let outline = wedge_ops().subrange(0, 5);
    let fill = seq![DrawOp::Translate { dx: 1, dy: 0 }, DrawOp::Fill];
    lemma_own_saves_without(outline);
    lemma_own_saves_without(fill);
    lemma_own_saves_push(outline, DrawOp::Save);
    lemma_own_saves_concat(outline.push(DrawOp::Save), fill);
    lemma_own_saves_push(outline.push(DrawOp::Save) + fill, DrawOp::Restore);
    assert(wedge_ops() =~= (outline.push(DrawOp::Save) + fill).push(DrawOp::Restore));
}

/// Petals restore only their own saves, and leave none open.
pub proof fn lemma_petals_own_saves(count: nat)
    ensures
        restores_own_saves(petals_ops(count)),
        open_saves(petals_ops(count)) == 0,
    decreases count,
{
    if count > 0 {
        let before = petals_ops((count - 1) as nat);
        let turn = seq![DrawOp::RotateSixth];
        lemma_petals_own_saves((count - 1) as nat);
        lemma_own_saves_without(turn);
        lemma_wedge_own_saves();
        lemma_own_saves_concat(before, turn);
        lemma_own_saves_concat(before + turn, wedge_ops());
    }
}

/// A flower restores only its own saves, and leaves none open.
pub proof fn lemma_flower_own_saves()
    ensures
        restores_own_saves(flower_ops()),
        open_saves(flower_ops()) == 0,
{
    lemma_petals_own_saves(6);
}

} // verus!
