//! A recording drawing surface.
//!
//! [`Canvas`] offers the operations of a 2D raster context and records each
//! call as a [`DrawOp`], in order. Whoever owns the real surface replays the
//! record against it. Lengths are symbolic, so that the record is exact: the
//! transform operations count half edges and whole heights of the
//! [`TriangleUnit`](crate::geometry::TriangleUnit) the record is replayed
//! with, the pixel operations count pixels.

use vstd::prelude::*;
use crate::transform::{SurfaceState, Vector};

verus! {

/// One call on a drawing surface.
#[derive(Clone, Copy, Debug, PartialEq, Eq, Structural)]
pub enum DrawOp {
    /// Push the transform in force onto the surface's stack.
    Save,
    /// Pop the stack into the transform in force; nothing if it is empty.
    Restore,
    /// Move the origin by `dx` half edges and `dy` heights.
    Translate { dx: i64, dy: i64 },
    /// Rotate by 60 degrees about the origin.
    RotateSixth,
    /// Start a new path.
    BeginPath,
    /// Extend the path to the point `x` half edges and `y` heights from the
    /// origin.
    LineTo { x: i64, y: i64 },
    /// Close the path.
    ClosePath,
    /// Fill the path with the fill style in force.
    Fill,
    /// Make the repeating pattern of the pattern source the fill style.
    UsePattern,
    /// Clear, to transparent black, the rectangle that has the size of the
    /// surface and its top left corner at the origin.
    Clear,
    /// Read the pixel rectangle at `(left, top)` of the given size back into the
    /// held buffer. Reads ignore the transform.
    Capture { left: u32, top: u32, width: u32, height: u32 },
    /// Write the held buffer with its top left pixel at `(px, py)`. Writes
    /// ignore the transform.
    Stamp { px: u64, py: u64 },
}

/// What one operation does to the transform state.
pub open spec fn step(s: SurfaceState, op: DrawOp) -> SurfaceState {
    match op {
        DrawOp::Save => s.save(),
        DrawOp::Restore => s.restore(),
        DrawOp::Translate { dx, dy } => s.translate(Vector::of_steps(dx as int, dy as int)),
        DrawOp::RotateSixth => s.rotate_sixth(),
        _ => s,
    }
}

/// The transform state after all of `ops`, first to last.
pub open spec fn run(s: SurfaceState, ops: Seq<DrawOp>) -> SurfaceState
    decreases ops.len(),
{
    if ops.len() == 0 {
        s
    } else {
        step(run(s, ops.drop_last()), ops.last())
    }
}

/// Running one more operation is one more step.
pub proof fn lemma_run_push(s: SurfaceState, ops: Seq<DrawOp>, op: DrawOp)
    ensures
        run(s, ops.push(op)) == step(run(s, ops), op),
{
    assert(ops.push(op).drop_last() =~= ops);
}

/// Running a concatenation is running its parts in turn.
pub proof fn lemma_run_concat(s: SurfaceState, first: Seq<DrawOp>, second: Seq<DrawOp>)
    ensures
        run(s, first + second) == run(run(s, first), second),
    decreases second.len(),
{
    if second.len() == 0 {
        assert(first + second =~= first);
    } else {
        lemma_run_concat(s, first, second.drop_last());
        assert((first + second).drop_last() =~= first + second.drop_last());
        assert((first + second).last() == second.last());
    }
}

/// The corners of the path that `ops` extend, in surface coordinates and in
/// the order in which they are added: each is where the transform in force at
/// the time puts the point that the operation names.
pub open spec fn traced(s: SurfaceState, ops: Seq<DrawOp>) -> Seq<Vector>
    decreases ops.len(),
{
    if ops.len() == 0 {
        Seq::empty()
    } else {
        let before = traced(s, ops.drop_last());
        match ops.last() {
            DrawOp::LineTo { x, y } => before.push(
                run(s, ops.drop_last()).current.apply(Vector::of_steps(x as int, y as int)),
            ),
            _ => before,
        }
    }
}

/// One more operation adds a corner if it extends the path, nothing if not.
pub proof fn lemma_traced_push(s: SurfaceState, ops: Seq<DrawOp>, op: DrawOp)
    ensures
        traced(s, ops.push(op)) == match op {
            DrawOp::LineTo { x, y } => traced(s, ops).push(
                run(s, ops).current.apply(Vector::of_steps(x as int, y as int)),
            ),
            _ => traced(s, ops),
        },
{
    assert(ops.push(op).drop_last() =~= ops);
}

/// The corners of a concatenation are those of its parts, the second part
/// traced from the state that the first part leaves.
pub proof fn lemma_traced_concat(s: SurfaceState, first: Seq<DrawOp>, second: Seq<DrawOp>)
    ensures
        traced(s, first + second) == traced(s, first) + traced(run(s, first), second),
    decreases second.len(),
{
    if second.len() == 0 {
        assert(first + second =~= first);
        assert(traced(s, first) + Seq::<Vector>::empty() =~= traced(s, first));
    } else {
        lemma_traced_concat(s, first, second.drop_last());
        lemma_run_concat(s, first, second.drop_last());
        assert((first + second).drop_last() =~= first + second.drop_last());
        assert((first + second).last() == second.last());
        let before = traced(s, first) + traced(run(s, first), second.drop_last());
        match second.last() {
            DrawOp::LineTo { x, y } => {
                let corner = run(run(s, first), second.drop_last()).current.apply(
                    Vector::of_steps(x as int, y as int),
                );
                assert(before.push(corner) =~= traced(s, first) + traced(
                    run(s, first),
                    second.drop_last(),
                ).push(corner));
            },
            _ => {},
        }
    }
}

/// The rotation count of the transform in force and of every saved one lies
/// within `0..6`.
pub open spec fn turns_in_range(s: SurfaceState) -> bool {
    &&& 0 <= s.current.turns < 6
    &&& forall|i: int| 0 <= i < s.saved.len() ==> 0 <= (#[trigger] s.saved[i]).turns < 6
}

/// No operation takes a rotation count out of `0..6`.
pub proof fn lemma_run_turns_in_range(s: SurfaceState, ops: Seq<DrawOp>)
    requires
        turns_in_range(s),
    ensures
        turns_in_range(run(s, ops)),
    decreases ops.len(),
{
    if ops.len() > 0 {
        lemma_run_turns_in_range(s, ops.drop_last());
    }
}

/// Number of saves in `ops` that no later restore in `ops` matches. A restore
/// with no save of `ops` left to match does not count.
pub open spec fn open_saves(ops: Seq<DrawOp>) -> nat
    decreases ops.len(),
{
    if ops.len() == 0 {
        0
    } else {
        let before = open_saves(ops.drop_last());
        match ops.last() {
            DrawOp::Save => before + 1,
            DrawOp::Restore => if before > 0 {
                (before - 1) as nat
            } else {
                0
            },
            _ => before,
        }
    }
}

/// Whether every restore in `ops` matches a save of `ops`, so that `ops`
/// never pops what was saved before it.
pub open spec fn restores_own_saves(ops: Seq<DrawOp>) -> bool
    decreases ops.len(),
{
    ops.len() > 0 ==> {
        &&& restores_own_saves(ops.drop_last())
        &&& ops.last() is Restore ==> open_saves(ops.drop_last()) > 0
    }
}

/// One more operation: it restores its own saves if what came before does and,
/// being a restore, finds a save open; it opens or closes one save or none.
pub proof fn lemma_own_saves_push(ops: Seq<DrawOp>, op: DrawOp)
    ensures
        restores_own_saves(ops.push(op)) <==> restores_own_saves(ops) && (op is Restore
            ==> open_saves(ops) > 0),
        open_saves(ops.push(op)) == match op {
            DrawOp::Save => open_saves(ops) + 1,
            DrawOp::Restore => if open_saves(ops) > 0 {
                (open_saves(ops) - 1) as nat
            } else {
                0
            },
            _ => open_saves(ops),
        },
{
    assert(ops.push(op).drop_last() =~= ops);
}

/// Records that restore only their own saves do so when put one after the
/// other, and their open saves add up.
pub proof fn lemma_own_saves_concat(first: Seq<DrawOp>, second: Seq<DrawOp>)
    requires
        restores_own_saves(first),
        restores_own_saves(second),
    ensures
        restores_own_saves(first + second),
        open_saves(first + second) == open_saves(first) + open_saves(second),
    decreases second.len(),
{
    if second.len() == 0 {
        assert(first + second =~= first);
    } else {
        lemma_own_saves_concat(first, second.drop_last());
        assert(first + second =~= (first + second.drop_last()).push(second.last()));
        lemma_own_saves_push(first + second.drop_last(), second.last());
    }
}

/// A record without saves and restores restores only its own saves, and
/// leaves none open.
pub proof fn lemma_own_saves_without(ops: Seq<DrawOp>)
    requires
        forall|i: int| 0 <= i < ops.len() ==> !((#[trigger] ops[i]) is Save) && !(ops[i] is Restore),
    ensures
        restores_own_saves(ops),
        open_saves(ops) == 0,
    decreases ops.len(),
{
    if ops.len() > 0 {
        lemma_own_saves_without(ops.drop_last());
    }
}

/// The state after `count` restores.
pub open spec fn unwound(s: SurfaceState, count: nat) -> SurfaceState
    decreases count,
{
    if count == 0 {
        s
    } else {
        unwound(s.restore(), (count - 1) as nat)
    }
}

/// Operations that restore only their own saves leave what was saved before
/// them in place, below [`open_saves`] transforms of their own.
pub proof fn lemma_open_saves(s: SurfaceState, ops: Seq<DrawOp>)
    requires
        restores_own_saves(ops),
    ensures
        run(s, ops).saved.len() == s.saved.len() + open_saves(ops),
        run(s, ops).saved.subrange(0, s.saved.len() as int) == s.saved,
    decreases ops.len(),
{
    if ops.len() == 0 {
        assert(s.saved.subrange(0, s.saved.len() as int) =~= s.saved);
    } else {
        lemma_open_saves(s, ops.drop_last());
        let before = run(s, ops.drop_last());
        let after = run(s, ops);
        assert(after.saved.subrange(0, s.saved.len() as int) =~= before.saved.subrange(
            0,
            s.saved.len() as int,
        ));
    }
}

/// Unwinding after a failure: wherever a record that restores only its own
/// saves is broken off, as many restores as it has saves open bring the stack
/// of saved transforms back to what it was on entry.
pub proof fn lemma_unwound_stack(s: SurfaceState, ops: Seq<DrawOp>, done: int)
    requires
        restores_own_saves(ops),
        0 <= done <= ops.len(),
    ensures
        unwound(run(s, ops.take(done)), open_saves(ops.take(done))).saved == s.saved,
{
    lemma_restores_own_saves_prefix(ops, done);
    lemma_open_saves(s, ops.take(done));
    lemma_unwound_pops(run(s, ops.take(done)), open_saves(ops.take(done)));
    let reached = run(s, ops.take(done)).saved;
    assert(reached.subrange(0, s.saved.len() as int) == s.saved);
}

/// A prefix of a record that restores only its own saves does so too.
pub proof fn lemma_restores_own_saves_prefix(ops: Seq<DrawOp>, done: int)
    requires
        restores_own_saves(ops),
        0 <= done <= ops.len(),
    ensures
        restores_own_saves(ops.take(done)),
    decreases ops.len(),
{
    if done == ops.len() {
        assert(ops.take(done) =~= ops);
    } else {
        lemma_restores_own_saves_prefix(ops.drop_last(), done);
        assert(ops.drop_last().take(done) =~= ops.take(done));
    }
}

/// `count` restores pop `count` saved transforms, where there are as many,
/// and put the last of them in force.
pub proof fn lemma_unwound_pops(s: SurfaceState, count: nat)
    requires
        count <= s.saved.len(),
    ensures
        unwound(s, count).saved == s.saved.subrange(0, s.saved.len() - count),
        count > 0 ==> unwound(s, count).current == s.saved[s.saved.len() - count],
    decreases count,
{
    if count == 0 {
        assert(s.saved.subrange(0, s.saved.len() as int) =~= s.saved);
    } else {
        lemma_unwound_pops(s.restore(), (count - 1) as nat);
        assert(s.restore().saved.subrange(0, s.saved.len() - count) =~= s.saved.subrange(
            0,
            s.saved.len() - count,
        ));
    }
}

/// No drift after a failure: a record that saves first, restores last and
/// in between restores only its own saves can be broken off anywhere; once
/// the saves still open are restored, the surface is in the state the record
/// started from, the transform in force included.
pub proof fn lemma_bracket_unwinds(s: SurfaceState, body: Seq<DrawOp>, done: int)
    requires
        restores_own_saves(body),
        open_saves(body) == 0,
        0 <= done <= body.len() + 2,
    ensures
        restores_own_saves(seq![DrawOp::Save] + body + seq![DrawOp::Restore]),
        open_saves(seq![DrawOp::Save] + body + seq![DrawOp::Restore]) == 0,
        unwound(
            run(s, (seq![DrawOp::Save] + body + seq![DrawOp::Restore]).take(done)),
            open_saves((seq![DrawOp::Save] + body + seq![DrawOp::Restore]).take(done)),
        ) == s,
{
    let save = seq![DrawOp::Save];
    let ops = save + body + seq![DrawOp::Restore];
    assert(save =~= Seq::<DrawOp>::empty().push(DrawOp::Save));
    lemma_own_saves_push(Seq::empty(), DrawOp::Save);
    lemma_run_push(s, Seq::empty(), DrawOp::Save);
    lemma_own_saves_concat(save, body);
    assert(ops =~= (save + body).push(DrawOp::Restore));
    lemma_own_saves_push(save + body, DrawOp::Restore);
    if done == 0 {
        assert(ops.take(0) =~= Seq::<DrawOp>::empty());
    } else if done <= body.len() + 1 {
        let part = body.take(done - 1);
        let reached = run(s.save(), part);
        assert(ops.take(done) =~= save + part);
        lemma_restores_own_saves_prefix(body, done - 1);
        lemma_own_saves_concat(save, part);
        lemma_run_concat(s, save, part);
        lemma_open_saves(s.save(), part);
        lemma_unwound_pops(reached, open_saves(part) + 1);
        let base = s.saved.len() as int;
        assert(s.save().saved.len() == base + 1);
        assert(reached.saved.subrange(0, base + 1)[base] == s.current);
        assert(reached.saved.subrange(0, base) =~= reached.saved.subrange(0, base + 1).subrange(
            0,
            base,
        ));
        assert(s.save().saved.subrange(0, base) =~= s.saved);
    } else {
        assert(ops.take(done) =~= ops);
        lemma_run_push(s, save + body, DrawOp::Restore);
        lemma_run_concat(s, save, body);
        lemma_open_saves(s.save(), body);
        let reached = run(s.save(), body);
        assert(reached.saved =~= reached.saved.subrange(0, s.saved.len() as int + 1));
        assert(s.save().saved.drop_last() =~= s.saved);
    }
}

/// Counts the saves still open after the first `done` operations of `ops`:
/// the number of restores that unwind a replay broken off at that point.
pub fn open_saves_after(ops: &Vec<DrawOp>, done: usize) -> (open: usize)
    requires
        done <= ops.len(),
    ensures
        open == open_saves(ops@.take(done as int)),
{
    let mut open: usize = 0;
    let mut i: usize = 0;
    while i < done
        invariant
            i <= done <= ops.len(),
            open <= i,
            open == open_saves(ops@.take(i as int)),
        decreases done - i,
    {
        proof {
            assert(ops@.take(i + 1).drop_last() =~= ops@.take(i as int));
            assert(ops@.take(i + 1).last() == ops@[i as int]);
        }
        match ops[i] {
            DrawOp::Save => {
                open += 1;
            },
            DrawOp::Restore => {
                if open > 0 {
                    open -= 1;
                }
            },
            _ => {},
        }
        i += 1;
    }
    open
}

/// A surface of `width` by `height` pixels that records what is drawn on it.
pub struct Canvas {
    width: u32,
    height: u32,
    ops: Vec<DrawOp>,
    base: Ghost<SurfaceState>,
}

impl Canvas {
    pub closed spec fn spec_width(&self) -> int {
        self.width as int
    }

    pub closed spec fn spec_height(&self) -> int {
        self.height as int
    }

    /// The operations recorded and not yet taken, oldest first.
    pub closed spec fn pending(&self) -> Seq<DrawOp> {
        self.ops@
    }

    /// The transform state before the pending operations.
    pub closed spec fn base(&self) -> SurfaceState {
        self.base@
    }

    /// The transform state after everything recorded so far.
    pub open spec fn state(&self) -> SurfaceState {
        run(self.base(), self.pending())
    }

    /// Every rotation count of the transform state lies within `0..6`, as it
    /// does on a fresh surface and after any operation.
    pub open spec fn wf(&self) -> bool {
        turns_in_range(self.state())
    }

    /// Same surface, same history before the pending operations.
    pub open spec fn same_surface(&self, other: &Canvas) -> bool {
        &&& self.spec_width() == other.spec_width()
        &&& self.spec_height() == other.spec_height()
        &&& self.base() == other.base()
    }

    /// `self` is `before` with `ops` recorded after it.
    pub open spec fn extends(&self, before: &Canvas, ops: Seq<DrawOp>) -> bool {
        &&& self.same_surface(before)
        &&& self.pending() == before.pending() + ops
    }

    /// Recording `ops` after `before` runs them from the state `before` was in.
    pub proof fn lemma_state_after(&self, before: &Canvas, ops: Seq<DrawOp>)
        requires
            self.extends(before, ops),
        ensures
            self.state() == run(before.state(), ops),
    {
        lemma_run_concat(before.base(), before.pending(), ops);
    }

    /// A fresh surface: identity transform, nothing saved, nothing recorded.
    pub fn new(width: u32, height: u32) -> (canvas: Canvas)
        ensures
            canvas.spec_width() == width,
            canvas.spec_height() == height,
            canvas.pending() == Seq::<DrawOp>::empty(),
            canvas.base() == SurfaceState::initial(),
            canvas.state() == SurfaceState::initial(),
            canvas.wf(),
    {
        Canvas { width, height, ops: Vec::new(), base: Ghost(SurfaceState::initial()) }
    }

    pub fn width(&self) -> (w: u32)
        ensures
            w == self.spec_width(),
    {
        self.width
    }

    pub fn height(&self) -> (h: u32)
        ensures
            h == self.spec_height(),
    {
        self.height
    }

    /// Records `op`.
    pub fn record(&mut self, op: DrawOp)
        ensures
            final(self).extends(old(self), seq![op]),
            final(self).state() == step(old(self).state(), op),
            old(self).wf() ==> final(self).wf(),
    {
        proof {
            lemma_run_push(self.base@, self.ops@, op);
            assert(self.ops@.push(op) =~= self.ops@ + seq![op]);
            if turns_in_range(run(self.base@, self.ops@)) {
                lemma_run_turns_in_range(run(self.base@, self.ops@), seq![op]);
                lemma_run_concat(self.base@, self.ops@, seq![op]);
            }
        }
        self.ops.push(op);
    }

    /// Records a save of the transform in force.
    pub fn save(&mut self)
        ensures
            final(self).extends(old(self), seq![DrawOp::Save]),
            final(self).state() == old(self).state().save(),
            old(self).wf() ==> final(self).wf(),
    {
        self.record(DrawOp::Save);
    }

    /// Records a restore of the transform saved last.
    pub fn restore(&mut self)
        ensures
            final(self).extends(old(self), seq![DrawOp::Restore]),
            final(self).state() == old(self).state().restore(),
            old(self).wf() ==> final(self).wf(),
    {
        self.record(DrawOp::Restore);
    }

    /// Records a translation by `dx` half edges and `dy` heights.
    pub fn translate(&mut self, dx: i64, dy: i64)
        ensures
            final(self).extends(old(self), seq![DrawOp::Translate { dx, dy }]),
            final(self).state() == old(self).state().translate(
                Vector::of_steps(dx as int, dy as int),
            ),
            old(self).wf() ==> final(self).wf(),
    {
        self.record(DrawOp::Translate { dx, dy });
    }

    /// Records a rotation by 60 degrees.
    pub fn rotate_sixth(&mut self)
        ensures
            final(self).extends(old(self), seq![DrawOp::RotateSixth]),
            final(self).state() == old(self).state().rotate_sixth(),
            old(self).wf() ==> final(self).wf(),
    {
        self.record(DrawOp::RotateSixth);
    }

    /// Records the start of a path.
    pub fn begin_path(&mut self)
        ensures
            final(self).extends(old(self), seq![DrawOp::BeginPath]),
            final(self).state() == old(self).state(),
    {
        self.record(DrawOp::BeginPath);
    }

    /// Records a path segment to `x` half edges and `y` heights from the
    /// origin.
    pub fn line_to(&mut self, x: i64, y: i64)
        ensures
            final(self).extends(old(self), seq![DrawOp::LineTo { x, y }]),
            final(self).state() == old(self).state(),
    {
        self.record(DrawOp::LineTo { x, y });
    }

    /// Records the closing of the path.
    pub fn close_path(&mut self)
        ensures
            final(self).extends(old(self), seq![DrawOp::ClosePath]),
            final(self).state() == old(self).state(),
    {
        self.record(DrawOp::ClosePath);
    }

    /// Records a fill of the path.
    pub fn fill(&mut self)
        ensures
            final(self).extends(old(self), seq![DrawOp::Fill]),
            final(self).state() == old(self).state(),
    {
        self.record(DrawOp::Fill);
    }

    /// Hands out the pending operations and starts an empty record. The
    /// transform state stays what the operations handed out made it.
    pub fn take_ops(&mut self) -> (ops: Vec<DrawOp>)
        ensures
            ops@ == old(self).pending(),
            final(self).pending() == Seq::<DrawOp>::empty(),
            final(self).spec_width() == old(self).spec_width(),
            final(self).spec_height() == old(self).spec_height(),
            final(self).base() == old(self).state(),
            final(self).state() == old(self).state(),
    {
        let mut ops: Vec<DrawOp> = Vec::new();
        std::mem::swap(&mut ops, &mut self.ops);
        self.base = Ghost(run(self.base@, ops@));
        ops
    }
}

} // verus!
