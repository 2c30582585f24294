//! The transform state of a drawing surface, modelled exactly.
//!
//! Every translation the kaleidoscope issues is a whole number of half edges
//! along x and of heights along y, and every rotation is a multiple of 60
//! degrees. Such transforms map the triangular lattice with spacing `d / 4`
//! along x and `h / 2` along y onto itself, so the cumulative transform can be
//! tracked in integers with no rounding at all.

use vstd::prelude::*;

verus! {

/// A displacement in lattice units: `x` counts quarter edges (`d / 4`), `y`
/// counts half heights (`h / 2`).
pub struct Vector {
    pub x: int,
    pub y: int,
}

impl Vector {
    /// The displacement of `dx` half edges and `dy` whole heights.
    pub open spec fn of_steps(dx: int, dy: int) -> Vector {
        Vector { x: 2 * dx, y: 2 * dy }
    }

    /// Lattice points are those whose coordinates have the same parity.
    pub open spec fn on_lattice(self) -> bool {
        (self.x - self.y) % 2 == 0
    }

    pub open spec fn plus(self, other: Vector) -> Vector {
        Vector { x: self.x + other.x, y: self.y + other.y }
    }

    pub open spec fn negated(self) -> Vector {
        Vector { x: -self.x, y: -self.y }
    }

    /// The vector rotated by 60 degrees. With `h = (sqrt(3) / 2) * d` the
    /// rotation `(x, y) -> (x / 2 - (sqrt(3) / 2) * y, (sqrt(3) / 2) * x + y / 2)`
    /// reads `(x, y) -> ((x - 3 * y) / 2, (x + y) / 2)` in lattice units, which
    /// is exact on lattice points.
    #[verifier::opaque]
    pub open spec fn turned(self) -> Vector {
        Vector { x: (self.x - 3 * self.y) / 2, y: (self.x + self.y) / 2 }
    }

    /// The vector rotated by `turns` times 60 degrees.
    pub open spec fn turned_by(self, turns: nat) -> Vector
        decreases turns,
    {
        if turns == 0 {
            self
        } else {
            self.turned_by((turns - 1) as nat).turned()
        }
    }
}

/// An affine transform made of a rotation by `turns` sixths of a full turn,
/// `0 <= turns < 6` in every reachable state, followed by a translation to
/// `origin`.
pub struct Transform {
    pub turns: int,
    pub origin: Vector,
}

impl Transform {
    pub open spec fn identity() -> Transform {
        Transform { turns: 0, origin: Vector { x: 0, y: 0 } }
    }

    /// Where the transform puts the local point `p`.
    pub open spec fn apply(self, p: Vector) -> Vector {
        self.origin.plus(p.turned_by(self.turns as nat))
    }

    /// The transform after `translate(v)`: the origin moves to where `v` was.
    pub open spec fn translated(self, v: Vector) -> Transform {
        Transform { turns: self.turns, origin: self.apply(v) }
    }

    /// The transform after a rotation by 60 degrees about its origin.
    pub open spec fn turned(self) -> Transform {
        Transform { turns: (self.turns + 1) % 6, origin: self.origin }
    }
}

/// The transform in force together with the stack of saved ones, innermost
/// last.
pub struct SurfaceState {
    pub current: Transform,
    pub saved: Seq<Transform>,
}

impl SurfaceState {
    pub open spec fn initial() -> SurfaceState {
        SurfaceState { current: Transform::identity(), saved: Seq::empty() }
    }

    pub open spec fn save(self) -> SurfaceState {
        SurfaceState { current: self.current, saved: self.saved.push(self.current) }
    }

    /// Restoring with nothing saved changes nothing.
    pub open spec fn restore(self) -> SurfaceState {
        if self.saved.len() == 0 {
            self
        } else {
            SurfaceState { current: self.saved.last(), saved: self.saved.drop_last() }
        }
    }

    pub open spec fn translate(self, v: Vector) -> SurfaceState {
        SurfaceState { current: self.current.translated(v), saved: self.saved }
    }

    pub open spec fn rotate_sixth(self) -> SurfaceState {
        SurfaceState { current: self.current.turned(), saved: self.saved }
    }
}

/// One turn of a lattice vector, without division: the turned vector `t` of
/// `v` is again on the lattice, with `2 * t.x == v.x - 3 * v.y` and
/// `2 * t.y == v.x + v.y`.
pub proof fn lemma_turned(v: Vector)
    requires
        v.on_lattice(),
    ensures
        v.turned().on_lattice(),
        2 * v.turned().x == v.x - 3 * v.y,
        2 * v.turned().y == v.x + v.y,
{
    reveal(Vector::turned);
    let half = (v.x - v.y) / 2;
    assert(v.x == v.y + 2 * half);
    assert(v.x - 3 * v.y == 2 * (half - v.y));
    assert(v.x + v.y == 2 * (half + v.y));
}

/// Three turns of a lattice vector negate it.
pub proof fn lemma_half_turn(v: Vector)
    requires
        v.on_lattice(),
    ensures
        v.turned_by(3) == v.negated(),
{
    let once = v.turned();
    let twice = once.turned();
    lemma_turned(v);
    lemma_turned(once);
    lemma_turned(twice);
    assert(v.turned_by(3) == twice.turned()) by {
        reveal_with_fuel(Vector::turned_by, 4);
    }
}

/// Turning keeps a vector on the lattice, and the turn of a negated lattice
/// vector is the negated turn.
pub proof fn lemma_turned_by_lattice(v: Vector, turns: nat)
    requires
        v.on_lattice(),
    ensures
        v.turned_by(turns).on_lattice(),
        v.negated().turned_by(turns) == v.turned_by(turns).negated(),
    decreases turns,
{
    if turns > 0 {
        lemma_turned_by_lattice(v, (turns - 1) as nat);
        lemma_turned(v.turned_by((turns - 1) as nat));
        lemma_turned(v.turned_by((turns - 1) as nat).negated());
    }
}

/// Turning the sum of two lattice vectors is summing their turns.
pub proof fn lemma_turned_by_sum(v: Vector, w: Vector, turns: nat)
    requires
        v.on_lattice(),
        w.on_lattice(),
    ensures
        v.plus(w).turned_by(turns) == v.turned_by(turns).plus(w.turned_by(turns)),
    decreases turns,
{
    if turns > 0 {
        let before = (turns - 1) as nat;
        lemma_turned_by_sum(v, w, before);
        lemma_turned_by_lattice(v, before);
        lemma_turned_by_lattice(w, before);
        lemma_turned(v.turned_by(before));
        lemma_turned(w.turned_by(before));
        lemma_turned(v.turned_by(before).plus(w.turned_by(before)));
    }
}

/// Turning once and then `turns` times is turning `turns + 1` times.
pub proof fn lemma_turned_by_next(v: Vector, turns: nat)
    ensures
        v.turned().turned_by(turns) == v.turned_by(turns + 1),
    decreases turns,
{
    reveal_with_fuel(Vector::turned_by, 2);
    if turns > 0 {
        lemma_turned_by_next(v, (turns - 1) as nat);
        assert(v.turned_by(turns + 1) == v.turned_by(turns).turned());
    }
}

/// Six turns of a lattice vector give the vector back.
pub proof fn lemma_full_turn(v: Vector)
    requires
        v.on_lattice(),
    ensures
        v.turned_by(6) == v,
{
    lemma_half_turn(v);
    lemma_half_turn(v.negated());
    lemma_turned_by_next(v.turned_by(3), 2);
    lemma_turned_by_next(v.turned_by(3).turned(), 1);
    lemma_turned_by_next(v.turned_by(3).turned().turned(), 0);
    assert(v.turned_by(6) == v.turned_by(3).turned().turned().turned()) by {
        reveal_with_fuel(Vector::turned_by, 4);
    }
    assert(v.negated().turned_by(3) == v.negated().turned().turned().turned()) by {
        reveal_with_fuel(Vector::turned_by, 4);
    }
}

/// Two translations in a row are one translation by the sum.
pub proof fn lemma_translate_twice(t: Transform, v: Vector, w: Vector)
    requires
        0 <= t.turns,
        v.on_lattice(),
        w.on_lattice(),
    ensures
        t.translated(v).translated(w) == t.translated(v.plus(w)),
{
    lemma_turned_by_sum(v, w, t.turns as nat);
}

/// A translation followed by the opposite translation restores the transform.
pub proof fn lemma_translate_back(t: Transform, v: Vector)
    requires
        0 <= t.turns,
        v.on_lattice(),
    ensures
        t.translated(v).translated(v.negated()) == t,
{
    lemma_turned_by_lattice(v, t.turns as nat);
}

} // verus!
