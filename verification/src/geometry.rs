//! Triangle geometry in exact integer arithmetic.
//!
//! An equilateral triangle of edge `d` has height `h = (sqrt(3) / 2) * d`,
//! which is irrational for every positive integer `d`. The height is therefore
//! never stored: whatever depends on it is derived from the edge on demand,
//! and the whole-pixel sizes are characterised through `4 * h * h == 3 * d * d`.

use vstd::prelude::*;

verus! {

/// Largest edge length whose block width `3 * d` still fits in a `u32`.
pub const MAX_EDGE: u32 = 1_431_655_765;

/// `root` is the integer square root of `n`: the largest integer whose square
/// does not exceed `n`.
pub open spec fn is_floor_sqrt(root: int, n: int) -> bool {
    &&& 0 <= root
    &&& root * root <= n
    &&& n < (root + 1) * (root + 1)
}

/// The integer square root of `n`, for `n >= 0`.
pub open spec fn floor_sqrt(n: int) -> int {
    choose|root: int| is_floor_sqrt(root, n)
}

/// A number has at most one integer square root.
pub proof fn lemma_floor_sqrt_unique(a: int, b: int, n: int)
    requires
        is_floor_sqrt(a, n),
        is_floor_sqrt(b, n),
    ensures
        a == b,
{
    if a < b {
        assert((a + 1) * (a + 1) <= b * b) by (nonlinear_arith)
            requires
                0 <= a,
                a + 1 <= b,
        ;
    } else if b < a {
        assert((b + 1) * (b + 1) <= a * a) by (nonlinear_arith)
            requires
                0 <= b,
                b + 1 <= a,
        ;
    }
}

/// Whatever satisfies [`is_floor_sqrt`] is the value of [`floor_sqrt`].
pub proof fn lemma_floor_sqrt_is(root: int, n: int)
    requires
        is_floor_sqrt(root, n),
    ensures
        floor_sqrt(n) == root,
{
    lemma_floor_sqrt_unique(floor_sqrt(n), root, n);
}

/// Every number from zero on has an integer square root.
pub proof fn lemma_floor_sqrt_exists(n: int)
    requires
        0 <= n,
    ensures
        is_floor_sqrt(floor_sqrt(n), n),
    decreases n,
{
    if n == 0 {
        assert(is_floor_sqrt(0, 0));
    } else {
        lemma_floor_sqrt_exists(n - 1);
        let r = floor_sqrt(n - 1);
        if (r + 1) * (r + 1) <= n {
            assert((r + 1) * (r + 1) == n);
            assert(n < (r + 2) * (r + 2)) by (nonlinear_arith)
                requires
                    (r + 1) * (r + 1) == n,
                    0 <= r,
            ;
            assert(is_floor_sqrt(r + 1, n));
        } else {
            assert(is_floor_sqrt(r, n));
        }
    }
}

/// The block height lies between the edge and twice the edge, because
/// `1 <= sqrt(3) < 2`.
pub proof fn lemma_block_height_bounds(root: int, edge: int)
    requires
        0 < edge,
        is_floor_sqrt(root, 3 * edge * edge),
    ensures
        edge <= root < 2 * edge,
{
    assert(root < 2 * edge) by (nonlinear_arith)
        requires
            0 <= root,
            0 < edge,
            root * root <= 3 * edge * edge,
    ;
    assert(edge <= root) by (nonlinear_arith)
        requires
            0 <= root,
            0 < edge,
            3 * edge * edge < (root + 1) * (root + 1),
    ;
}

/// Integer square root by bisection.
pub fn isqrt(n: u64) -> (root: u64)
    ensures
        is_floor_sqrt(root as int, n as int),
        root as int == floor_sqrt(n as int),
        root < 0x1_0000_0000,
{
    let mut lo: u64 = 0;
    let mut hi: u64 = 0x1_0000_0000;
    assert(n < hi * hi) by (nonlinear_arith)
        requires
            hi == 0x1_0000_0000,
            n <= u64::MAX,
    ;
    while hi - lo > 1
        invariant
            lo < hi <= 0x1_0000_0000,
            lo * lo <= n,
            n < hi * hi,
        decreases hi - lo,
    {
        let mid: u64 = lo + (hi - lo) / 2;
        assert(mid * mid <= 0xffff_ffff * 0xffff_ffff) by (nonlinear_arith)
            requires
                0 <= mid <= 0xffff_ffff,
        ;
        if mid * mid <= n {
            lo = mid;
        } else {
            hi = mid;
        }
    }
    proof {
        lemma_floor_sqrt_is(lo as int, n as int);
    }
    lo
}

/// The scale of the motif: the edge length `d` of its triangular wedges, in
/// pixels. The height `h` is not a field; [`TriangleUnit::block_height`] and
/// [`TriangleUnit::height_floor`] derive its whole-pixel values from the edge.
#[derive(Clone, Copy, Debug)]
pub struct TriangleUnit {
    edge: u32,
}

impl TriangleUnit {
    /// The edge length `d`.
    pub closed spec fn spec_edge(self) -> int {
        self.edge as int
    }

    /// The edge is positive and `3 * d` fits in a `u32`.
    pub open spec fn wf(self) -> bool {
        0 < self.spec_edge() <= MAX_EDGE
    }

    /// Width of the repeating block, `3 * d`.
    pub open spec fn spec_block_width(self) -> int {
        3 * self.spec_edge()
    }

    /// Height of the repeating block, `floor(2 * h) = floor(sqrt(3 * d * d))`.
    pub open spec fn spec_block_height(self) -> int {
        floor_sqrt(3 * self.spec_edge() * self.spec_edge())
    }

    /// Whole pixels in one wedge height, `floor(h) = floor(sqrt(3 * d * d / 4))`.
    pub open spec fn spec_height_floor(self) -> int {
        floor_sqrt(3 * self.spec_edge() * self.spec_edge() / 4)
    }

    /// A unit of the given edge length; `None` exactly when the edge is zero
    /// or larger than [`MAX_EDGE`].
    pub fn new(edge: u32) -> (unit: Option<TriangleUnit>)
        ensures
            unit is Some <==> 0 < edge <= MAX_EDGE,
            unit matches Some(u) ==> u.wf() && u.spec_edge() == edge,
    {
        if edge == 0 || edge > MAX_EDGE {
            None
        } else {
            Some(TriangleUnit { edge })
        }
    }

    /// The edge length `d`, in pixels.
    pub fn edge(&self) -> (d: u32)
        ensures
            d == self.spec_edge(),
    {
        self.edge
    }

    /// `3 * d`, the width of the repeating block.
    pub fn block_width(&self) -> (w: u32)
        requires
            self.wf(),
        ensures
            w == self.spec_block_width(),
            w > 0,
    {
        3 * self.edge
    }

    /// `floor(2 * h)`, the height of the repeating block: the one integer `r`
    /// with `r * r <= 3 * d * d < (r + 1) * (r + 1)`.
    pub fn block_height(&self) -> (r: u32)
        requires
            self.wf(),
        ensures
            r == self.spec_block_height(),
            is_floor_sqrt(r as int, 3 * self.spec_edge() * self.spec_edge()),
            self.spec_edge() <= r < 2 * self.spec_edge(),
    {
        let d: u64 = self.edge as u64;
        assert(3 * d * d <= 3 * 1_431_655_765 * 1_431_655_765) by (nonlinear_arith)
            requires
                0 <= d <= 1_431_655_765,
        ;
        let root: u64 = isqrt(3 * d * d);
        proof {
            lemma_block_height_bounds(root as int, d as int);
        }
        root as u32
    }

    /// `floor(h)`, the whole pixels in one wedge height: the one integer `r`
    /// with `4 * r * r <= 3 * d * d < 4 * (r + 1) * (r + 1)`.
    pub fn height_floor(&self) -> (r: u32)
        requires
            self.wf(),
        ensures
            r == self.spec_height_floor(),
            4 * r * r <= 3 * self.spec_edge() * self.spec_edge(),
            3 * self.spec_edge() * self.spec_edge() < 4 * (r + 1) * (r + 1),
            r < self.spec_edge(),
    {
        let d: u64 = self.edge as u64;
        assert(3 * d * d <= 3 * 1_431_655_765 * 1_431_655_765) by (nonlinear_arith)
            requires
                0 <= d <= 1_431_655_765,
        ;
        let root: u64 = isqrt(3 * d * d / 4);
        proof {
            let r = root as int;
            let e = d as int;
            assert(r < e) by (nonlinear_arith)
                requires
                    0 <= r,
                    0 < e,
                    4 * (r * r) <= 3 * e * e,
            ;
            assert(4 * r * r == 4 * (r * r)) by (nonlinear_arith);
            assert(4 * (r + 1) * (r + 1) == 4 * ((r + 1) * (r + 1))) by (nonlinear_arith);
        }
        root as u32
    }
}

/// A square divisible by three is the square of a multiple of three.
proof fn lemma_square_divisible_by_three(n: int, third: int)
    requires
        0 <= n,
        n * n == 3 * third,
    ensures
        n % 3 == 0,
{
    let k = n / 3;
    let j = n % 3;
    let rest = 3 * k * k + 2 * k * j;
    assert(n * n == 3 * rest + j * j) by (nonlinear_arith)
        requires
            n == 3 * k + j,
            rest == 3 * k * k + 2 * k * j,
    ;
    if j == 1 {
        assert(j * j == 1);
        assert(3 * (third - rest) == 1);
    } else if j == 2 {
        assert(j * j == 4);
        assert(3 * (third - rest) == 4);
    }
}

/// Three times a positive square is never a square: `sqrt(3)` is irrational.
pub proof fn lemma_three_squares_is_no_square(root: int, edge: int)
    requires
        0 <= root,
        0 < edge,
    ensures
        root * root != 3 * edge * edge,
    decreases edge,
{
    if root * root == 3 * edge * edge {
        assert(3 * edge * edge == 3 * (edge * edge)) by (nonlinear_arith);
        lemma_square_divisible_by_three(root, edge * edge);
        let k = root / 3;
        assert(edge * edge == 3 * (k * k)) by (nonlinear_arith)
            requires
                root == 3 * k,
                root * root == 3 * edge * edge,
        ;
        lemma_square_divisible_by_three(edge, k * k);
        let m = edge / 3;
        assert(k * k == 3 * m * m) by (nonlinear_arith)
            requires
                edge == 3 * m,
                edge * edge == 3 * (k * k),
        ;
        lemma_three_squares_is_no_square(k, m);
    }
}

/// Twice the height is never a whole number of pixels: the block height
/// `floor(2 * h)` is strictly less than `2 * h`, and less than a pixel so.
pub proof fn lemma_block_height_is_rounded(unit: TriangleUnit)
    requires
        unit.wf(),
    ensures
        unit.spec_block_height() * unit.spec_block_height() < 3 * unit.spec_edge()
            * unit.spec_edge(),
        3 * unit.spec_edge() * unit.spec_edge() < (unit.spec_block_height() + 1) * (
        unit.spec_block_height() + 1),
{
    let d = unit.spec_edge();
    lemma_floor_sqrt_exists(3 * d * d);
    lemma_three_squares_is_no_square(unit.spec_block_height(), d);
}

} // verus!
