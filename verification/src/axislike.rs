//! Two-dimensional axis samples in fixed-point units.

use vstd::prelude::*;

verus! {

/// The integer square root: the largest `r` with `r * r <= n`.
pub open spec fn isqrt_spec(n: nat) -> nat
    decreases n,
{
    if n == 0 {
        0
    } else {
        let r = isqrt_spec((n - 1) as nat);
        if (r + 1) * (r + 1) <= n {
            r + 1
        } else {
            r
        }
    }
}

/// `isqrt_spec(n)` squares to at most `n`, and the next integer squares to
/// more than `n`.
pub proof fn lemma_isqrt_spec_bounds(n: nat)
    ensures
        isqrt_spec(n) * isqrt_spec(n) <= n,
        (isqrt_spec(n) + 1) * (isqrt_spec(n) + 1) > n,
    decreases n,
{
    if n == 0 {
        let s = isqrt_spec(n);
        assert(s == 0);
        assert((s + 1) * (s + 1) == 1) by (nonlinear_arith)
            requires
                s == 0,
        ;
    } else {
        lemma_isqrt_spec_bounds((n - 1) as nat);
        let r = isqrt_spec((n - 1) as nat);
        assert(r * r <= n - 1 && (r + 1) * (r + 1) > n - 1);
        if (r + 1) * (r + 1) <= n {
            assert(isqrt_spec(n) == r + 1);
            assert(n == (r + 1) * (r + 1));
            assert((r + 2) * (r + 2) > (r + 1) * (r + 1)) by (nonlinear_arith);
        } else {
            assert(isqrt_spec(n) == r);
        }
    }
}

/// Any `r` whose square brackets `n` is the integer square root of `n`.
pub proof fn lemma_isqrt_unique(n: nat, r: nat)
    requires
        r * r <= n,
        (r + 1) * (r + 1) > n,
    ensures
        r == isqrt_spec(n),
{
    lemma_isqrt_spec_bounds(n);
    let s = isqrt_spec(n);
    if r < s {
        assert((r + 1) * (r + 1) <= s * s) by (nonlinear_arith)
            requires
                r + 1 <= s,
        ;
    }
    if s < r {
        assert((s + 1) * (s + 1) <= r * r) by (nonlinear_arith)
            requires
                s + 1 <= r,
        ;
    }
}

/// The integer square root of a `u64`, by bisection.
pub fn isqrt64(n: u64) -> (r: u64)
    ensures
        r == isqrt_spec(n as nat),
{
    let mut lo: u64 = 0;
    let mut hi: u64 = 0x1_0000_0000;
    while lo + 1 < hi
        invariant
            lo < hi <= 0x1_0000_0000,
            (lo as int) * (lo as int) <= n as int,
            (n as int) < (hi as int) * (hi as int),
        decreases hi - lo,
    {
        let mid = lo + (hi - lo) / 2;
        assert((mid as int) * (mid as int) < 0xffff_ffff_ffff_ffff) by (nonlinear_arith)
            requires
                mid < 0x1_0000_0000,
        ;
        let sq = mid * mid;
        if sq <= n {
            lo = mid;
        } else {
            hi = mid;
        }
    }
    proof {
        lemma_isqrt_unique(n as nat, lo as nat);
    }
    lo
}

/// A two-dimensional axis sample, in the fixed-point encoding where
/// [`crate::VALUE_SCALE`] stands for 1.0.
///
/// Sums of several contributing bindings are not clamped on construction;
/// the components may exceed one unit in magnitude.
#[derive(Clone, Copy, Debug, PartialEq, Eq, Hash)]
pub struct DualAxisData {
    /// The horizontal component.
    pub x: i32,
    /// The vertical component.
    pub y: i32,
}

impl DualAxisData {
    /// The magnitude of the sample: the integer square root of
    /// `x * x + y * y`, in the same fixed-point units as the components.
    pub open spec fn spec_length(self) -> int {
        isqrt_spec(((self.x as int) * (self.x as int) + (self.y as int) * (self.y as int)) as nat) as int
    }

    /// A sample from its two components.
    pub fn new(x: i32, y: i32) -> (r: Self)
        ensures
            r == (DualAxisData { x, y }),
    {
        DualAxisData { x, y }
    }

    /// A sample from a component pair.
    pub fn from_xy(xy: (i32, i32)) -> (r: Self)
        ensures
            r == (DualAxisData { x: xy.0, y: xy.1 }),
    {
        DualAxisData { x: xy.0, y: xy.1 }
    }

    /// The horizontal component.
    pub fn x(&self) -> (r: i32)
        ensures
            r == self.x,
    {
        self.x
    }

    /// The vertical component.
    pub fn y(&self) -> (r: i32)
        ensures
            r == self.y,
    {
        self.y
    }

    /// Both components as a pair.
    pub fn xy(&self) -> (r: (i32, i32))
        ensures
            r == (self.x, self.y),
    {
        (self.x, self.y)
    }

    /// The magnitude of the sample; see [`DualAxisData::spec_length`].
    pub fn length(&self) -> (r: i64)
        ensures
            r == self.spec_length(),
    {
        let ax: i64 = if self.x < 0 {
            -(self.x as i64)
        } else {
            self.x as i64
        };
        let ay: i64 = if self.y < 0 {
            -(self.y as i64)
        } else {
            self.y as i64
        };
        assert((ax as int) * (ax as int) == (self.x as int) * (self.x as int)) by (nonlinear_arith)
            requires
                ax == self.x as int || ax == -(self.x as int),
        ;
        assert((ay as int) * (ay as int) == (self.y as int) * (self.y as int)) by (nonlinear_arith)
            requires
                ay == self.y as int || ay == -(self.y as int),
        ;
        assert((ax as int) * (ax as int) <= 0x4000_0000_0000_0000int
            && (ay as int) * (ay as int) <= 0x4000_0000_0000_0000int) by (nonlinear_arith)
            requires
                0 <= ax <= 0x8000_0000i64,
                0 <= ay <= 0x8000_0000i64,
        ;
        let sq: u64 = (ax as u64) * (ax as u64) + (ay as u64) * (ay as u64);
        let r = isqrt64(sq);
        proof {
            lemma_isqrt_spec_bounds(sq as nat);
            assert(r < 0x1_0000_0000) by (nonlinear_arith)
                requires
                    (r as int) * (r as int) <= sq as int,
                    sq <= 0xffff_ffff_ffff_ffffu64,
            ;
        }
        r as i64
    }
}

} // verus!
