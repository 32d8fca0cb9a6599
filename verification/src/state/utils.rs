//! 2D integer geometry: board locations, truncated Euclidean distance, and
//! the "move toward" primitive that advances a point along the vector to a
//! target.

use vstd::prelude::*;

verus! {

use vstd::math::abs;

/// A point on the 800 x 800 board. Coordinates of placed pieces stay within
/// `[0, 800]`; the operations below are nevertheless total over all of `u16`.
#[derive(Debug, Clone, Copy, PartialEq, Eq, Structural)]
pub struct Location {
    pub x: u16,
    pub y: u16,
}

/// Squared Euclidean distance between two locations.
pub open spec fn dist_sq(a: Location, b: Location) -> int {
    (b.x - a.x) * (b.x - a.x) + (b.y - a.y) * (b.y - a.y)
}

/// The integer square root: the greatest `r` with `r * r <= n`.
pub open spec fn sqrt_floor(n: int) -> int
    decreases n,
{
    if n <= 0 {
        0
    } else if (sqrt_floor(n - 1) + 1) * (sqrt_floor(n - 1) + 1) <= n {
        sqrt_floor(n - 1) + 1
    } else {
        sqrt_floor(n - 1)
    }
}

/// `sqrt_floor(n)` is indeed the floor of the square root of `n`.
pub proof fn lemma_sqrt_floor_bounds(n: int)
    requires
        n >= 0,
    ensures
        0 <= sqrt_floor(n),
        sqrt_floor(n) * sqrt_floor(n) <= n,
        n < (sqrt_floor(n) + 1) * (sqrt_floor(n) + 1),
    decreases n,
{
    if n > 0 {
        lemma_sqrt_floor_bounds(n - 1);
        let p = sqrt_floor(n - 1);
        if (p + 1) * (p + 1) <= n {
            assert(n < (p + 2) * (p + 2)) by (nonlinear_arith)
                requires
                    n - 1 < (p + 1) * (p + 1),
                    0 <= p,
            {
            }
        }
    }
}

/// Any `r` with `r * r <= n < (r + 1) * (r + 1)` equals `sqrt_floor(n)`.
pub proof fn lemma_sqrt_floor_unique(n: int, r: int)
    requires
        n >= 0,
        r >= 0,
        r * r <= n,
        n < (r + 1) * (r + 1),
    ensures
        r == sqrt_floor(n),
{
    lemma_sqrt_floor_bounds(n);
    let s = sqrt_floor(n);
    if r < s {
        assert((r + 1) * (r + 1) <= s * s) by (nonlinear_arith)
            requires
                0 <= r + 1 <= s,
        {
        }
    } else if s < r {
        assert((s + 1) * (s + 1) <= r * r) by (nonlinear_arith)
            requires
                0 <= s + 1 <= r,
        {
        }
    }
}

/// Integer square root by binary search, for inputs no larger than the
/// greatest possible squared distance between two `u16` points.
fn isqrt64(n: u64) -> (r: u64)
    requires
        n <= 0x2_0000_0000u64,
    ensures
        r == sqrt_floor(n as int),
{
    let mut lo: u64 = 0;
    let mut hi: u64 = 92682;
    assert(92682 * 92682 > 0x2_0000_0000);
    while lo + 1 < hi
        invariant
            lo < hi <= 92682,
            lo * lo <= n,
            n < hi * hi,
        decreases hi - lo,
    {
        let mid = lo + (hi - lo) / 2;
        assert(mid * mid <= 92682 * 92682) by (nonlinear_arith)
            requires
                0 <= mid <= 92682,
        {
        }
        if mid * mid <= n {
            lo = mid;
        } else {
            hi = mid;
        }
    }
    proof {
        lemma_sqrt_floor_unique(n as int, lo as int);
    }
    lo
}

/// The truncated Euclidean distance, saturated to `u16::MAX`. For points on
/// the board the saturation never applies.
pub open spec fn spec_distance(a: Location, b: Location) -> u16 {
    let s = sqrt_floor(dist_sq(a, b));
    if s > 65535 {
        65535u16
    } else {
        s as u16
    }
}

impl Location {
    /// Integer-truncated Euclidean distance to another location.
    pub fn distance(&self, to: &Location) -> (r: u16)
        ensures
            r == spec_distance(*self, *to),
    {
        let dx: u64 = if to.x >= self.x {
            (to.x - self.x) as u64
        } else {
            (self.x - to.x) as u64
        };
        let dy: u64 = if to.y >= self.y {
            (to.y - self.y) as u64
        } else {
            (self.y - to.y) as u64
        };
        assert(dx * dx + dy * dy == dist_sq(*self, *to)) by (nonlinear_arith)
            requires
                dx == if to.x >= self.x { to.x - self.x } else { self.x - to.x },
                dy == if to.y >= self.y { to.y - self.y } else { self.y - to.y },
        {
        }
        assert(dx * dx + dy * dy <= 0x2_0000_0000u64) by (nonlinear_arith)
            requires
                dx < 0x10000,
                dy < 0x10000,
        {
        }
        let s = isqrt64(dx * dx + dy * dy);
        proof {
            lemma_sqrt_floor_bounds(dist_sq(*self, *to));
        }
        if s > 65535 {
            65535
        } else {
            s as u16
        }
    }
}

/// Clamp an integer into the `u16` range, the saturating rule used whenever a
/// computed coordinate could leave the representable range.
pub open spec fn clamp_u16(v: int) -> u16 {
    if v < 0 {
        0u16
    } else if v > 65535 {
        65535u16
    } else {
        v as u16
    }
}

/// One coordinate of a move of length `amount` toward a target at distance
/// `d`: the floor of `from + (to - from) * amount / d`. Since the source
/// coordinate is an integer, this is the moved coordinate truncated; toward
/// a smaller target coordinate the step therefore subtracts the ceiling of
/// its fractional magnitude.
pub open spec fn axis_step(from: int, to: int, d: int, amount: int) -> int {
    from + (to - from) * amount / d
}

/// Negating a dividend turns a floor division by a positive divisor into a
/// negated ceiling division.
pub proof fn lemma_neg_div_is_neg_ceil(m: int, d: int)
    requires
        m >= 0,
        d > 0,
    ensures
        (-m) / d == -((m + d - 1) / d),
{
    let q = (m + d - 1) / d;
    let r = (m + d - 1) % d;
    vstd::arithmetic::div_mod::lemma_fundamental_div_mod(m + d - 1, d);
    vstd::arithmetic::div_mod::lemma_mod_pos_bound(m + d - 1, d);
    assert(m + d - 1 == d * q + r);
    assert(q * d - m == d - 1 - r) by (nonlinear_arith)
        requires
            m + d - 1 == d * q + r,
    {
    }
    assert(-m == (-q) * d + (q * d - m)) by (nonlinear_arith);
    vstd::arithmetic::div_mod::lemma_fundamental_div_mod_converse(-m, d, -q, q * d - m);
}

/// Where a point ends up after moving `amount` toward `b`, with `d` the
/// (precomputed) distance between the points.
pub open spec fn spec_move_towards(a: Location, b: Location, d: int, amount: int) -> Location {
    Location {
        x: clamp_u16(axis_step(a.x as int, b.x as int, d, amount)),
        y: clamp_u16(axis_step(a.y as int, b.y as int, d, amount)),
    }
}

/// A move that does not overshoot stays on the board: when the step length
/// is at most the distance to a target that itself lies within `[0, 800]`,
/// the moved point lies within `[0, 800]` as well. Every catalog unit moves
/// this way, since its speed is below its attack range and it only moves
/// while the target is out of range.
pub proof fn lemma_move_towards_stays_on_board(a: Location, b: Location, d: int, amount: int)
    requires
        0 < amount <= d,
        a.x <= 800 && a.y <= 800,
        b.x <= 800 && b.y <= 800,
    ensures
        spec_move_towards(a, b, d, amount).x <= 800,
        spec_move_towards(a, b, d, amount).y <= 800,
{
    lemma_axis_step_between(a.x as int, b.x as int, d, amount);
    lemma_axis_step_between(a.y as int, b.y as int, d, amount);
}

/// A non-overshooting coordinate step lands between the two coordinates.
proof fn lemma_axis_step_between(from: int, to: int, d: int, amount: int)
    requires
        0 < amount <= d,
        0 <= from,
        0 <= to,
    ensures
        axis_step(from, to, d, amount) >= if from <= to {
            from
        } else {
            to
        },
        axis_step(from, to, d, amount) <= if from <= to {
            to
        } else {
            from
        },
{
    if to >= from {
        assert(0 <= (to - from) * amount / d <= to - from) by (nonlinear_arith)
            requires
                0 < amount <= d,
                to >= from,
        {
        }
    } else {
        let m = (from - to) * amount;
        lemma_neg_div_is_neg_ceil(m, d);
        assert((to - from) * amount == -m) by (nonlinear_arith)
            requires
                m == (from - to) * amount,
        {
        }
        assert(0 <= m && m + d - 1 <= (from - to) * d + (d - 1)) by (nonlinear_arith)
            requires
                0 < amount <= d,
                from > to,
                m == (from - to) * amount,
        {
        }
        let q = (m + d - 1) / d;
        assert(q <= from - to) by {
            assert(((from - to) * d + (d - 1)) / d == from - to) by {
                assert((from - to) * d + (d - 1) == (from - to) * d + (d - 1)) by (nonlinear_arith);
                vstd::arithmetic::div_mod::lemma_fundamental_div_mod_converse(
                    (from - to) * d + (d - 1),
                    d,
                    from - to,
                    d - 1,
                );
            }
            vstd::arithmetic::div_mod::lemma_div_is_ordered(
                m + d - 1,
                (from - to) * d + (d - 1),
                d,
            );
        }
        assert(q >= 0) by {
            vstd::arithmetic::div_mod::lemma_div_is_ordered(0, m + d - 1, d);
        }
        assert(axis_step(from, to, d, amount) == from - q);
    }
}

/// One executable coordinate step; see `axis_step`.
fn axis_step_exec(from: u16, to: u16, d: u16, amount: u16) -> (r: u16)
    requires
        d > 0,
    ensures
        r == clamp_u16(axis_step(from as int, to as int, d as int, amount as int)),
{
    proof {
        assert(forall|a: u64, b: u64|
            a < 0x10000 && b < 0x10000 ==> #[trigger] (a * b) < 0x1_0000_0000) by (nonlinear_arith);
    }
    if to >= from {
        let delta = (to - from) as u64 * amount as u64 / d as u64;
        let val = from as u64 + delta;
        if val > 65535 {
            65535
        } else {
            val as u16
        }
    } else {
        // toward a smaller coordinate the truncation of the moved point
        // subtracts the ceiling of the fractional step
        let m = (from - to) as u64 * amount as u64;
        let delta = (m + d as u64 - 1) / d as u64;
        proof {
            lemma_neg_div_is_neg_ceil(m as int, d as int);
            assert((to - from) * amount == -(m as int)) by (nonlinear_arith)
                requires
                    m == (from - to) * amount,
                    to < from,
            {
            }
            assert(axis_step(from as int, to as int, d as int, amount as int) == from - delta);
        }
        if delta > from as u64 {
            0
        } else {
            (from as u64 - delta) as u16
        }
    }
}

impl Location {
    /// Advance this point `amount` units toward `to`, given the precomputed
    /// distance between the two points.
    pub fn move_towards(&self, to: &Location, precomputed_distance: u16, amount: u16) -> (r:
        Location)
        requires
            precomputed_distance > 0,
        ensures
            r == spec_move_towards(*self, *to, precomputed_distance as int, amount as int),
    {
        Location {
            x: axis_step_exec(self.x, to.x, precomputed_distance, amount),
            y: axis_step_exec(self.y, to.y, precomputed_distance, amount),
        }
    }

    /// The absolute value of the sum of the coordinate differences, reduced
    /// into `u16` range.
    pub fn grid_distance(&self, to: &Location) -> (r: u16)
        ensures
            r == (abs(to.x - self.x + to.y - self.y) % 0x10000) as u16,
    {
        let sum_to: u32 = to.x as u32 + to.y as u32;
        let sum_from: u32 = self.x as u32 + self.y as u32;
        let a: u32 = if sum_to >= sum_from {
            sum_to - sum_from
        } else {
            sum_from - sum_to
        };
        (a % 0x10000) as u16
    }
}

} // verus!
