//! Integer plane geometry: positions, squared distances, integer square roots
//! and travel times.
use vstd::prelude::*;

verus! {

/// Largest coordinate a position in the arena may have.
pub const MAX_COORD: i64 = 16777216;

/// Largest speed (arena units per tick) an agent may have.
pub const MAX_SPEED: u64 = 65536;

/// A point of the arena.
#[derive(Clone, Copy, PartialEq, Eq, Structural, Debug)]
pub struct Pos {
    pub x: i64,
    pub y: i64,
}

impl Pos {
    /// Both coordinates lie in `[0, MAX_COORD]`.
    pub open spec fn in_range(&self) -> bool {
        0 <= self.x <= MAX_COORD && 0 <= self.y <= MAX_COORD
    }
}

/// The square of the Euclidean distance between two points.
pub open spec fn dist_sq(a: Pos, b: Pos) -> int {
    (a.x - b.x) * (a.x - b.x) + (a.y - b.y) * (a.y - b.y)
}

/// Squared distances of in-range points stay below this bound.
pub open spec fn dist_sq_bound() -> int {
    2 * (MAX_COORD as int) * (MAX_COORD as int)
}

proof fn lemma_square_le(a: int, b: int)
    requires
        0 <= a <= b,
    ensures
        a * a <= b * b,
{
    assert(a * a <= a * b) by (nonlinear_arith)
        requires
            0 <= a <= b,
    ;
    assert(a * b <= b * b) by (nonlinear_arith)
        requires
            0 <= a <= b,
    ;
}

proof fn lemma_square_lt(a: int, b: int)
    requires
        0 <= a < b,
    ensures
        a * a < b * b,
{
    assert(a * a < b * b) by (nonlinear_arith)
        requires
            0 <= a < b,
    ;
}

/// Squares order non-negative numbers as the numbers themselves.
pub proof fn lemma_square_monotone(a: int, b: int)
    requires
        0 <= a,
        0 <= b,
    ensures
        a <= b <==> a * a <= b * b,
        a < b <==> a * a < b * b,
{
    if a <= b {
        lemma_square_le(a, b);
        if a < b {
            lemma_square_lt(a, b);
        }
    } else {
        lemma_square_lt(b, a);
    }
}

proof fn lemma_dist_sq_bound(a: Pos, b: Pos)
    requires
        a.in_range(),
        b.in_range(),
    ensures
        0 <= dist_sq(a, b) <= dist_sq_bound(),
{
    let dx = a.x - b.x;
    let dy = a.y - b.y;
    let m = MAX_COORD as int;
    assert(0 <= dx * dx <= m * m) by (nonlinear_arith)
        requires
            -m <= dx <= m,
    ;
    assert(0 <= dy * dy <= m * m) by (nonlinear_arith)
        requires
            -m <= dy <= m,
    ;
}

/// The squared distance between two in-range points.
pub fn distance_sq(a: Pos, b: Pos) -> (r: u64)
    requires
        a.in_range(),
        b.in_range(),
    ensures
        r == dist_sq(a, b),
        r <= dist_sq_bound(),
{
    proof {
        lemma_dist_sq_bound(a, b);
    }
    let dx: i64 = a.x - b.x;
    let dy: i64 = a.y - b.y;
    let ux: u64 = if dx >= 0 { dx as u64 } else { (-dx) as u64 };
    let uy: u64 = if dy >= 0 { dy as u64 } else { (-dy) as u64 };
    proof {
        assert(ux * ux == dx * dx) by (nonlinear_arith)
            requires
                ux == dx || ux == -dx,
        ;
        assert(uy * uy == dy * dy) by (nonlinear_arith)
            requires
                uy == dy || uy == -dy,
        ;
    }
    ux * ux + uy * uy
}

/// `r` is the integer square root of `n`: the largest `r` with `r * r <= n`.
pub open spec fn is_isqrt(n: int, r: int) -> bool {
    0 <= r && r * r <= n < (r + 1) * (r + 1)
}

/// The integer square root (rounded down) of `n`.
pub fn isqrt(n: u64) -> (r: u64)
    ensures
        is_isqrt(n as int, r as int),
{
    let mut lo: u64 = 0;
    let mut hi: u64 = 4294967296;
    proof {
        assert(4294967296 * 4294967296 > n as int) by (nonlinear_arith);
    }
    while hi - lo > 1
        invariant
            lo < hi <= 4294967296,
            lo * lo <= n as int,
            (n as int) < hi * hi,
        decreases hi - lo,
    {
        let mid: u64 = lo + (hi - lo) / 2;
        proof {
            assert((mid as int) * (mid as int) <= 4294967296 * 4294967296) by (nonlinear_arith)
                requires
                    0 <= mid <= 4294967296,
            ;
        }
        let sq: u128 = (mid as u128) * (mid as u128);
        if sq <= n as u128 {
            lo = mid;
        } else {
            hi = mid;
        }
    }
    lo
}

/// The least `d` with `d * d >= n`: the square root of `n` rounded up.
pub fn ceil_sqrt(n: u64) -> (d: u64)
    ensures
        d * d >= n,
        d == 0 || (d - 1) * (d - 1) < n,
        d <= 4294967296,
{
    let r = isqrt(n);
    proof {
        assert(r <= 4294967295) by {
            if r > 4294967295 {
                lemma_square_le(4294967296, r as int);
                assert(4294967296 * 4294967296 > n as int) by (nonlinear_arith);
            }
        }
    }
    if (r as u128) * (r as u128) == n as u128 {
        proof {
            if r > 0 {
                lemma_square_lt(r - 1, r as int);
            }
        }
        r
    } else {
        r + 1
    }
}

/// `t` whole ticks at `speed` units per tick cover a distance whose square is
/// `d_sq`.
pub open spec fn covers(t: int, speed: int, d_sq: int) -> bool {
    (t * speed) * (t * speed) >= d_sq
}

/// The number of whole ticks needed to cover a distance at a speed.
pub open spec fn is_travel_ticks(d_sq: int, speed: int, t: int) -> bool {
    &&& 0 <= t
    &&& covers(t, speed, d_sq)
    &&& (t == 0 || !covers(t - 1, speed, d_sq))
}

/// The whole ticks needed to cover the distance whose square is `d_sq` at
/// `speed` units per tick.
pub open spec fn travel_time(d_sq: int, speed: int) -> int {
    choose|t: int| is_travel_ticks(d_sq, speed, t)
}

proof fn lemma_covers_monotone(t1: int, t2: int, speed: int, d_sq: int)
    requires
        0 <= t1 <= t2,
        speed >= 0,
        covers(t1, speed, d_sq),
    ensures
        covers(t2, speed, d_sq),
{
    assert(0 <= t1 * speed <= t2 * speed) by (nonlinear_arith)
        requires
            0 <= t1 <= t2,
            speed >= 0,
    ;
    lemma_square_le(t1 * speed, t2 * speed);
}

/// There is one number of ticks that covers a distance and no fewer do.
pub proof fn lemma_travel_ticks_unique(d_sq: int, speed: int, t: int)
    requires
        speed >= 0,
        is_travel_ticks(d_sq, speed, t),
    ensures
        travel_time(d_sq, speed) == t,
{
    let u = travel_time(d_sq, speed);
    assert(is_travel_ticks(d_sq, speed, u));
    if u < t {
        lemma_covers_monotone(u, t - 1, speed, d_sq);
    } else if t < u {
        lemma_covers_monotone(t, u - 1, speed, d_sq);
    }
}

/// The least number of ticks at `speed` units per tick that covers the
/// distance whose square is `d_sq`.
pub fn travel_ticks(d_sq: u64, speed: u64) -> (t: u64)
    requires
        speed > 0,
    ensures
        is_travel_ticks(d_sq as int, speed as int, t as int),
        t == travel_time(d_sq as int, speed as int),
        t <= 4294967296,
{
    let d = ceil_sqrt(d_sq);
    let t: u64 = d / speed + if d % speed == 0 { 0 } else { 1 };
    proof {
        let di = d as int;
        let s = speed as int;
        let ti = t as int;
        assert(ti * s >= di && (ti == 0 || (ti - 1) * s < di) && ti <= di) by (nonlinear_arith)
            requires
                s > 0,
                di >= 0,
                ti == di / s + if di % s == 0 { 0int } else { 1int },
        ;
        lemma_square_le(di, ti * s);
        if ti > 0 {
            assert((ti - 1) * s >= 0) by (nonlinear_arith)
                requires
                    ti >= 1,
                    s > 0,
            ;
            lemma_square_le((ti - 1) * s, di - 1);
        }
        lemma_travel_ticks_unique(d_sq as int, s, ti);
    }
    t
}

} // verus!
