//! Movement: stepping toward or away from a point, walking, and wrapping
//! round the arena's edges.
use vstd::prelude::*;
use rand::rngs::StdRng;
use crate::body::Body;
use crate::geometry::{Pos, MAX_COORD, MAX_SPEED, ceil_sqrt, dist_sq, distance_sq, isqrt, is_isqrt};
use crate::grid::Grid;
use crate::random::draw_below;

verus! {

/// The gap kept from an edge when a position wraps round to the other side.
pub const MIN_GAP: i64 = 1;

/// `q` is where a body at `p` ends moving `s` straight away from `from`,
/// wrapped round the arena's edges (only wrapped when `from` is `p`).
pub open spec fn fled_to(p: Pos, from: Pos, s: int, g: Grid, q: Pos) -> bool {
    let d = ceil_sqrt_spec(dist_sq(p, from));
    &&& d > 0 ==> q.x == wrapped(p.x - scaled(from.x - p.x, s, d), g.width as int)
        && q.y == wrapped(p.y - scaled(from.y - p.y, s, d), g.height as int)
    &&& d == 0 ==> q.x == wrapped(p.x as int, g.width as int) && q.y == wrapped(p.y as int, g.height as int)
}

/// A coordinate wrapped round an edge of length `size`: at or past the far
/// edge it goes to `MIN_GAP`, at or before zero to `size - MIN_GAP`.
pub open spec fn wrapped(v: int, size: int) -> int {
    if v >= size {
        MIN_GAP as int
    } else if v <= 0 {
        size - MIN_GAP
    } else {
        v
    }
}

/// `delta * speed / dist`, rounded toward zero.
pub open spec fn scaled(delta: int, speed: int, dist: int) -> int {
    if delta >= 0 {
        delta * speed / dist
    } else {
        -((-delta) * speed / dist)
    }
}

fn wrap_coord(v: i64, size: i64) -> (r: i64)
    requires
        1 <= size <= MAX_COORD,
    ensures
        r == wrapped(v as int, size as int),
        0 <= r <= size,
{
    if v >= size {
        MIN_GAP
    } else if v <= 0 {
        size - MIN_GAP
    } else {
        v
    }
}

/// A position wrapped round the arena's edges.
pub fn wrap_pos(g: &Grid, x: i64, y: i64) -> (p: Pos)
    requires
        g.wf(),
    ensures
        p.x == wrapped(x as int, g.width as int),
        p.y == wrapped(y as int, g.height as int),
        g.contains(p),
        p.in_range(),
{
    Pos { x: wrap_coord(x, g.width), y: wrap_coord(y, g.height) }
}

fn scale(delta: i64, speed: u64, dist: u64) -> (r: i64)
    requires
        -2 * MAX_COORD <= delta <= 2 * MAX_COORD,
        speed <= MAX_SPEED,
        dist > 0,
    ensures
        r == scaled(delta as int, speed as int, dist as int),
        speed <= dist ==> -(if delta >= 0 { delta as int } else { -delta }) <= r <= (if delta >= 0 { delta as int } else { -delta }),
        -(2 * MAX_COORD * MAX_SPEED) <= r <= 2 * MAX_COORD * MAX_SPEED,
{
    let a: u64 = if delta >= 0 { delta as u64 } else { (-delta) as u64 };
    proof {
        assert(0 <= a * speed <= 2 * MAX_COORD * MAX_SPEED) by (nonlinear_arith)
            requires
                0 <= a <= 2 * MAX_COORD,
                0 <= speed <= MAX_SPEED,
        ;
        assert(a * speed / (dist as int) <= a * speed) by (nonlinear_arith)
            requires
                a * speed >= 0,
                dist >= 1,
        ;
        if speed <= dist {
            assert(a * speed / (dist as int) <= a) by (nonlinear_arith)
                requires
                    a >= 0,
                    0 <= speed <= dist,
                    dist >= 1,
            ;
        }
    }
    let m = (a * speed / dist) as i64;
    if delta >= 0 { m } else { -m }
}

/// The position a body reaches moving `speed` toward `target`, when the
/// target lies farther than `speed`: each coordinate moves by
/// `delta * speed / dist`, rounded toward zero, where `dist` is the distance
/// rounded up.
pub open spec fn toward(pos: Pos, target: Pos, speed: int) -> Pos {
    let d = ceil_sqrt_spec(dist_sq(pos, target));
    Pos {
        x: (pos.x + scaled(target.x - pos.x, speed, d)) as i64,
        y: (pos.y + scaled(target.y - pos.y, speed, d)) as i64,
    }
}

/// `d` is the square root of `n` rounded up.
pub open spec fn is_ceil_sqrt(n: int, d: int) -> bool {
    d >= 0 && d * d >= n && (d == 0 || (d - 1) * (d - 1) < n)
}

/// The square root of `n` rounded up.
pub open spec fn ceil_sqrt_spec(n: int) -> int {
    choose|d: int| is_ceil_sqrt(n, d)
}

proof fn lemma_ceil_sqrt_unique(n: int, d: int)
    requires
        d >= 0,
        d * d >= n,
        d == 0 || (d - 1) * (d - 1) < n,
    ensures
        ceil_sqrt_spec(n) == d,
{
    assert(is_ceil_sqrt(n, d));
    let e = ceil_sqrt_spec(n);
    assert(is_ceil_sqrt(n, e));
    if e < d {
        assert(e * e <= (d - 1) * (d - 1)) by (nonlinear_arith)
            requires
                0 <= e <= d - 1,
        ;
    } else if d < e {
        assert(d * d <= (e - 1) * (e - 1)) by (nonlinear_arith)
            requires
                0 <= d <= e - 1,
        ;
    }
}

fn exact_ceil_sqrt(n: u64) -> (d: u64)
    ensures
        d == ceil_sqrt_spec(n as int),
        d * d >= n,
        d > 0 <==> n > 0,
{
    let d = ceil_sqrt(n);
    proof {
        lemma_ceil_sqrt_unique(n as int, d as int);
        if n > 0 && d == 0 {
            assert(d * d == 0);
        }
    }
    d
}

impl Body {
    /// Moves `speed` toward `target`, which lies farther away than `speed`.
    pub fn step_toward(&mut self, g: &Grid, target: Pos)
        requires
            g.wf(),
            old(self).wf(),
            g.contains(old(self).pos),
            g.contains(target),
            dist_sq(old(self).pos, target) > old(self).speed * old(self).speed,
        ensures
            final(self).wf(),
            g.contains(final(self).pos),
            final(self).pos == toward(old(self).pos, target, old(self).speed as int),
            *final(self) == (Body { pos: final(self).pos, ..*old(self) }),
    {
        let d_sq = distance_sq(self.pos, target);
        let d = exact_ceil_sqrt(d_sq);
        proof {
            let s = self.speed as int;
            assert(s * s >= 0) by (nonlinear_arith);
            if s > d {
                assert(d * d < s * s) by (nonlinear_arith)
                    requires
                        0 <= d < s,
                ;
                assert((s - 1) * (s - 1) >= d * d) by (nonlinear_arith)
                    requires
                        0 <= d <= s - 1,
                ;
            }
            assert(s <= d);
        }
        let dx = scale(target.x - self.pos.x, self.speed, d);
        let dy = scale(target.y - self.pos.y, self.speed, d);
        self.pos = Pos { x: self.pos.x + dx, y: self.pos.y + dy };
    }

    /// Moves `speed` straight away from `from`, wrapping round the arena's
    /// edges; stays put (but wraps) when `from` is its own position.
    pub fn step_away(&mut self, g: &Grid, from: Pos)
        requires
            g.wf(),
            old(self).wf(),
            g.contains(old(self).pos),
            from.in_range(),
        ensures
            final(self).wf(),
            g.contains(final(self).pos),
            fled_to(old(self).pos, from, old(self).speed as int, *g, final(self).pos),
            *final(self) == (Body { pos: final(self).pos, ..*old(self) }),
    {
        let d_sq = distance_sq(self.pos, from);
        let d = exact_ceil_sqrt(d_sq);
        if d == 0 {
            self.pos = wrap_pos(g, self.pos.x, self.pos.y);
            return;
        }
        let dx = scale(from.x - self.pos.x, self.speed, d);
        let dy = scale(from.y - self.pos.y, self.speed, d);
        self.pos = wrap_pos(g, self.pos.x - dx, self.pos.y - dy);
    }

    /// Wraps the position round the arena's edges.
    pub fn wrap(&mut self, g: &Grid)
        requires
            g.wf(),
            old(self).wf(),
        ensures
            final(self).wf(),
            g.contains(final(self).pos),
            final(self).pos.x == wrapped(old(self).pos.x as int, g.width as int),
            final(self).pos.y == wrapped(old(self).pos.y as int, g.height as int),
            *final(self) == (Body { pos: final(self).pos, ..*old(self) }),
    {
        self.pos = wrap_pos(g, self.pos.x, self.pos.y);
    }

    /// Moves by a fixed step, wrapping round the arena's edges.
    pub fn walk(&mut self, g: &Grid, step: Pos)
        requires
            g.wf(),
            old(self).wf(),
            -MAX_COORD <= step.x <= MAX_COORD,
            -MAX_COORD <= step.y <= MAX_COORD,
        ensures
            final(self).wf(),
            g.contains(final(self).pos),
            final(self).pos.x == wrapped(old(self).pos.x + step.x, g.width as int),
            final(self).pos.y == wrapped(old(self).pos.y + step.y, g.height as int),
            *final(self) == (Body { pos: final(self).pos, ..*old(self) }),
    {
        self.pos = wrap_pos(g, self.pos.x + step.x, self.pos.y + step.y);
    }
}

/// A step of length about `speed` in the direction picked by `across`
/// (taken into `[0, 2 * speed]`) and `downward`: across by
/// `across - speed`, and down or up by the rest of the length.
pub open spec fn is_walking_step(speed: int, across: int, downward: bool, step: Pos) -> bool {
    let a = if across > 2 * speed { 2 * speed } else { across };
    &&& step.x == a - speed
    &&& is_isqrt(speed * speed - step.x * step.x, if downward { step.y as int } else { -step.y })
}

/// The step of a walk at `speed` in the direction given by `across` and
/// `downward`.
pub fn walking_step(speed: u64, across: u64, downward: bool) -> (step: Pos)
    requires
        speed <= MAX_SPEED,
    ensures
        is_walking_step(speed as int, across as int, downward, step),
        -MAX_COORD <= step.x <= MAX_COORD,
        -MAX_COORD <= step.y <= MAX_COORD,
{
    let a = if across > 2 * speed { 2 * speed } else { across };
    let x = a as i64 - speed as i64;
    let ax: u64 = if x >= 0 { x as u64 } else { (-x) as u64 };
    proof {
        assert(ax * ax <= speed * speed) by (nonlinear_arith)
            requires
                0 <= ax <= speed,
        ;
        assert(speed * speed <= MAX_SPEED * MAX_SPEED) by (nonlinear_arith)
            requires
                0 <= speed <= MAX_SPEED,
        ;
        assert(ax * ax == x * x) by (nonlinear_arith)
            requires
                ax == x || ax == -x,
        ;
    }
    let h = isqrt(speed * speed - ax * ax);
    proof {
        if h > speed {
            assert(speed * speed < h * h) by (nonlinear_arith)
                requires
                    0 <= speed < h,
            ;
        }
    }
    let y = if downward { h as i64 } else { -(h as i64) };
    Pos { x, y }
}

/// A random walking step of length about `speed`.
pub fn random_walking_step(speed: u64, rng: &mut StdRng) -> (step: Pos)
    requires
        speed <= MAX_SPEED,
    ensures
        exists|across: int, downward: bool| is_walking_step(speed as int, across, downward, step),
        -MAX_COORD <= step.x <= MAX_COORD,
        -MAX_COORD <= step.y <= MAX_COORD,
{
    let across = draw_below(rng, 2 * speed + 1);
    let downward = draw_below(rng, 2) == 1;
    walking_step(speed, across, downward)
}

} // verus!
