//! The visibility query: every entity of a store within a radius of a point,
//! with the cells that cannot meet the circle pruned by the grid.
use vstd::prelude::*;
use vstd::arithmetic::div_mod::{lemma_div_is_ordered, lemma_fundamental_div_mod, lemma_mod_pos_bound};
use crate::geometry::{Pos, MAX_COORD, dist_sq, distance_sq, isqrt, lemma_square_monotone};
use crate::grid::Grid;
use crate::store::{Located, SpatialStore};

verus! {

/// The point `p` lies within distance `r` of `origin`.
pub open spec fn within(p: Pos, origin: Pos, r: int) -> bool {
    dist_sq(p, origin) <= r * r
}

/// Slot `(i, j, s)` of the store holds an entity within distance `r` of
/// `origin`.
pub open spec fn sees<T: Located>(store: &SpatialStore<T>, origin: Pos, r: int, i: int, j: int, s: int) -> bool {
    store.has_slot(i, j, s) && within(store.item(i, j, s).location(), origin, r)
}

proof fn lemma_div_bounds(y: int, h: int)
    requires
        y >= 0,
        h > 0,
    ensures
        y / h >= 0,
        (y / h) * h <= y < (y / h + 1) * h,
{
    lemma_fundamental_div_mod(y, h);
    lemma_mod_pos_bound(y, h);
    let q = y / h;
    assert(q >= 0 && q * h <= y < (q + 1) * h) by (nonlinear_arith)
        requires
            y == h * q + y % h,
            0 <= y % h < h,
            h > 0,
            y >= 0,
    ;
}

proof fn lemma_row_monotone(g: Grid, y1: int, y2: int)
    requires
        g.wf(),
        y1 <= y2,
    ensures
        g.row_of(y1) <= g.row_of(y2),
{
    if y1 >= 0 {
        lemma_div_is_ordered(y1, y2, g.cell_height as int);
    }
    if y2 >= 0 {
        lemma_div_bounds(y2, g.cell_height as int);
    }
}

proof fn lemma_col_monotone(g: Grid, x1: int, x2: int)
    requires
        g.wf(),
        x1 <= x2,
    ensures
        g.col_of(x1) <= g.col_of(x2),
{
    if x1 >= 0 {
        lemma_div_is_ordered(x1, x2, g.cell_width as int);
    }
    if x2 >= 0 {
        lemma_div_bounds(x2, g.cell_width as int);
    }
}

/// A point of the arena lies inside the closed rectangle of its cell.
proof fn lemma_in_cell_rect(g: Grid, p: Pos)
    requires
        g.wf(),
        g.contains(p),
    ensures
        g.row_of(p.y as int) * g.cell_height <= p.y <= (g.row_of(p.y as int) + 1) * g.cell_height,
        g.col_of(p.x as int) * g.cell_width <= p.x <= (g.col_of(p.x as int) + 1) * g.cell_width,
        g.row_of(p.y as int) < g.rows - 1 ==> p.y < (g.row_of(p.y as int) + 1) * g.cell_height,
{
    let h = g.cell_height as int;
    let w = g.cell_width as int;
    lemma_div_bounds(p.y as int, h);
    lemma_div_bounds(p.x as int, w);
    let qy = (p.y as int) / h;
    let qx = (p.x as int) / w;
    if qy >= g.rows {
        let i = g.rows - 1;
        assert(i * h <= qy * h) by (nonlinear_arith)
            requires
                0 <= i <= qy,
                h > 0,
        ;
        assert((i + 1) * h == g.rows * h);
    }
    if qx >= g.columns {
        let j = g.columns - 1;
        assert(j * w <= qx * w) by (nonlinear_arith)
            requires
                0 <= j <= qx,
                w > 0,
        ;
        assert((j + 1) * w == g.columns * w);
    }
}

proof fn lemma_abs_sq(u: int)
    ensures
        (if u >= 0 { u } else { -u }) * (if u >= 0 { u } else { -u }) == u * u,
{
    assert((-u) * (-u) == u * u) by (nonlinear_arith);
}

proof fn lemma_sq_abs_le(u: int, v: int)
    requires
        -v <= u <= v,
    ensures
        u * u <= v * v,
{
    if u >= 0 {
        lemma_square_monotone(u, v);
    } else {
        lemma_square_monotone(-u, v);
        assert((-u) * (-u) == u * u) by (nonlinear_arith);
    }
}

proof fn lemma_abs_le_of_sq(u: int, v: int)
    requires
        v >= 0,
        u * u <= v * v,
    ensures
        -v <= u <= v,
{
    if u >= 0 {
        lemma_square_monotone(u, v);
    } else {
        lemma_square_monotone(-u, v);
        assert((-u) * (-u) == u * u) by (nonlinear_arith);
    }
}

/// The square of a coordinate difference.
fn sq(v: i64) -> (r: i64)
    requires
        -4 * MAX_COORD <= v <= 4 * MAX_COORD,
    ensures
        r == v * v,
        0 <= r <= 16 * MAX_COORD * MAX_COORD,
{
    proof {
        assert(0 <= v * v <= 16 * MAX_COORD * MAX_COORD) by (nonlinear_arith)
            requires
                -4 * MAX_COORD <= v <= 4 * MAX_COORD,
        ;
    }
    v * v
}

/// The columns of row `i` that the circle of radius `r` around `origin` can
/// meet: `None` when it meets no point of the row.
fn row_span(g: &Grid, origin: Pos, r: i64, i: usize, ci: usize) -> (res: Option<(usize, usize)>)
    requires
        g.wf(),
        g.contains(origin),
        0 <= r <= MAX_COORD,
        i < g.rows,
        ci == g.row_of(origin.y as int),
    ensures
        res matches Some(span) ==> span.0 <= span.1 < g.columns,
        forall|p: Pos|
            g.contains(p) && g.row_of(p.y as int) == i && #[trigger] within(p, origin, r as int)
                ==> (res matches Some(span) && span.0 <= g.col_of(p.x as int) <= span.1),
{
    let a = origin.x;
    let b = origin.y;
    let h = g.cell_height;
    if i == ci {
        let lo = g.column_index(a - r);
        let hi = g.column_index(a + r);
        proof {
            lemma_col_monotone(*g, a - r, a + r);
            assert forall|p: Pos|
                g.contains(p) && g.row_of(p.y as int) == i && #[trigger] within(p, origin, r as int)
                    implies lo <= g.col_of(p.x as int) <= hi by {
                let dx = p.x - a;
                let dy = p.y - b;
                assert(dx * dx <= r * r) by (nonlinear_arith)
                    requires
                        dx * dx + dy * dy <= r * r,
                ;
                lemma_abs_le_of_sq(dx, r as int);
                lemma_col_monotone(*g, a - r, p.x as int);
                lemma_col_monotone(*g, p.x as int, a + r);
            }
        }
        return Some((lo, hi));
    }
    let ii = i as i64;
    proof {
        assert(0 <= ii * h && (ii + 1) * h <= g.rows * h && ii * h + h == (ii + 1) * h) by (nonlinear_arith)
            requires
                0 <= ii < g.rows,
                h > 0,
        ;
        assert(g.rows * h < g.height + h) by (nonlinear_arith)
            requires
                (g.rows - 1) * h < g.height,
        ;
    }
    let edge: i64 = if i < ci { (ii + 1) * h } else { ii * h };
    let dy_e: i64 = edge - b;
    let dy_sq = sq(dy_e);
    let r_sq = sq(r);
    if r_sq < dy_sq {
        proof {
            assert forall|p: Pos|
                g.contains(p) && g.row_of(p.y as int) == i && #[trigger] within(p, origin, r as int)
                    implies false by {
                lemma_row_edge(*g, origin, p, i as int, ci as int, edge as int);
                let dx = p.x - a;
                let dy = p.y - b;
                assert(dx * dx >= 0) by (nonlinear_arith);
                lemma_sq_abs_le(dy_e as int, if dy >= 0 { dy } else { -dy });
                lemma_abs_sq(dy);
            }
        }
        return None;
    }
    let half_u = isqrt((r_sq - dy_sq) as u64);
    proof {
        assert(half_u <= r) by {
            if half_u > r {
                lemma_square_monotone(r as int, half_u as int);
            }
        }
    }
    let half = half_u as i64;
    let lo = g.column_index(a - half);
    let hi = g.column_index(a + half);
    proof {
        lemma_col_monotone(*g, a - half, a + half);
        assert forall|p: Pos|
            g.contains(p) && g.row_of(p.y as int) == i && #[trigger] within(p, origin, r as int)
                implies lo <= g.col_of(p.x as int) <= hi by {
            lemma_row_edge(*g, origin, p, i as int, ci as int, edge as int);
            let dx = p.x - a;
            let dy = p.y - b;
            let ady = if dy >= 0 { dy } else { -dy };
            lemma_sq_abs_le(dy_e as int, ady);
            lemma_abs_sq(dy);
            assert(dx * dx <= r * r - dy_e * dy_e);
            let adx = if dx >= 0 { dx } else { -dx };
            lemma_abs_sq(dx);
            if adx > half {
                lemma_square_monotone(half + 1, adx);
            }
            lemma_col_monotone(*g, a - half, p.x as int);
            lemma_col_monotone(*g, p.x as int, a + half);
        }
    }
    Some((lo, hi))
}

/// A point of a row other than the centre's row is at least as far, across
/// rows, from the centre as the row's edge nearest to it.
proof fn lemma_row_edge(g: Grid, origin: Pos, p: Pos, i: int, ci: int, edge: int)
    requires
        g.wf(),
        g.contains(origin),
        g.contains(p),
        g.row_of(p.y as int) == i,
        ci == g.row_of(origin.y as int),
        i != ci,
        edge == if i < ci { (i + 1) * g.cell_height } else { i * g.cell_height },
    ensures
        -(p.y - origin.y) >= -(edge - origin.y) >= 0 || p.y - origin.y >= edge - origin.y >= 0,
{
    let h = g.cell_height as int;
    lemma_in_cell_rect(g, p);
    lemma_in_cell_rect(g, origin);
    lemma_div_bounds(origin.y as int, h);
    lemma_div_bounds(p.y as int, h);
    if i < ci {
        assert((i + 1) * h <= ci * h) by (nonlinear_arith)
            requires
                i + 1 <= ci,
                h > 0,
        ;
        assert(p.y < (i + 1) * h);
    } else {
        assert((ci + 1) * h <= i * h) by (nonlinear_arith)
            requires
                ci + 1 <= i,
                h > 0,
        ;
        assert(origin.y < (ci + 1) * h);
    }
}

/// Whether the cell `(i, j)` lies wholly inside the circle of radius `r`
/// around `origin`, judged by its corner farthest from the centre.
fn fully_covered(g: &Grid, origin: Pos, r: i64, i: usize, j: usize) -> (res: bool)
    requires
        g.wf(),
        g.contains(origin),
        0 <= r <= MAX_COORD,
        i < g.rows,
        j < g.columns,
    ensures
        res ==> forall|p: Pos|
            g.contains(p) && g.row_of(p.y as int) == i && g.col_of(p.x as int) == j
                ==> #[trigger] within(p, origin, r as int),
{
    let a = origin.x;
    let b = origin.y;
    let w = g.cell_width;
    let h = g.cell_height;
    let ii = i as i64;
    let jj = j as i64;
    proof {
        assert(ii * h <= (g.rows - 1) * h && jj * w <= (g.columns - 1) * w) by (nonlinear_arith)
            requires
                0 <= ii <= g.rows - 1,
                0 <= jj <= g.columns - 1,
                h > 0,
                w > 0,
        ;
    }
    let x0 = jj * w;
    let y0 = ii * h;
    let cx: i64 = if 2 * x0 + w > 2 * a { x0 + w } else { x0 };
    let cy: i64 = if 2 * y0 + h > 2 * b { y0 + h } else { y0 };
    let res = sq(cx - a) + sq(cy - b) < sq(r);
    proof {
        if res {
            assert forall|p: Pos|
                g.contains(p) && g.row_of(p.y as int) == i && g.col_of(p.x as int) == j
                    implies #[trigger] within(p, origin, r as int) by {
                lemma_in_cell_rect(*g, p);
                assert((jj + 1) * w == x0 + w && (ii + 1) * h == y0 + h) by (nonlinear_arith)
                    requires
                        x0 == jj * w,
                        y0 == ii * h,
                ;
                let dx = p.x - a;
                let dy = p.y - b;
                let ex = cx - a;
                let ey = cy - b;
                let aex = if ex >= 0 { ex } else { -ex };
                let aey = if ey >= 0 { ey } else { -ey };
                lemma_sq_abs_le(dx, aex);
                lemma_sq_abs_le(dy, aey);
                lemma_abs_sq(ex);
                lemma_abs_sq(ey);
            }
        }
    }
    res
}

/// Every slot of the store whose entity lies within distance `r` of
/// `origin`, as `(row, column, slot)`. Cells that the circle cannot meet are
/// skipped; the entities of a cell wholly inside the circle are taken without
/// a distance test.
pub fn visible<T: Located>(g: &Grid, store: &SpatialStore<T>, origin: Pos, r: i64) -> (res: Vec<(usize, usize, usize)>)
    requires
        g.wf(),
        store.wf(*g),
        g.contains(origin),
        0 <= r <= MAX_COORD,
    ensures
        forall|t: (usize, usize, usize)|
            res@.contains(t) <==> sees(store, origin, r as int, t.0 as int, t.1 as int, t.2 as int),
{
    let a = origin.x;
    let b = origin.y;
    let i_lo = g.row_index(b - r);
    let i_hi = g.row_index(b + r);
    let ci = g.row_index(b);
    let r_sq = sq(r);
    proof {
        lemma_row_monotone(*g, b - r, b + r);
        assert forall|t: (usize, usize, usize)|
            sees(store, origin, r as int, t.0 as int, t.1 as int, t.2 as int) implies i_lo <= t.0 <= i_hi by {
            assert(store.has_slot(t.0 as int, t.1 as int, t.2 as int));
            let p = store.item(t.0 as int, t.1 as int, t.2 as int).location();
            let dx = p.x - a;
            let dy = p.y - b;
            assert(dy * dy <= r * r) by (nonlinear_arith)
                requires
                    dx * dx + dy * dy <= r * r,
            ;
            lemma_abs_le_of_sq(dy, r as int);
            lemma_row_monotone(*g, b - r, p.y as int);
            lemma_row_monotone(*g, p.y as int, b + r);
        }
    }
    let mut res: Vec<(usize, usize, usize)> = Vec::new();
    let mut i = i_lo;
    while i <= i_hi
        invariant
            g.wf(),
            store.wf(*g),
            g.contains(origin),
            0 <= r <= MAX_COORD,
            i_lo <= i <= i_hi + 1,
            i_hi < g.rows,
            ci == g.row_of(b as int),
            r_sq == r * r,
            a == origin.x,
            b == origin.y,
            forall|t: (usize, usize, usize)|
                sees(store, origin, r as int, t.0 as int, t.1 as int, t.2 as int) ==> i_lo <= t.0 <= i_hi,
            forall|t: (usize, usize, usize)|
                res@.contains(t) <==> sees(store, origin, r as int, t.0 as int, t.1 as int, t.2 as int) && t.0 < i,
        decreases i_hi + 1 - i,
    {
        let span = row_span(g, origin, r, i, ci);
        proof {
            assert forall|t: (usize, usize, usize)|
                sees(store, origin, r as int, t.0 as int, t.1 as int, t.2 as int) && t.0 == i implies
                    (span matches Some(sp) && sp.0 <= t.1 <= sp.1) by {
                let p = store.item(t.0 as int, t.1 as int, t.2 as int).location();
                assert(store.has_slot(t.0 as int, t.1 as int, t.2 as int));
                assert(within(p, origin, r as int));
            }
        }
        match span {
            None => {},
            Some((lo, hi)) => {
                let mut j = lo;
                while j <= hi
                    invariant
                        g.wf(),
                        store.wf(*g),
                        g.contains(origin),
                        0 <= r <= MAX_COORD,
                        i_lo <= i <= i_hi,
                        i_hi < g.rows,
                        lo <= j <= hi + 1,
                        hi < g.columns,
                        r_sq == r * r,
                        forall|t: (usize, usize, usize)|
                            sees(store, origin, r as int, t.0 as int, t.1 as int, t.2 as int) && t.0 == i ==> lo <= t.1 <= hi,
                        forall|t: (usize, usize, usize)|
                            res@.contains(t) <==> sees(store, origin, r as int, t.0 as int, t.1 as int, t.2 as int)
                                && (t.0 < i || (t.0 == i && t.1 < j)),
                    decreases hi + 1 - j,
                {
                    let covered = fully_covered(g, origin, r, i, j);
                    let bag = &store.bags[i][j];
                    let mut s: usize = 0;
                    while s < bag.len()
                        invariant
                            g.wf(),
                            store.wf(*g),
                            i < g.rows,
                            j < g.columns,
                            bag@ == store.bags@[i as int]@[j as int]@,
                            r_sq == r * r,
                            s <= bag@.len(),
                            0 <= r <= MAX_COORD,
                            g.contains(origin),
                            covered ==> forall|p: Pos|
                                g.contains(p) && g.row_of(p.y as int) == i && g.col_of(p.x as int) == j
                                    ==> #[trigger] within(p, origin, r as int),
                            forall|t: (usize, usize, usize)|
                                res@.contains(t) <==> sees(store, origin, r as int, t.0 as int, t.1 as int, t.2 as int)
                                    && (t.0 < i || (t.0 == i && t.1 < j) || (t.0 == i && t.1 == j && t.2 < s)),
                        decreases bag@.len() - s,
                    {
                        let p = bag[s].pos();
                        proof {
                            assert(store.has_slot(i as int, j as int, s as int));
                        }
                        let take = covered || distance_sq(p, origin) <= r_sq as u64;
                        proof {
                            assert(store.item(i as int, j as int, s as int) == bag@[s as int]);
                            assert(take == within(p, origin, r as int));
                            assert(take == sees(store, origin, r as int, i as int, j as int, s as int));
                        }
                        let ghost prev = res@;
                        if take {
                            res.push((i, j, s));
                        }
                        proof {
                            assert forall|t: (usize, usize, usize)|
                                res@.contains(t) <==> sees(store, origin, r as int, t.0 as int, t.1 as int, t.2 as int)
                                    && (t.0 < i || (t.0 == i && t.1 < j) || (t.0 == i && t.1 == j && t.2 < s + 1)) by {
                                if take {
                                    if t == (i, j, s) {
                                        assert(res@[prev.len() as int] == t);
                                    }
                                    if res@.contains(t) {
                                        let k = choose|k: int| 0 <= k < res@.len() && res@[k] == t;
                                        if k < prev.len() {
                                            assert(prev[k] == t);
                                        }
                                    }
                                    if prev.contains(t) {
                                        let k = choose|k: int| 0 <= k < prev.len() && prev[k] == t;
                                        assert(res@[k] == t);
                                    }
                                }
                            }
                        }
                        s = s + 1;
                    }
                    j = j + 1;
                }
            },
        }
        i = i + 1;
    }
    res
}

} // verus!
