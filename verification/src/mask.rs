//! The antialiasing engine of the corner-rounding core.
//!
//! A corner of radius `r` is described by an `r x r` coverage grid. Entry
//! `(i, j)` (row-major, index `i * r + j`) holds a weight in `[0, 256]`:
//! the estimated share of that destination pixel lying inside the
//! quarter-disk, on a 0..256 scale. The weight is later multiplied into the
//! pixel's alpha channel; 256 keeps the alpha as it was, 0 clears it.
//!
//! The grid is defined by a supersampled midpoint-circle trace: the radius is
//! scaled by 16 (so each destination pixel spans a 16 x 16 sub-grid and the
//! accumulated weight has 256 discrete levels), one octant of the circle is
//! traced with the classic integer decision variable, per-column weights are
//! accumulated and flushed, the mirror octant is obtained by swapping
//! coordinates, and everything strictly beyond the traced boundary is
//! cleared. The whole computation is integer-only and deterministic.
//!
//! `Trace` and the `t_*` functions are the mathematical model of that trace;
//! `corner_coverage` is the executable computation, proved equal to it.

use vstd::prelude::*;

use crate::buffer::lemma_pix_index_bounds;
use crate::buffer::lemma_pix_index_injective;

verus! {

/// State of the octant trace, in scaled (16x) coordinates, together with the
/// coverage grid written so far.
pub ghost struct Trace {
    /// Scaled column of the trace point.
    pub x: int,
    /// Scaled row of the trace point; decreases as the trace advances.
    pub y: int,
    /// Midpoint-circle decision variable.
    pub p: int,
    /// Coverage accumulated for the current destination column.
    pub alpha: int,
    /// True right after a flush triggered by crossing into a new
    /// destination row, which replaces the flush at the next column start.
    pub skip: bool,
    /// The coverage grid, row-major, `r * r` entries.
    pub grid: Seq<u16>,
}

/// Entry `(i, j)` of a coverage grid of radius `r`.
pub open spec fn gat(g: Seq<u16>, r: int, i: int, j: int) -> u16 {
    g[i * r + j]
}

/// The grid with entry `(i, j)` replaced by `v`.
pub open spec fn gput(g: Seq<u16>, r: int, i: int, j: int, v: int) -> Seq<u16> {
    g.update(i * r + j, v as u16)
}

/// The grid with entry `(i, j)` and its octant mirror `(j, i)` replaced by `v`.
pub open spec fn put2(g: Seq<u16>, r: int, i: int, j: int, v: int) -> Seq<u16> {
    gput(gput(g, r, i, j, v), r, j, i, v)
}

/// Entries `(i0, j)` and `(j, i0)` cleared to 0 for every `j` in `[lo, r)`:
/// the part of column `i0` strictly beyond the trace point, and its mirror.
pub open spec fn clear_beyond(g: Seq<u16>, r: int, i0: int, lo: int) -> Seq<u16>
    decreases r - lo,
{
    if lo >= r {
        g
    } else {
        clear_beyond(put2(g, r, i0, lo, 0), r, i0, lo + 1)
    }
}

/// Row `i` cleared to 0 from column `lo` on.
pub open spec fn row_clear(g: Seq<u16>, r: int, i: int, lo: int, j: int) -> Seq<u16>
    decreases r - j,
{
    if j >= r {
        g
    } else {
        row_clear(gput(g, r, i, j, 0), r, i, lo, j + 1)
    }
}

/// The square block `[i, r) x [lo, r)` cleared to 0, row by row.
pub open spec fn square_clear(g: Seq<u16>, r: int, lo: int, i: int) -> Seq<u16>
    decreases r - i,
{
    if i >= r {
        g
    } else {
        square_clear(row_clear(g, r, i, lo, lo), r, lo, i + 1)
    }
}

/// Work done on entering a destination column (scaled `x` divisible by 16):
/// clear everything in this column beyond the current trace row (and its
/// mirror), then, unless the row-crossing flush already handled it, flush the
/// accumulated coverage of the finished column and reset the accumulator.
pub open spec fn t_outer(st: Trace, r: int) -> Trace {
    let g1 = clear_beyond(st.grid, r, st.x / 16, st.y / 16 + 1);
    if !st.skip && st.x > 0 {
        Trace {
            grid: put2(g1, r, st.x / 16 - 1, st.y / 16, st.alpha),
            alpha: 0,
            ..st
        }
    } else {
        Trace { grid: g1, ..st }
    }
}

/// One scaled step of the midpoint trace: account the sub-rows of the current
/// sub-column, then advance `x` (and, when the decision variable says so,
/// descend one scaled row, flushing the accumulator if the descent crosses
/// into a new destination row).
pub open spec fn t_step(st: Trace, r: int) -> Trace {
    let a1 = st.alpha + st.y % 16 + 1;
    if st.p < 0 {
        Trace {
            x: st.x + 1,
            p: st.p + 2 * (st.x + 1) + 2,
            alpha: a1,
            skip: false,
            ..st
        }
    } else if st.y % 16 == 0 {
        Trace {
            x: st.x + 1,
            y: st.y - 1,
            p: st.p - 2 * (st.y - (st.x + 1)) - 2,
            alpha: ((st.x + 1) % 16) * 16,
            skip: true,
            grid: put2(st.grid, r, st.x / 16, st.y / 16, a1),
        }
    } else {
        Trace {
            x: st.x + 1,
            y: st.y - 1,
            p: st.p - 2 * (st.y - (st.x + 1)) - 2,
            alpha: a1,
            skip: false,
            ..st
        }
    }
}

/// The trace, run to the octant boundary: column work first where due, then
/// either stop (the trace point reached the diagonal) or take a step.
pub open spec fn t_run(st: Trace, r: int) -> Trace
    decreases (if st.y >= st.x { st.y - st.x } else { 0 }),
{
    let st1 = if st.x % 16 == 0 {
        t_outer(st, r)
    } else {
        st
    };
    if st1.x >= st1.y {
        st1
    } else {
        t_run(t_step(st1, r), r)
    }
}

/// Start of the trace for radius `r >= 1`: scaled radius `16 r`, the trace
/// point at the top of the octant, and a grid that keeps every pixel.
pub open spec fn t_init(r: int) -> Trace {
    Trace {
        x: 0,
        y: 16 * r - 1,
        p: 2 - 16 * r,
        alpha: 0,
        skip: true,
        grid: Seq::new((r * r) as nat, |k: int| 256u16),
    }
}

/// Weight of the single diagonal pixel where the octant boundary ends: both
/// octant traces meet there, so the doubled accumulator is corrected by the
/// `s * s` sub-square they would count twice, and the result is capped into
/// `[0, 256]` so that it is a coverage weight whatever state it is read in.
pub open spec fn corner_weight(st: Trace) -> int {
    let a1 = if st.x == st.y {
        st.alpha + st.y % 16 + 1
    } else {
        st.alpha
    };
    let s = st.y % 16 + 1;
    let v = 2 * a1 - s * s;
    if v < 0 {
        0
    } else if v > 256 {
        256
    } else {
        v
    }
}

/// Wrap-up after the trace: write the diagonal pixel where the two octants
/// meet, then clear the square of pixels wholly beyond the boundary.
pub open spec fn t_post(st: Trace, r: int) -> Seq<u16> {
    let g1 = if st.x / 16 == st.y / 16 {
        gput(st.grid, r, st.x / 16, st.y / 16, corner_weight(st))
    } else {
        st.grid
    };
    square_clear(g1, r, st.y / 16 + 1, st.y / 16 + 1)
}

/// The coverage grid of a corner of radius `r >= 1`.
pub open spec fn coverage_grid(r: int) -> Seq<u16> {
    t_post(t_run(t_init(r), r), r)
}

/// What a single grid write does, entry by entry.
pub proof fn lemma_gput_at(g: Seq<u16>, r: int, i: int, j: int, v: int, a: int, b: int)
    requires
        g.len() == r * r,
        0 <= i < r,
        0 <= j < r,
        0 <= a < r,
        0 <= b < r,
    ensures
        gput(g, r, i, j, v).len() == r * r,
        gat(gput(g, r, i, j, v), r, a, b) == (if a == i && b == j {
            v as u16
        } else {
            gat(g, r, a, b)
        }),
{
    lemma_pix_index_bounds(r, r, j, i);
    lemma_pix_index_bounds(r, r, b, a);
    if a == i && b == j {
    } else {
        if i * r + j == a * r + b {
            lemma_pix_index_injective(r, j, i, b, a);
            assert(false);
        }
    }
}

/// What a mirrored pair of grid writes does, entry by entry.
pub proof fn lemma_put2_at(g: Seq<u16>, r: int, i: int, j: int, v: int, a: int, b: int)
    requires
        g.len() == r * r,
        0 <= i < r,
        0 <= j < r,
        0 <= a < r,
        0 <= b < r,
    ensures
        put2(g, r, i, j, v).len() == r * r,
        gat(put2(g, r, i, j, v), r, a, b) == (if (a == i && b == j) || (a == j && b == i) {
            v as u16
        } else {
            gat(g, r, a, b)
        }),
{
    lemma_gput_at(g, r, i, j, v, a, b);
    lemma_gput_at(gput(g, r, i, j, v), r, j, i, v, a, b);
}

/// What clearing a column tail and its mirror does, entry by entry.
pub proof fn lemma_clear_beyond_at(g: Seq<u16>, r: int, i0: int, lo: int, a: int, b: int)
    requires
        g.len() == r * r,
        0 <= i0 < r,
        0 <= lo,
        0 <= a < r,
        0 <= b < r,
    ensures
        clear_beyond(g, r, i0, lo).len() == r * r,
        gat(clear_beyond(g, r, i0, lo), r, a, b) == (if (a == i0 && lo <= b) || (b == i0 && lo
            <= a) {
            0u16
        } else {
            gat(g, r, a, b)
        }),
    decreases r - lo,
{
    if lo >= r {
    } else {
        lemma_put2_at(g, r, i0, lo, 0, a, b);
        lemma_clear_beyond_at(put2(g, r, i0, lo, 0), r, i0, lo + 1, a, b);
    }
}

/// What clearing a row tail does, entry by entry.
pub proof fn lemma_row_clear_at(g: Seq<u16>, r: int, i: int, lo: int, j: int, a: int, b: int)
    requires
        g.len() == r * r,
        0 <= i < r,
        0 <= j,
        0 <= a < r,
        0 <= b < r,
    ensures
        row_clear(g, r, i, lo, j).len() == r * r,
        gat(row_clear(g, r, i, lo, j), r, a, b) == (if a == i && j <= b {
            0u16
        } else {
            gat(g, r, a, b)
        }),
    decreases r - j,
{
    if j >= r {
    } else {
        lemma_gput_at(g, r, i, j, 0, a, b);
        lemma_row_clear_at(gput(g, r, i, j, 0), r, i, lo, j + 1, a, b);
    }
}

/// What clearing the square block beyond the boundary does, entry by entry.
pub proof fn lemma_square_clear_at(g: Seq<u16>, r: int, lo: int, i: int, a: int, b: int)
    requires
        g.len() == r * r,
        0 <= i,
        0 <= lo,
        0 <= a < r,
        0 <= b < r,
    ensures
        square_clear(g, r, lo, i).len() == r * r,
        gat(square_clear(g, r, lo, i), r, a, b) == (if i <= a && lo <= b {
            0u16
        } else {
            gat(g, r, a, b)
        }),
    decreases r - i,
{
    if i >= r {
    } else {
        lemma_row_clear_at(g, r, i, lo, lo, a, b);
        lemma_square_clear_at(row_clear(g, r, i, lo, lo), r, lo, i + 1, a, b);
    }
}

/// A well-formed coverage grid: `r * r` entries, all in `[0, 256]`, and
/// symmetric across the octant diagonal.
pub open spec fn grid_ok(g: Seq<u16>, r: int) -> bool {
    &&& g.len() == r * r
    &&& (forall|a: int, b: int|
        0 <= a < r && 0 <= b < r ==> gat(g, r, a, b) <= 256)
    &&& (forall|a: int, b: int|
        0 <= a < r && 0 <= b < r ==> gat(g, r, a, b) == gat(g, r, b, a))
}

/// No pixel on the octant diagonal has been written yet.
pub open spec fn diag_ok(g: Seq<u16>, r: int) -> bool {
    forall|k: int| 0 <= k < r ==> gat(g, r, k, k) == 256
}

/// Everything the trace maintains: coordinate bounds, the shape of the
/// accumulator, the closed form of the decision variable, its upper bound,
/// and well-formedness of the grid.
pub open spec fn t_inv(st: Trace, r: int) -> bool {
    &&& r >= 1
    &&& 0 <= st.x < 16 * r
    &&& 0 <= st.y <= 16 * r - 1
    &&& st.x <= st.y + 1
    &&& (st.x == 0 ==> st.skip)
    &&& 0 <= st.alpha
    &&& (if st.x % 16 == 0 {
        (st.skip ==> st.alpha == 0) && st.alpha <= 256
    } else {
        st.alpha <= 16 * (st.x % 16)
    })
    &&& st.p == st.x * st.x + 3 * st.x + st.y * st.y + 5 * st.y - (256 * r * r + 64 * r - 6)
    &&& st.p <= 2 * st.x + 2
    &&& grid_ok(st.grid, r)
}

/// The start state satisfies the invariant and leaves the diagonal untouched.
pub proof fn lemma_init_inv(r: int)
    requires
        r >= 1,
    ensures
        t_inv(t_init(r), r),
        diag_ok(t_init(r).grid, r),
{
    let st = t_init(r);
    assert(st.p == st.x * st.x + 3 * st.x + st.y * st.y + 5 * st.y - (256 * r * r + 64 * r
        - 6)) by (nonlinear_arith)
        requires
            st.x == 0 && st.y == 16 * r - 1 && st.p == 2 - 16 * r && r >= 1;
    assert forall|a: int, b: int| 0 <= a < r && 0 <= b < r implies gat(st.grid, r, a, b)
        == 256 by {
        lemma_pix_index_bounds(r, r, b, a);
    }
    assert forall|k: int| 0 <= k < r implies gat(st.grid, r, k, k) == 256 by {
        lemma_pix_index_bounds(r, r, k, k);
    }
}

/// Column-start work keeps the invariant, zeroes the accumulator, and only
/// ever touches diagonal entries at or beyond the current destination row.
pub proof fn lemma_outer_inv(st: Trace, r: int)
    requires
        t_inv(st, r),
        st.x % 16 == 0,
    ensures
        t_inv(t_outer(st, r), r),
        t_outer(st, r).x == st.x,
        t_outer(st, r).y == st.y,
        t_outer(st, r).p == st.p,
        t_outer(st, r).skip == st.skip,
        t_outer(st, r).alpha == 0,
        forall|k: int|
            0 <= k < r && k < st.y / 16 ==> gat(t_outer(st, r).grid, r, k, k) == gat(
                st.grid,
                r,
                k,
                k,
            ),
        st.x <= st.y ==> forall|k: int|
            0 <= k < r ==> gat(t_outer(st, r).grid, r, k, k) == gat(st.grid, r, k, k),
{
    let i0 = st.x / 16;
    let lo = st.y / 16 + 1;
    let g1 = clear_beyond(st.grid, r, i0, lo);
    assert(0 <= i0 < r);
    assert(0 <= st.y / 16 < r);
    lemma_clear_beyond_at(st.grid, r, i0, lo, 0, 0);
    assert forall|a: int, b: int| 0 <= a < r && 0 <= b < r implies gat(g1, r, a, b) == (if (a
        == i0 && lo <= b) || (b == i0 && lo <= a) {
        0u16
    } else {
        gat(st.grid, r, a, b)
    }) by {
        lemma_clear_beyond_at(st.grid, r, i0, lo, a, b);
    }
    if !st.skip && st.x > 0 {
        let g2 = put2(g1, r, i0 - 1, st.y / 16, st.alpha);
        assert forall|a: int, b: int| 0 <= a < r && 0 <= b < r implies gat(g2, r, a, b) == (if (
        a == i0 - 1 && b == st.y / 16) || (a == st.y / 16 && b == i0 - 1) {
            (st.alpha) as u16
        } else {
            gat(g1, r, a, b)
        }) by {
            lemma_put2_at(g1, r, i0 - 1, st.y / 16, st.alpha, a, b);
        }
        lemma_put2_at(g1, r, i0 - 1, st.y / 16, st.alpha, 0, 0);
    }
}

/// A scaled trace step keeps the invariant and never writes the diagonal.
pub proof fn lemma_step_inv(st: Trace, r: int)
    requires
        t_inv(st, r),
        st.x < st.y,
        st.x % 16 == 0 ==> st.alpha == 0,
    ensures
        t_inv(t_step(st, r), r),
        t_step(st, r).x == st.x + 1,
        st.y - 1 <= t_step(st, r).y <= st.y,
        forall|k: int|
            0 <= k < r ==> gat(t_step(st, r).grid, r, k, k) == gat(st.grid, r, k, k),
{
    let st2 = t_step(st, r);
    let a1 = st.alpha + st.y % 16 + 1;
    let kk = 256 * r * r + 64 * r - 6;
    if st.p < 0 {
        assert(st2.p == st2.x * st2.x + 3 * st2.x + st2.y * st2.y + 5 * st2.y
            - kk) by (nonlinear_arith)
            requires
                st2.x == st.x + 1 && st2.y == st.y && st2.p == st.p + 2 * (st.x + 1) + 2
                    && st.p == st.x * st.x + 3 * st.x + st.y * st.y + 5 * st.y - kk && kk == 256
                    * r * r + 64 * r - 6;
    } else {
        assert(st2.p == st2.x * st2.x + 3 * st2.x + st2.y * st2.y + 5 * st2.y
            - kk) by (nonlinear_arith)
            requires
                st2.x == st.x + 1 && st2.y == st.y - 1 && st2.p == st.p - 2 * (st.y - (st.x + 1))
                    - 2 && st.p == st.x * st.x + 3 * st.x + st.y * st.y + 5 * st.y - kk && kk
                    == 256 * r * r + 64 * r - 6;
        if st.y % 16 == 0 {
            assert(st.x / 16 < st.y / 16);
            assert(a1 <= 256);
            assert forall|a: int, b: int| 0 <= a < r && 0 <= b < r implies gat(
                st2.grid,
                r,
                a,
                b,
            ) == (if (a == st.x / 16 && b == st.y / 16) || (a == st.y / 16 && b == st.x / 16) {
                (a1) as u16
            } else {
                gat(st.grid, r, a, b)
            }) by {
                lemma_put2_at(st.grid, r, st.x / 16, st.y / 16, a1, a, b);
            }
            lemma_put2_at(st.grid, r, st.x / 16, st.y / 16, a1, 0, 0);
        }
    }
}

/// Running the trace from any state satisfying the invariant ends at the
/// octant boundary with the invariant's data intact; diagonal entries below
/// the final destination row keep whatever value they had.
pub proof fn lemma_run_inv(st: Trace, r: int)
    requires
        t_inv(st, r),
    ensures
        ({
            let fin = t_run(st, r);
            &&& fin.x >= fin.y
            &&& fin.x <= fin.y + 1
            &&& 0 <= fin.y <= st.y
            &&& 0 <= fin.x < 16 * r
            &&& fin.p == fin.x * fin.x + 3 * fin.x + fin.y * fin.y + 5 * fin.y - (256 * r * r
                + 64 * r - 6)
            &&& fin.p <= 2 * fin.x + 2
            &&& 0 <= fin.alpha <= 256
            &&& grid_ok(fin.grid, r)
            &&& (forall|k: int|
                0 <= k < r && k < fin.y / 16 ==> gat(fin.grid, r, k, k) == gat(st.grid, r, k, k))
        }),
    decreases (if st.y >= st.x { st.y - st.x } else { 0 }),
{
    let fin = t_run(st, r);
    if st.x % 16 == 0 {
        lemma_outer_inv(st, r);
        let st1 = t_outer(st, r);
        if st1.x >= st1.y {
        } else {
            lemma_step_inv(st1, r);
            let st2 = t_step(st1, r);
            lemma_run_inv(st2, r);
            assert(fin == t_run(st2, r));
            assert(fin.y / 16 <= st2.y / 16);
            assert forall|k: int| 0 <= k < r && k < fin.y / 16 implies gat(fin.grid, r, k, k)
                == gat(st.grid, r, k, k) by {
                assert(gat(fin.grid, r, k, k) == gat(st2.grid, r, k, k));
                assert(gat(st2.grid, r, k, k) == gat(st1.grid, r, k, k));
                assert(gat(st1.grid, r, k, k) == gat(st.grid, r, k, k));
            }
        }
    } else {
        let st1 = st;
        if st1.x >= st1.y {
        } else {
            lemma_step_inv(st1, r);
            let st2 = t_step(st1, r);
            lemma_run_inv(st2, r);
            assert(fin == t_run(st2, r));
        }
    }
}

/// At the octant boundary the closed form of the decision variable pins the
/// final scaled row below `16 r - 17` whenever `r >= 4`: the trace always
/// ends strictly more than one destination pixel away from the corner.
pub proof fn lemma_final_y_small(x: int, y: int, p: int, r: int)
    by (nonlinear_arith)
    requires
        r >= 4,
        0 <= y,
        y <= x <= y + 1,
        p == x * x + 3 * x + y * y + 5 * y - (256 * r * r + 64 * r - 6),
        p <= 2 * x + 2,
    ensures
        y <= 16 * r - 17,
{
}

/// The shape of the finished coverage grid: `r * r` entries in `[0, 256]`,
/// symmetric across the diagonal, non-increasing along the diagonal walking
/// away from the circle's centre, and, for `r >= 4`, zero at the extreme
/// corner pixel.
pub proof fn lemma_coverage_props(r: int)
    requires
        r >= 1,
    ensures
        ({
            let cg = coverage_grid(r);
            &&& cg.len() == r * r
            &&& (forall|a: int, b: int|
                0 <= a < r && 0 <= b < r ==> gat(cg, r, a, b) <= 256)
            &&& (forall|a: int, b: int|
                0 <= a < r && 0 <= b < r ==> gat(cg, r, a, b) == gat(cg, r, b, a))
            &&& (forall|k1: int, k2: int|
                0 <= k1 <= k2 < r ==> gat(cg, r, k1, k1) >= gat(cg, r, k2, k2))
            &&& (r >= 4 ==> gat(cg, r, r - 1, r - 1) == 0)
        }),
{
    lemma_init_inv(r);
    let st0 = t_init(r);
    lemma_run_inv(st0, r);
    let fin = t_run(st0, r);
    let cg = coverage_grid(r);
    let jrow = fin.y / 16;
    let lo = jrow + 1;
    assert(0 <= jrow < r);
    let g1 = if fin.x / 16 == fin.y / 16 {
        gput(fin.grid, r, fin.x / 16, fin.y / 16, corner_weight(fin))
    } else {
        fin.grid
    };
    assert(cg == square_clear(g1, r, lo, lo));
    if fin.x / 16 == fin.y / 16 {
        assert forall|a: int, b: int| 0 <= a < r && 0 <= b < r implies gat(g1, r, a, b) == (if a
            == jrow && b == jrow {
            (corner_weight(fin)) as u16
        } else {
            gat(fin.grid, r, a, b)
        }) by {
            lemma_gput_at(fin.grid, r, jrow, jrow, corner_weight(fin), a, b);
        }
        lemma_gput_at(fin.grid, r, jrow, jrow, corner_weight(fin), 0, 0);
    }
    assert(g1.len() == r * r);
    assert forall|a: int, b: int| 0 <= a < r && 0 <= b < r implies gat(cg, r, a, b) == (if lo
        <= a && lo <= b {
        0u16
    } else {
        gat(g1, r, a, b)
    }) by {
        lemma_square_clear_at(g1, r, lo, lo, a, b);
    }
    lemma_square_clear_at(g1, r, lo, lo, 0, 0);
    assert forall|a: int, b: int| 0 <= a < r && 0 <= b < r implies gat(cg, r, a, b)
        <= 256 by {
        assert(gat(fin.grid, r, a, b) <= 256);
    }
    assert forall|k1: int, k2: int| 0 <= k1 <= k2 < r implies gat(cg, r, k1, k1) >= gat(
        cg,
        r,
        k2,
        k2,
    ) by {
        if k1 < jrow {
            assert(gat(fin.grid, r, k1, k1) == 256);
            assert(gat(cg, r, k1, k1) == 256);
            assert(gat(cg, r, k2, k2) <= 256);
        } else if k1 == jrow {
            if k2 > k1 {
                assert(gat(cg, r, k2, k2) == 0);
            }
        } else {
            assert(gat(cg, r, k1, k1) == 0);
            assert(gat(cg, r, k2, k2) == 0);
        }
    }
    if r >= 4 {
        lemma_final_y_small(fin.x, fin.y, fin.p, r);
        assert(fin.y <= 16 * (r - 2) + 15);
        assert(jrow <= r - 2);
        assert(gat(cg, r, r - 1, r - 1) == 0);
    }
}

/// The trace state made of the executable variables.
pub open spec fn mk_trace(x: u64, y: u64, p: i128, alpha: u64, skip: bool, g: Seq<u16>) -> Trace {
    Trace { x: x as int, y: y as int, p: p as int, alpha: alpha as int, skip: skip, grid: g }
}

/// The decision variable stays far inside the range of `i128`.
proof fn lemma_p_small(st: Trace, r: int)
    by (nonlinear_arith)
    requires
        1 <= r <= 0x1_0000_0000,
        0 <= st.x <= 16 * r,
        0 <= st.y <= 16 * r,
        st.p == st.x * st.x + 3 * st.x + st.y * st.y + 5 * st.y - (256 * r * r + 64 * r - 6),
    ensures
        -0x10_0000_0000_0000_0000_0000 <= st.p <= 0x10_0000_0000_0000_0000_0000,
{
}

/// Write entry `(i, j)` of the grid.
fn grid_set(g: &mut Vec<u16>, r: u32, i: u64, j: u64, v: u16)
    requires
        old(g)@.len() == (r as int) * (r as int),
        i < r,
        j < r,
    ensures
        final(g)@ == gput(old(g)@, r as int, i as int, j as int, v as int),
        final(g)@.len() == old(g)@.len(),
{
    proof {
        lemma_pix_index_bounds(r as int, r as int, j as int, i as int);
        assert((i as int) * (r as int) + (j as int) <= u64::MAX) by (nonlinear_arith)
            requires
                i < r,
                j < r,
                r <= u32::MAX;
    }
    let len: usize = g.len();
    let wide: u64 = i * (r as u64) + j;
    let idx: usize = wide as usize;
    g.set(idx, v);
}

/// Compute the coverage grid of a corner of radius `r` with the supersampled
/// midpoint-circle trace.
pub fn corner_coverage(r: u32) -> (g: Vec<u16>)
    requires
        r >= 1,
    ensures
        g@ == coverage_grid(r as int),
        g@.len() == (r as int) * (r as int),
        forall|a: int, b: int|
            0 <= a < r && 0 <= b < r ==> gat(g@, r as int, a, b) <= 256,
{
    let ghost rr = r as int;
    let ri: u64 = r as u64;
    proof {
        assert(ri * ri <= u64::MAX) by (nonlinear_arith)
            requires
                ri <= u32::MAX;
    }
    let n: u64 = ri * ri;
    let mut grid: Vec<u16> = Vec::new();
    let mut t: u64 = 0;
    while t < n
        invariant
            t <= n,
            grid@ =~= Seq::new(t as nat, |k: int| 256u16),
        decreases n - t,
    {
        grid.push(256);
        t = t + 1;
    }
    assert(grid@ =~= Seq::new((rr * rr) as nat, |k: int| 256u16));

    let mut x: u64 = 0;
    let mut y: u64 = 16 * ri - 1;
    let mut p: i128 = 2 - 16 * (r as i128);
    let mut alpha: u64 = 0;
    let mut skip: bool = true;
    let ghost target = t_run(t_init(rr), rr);
    proof {
        lemma_init_inv(rr);
        assert(mk_trace(x, y, p, alpha, skip, grid@) == t_init(rr));
    }
    loop
        invariant_except_break
            r >= 1,
            ri == r as u64,
            rr == r as int,
            t_inv(mk_trace(x, y, p, alpha, skip, grid@), rr),
            t_run(mk_trace(x, y, p, alpha, skip, grid@), rr) == target,
        ensures
            mk_trace(x, y, p, alpha, skip, grid@) == target,
        decreases (if x < y { y - x } else { 0 }),
    {
        let ghost st_top = mk_trace(x, y, p, alpha, skip, grid@);
        if x % 16 == 0 {
            proof {
                lemma_outer_inv(st_top, rr);
            }
            let i0: u64 = x / 16;
            let jlo: u64 = y / 16 + 1;
            let ghost gentry = grid@;
            let mut j: u64 = jlo;
            while j < ri
                invariant
                    jlo <= j,
                    i0 < ri,
                    ri == r as u64,
                    rr == r as int,
                    grid@.len() == rr * rr,
                    clear_beyond(grid@, rr, i0 as int, j as int) == clear_beyond(
                        gentry,
                        rr,
                        i0 as int,
                        jlo as int,
                    ),
                decreases ri - j,
            {
                let ghost gpre = grid@;
                grid_set(&mut grid, r, i0, j, 0);
                grid_set(&mut grid, r, j, i0, 0);
                proof {
                    assert(grid@ == put2(gpre, rr, i0 as int, j as int, 0));
                    assert(clear_beyond(gpre, rr, i0 as int, j as int) == clear_beyond(
                        grid@,
                        rr,
                        i0 as int,
                        j as int + 1,
                    ));
                }
                j = j + 1;
            }
            proof {
                assert(clear_beyond(grid@, rr, i0 as int, j as int) == grid@);
                assert(grid@ == clear_beyond(gentry, rr, i0 as int, jlo as int));
            }
            if !skip && x > 0 {
                let ghost g1 = grid@;
                let a16: u16 = alpha as u16;
                grid_set(&mut grid, r, x / 16 - 1, y / 16, a16);
                grid_set(&mut grid, r, y / 16, x / 16 - 1, a16);
                alpha = 0;
                proof {
                    assert(grid@ == put2(g1, rr, x as int / 16 - 1, y as int / 16, st_top.alpha));
                }
            }
            proof {
                assert(mk_trace(x, y, p, alpha, skip, grid@) == t_outer(st_top, rr));
            }
        }
        let ghost st1 = mk_trace(x, y, p, alpha, skip, grid@);
        proof {
            if st_top.x % 16 == 0 {
                assert(st1 == t_outer(st_top, rr));
            } else {
                assert(st1 == st_top);
            }
            assert(t_inv(st1, rr));
        }
        if x >= y {
            proof {
                assert(t_run(st_top, rr) == st1);
            }
            break;
        }
        proof {
            lemma_step_inv(st1, rr);
            lemma_p_small(st1, rr);
        }
        let yd: u64 = y % 16;
        alpha = alpha + yd + 1;
        let x2: u64 = x + 1;
        if p < 0 {
            p = p + 2 * (x2 as i128) + 2;
            skip = false;
            x = x2;
        } else {
            let p2: i128 = p - 2 * ((y as i128) - (x2 as i128)) - 2;
            if yd == 0 {
                let a16: u16 = alpha as u16;
                grid_set(&mut grid, r, x / 16, y / 16, a16);
                grid_set(&mut grid, r, y / 16, x / 16, a16);
                skip = true;
                alpha = (x2 % 16) * 16;
            } else {
                skip = false;
            }
            x = x2;
            y = y - 1;
            p = p2;
        }
        proof {
            assert(mk_trace(x, y, p, alpha, skip, grid@) == t_step(st1, rr));
            assert(t_run(st_top, rr) == t_run(t_step(st1, rr), rr));
        }
    }
    let ghost fin = target;
    proof {
        lemma_init_inv(rr);
        lemma_run_inv(t_init(rr), rr);
    }
    if x / 16 == y / 16 {
        if x == y {
            alpha = alpha + y % 16 + 1;
        }
        let s: u64 = y % 16 + 1;
        let t2: u64 = 2 * alpha;
        proof {
            assert(s * s <= 256) by (nonlinear_arith)
                requires
                    s <= 16;
        }
        let ss: u64 = s * s;
        let v: u64 = if t2 >= ss {
            let d: u64 = t2 - ss;
            if d > 256 {
                256
            } else {
                d
            }
        } else {
            0
        };
        proof {
            assert(v as int == corner_weight(fin));
        }
        grid_set(&mut grid, r, x / 16, y / 16, v as u16);
    }
    let lo: u64 = y / 16 + 1;
    let ghost g2 = grid@;
    let mut i: u64 = lo;
    while i < ri
        invariant
            lo <= i,
            ri == r as u64,
            rr == r as int,
            grid@.len() == rr * rr,
            square_clear(grid@, rr, lo as int, i as int) == square_clear(
                g2,
                rr,
                lo as int,
                lo as int,
            ),
        decreases ri - i,
    {
        let ghost grow = grid@;
        let mut j: u64 = lo;
        while j < ri
            invariant
                lo <= j,
                i < ri,
                lo <= i,
                ri == r as u64,
                rr == r as int,
                grid@.len() == rr * rr,
                row_clear(grid@, rr, i as int, lo as int, j as int) == row_clear(
                    grow,
                    rr,
                    i as int,
                    lo as int,
                    lo as int,
                ),
                square_clear(grow, rr, lo as int, i as int) == square_clear(
                    g2,
                    rr,
                    lo as int,
                    lo as int,
                ),
            decreases ri - j,
        {
            let ghost gpre = grid@;
            grid_set(&mut grid, r, i, j, 0);
            proof {
                assert(row_clear(gpre, rr, i as int, lo as int, j as int) == row_clear(
                    grid@,
                    rr,
                    i as int,
                    lo as int,
                    j as int + 1,
                ));
            }
            j = j + 1;
        }
        proof {
            assert(row_clear(grid@, rr, i as int, lo as int, j as int) == grid@);
            assert(grid@ == row_clear(grow, rr, i as int, lo as int, lo as int));
            assert(square_clear(grow, rr, lo as int, i as int) == square_clear(
                grid@,
                rr,
                lo as int,
                i as int + 1,
            ));
        }
        i = i + 1;
    }
    proof {
        assert(square_clear(grid@, rr, lo as int, i as int) == grid@);
        assert(grid@ == t_post(fin, rr));
        lemma_coverage_props(rr);
    }
    grid
}

} // verus!
