//! Neighborhood geometry: classification of the offsets scanned around a
//! cell, and the sizes of the two regions the means are taken over.
//!
//! Each cell's neighborhood is scanned as the square of offsets
//! `[-(ra-1), ra-1]²`. An offset strictly closer than `ri` to the center
//! feeds the inner mean `m`; one at distance `ri`-or-more but strictly closer
//! than `ra` feeds the outer mean `n`; corners of the square at distance `ra`
//! or more are excluded. The two region sizes depend only on the radii, never
//! on the cell, so a driver may compute them once per run.

use vstd::prelude::*;

verus! {

use vstd::arithmetic::div_mod::lemma_fundamental_div_mod;
use vstd::arithmetic::div_mod::lemma_mod_bound;
use crate::config::SimConfig;

/// Squared Euclidean length of the offset `(dx, dy)`.
pub open spec fn dist2(dx: int, dy: int) -> int {
    dx * dx + dy * dy
}

/// The offset lies in the inner disk: strictly closer than `ri`.
pub open spec fn in_inner(cfg: SimConfig, dx: int, dy: int) -> bool {
    dist2(dx, dy) < cfg.ri * cfg.ri
}

/// The offset lies in the outer annulus: at distance `ri`-or-more and
/// strictly closer than `ra`.
pub open spec fn in_outer(cfg: SimConfig, dx: int, dy: int) -> bool {
    cfg.ri * cfg.ri <= dist2(dx, dy) < cfg.ra * cfg.ra
}

/// Whether the offset belongs to the region selected by `inner`: the inner
/// disk when `inner` is true, the outer annulus otherwise.
pub open spec fn in_region(cfg: SimConfig, dx: int, dy: int, inner: bool) -> bool {
    if inner {
        in_inner(cfg, dx, dy)
    } else {
        in_outer(cfg, dx, dy)
    }
}

/// Where an offset of the scanned square lands.
#[derive(Clone, Copy, Debug, PartialEq, Eq, Structural)]
pub enum OffsetClass {
    /// Inside the inner disk: contributes to the inner mean `m`.
    Inner,
    /// Inside the outer annulus: contributes to the outer mean `n`.
    Outer,
    /// A corner of the scanned square beyond `ra`: contributes to neither.
    Excluded,
}

/// Classify one offset of the scanned square: inner disk first, then the
/// annulus up to `ra`, and the rest excluded.
pub fn classify_offset(cfg: &SimConfig, dx: i64, dy: i64) -> (c: OffsetClass)
    requires
        cfg.wf(),
        -(cfg.ra as int) <= dx <= cfg.ra as int,
        -(cfg.ra as int) <= dy <= cfg.ra as int,
    ensures
        c is Inner <==> in_inner(*cfg, dx as int, dy as int),
        c is Outer <==> in_outer(*cfg, dx as int, dy as int),
{
    proof {
        assert(dx * dx <= 1_000_000 && dx * dx >= 0) by (nonlinear_arith)
            requires
                -1_000 <= dx <= 1_000,
        ;
        assert(dy * dy <= 1_000_000 && dy * dy >= 0) by (nonlinear_arith)
            requires
                -1_000 <= dy <= 1_000,
        ;
        assert(cfg.ri * cfg.ri <= 1_000_000) by (nonlinear_arith)
            requires
                0 <= cfg.ri <= 1_000,
        ;
        assert(cfg.ra * cfg.ra <= 1_000_000) by (nonlinear_arith)
            requires
                0 <= cfg.ra <= 1_000,
        ;
    }
    let d = dx * dx + dy * dy;
    let ri = cfg.ri as i64;
    let ra = cfg.ra as i64;
    if d < ri * ri {
        OffsetClass::Inner
    } else if d < ra * ra {
        OffsetClass::Outer
    } else {
        OffsetClass::Excluded
    }
}

/// Number of offsets of row `dy` with column `dx` or beyond (columns end at
/// `ra - 1`) that fall in the region selected by `inner`.
pub open spec fn row_count(cfg: SimConfig, dy: int, dx: int, inner: bool) -> nat
    decreases cfg.ra - dx,
{
    if dx > cfg.ra - 1 {
        0
    } else {
        (if in_region(cfg, dx, dy, inner) {
            1nat
        } else {
            0nat
        }) + row_count(cfg, dy, dx + 1, inner)
    }
}

/// Number of offsets in rows `dy` and beyond of the scanned square (rows end
/// at `ra - 1`, columns span the full `[-(ra-1), ra-1]`) that fall in the
/// region selected by `inner`.
pub open spec fn rows_count(cfg: SimConfig, dy: int, inner: bool) -> nat
    decreases cfg.ra - dy,
{
    if dy > cfg.ra - 1 {
        0
    } else {
        row_count(cfg, dy, -(cfg.ra - 1), inner) + rows_count(cfg, dy + 1, inner)
    }
}

/// Number of cells averaged into the inner mean `m`.
pub open spec fn inner_count(cfg: SimConfig) -> nat {
    rows_count(cfg, -(cfg.ra - 1), true)
}

/// Number of cells averaged into the outer mean `n`.
pub open spec fn outer_count(cfg: SimConfig) -> nat {
    rows_count(cfg, -(cfg.ra - 1), false)
}

/// A row holds at most `ra - dx` matching offsets.
proof fn lemma_row_count_bound(cfg: SimConfig, dy: int, dx: int, inner: bool)
    ensures
        row_count(cfg, dy, dx, inner) <= if cfg.ra - dx >= 0 {
            cfg.ra - dx
        } else {
            0
        },
    decreases cfg.ra - dx,
{
    if dx > cfg.ra - 1 {
    } else {
        lemma_row_count_bound(cfg, dy, dx + 1, inner);
    }
}

/// The rows from `dy` on hold at most `(2 * ra - 1) * (ra - dy)` matching
/// offsets.
proof fn lemma_rows_count_bound(cfg: SimConfig, dy: int, inner: bool)
    requires
        cfg.wf(),
    ensures
        rows_count(cfg, dy, inner) <= if cfg.ra - dy >= 0 {
            (2 * cfg.ra - 1) * (cfg.ra - dy)
        } else {
            0
        },
    decreases cfg.ra - dy,
{
    if dy > cfg.ra - 1 {
        if cfg.ra - dy >= 0 {
            assert((2 * cfg.ra - 1) * (cfg.ra - dy) >= 0) by (nonlinear_arith)
                requires
                    cfg.ra >= 3,
                    cfg.ra - dy >= 0,
            ;
        }
    } else {
        lemma_row_count_bound(cfg, dy, -(cfg.ra - 1), inner);
        lemma_rows_count_bound(cfg, dy + 1, inner);
        assert((2 * cfg.ra - 1) + (2 * cfg.ra - 1) * (cfg.ra - (dy + 1)) == (2 * cfg.ra - 1) * (
        cfg.ra - dy)) by (nonlinear_arith);
    }
}

/// Both region sizes are bounded by the scanned square.
proof fn lemma_counts_bounded(cfg: SimConfig)
    requires
        cfg.wf(),
    ensures
        inner_count(cfg) <= 4_000_000,
        outer_count(cfg) <= 4_000_000,
{
    lemma_rows_count_bound(cfg, -(cfg.ra - 1), true);
    lemma_rows_count_bound(cfg, -(cfg.ra - 1), false);
    assert((2 * cfg.ra - 1) * (cfg.ra - (-(cfg.ra - 1))) <= 4_000_000) by (nonlinear_arith)
        requires
            3 <= cfg.ra <= 1_000,
    ;
}

/// A row that holds a matching offset counts at least one.
proof fn lemma_row_count_at_least(cfg: SimConfig, dy: int, dx: int, dxt: int, inner: bool)
    requires
        dx <= dxt <= cfg.ra - 1,
        in_region(cfg, dxt, dy, inner),
    ensures
        row_count(cfg, dy, dx, inner) >= 1,
    decreases cfg.ra - dx,
{
    if dx == dxt {
    } else {
        lemma_row_count_at_least(cfg, dy, dx + 1, dxt, inner);
    }
}

/// A scan whose rows hold a matching offset counts at least one.
proof fn lemma_rows_count_at_least(cfg: SimConfig, dy: int, dyt: int, dxt: int, inner: bool)
    requires
        dy <= dyt <= cfg.ra - 1,
        -(cfg.ra - 1) <= dxt <= cfg.ra - 1,
        in_region(cfg, dxt, dyt, inner),
    ensures
        rows_count(cfg, dy, inner) >= 1,
    decreases cfg.ra - dy,
{
    if dy == dyt {
        lemma_row_count_at_least(cfg, dyt, -(cfg.ra - 1), dxt, inner);
    } else {
        lemma_rows_count_at_least(cfg, dy + 1, dyt, dxt, inner);
    }
}

/// Neither region is ever degenerate: the center offset always feeds the
/// inner mean and the offset `(ri, 0)` always feeds the outer mean, so both
/// means divide by a nonzero count for every well-formed configuration.
pub proof fn lemma_counts_positive(cfg: SimConfig)
    requires
        cfg.wf(),
    ensures
        inner_count(cfg) >= 1,
        outer_count(cfg) >= 1,
{
    lemma_fundamental_div_mod(cfg.ra as int, 3);
    lemma_mod_bound(cfg.ra as int, 3);
    assert(1 <= cfg.ri && 3 * cfg.ri <= cfg.ra && cfg.ri <= cfg.ra - 2);
    assert(cfg.ri * cfg.ri >= 1) by (nonlinear_arith)
        requires
            cfg.ri >= 1,
    ;
    assert(in_inner(cfg, 0, 0));
    lemma_rows_count_at_least(cfg, -(cfg.ra - 1), 0, 0, true);
    assert(cfg.ri * cfg.ri < cfg.ra * cfg.ra) by (nonlinear_arith)
        requires
            0 <= cfg.ri < cfg.ra,
    ;
    assert(in_outer(cfg, cfg.ri as int, 0));
    lemma_rows_count_at_least(cfg, -(cfg.ra - 1), 0, cfg.ri as int, false);
}

/// Count the offsets of the scanned square that feed each mean. The result
/// depends only on the radii, so a driver may call this once per run.
pub fn region_counts(cfg: &SimConfig) -> (counts: (usize, usize))
    requires
        cfg.wf(),
    ensures
        counts.0 == inner_count(*cfg),
        counts.1 == outer_count(*cfg),
        counts.0 >= 1,
        counts.1 >= 1,
{
    proof {
        lemma_counts_positive(*cfg);
    }
    let ra = cfg.ra as i64;
    let lo = 1 - ra;
    let mut inner_n: usize = 0;
    let mut outer_n: usize = 0;
    let mut dy = lo;
    proof {
        lemma_counts_bounded(*cfg);
    }
    while dy <= ra - 1
        invariant
            cfg.wf(),
            ra == cfg.ra,
            lo == 1 - ra,
            lo <= dy <= ra,
            inner_count(*cfg) == inner_n + rows_count(*cfg, dy as int, true),
            outer_count(*cfg) == outer_n + rows_count(*cfg, dy as int, false),
            inner_count(*cfg) <= 4_000_000,
            outer_count(*cfg) <= 4_000_000,
        decreases ra - dy,
    {
        let mut dx = lo;
        while dx <= ra - 1
            invariant
                cfg.wf(),
                ra == cfg.ra,
                lo == 1 - ra,
                lo <= dy <= ra - 1,
                lo <= dx <= ra,
                inner_count(*cfg) == inner_n + row_count(*cfg, dy as int, dx as int, true)
                    + rows_count(*cfg, dy as int + 1, true),
                outer_count(*cfg) == outer_n + row_count(*cfg, dy as int, dx as int, false)
                    + rows_count(*cfg, dy as int + 1, false),
                inner_count(*cfg) <= 4_000_000,
                outer_count(*cfg) <= 4_000_000,
            decreases ra - dx,
        {
            match classify_offset(cfg, dx, dy) {
                OffsetClass::Inner => {
                    inner_n = inner_n + 1;
                },
                OffsetClass::Outer => {
                    outer_n = outer_n + 1;
                },
                OffsetClass::Excluded => {},
            }
            dx = dx + 1;
        }
        dy = dy + 1;
    }
    (inner_n, outer_n)
}

} // verus!
