//! Neighborhood sampling: which wrapped grid cells feed each of the two
//! means around a center cell.
//!
//! The sampler enumerates, in scan order (rows outward, then columns), the
//! toroidally wrapped coordinates of every offset of the scanned square that
//! falls in the inner disk or in the outer annulus. The means themselves are
//! plain arithmetic over the cells at these coordinates and are left to the
//! caller; the geometry — which cells, in which region, under wraparound —
//! is fixed here.

use vstd::prelude::*;

verus! {

use vstd::arithmetic::div_mod::lemma_add_mod_noop;
use vstd::arithmetic::div_mod::lemma_mod_add_multiples_vanish;
use vstd::arithmetic::div_mod::lemma_mod_bound;
use crate::config::SimConfig;
use crate::geometry::in_region;
use crate::geometry::inner_count;
use crate::geometry::lemma_counts_positive;
use crate::geometry::outer_count;
use crate::geometry::row_count;
use crate::geometry::rows_count;
use crate::geometry::OffsetClass;
use crate::geometry::classify_offset;
use crate::torus::emod;

/// Toroidal wrap of coordinate `v` on an axis of extent `m` (Euclidean
/// modulo, so always in `[0, m)` for positive `m`).
pub open spec fn wrap(v: int, m: int) -> int {
    v % m
}

/// The wrapped grid coordinate sampled for offset `(dx, dy)` around the
/// center `(x, y)`.
pub open spec fn sample_at(cfg: SimConfig, x: int, y: int, dx: int, dy: int) -> (usize, usize) {
    (wrap(x + dx, cfg.width as int) as usize, wrap(y + dy, cfg.height as int) as usize)
}

/// Sampled coordinates of row `dy`, columns `dx` and beyond, for the region
/// selected by `inner`, in column order.
pub open spec fn row_coords(
    cfg: SimConfig,
    x: int,
    y: int,
    dy: int,
    dx: int,
    inner: bool,
) -> Seq<(usize, usize)>
    decreases cfg.ra - dx,
{
    if dx > cfg.ra - 1 {
        Seq::empty()
    } else {
        let rest = row_coords(cfg, x, y, dy, dx + 1, inner);
        if in_region(cfg, dx, dy, inner) {
            seq![sample_at(cfg, x, y, dx, dy)] + rest
        } else {
            rest
        }
    }
}

/// Sampled coordinates of rows `dy` and beyond, each row spanning the full
/// column range of the scanned square, in scan order.
pub open spec fn rows_coords(cfg: SimConfig, x: int, y: int, dy: int, inner: bool) -> Seq<
    (usize, usize),
>
    decreases cfg.ra - dy,
{
    if dy > cfg.ra - 1 {
        Seq::empty()
    } else {
        row_coords(cfg, x, y, dy, -(cfg.ra - 1), inner) + rows_coords(cfg, x, y, dy + 1, inner)
    }
}

/// The cells averaged into the inner mean `m` around `(x, y)`, in scan order.
pub open spec fn inner_coords(cfg: SimConfig, x: int, y: int) -> Seq<(usize, usize)> {
    rows_coords(cfg, x, y, -(cfg.ra - 1), true)
}

/// The cells averaged into the outer mean `n` around `(x, y)`, in scan order.
pub open spec fn outer_coords(cfg: SimConfig, x: int, y: int) -> Seq<(usize, usize)> {
    rows_coords(cfg, x, y, -(cfg.ra - 1), false)
}

/// A row contributes exactly as many coordinates as it has matching offsets.
proof fn lemma_row_coords_len(cfg: SimConfig, x: int, y: int, dy: int, dx: int, inner: bool)
    ensures
        row_coords(cfg, x, y, dy, dx, inner).len() == row_count(cfg, dy, dx, inner),
    decreases cfg.ra - dx,
{
    if dx > cfg.ra - 1 {
    } else {
        lemma_row_coords_len(cfg, x, y, dy, dx + 1, inner);
    }
}

/// The scan contributes exactly as many coordinates as the region has
/// offsets, whatever the center: the region sizes are position-independent.
pub proof fn lemma_rows_coords_len(cfg: SimConfig, x: int, y: int, dy: int, inner: bool)
    ensures
        rows_coords(cfg, x, y, dy, inner).len() == rows_count(cfg, dy, inner),
    decreases cfg.ra - dy,
{
    if dy > cfg.ra - 1 {
    } else {
        lemma_row_coords_len(cfg, x, y, dy, -(cfg.ra - 1), inner);
        lemma_rows_coords_len(cfg, x, y, dy + 1, inner);
    }
}

/// Centers congruent modulo the grid extents sample identical rows.
proof fn lemma_row_coords_congruent(
    cfg: SimConfig,
    x: int,
    y: int,
    x2: int,
    y2: int,
    dy: int,
    dx: int,
    inner: bool,
)
    requires
        cfg.wf(),
        x2 % (cfg.width as int) == x % (cfg.width as int),
        y2 % (cfg.height as int) == y % (cfg.height as int),
    ensures
        row_coords(cfg, x2, y2, dy, dx, inner) == row_coords(cfg, x, y, dy, dx, inner),
    decreases cfg.ra - dx,
{
    if dx > cfg.ra - 1 {
    } else {
        lemma_row_coords_congruent(cfg, x, y, x2, y2, dy, dx + 1, inner);
        if in_region(cfg, dx, dy, inner) {
            let w = cfg.width as int;
            let h = cfg.height as int;
            lemma_add_mod_noop(x2, dx, w);
            lemma_add_mod_noop(x, dx, w);
            lemma_mod_bound(dx, w);
            lemma_add_mod_noop(y2, dy, h);
            lemma_add_mod_noop(y, dy, h);
            lemma_mod_bound(dy, h);
            assert(sample_at(cfg, x2, y2, dx, dy) == sample_at(cfg, x, y, dx, dy));
        }
    }
}

/// Centers congruent modulo the grid extents sample identical scans.
proof fn lemma_rows_coords_congruent(
    cfg: SimConfig,
    x: int,
    y: int,
    x2: int,
    y2: int,
    dy: int,
    inner: bool,
)
    requires
        cfg.wf(),
        x2 % (cfg.width as int) == x % (cfg.width as int),
        y2 % (cfg.height as int) == y % (cfg.height as int),
    ensures
        rows_coords(cfg, x2, y2, dy, inner) == rows_coords(cfg, x, y, dy, inner),
    decreases cfg.ra - dy,
{
    if dy > cfg.ra - 1 {
    } else {
        lemma_row_coords_congruent(cfg, x, y, x2, y2, dy, -(cfg.ra - 1), inner);
        lemma_rows_coords_congruent(cfg, x, y, x2, y2, dy + 1, inner);
    }
}

/// Sampling is translation-invariant under toroidal wraparound: a center
/// shifted by a full grid extent on either axis samples exactly the same
/// cells, region by region and in the same order.
pub proof fn lemma_translation_invariant(cfg: SimConfig, x: int, y: int)
    requires
        cfg.wf(),
    ensures
        inner_coords(cfg, x + cfg.width, y) == inner_coords(cfg, x, y),
        inner_coords(cfg, x, y + cfg.height) == inner_coords(cfg, x, y),
        outer_coords(cfg, x + cfg.width, y) == outer_coords(cfg, x, y),
        outer_coords(cfg, x, y + cfg.height) == outer_coords(cfg, x, y),
{
    let w = cfg.width as int;
    let h = cfg.height as int;
    lemma_mod_add_multiples_vanish(x, w);
    assert((x + w) % w == x % w);
    lemma_mod_add_multiples_vanish(y, h);
    assert((y + h) % h == y % h);
    lemma_rows_coords_congruent(cfg, x, y, x + w, y, -(cfg.ra - 1), true);
    lemma_rows_coords_congruent(cfg, x, y, x + w, y, -(cfg.ra - 1), false);
    lemma_rows_coords_congruent(cfg, x, y, x, y + h, -(cfg.ra - 1), true);
    lemma_rows_coords_congruent(cfg, x, y, x, y + h, -(cfg.ra - 1), false);
}

/// Enumerate the wrapped coordinates of the cells that feed the two means
/// around the center `(x, y)`: first those of the inner disk (for `m`), then
/// those of the outer annulus (for `n`). Every coordinate lies inside the
/// grid, and each list's length is the region size, so a caller that averages
/// the cells at these coordinates divides by a fixed, position-independent
/// count.
pub fn sample_coords(cfg: &SimConfig, x: i64, y: i64) -> (r: (
    Vec<(usize, usize)>,
    Vec<(usize, usize)>,
))
    requires
        cfg.wf(),
        -1_000_000 <= x <= 1_000_000,
        -1_000_000 <= y <= 1_000_000,
    ensures
        r.0@ == inner_coords(*cfg, x as int, y as int),
        r.1@ == outer_coords(*cfg, x as int, y as int),
        r.0@.len() == inner_count(*cfg),
        r.1@.len() == outer_count(*cfg),
        r.0@.len() >= 1,
        r.1@.len() >= 1,
        forall|i: int|
            0 <= i < r.0@.len() ==> (#[trigger] r.0@[i]).0 < cfg.width && r.0@[i].1 < cfg.height,
        forall|i: int|
            0 <= i < r.1@.len() ==> (#[trigger] r.1@[i]).0 < cfg.width && r.1@[i].1 < cfg.height,
{
    let ra = cfg.ra as i64;
    let lo = 1 - ra;
    let w = cfg.width as i64;
    let h = cfg.height as i64;
    let ghost xi: int = x as int;
    let ghost yi: int = y as int;
    let mut inner: Vec<(usize, usize)> = Vec::new();
    let mut outer: Vec<(usize, usize)> = Vec::new();
    let mut dy = lo;
    while dy <= ra - 1
        invariant
            cfg.wf(),
            ra == cfg.ra,
            lo == 1 - ra,
            w == cfg.width,
            h == cfg.height,
            -1_000_000 <= x <= 1_000_000,
            -1_000_000 <= y <= 1_000_000,
            xi == x as int,
            yi == y as int,
            lo <= dy <= ra,
            inner_coords(*cfg, xi, yi) == inner@ + rows_coords(*cfg, xi, yi, dy as int, true),
            outer_coords(*cfg, xi, yi) == outer@ + rows_coords(*cfg, xi, yi, dy as int, false),
            forall|i: int|
                0 <= i < inner@.len() ==> (#[trigger] inner@[i]).0 < cfg.width && inner@[i].1
                    < cfg.height,
            forall|i: int|
                0 <= i < outer@.len() ==> (#[trigger] outer@[i]).0 < cfg.width && outer@[i].1
                    < cfg.height,
        decreases ra - dy,
    {
        let ghost dyi: int = dy as int;
        proof {
            assert(inner@ + (row_coords(*cfg, xi, yi, dyi, lo as int, true) + rows_coords(
                *cfg,
                xi,
                yi,
                dyi + 1,
                true,
            )) =~= (inner@ + row_coords(*cfg, xi, yi, dyi, lo as int, true)) + rows_coords(
                *cfg,
                xi,
                yi,
                dyi + 1,
                true,
            ));
            assert(outer@ + (row_coords(*cfg, xi, yi, dyi, lo as int, false) + rows_coords(
                *cfg,
                xi,
                yi,
                dyi + 1,
                false,
            )) =~= (outer@ + row_coords(*cfg, xi, yi, dyi, lo as int, false)) + rows_coords(
                *cfg,
                xi,
                yi,
                dyi + 1,
                false,
            ));
        }
        let mut dx = lo;
        while dx <= ra - 1
            invariant
                cfg.wf(),
                ra == cfg.ra,
                lo == 1 - ra,
                w == cfg.width,
                h == cfg.height,
                -1_000_000 <= x <= 1_000_000,
                -1_000_000 <= y <= 1_000_000,
                xi == x as int,
                yi == y as int,
                dyi == dy as int,
                lo <= dy <= ra - 1,
                lo <= dx <= ra,
                inner_coords(*cfg, xi, yi) == (inner@ + row_coords(
                    *cfg,
                    xi,
                    yi,
                    dyi,
                    dx as int,
                    true,
                )) + rows_coords(*cfg, xi, yi, dyi + 1, true),
                outer_coords(*cfg, xi, yi) == (outer@ + row_coords(
                    *cfg,
                    xi,
                    yi,
                    dyi,
                    dx as int,
                    false,
                )) + rows_coords(*cfg, xi, yi, dyi + 1, false),
                forall|i: int|
                    0 <= i < inner@.len() ==> (#[trigger] inner@[i]).0 < cfg.width && inner@[i].1
                        < cfg.height,
                forall|i: int|
                    0 <= i < outer@.len() ==> (#[trigger] outer@[i]).0 < cfg.width && outer@[i].1
                        < cfg.height,
            decreases ra - dx,
        {
            let ghost dxi: int = dx as int;
            let cx = emod(x + dx, w);
            let cy = emod(y + dy, h);
            let cell = (cx as usize, cy as usize);
            proof {
                assert(cell == sample_at(*cfg, xi, yi, dxi, dyi));
            }
            let ghost prev_inner = inner@;
            let ghost prev_outer = outer@;
            match classify_offset(cfg, dx, dy) {
                OffsetClass::Inner => {
                    inner.push(cell);
                    proof {
                        assert(row_coords(*cfg, xi, yi, dyi, dxi, true) == seq![cell]
                            + row_coords(*cfg, xi, yi, dyi, dxi + 1, true));
                        assert(inner@ =~= prev_inner + seq![cell]);
                        assert(prev_inner + (seq![cell] + row_coords(
                            *cfg,
                            xi,
                            yi,
                            dyi,
                            dxi + 1,
                            true,
                        )) =~= (prev_inner + seq![cell]) + row_coords(
                            *cfg,
                            xi,
                            yi,
                            dyi,
                            dxi + 1,
                            true,
                        ));
                    }
                },
                OffsetClass::Outer => {
                    outer.push(cell);
                    proof {
                        assert(row_coords(*cfg, xi, yi, dyi, dxi, false) == seq![cell]
                            + row_coords(*cfg, xi, yi, dyi, dxi + 1, false));
                        assert(outer@ =~= prev_outer + seq![cell]);
                        assert(prev_outer + (seq![cell] + row_coords(
                            *cfg,
                            xi,
                            yi,
                            dyi,
                            dxi + 1,
                            false,
                        )) =~= (prev_outer + seq![cell]) + row_coords(
                            *cfg,
                            xi,
                            yi,
                            dyi,
                            dxi + 1,
                            false,
                        ));
                    }
                },
                OffsetClass::Excluded => {},
            }
            dx = dx + 1;
        }
        proof {
            assert(row_coords(*cfg, xi, yi, dyi, dx as int, true) =~= Seq::<
                (usize, usize),
            >::empty());
            assert(row_coords(*cfg, xi, yi, dyi, dx as int, false) =~= Seq::<
                (usize, usize),
            >::empty());
            assert(inner@ + Seq::<(usize, usize)>::empty() =~= inner@);
            assert(outer@ + Seq::<(usize, usize)>::empty() =~= outer@);
        }
        dy = dy + 1;
    }
    proof {
        assert(rows_coords(*cfg, xi, yi, dy as int, true) =~= Seq::<(usize, usize)>::empty());
        assert(rows_coords(*cfg, xi, yi, dy as int, false) =~= Seq::<(usize, usize)>::empty());
        assert(inner@ + Seq::<(usize, usize)>::empty() =~= inner@);
        assert(outer@ + Seq::<(usize, usize)>::empty() =~= outer@);
        lemma_rows_coords_len(*cfg, xi, yi, -(cfg.ra - 1), true);
        lemma_rows_coords_len(*cfg, xi, yi, -(cfg.ra - 1), false);
        lemma_counts_positive(*cfg);
    }
    (inner, outer)
}

} // verus!
