//! Grid initialization: placement of the random rectangular noise regions
//! that seed the simulation.
//!
//! A fresh grid is all zero, then a fixed number of rectangular regions —
//! each 10% of the width by 10% of the height — is stamped with random
//! values. Candidate placements are drawn uniformly so the region fits fully
//! inside the grid, and a candidate is rejected when its intersection with
//! any already-accepted region exceeds 30% of a region's area. Only accepted
//! placements are kept; rejected candidates leave no trace. Placement is
//! bounded by an attempt budget, so an impossible configuration fails fast
//! instead of retrying forever. The stamping of random cell values is plain
//! per-cell work left to the caller.

use vstd::prelude::*;

verus! {

use vstd::arithmetic::div_mod::lemma_fundamental_div_mod;
use vstd::arithmetic::div_mod::lemma_fundamental_div_mod_converse;
use vstd::arithmetic::div_mod::lemma_mod_bound;
use rand::Rng;
use crate::config::SimConfig;

/// A rectangular noise region: top-left corner `(x, y)`, width `a`,
/// height `b`. Used only while seeding the grid.
#[derive(Clone, Copy, Debug, PartialEq, Eq, Structural)]
pub struct NoiseRegion {
    /// Column of the top-left corner.
    pub x: usize,
    /// Row of the top-left corner.
    pub y: usize,
    /// Width of the region, in cells.
    pub a: usize,
    /// Height of the region, in cells.
    pub b: usize,
}

impl NoiseRegion {
    /// The region is nonempty and lies fully inside the grid: initialization
    /// never wraps around an edge.
    pub open spec fn fits(self, cfg: SimConfig) -> bool {
        &&& 1 <= self.a
        &&& 1 <= self.b
        &&& self.x + self.a <= cfg.width
        &&& self.y + self.b <= cfg.height
    }

    /// Area of the region, in cells.
    pub open spec fn area(self) -> int {
        self.a * self.b
    }

    /// Area of the axis-aligned intersection with `other`, in cells; zero
    /// when the rectangles do not properly intersect.
    pub open spec fn overlap(self, other: NoiseRegion) -> int {
        let x1 = if self.x >= other.x {
            self.x as int
        } else {
            other.x as int
        };
        let y1 = if self.y >= other.y {
            self.y as int
        } else {
            other.y as int
        };
        let x2 = if self.x + self.a <= other.x + other.a {
            self.x + self.a
        } else {
            other.x + other.a
        };
        let y2 = if self.y + self.b <= other.y + other.b {
            self.y + self.b
        } else {
            other.y + other.b
        };
        if x1 < x2 && y1 < y2 {
            (x2 - x1) * (y2 - y1)
        } else {
            0
        }
    }

    /// The intersection with `other` is within the accepted bound: at most
    /// 30% of this region's area, stated in integers as
    /// `10 * overlap <= 3 * area`.
    pub open spec fn small_overlap(self, other: NoiseRegion) -> bool {
        10 * self.overlap(other) <= 3 * self.area()
    }
}

/// Intersection area is symmetric in the two regions.
pub proof fn lemma_overlap_symmetric(r1: NoiseRegion, r2: NoiseRegion)
    ensures
        r1.overlap(r2) == r2.overlap(r1),
{
}

/// Compute the axis-aligned intersection area of two regions.
pub fn overlap_area(r1: &NoiseRegion, r2: &NoiseRegion, cfg: &SimConfig) -> (o: usize)
    requires
        cfg.wf(),
        r1.fits(*cfg),
        r2.fits(*cfg),
    ensures
        o == r1.overlap(*r2),
        o <= r1.area(),
        o <= r2.area(),
{
    let x1 = if r1.x >= r2.x {
        r1.x
    } else {
        r2.x
    };
    let y1 = if r1.y >= r2.y {
        r1.y
    } else {
        r2.y
    };
    let e1 = r1.x + r1.a;
    let e2 = r2.x + r2.a;
    let x2 = if e1 <= e2 {
        e1
    } else {
        e2
    };
    let f1 = r1.y + r1.b;
    let f2 = r2.y + r2.b;
    let y2 = if f1 <= f2 {
        f1
    } else {
        f2
    };
    if x1 < x2 && y1 < y2 {
        proof {
            assert((x2 - x1) * (y2 - y1) <= r1.a * r1.b && (x2 - x1) * (y2 - y1) <= r2.a * r2.b
                && (x2 - x1) * (y2 - y1) <= 100_000_000) by (nonlinear_arith)
                requires
                    0 < x2 - x1 <= r1.a,
                    0 < y2 - y1 <= r1.b,
                    x2 - x1 <= r2.a,
                    y2 - y1 <= r2.b,
                    r1.a <= 10_000,
                    r1.b <= 10_000,
            ;
        }
        (x2 - x1) * (y2 - y1)
    } else {
        0
    }
}

/// A candidate placement is acceptable when its intersection with every
/// already-accepted region stays within the 30% bound.
pub open spec fn acceptable(cand: NoiseRegion, placed: Seq<NoiseRegion>) -> bool {
    forall|i: int| 0 <= i < placed.len() ==> cand.small_overlap(#[trigger] placed[i])
}

/// Decide whether a candidate region may be placed beside the regions
/// accepted so far: true exactly when every pairwise intersection stays
/// within the 30% bound.
pub fn try_place(cand: &NoiseRegion, placed: &Vec<NoiseRegion>, cfg: &SimConfig) -> (ok: bool)
    requires
        cfg.wf(),
        cand.fits(*cfg),
        forall|i: int| 0 <= i < placed@.len() ==> (#[trigger] placed@[i]).fits(*cfg),
    ensures
        ok <==> acceptable(*cand, placed@),
{
    proof {
        assert(cand.a * cand.b <= 100_000_000) by (nonlinear_arith)
            requires
                0 <= cand.a <= 10_000,
                0 <= cand.b <= 10_000,
        ;
    }
    let area = cand.a * cand.b;
    let mut i: usize = 0;
    while i < placed.len()
        invariant
            cfg.wf(),
            cand.fits(*cfg),
            forall|j: int| 0 <= j < placed@.len() ==> (#[trigger] placed@[j]).fits(*cfg),
            area == cand.area(),
            area <= 100_000_000,
            0 <= i <= placed@.len(),
            forall|j: int| 0 <= j < i ==> cand.small_overlap(#[trigger] placed@[j]),
        decreases placed@.len() - i,
    {
        let ov = overlap_area(cand, &placed[i], cfg);
        if 10 * ov > 3 * area {
            return false;
        }
        i = i + 1;
    }
    true
}

/// Enumerate the cells of a region in row-major order: exactly the cells
/// that receive a random value when the region is stamped. Every cell of the
/// rectangle appears exactly once, so a caller that writes these cells and no
/// others leaves every non-stamped cell of a fresh grid at zero.
pub fn region_cells(region: &NoiseRegion, cfg: &SimConfig) -> (cells: Vec<(usize, usize)>)
    requires
        cfg.wf(),
        region.fits(*cfg),
    ensures
        cells@.len() == region.area(),
        forall|k: int|
            0 <= k < cells@.len() ==> (#[trigger] cells@[k]) == (
                (region.x + k % (region.a as int)) as usize,
                (region.y + k / (region.a as int)) as usize,
            ),
{
    let mut cells: Vec<(usize, usize)> = Vec::new();
    let mut j: usize = 0;
    while j < region.b
        invariant
            cfg.wf(),
            region.fits(*cfg),
            j <= region.b,
            cells@.len() == j * region.a,
            forall|k: int|
                0 <= k < cells@.len() ==> (#[trigger] cells@[k]) == (
                    (region.x + k % (region.a as int)) as usize,
                    (region.y + k / (region.a as int)) as usize,
                ),
        decreases region.b - j,
    {
        let mut i: usize = 0;
        while i < region.a
            invariant
                cfg.wf(),
                region.fits(*cfg),
                j < region.b,
                i <= region.a,
                cells@.len() == j * region.a + i,
                forall|k: int|
                    0 <= k < cells@.len() ==> (#[trigger] cells@[k]) == (
                        (region.x + k % (region.a as int)) as usize,
                        (region.y + k / (region.a as int)) as usize,
                    ),
            decreases region.a - i,
        {
            proof {
                assert(j * region.a + region.a <= region.b * region.a && region.b * region.a
                    <= 100_000_000) by (nonlinear_arith)
                    requires
                        0 <= j < region.b,
                        0 < region.a <= 10_000,
                        region.b <= 10_000,
                ;
            }
            cells.push((region.x + i, region.y + j));
            proof {
                lemma_fundamental_div_mod_converse(
                    j * region.a + i,
                    region.a as int,
                    j as int,
                    i as int,
                );
            }
            i = i + 1;
        }
        proof {
            assert((j + 1) * region.a == j * region.a + region.a) by (nonlinear_arith);
        }
        j = j + 1;
    }
    proof {
        assert(region.b * region.a == region.a * region.b) by (nonlinear_arith);
    }
    cells
}

/// Failure modes of grid initialization.
#[derive(Clone, Copy, Debug, PartialEq, Eq, Structural)]
pub enum InitError {
    /// The grid is too small for the derived region size: a 10% extent
    /// rounds down to zero cells.
    BadConfig,
    /// The attempt budget ran out before every region found an acceptable
    /// placement.
    Exhausted,
}

/// Relies on rand 0.8's `Rng::gen_range` on `rand::thread_rng()`: for the
/// nonempty integer range `0..n` it returns a uniformly drawn value of that
/// range, hence strictly below `n`.
#[verifier::external_body]
fn rand_below(n: usize) -> (r: usize)
    requires
        0 < n,
    ensures
        r < n,
{
    rand::thread_rng().gen_range(0..n)
}

/// Choose placements for `k` noise regions, each `width / 10` by
/// `height / 10` cells, fully inside the grid, by drawing uniformly random
/// top-left corners and rejecting any candidate whose intersection with an
/// accepted region exceeds 30% of a region's area. On success exactly `k`
/// regions come back, pairwise within the overlap bound. A grid whose 10%
/// extents round to zero is reported as a configuration error up front; when
/// the random draws fail to fit `k` regions within `max_attempts` candidates
/// the budget is reported as exhausted instead of retrying forever. At most
/// one region is never exhausted (the first acceptance cannot fail), so for
/// `k <= 1` and a sane grid a single attempt already guarantees success.
pub fn place_regions(cfg: &SimConfig, k: usize, max_attempts: usize) -> (r: Result<
    Vec<NoiseRegion>,
    InitError,
>)
    requires
        cfg.wf(),
    ensures
        r matches Ok(regions) ==> {
            &&& regions@.len() == k
            &&& forall|i: int| 0 <= i < k ==> (#[trigger] regions@[i]).fits(*cfg)
            &&& forall|i: int|
                0 <= i < k ==> (#[trigger] regions@[i]).a == cfg.width / 10 && regions@[i].b
                    == cfg.height / 10
            &&& forall|i: int, j: int|
                #![trigger regions@[i].small_overlap(regions@[j])]
                0 <= i < k && 0 <= j < k && i != j ==> regions@[i].small_overlap(regions@[j])
        },
        (r matches Err(InitError::BadConfig)) <==> (k > 0 && (cfg.width < 10 || cfg.height < 10)),
        (r matches Err(InitError::Exhausted)) ==> k > 0 && (max_attempts >= 1 ==> k > 1),
        k == 0 ==> r is Ok,
        (k == 1 && max_attempts >= 1 && cfg.width >= 10 && cfg.height >= 10) ==> r is Ok,
{
    proof {
        lemma_fundamental_div_mod(cfg.width as int, 10);
        lemma_mod_bound(cfg.width as int, 10);
        lemma_fundamental_div_mod(cfg.height as int, 10);
        lemma_mod_bound(cfg.height as int, 10);
    }
    let a = cfg.width / 10;
    let b = cfg.height / 10;
    if k > 0 && (a == 0 || b == 0) {
        return Err(InitError::BadConfig);
    }
    let mut placed: Vec<NoiseRegion> = Vec::new();
    let mut attempts: usize = 0;
    while placed.len() < k && attempts < max_attempts
        invariant
            cfg.wf(),
            a == cfg.width / 10,
            b == cfg.height / 10,
            10 * a <= cfg.width,
            10 * b <= cfg.height,
            k > 0 ==> 1 <= a && 1 <= b,
            placed@.len() <= k,
            attempts <= max_attempts,
            attempts >= 1 ==> placed@.len() >= 1,
            forall|i: int| 0 <= i < placed@.len() ==> (#[trigger] placed@[i]).fits(*cfg),
            forall|i: int|
                0 <= i < placed@.len() ==> (#[trigger] placed@[i]).a == a && placed@[i].b == b,
            forall|i: int, j: int|
                #![trigger placed@[i].small_overlap(placed@[j])]
                0 <= i < placed@.len() && 0 <= j < placed@.len() && i != j
                    ==> placed@[i].small_overlap(placed@[j]),
        decreases max_attempts - attempts,
    {
        attempts = attempts + 1;
        let x = rand_below(cfg.width - a);
        let y = rand_below(cfg.height - b);
        let cand = NoiseRegion { x, y, a, b };
        if try_place(&cand, &placed, cfg) {
            let ghost prev = placed@;
            placed.push(cand);
            proof {
                let l = prev.len() as int;
                assert forall|i: int, j: int|
                    0 <= i < placed@.len() && 0 <= j < placed@.len() && i != j implies #[trigger] placed@[i].small_overlap(
                    placed@[j],
                ) by {
                    if i < l && j < l {
                        assert(placed@[i] == prev[i]);
                        assert(placed@[j] == prev[j]);
                        assert(prev[i].small_overlap(prev[j]));
                    } else if j == l {
                        assert(placed@[j] == cand);
                        assert(placed@[i] == prev[i]);
                        assert(cand.small_overlap(prev[i]));
                        lemma_overlap_symmetric(cand, prev[i]);
                        assert(prev[i].area() == cand.area());
                    } else {
                        assert(placed@[i] == cand);
                        assert(placed@[j] == prev[j]);
                        assert(cand.small_overlap(prev[j]));
                    }
                }
            }
        }
    }
    if placed.len() == k {
        Ok(placed)
    } else {
        Err(InitError::Exhausted)
    }
}

} // verus!
