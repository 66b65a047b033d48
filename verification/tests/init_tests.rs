use smooth_life::config::SimConfig;
use smooth_life::init::{
    overlap_area, place_regions, region_cells, try_place, InitError, NoiseRegion,
};

fn reference_config() -> SimConfig {
    SimConfig::new(500, 500, 11).expect("reference configuration is in range")
}

#[test]
fn overlap_of_identical_regions_is_the_area() {
    let cfg = reference_config();
    let r = NoiseRegion { x: 10, y: 20, a: 50, b: 50 };
    assert_eq!(overlap_area(&r, &r, &cfg), 2500);
}

#[test]
fn overlap_of_disjoint_regions_is_zero() {
    let cfg = reference_config();
    let r1 = NoiseRegion { x: 0, y: 0, a: 50, b: 50 };
    let r2 = NoiseRegion { x: 200, y: 200, a: 50, b: 50 };
    assert_eq!(overlap_area(&r1, &r2, &cfg), 0);
    // touching edges do not properly intersect
    let r3 = NoiseRegion { x: 50, y: 0, a: 50, b: 50 };
    assert_eq!(overlap_area(&r1, &r3, &cfg), 0);
}

#[test]
fn overlap_of_partial_intersection() {
    let cfg = reference_config();
    let r1 = NoiseRegion { x: 0, y: 0, a: 50, b: 50 };
    let r2 = NoiseRegion { x: 25, y: 0, a: 50, b: 50 };
    assert_eq!(overlap_area(&r1, &r2, &cfg), 25 * 50);
    assert_eq!(overlap_area(&r2, &r1, &cfg), 25 * 50);
}

#[test]
fn placement_accepts_overlap_at_the_bound() {
    // region area 2500: an intersection of exactly 750 cells is 30% and is
    // still accepted; one cell more is rejected
    let cfg = reference_config();
    let placed = vec![NoiseRegion { x: 0, y: 0, a: 50, b: 50 }];
    let at_bound = NoiseRegion { x: 35, y: 0, a: 50, b: 50 };
    assert_eq!(overlap_area(&at_bound, &placed[0], &cfg), 750);
    assert!(try_place(&at_bound, &placed, &cfg));
    let over_bound = NoiseRegion { x: 34, y: 0, a: 50, b: 50 };
    assert_eq!(overlap_area(&over_bound, &placed[0], &cfg), 800);
    assert!(!try_place(&over_bound, &placed, &cfg));
}

#[test]
fn placement_against_empty_list_always_succeeds() {
    let cfg = reference_config();
    let cand = NoiseRegion { x: 450, y: 450, a: 50, b: 50 };
    assert!(try_place(&cand, &vec![], &cfg));
}

#[test]
fn region_cells_enumerates_the_rectangle_once() {
    let cfg = reference_config();
    let region = NoiseRegion { x: 2, y: 3, a: 2, b: 2 };
    let cells = region_cells(&region, &cfg);
    assert_eq!(cells, vec![(2, 3), (3, 3), (2, 4), (3, 4)]);
}

#[test]
fn small_grid_is_a_configuration_error() {
    let cfg = SimConfig::new(5, 8, 3).expect("configuration is in range");
    assert_eq!(place_regions(&cfg, 1, 100), Err(InitError::BadConfig));
    // no regions asked for: nothing can fail
    assert_eq!(place_regions(&cfg, 0, 100), Ok(vec![]));
}

#[test]
fn exhausted_budget_is_reported() {
    let cfg = reference_config();
    assert_eq!(place_regions(&cfg, 1, 0), Err(InitError::Exhausted));
}

#[test]
fn placed_regions_fit_strictly_inside_the_grid() {
    // top-left corners are drawn strictly below width - a, so a region never
    // touches the far edge
    let cfg = reference_config();
    let regions = place_regions(&cfg, 2, 10_000).expect("two regions fit a 500x500 grid");
    assert_eq!(regions.len(), 2);
    for r in &regions {
        assert_eq!(r.a, 50);
        assert_eq!(r.b, 50);
        assert!(r.x + r.a < cfg.width);
        assert!(r.y + r.b < cfg.height);
    }
}

#[test]
fn repeated_initialization_respects_the_overlap_bound() {
    // the 30% bound holds across many randomized runs
    let cfg = reference_config();
    for _ in 0..50 {
        let regions = place_regions(&cfg, 2, 10_000).expect("two regions fit a 500x500 grid");
        assert_eq!(regions.len(), 2);
        let ov = overlap_area(&regions[0], &regions[1], &cfg);
        assert!(10 * ov <= 3 * 2500);
        assert_eq!(ov, overlap_area(&regions[1], &regions[0], &cfg));
    }
}
