use smooth_life::config::SimConfig;
use smooth_life::geometry::region_counts;
use smooth_life::sampler::sample_coords;

fn small_config() -> SimConfig {
    SimConfig::new(10, 10, 3).expect("configuration is in range")
}

#[test]
fn sample_lengths_match_region_counts() {
    let cfg = small_config();
    let (inner_n, outer_n) = region_counts(&cfg);
    let (inner, outer) = sample_coords(&cfg, 5, 5);
    assert_eq!(inner.len(), inner_n);
    assert_eq!(outer.len(), outer_n);
}

#[test]
fn counts_are_position_independent() {
    let cfg = SimConfig::new(500, 500, 11).expect("configuration is in range");
    let at_origin = sample_coords(&cfg, 0, 0);
    let at_center = sample_coords(&cfg, 250, 250);
    let at_corner = sample_coords(&cfg, 499, 499);
    assert_eq!(at_origin.0.len(), 25);
    assert_eq!(at_origin.1.len(), 348);
    assert_eq!(at_center.0.len(), 25);
    assert_eq!(at_center.1.len(), 348);
    assert_eq!(at_corner.0.len(), 25);
    assert_eq!(at_corner.1.len(), 348);
}

#[test]
fn inner_region_holds_the_center_cell() {
    let cfg = small_config();
    let (inner, _) = sample_coords(&cfg, 5, 5);
    // ri = 1: the inner disk is exactly the center cell
    assert_eq!(inner, vec![(5, 5)]);
}

#[test]
fn sampling_wraps_toroidally() {
    let cfg = small_config();
    let (_, outer) = sample_coords(&cfg, 0, 0);
    // the offset (-1, -1) wraps to the opposite corner
    assert!(outer.contains(&(9, 9)));
    // the offset (2, 0) stays inside
    assert!(outer.contains(&(2, 0)));
    for &(x, y) in &outer {
        assert!(x < 10 && y < 10);
    }
}

#[test]
fn sampling_is_translation_invariant() {
    let cfg = small_config();
    let base = sample_coords(&cfg, 3, 4);
    let shifted_x = sample_coords(&cfg, 13, 4);
    let shifted_y = sample_coords(&cfg, 3, 14);
    let shifted_both = sample_coords(&cfg, 13, 14);
    assert_eq!(base, shifted_x);
    assert_eq!(base, shifted_y);
    assert_eq!(base, shifted_both);
    // congruent negative centers sample the same cells too
    let negative = sample_coords(&cfg, -7, -6);
    assert_eq!(base, negative);
}

#[test]
fn sampling_has_no_hidden_state() {
    // repeated runs over the same unmodified inputs give identical results
    let cfg = SimConfig::new(500, 500, 11).expect("configuration is in range");
    let first = sample_coords(&cfg, 123, 456);
    let second = sample_coords(&cfg, 123, 456);
    assert_eq!(first, second);
    assert_eq!(region_counts(&cfg), region_counts(&cfg));
}

#[test]
fn far_cell_is_never_sampled() {
    // a cell farther than ra in both axes is outside either region
    let cfg = SimConfig::new(500, 500, 11).expect("configuration is in range");
    let (inner, outer) = sample_coords(&cfg, 100, 100);
    assert!(!inner.contains(&(250, 250)));
    assert!(!outer.contains(&(250, 250)));
    // while the cell itself always feeds its own inner mean
    let (inner_at, _) = sample_coords(&cfg, 250, 250);
    assert!(inner_at.contains(&(250, 250)));
}
