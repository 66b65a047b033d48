use smooth_life::config::SimConfig;
use smooth_life::geometry::{classify_offset, region_counts, OffsetClass};
use smooth_life::torus::emod;

fn reference_config() -> SimConfig {
    SimConfig::new(500, 500, 11).expect("reference configuration is in range")
}

#[test]
fn emod_wraps_negative_coordinates() {
    assert_eq!(emod(-1, 500), 499);
    assert_eq!(emod(-500, 500), 0);
    assert_eq!(emod(-501, 500), 499);
    assert_eq!(emod(-13, 5), 2);
}

#[test]
fn emod_keeps_in_range_coordinates() {
    assert_eq!(emod(0, 7), 0);
    assert_eq!(emod(6, 7), 6);
    assert_eq!(emod(13, 500), 13);
    assert_eq!(emod(513, 500), 13);
}

#[test]
fn config_rejects_out_of_range_dimensions() {
    assert!(SimConfig::new(0, 500, 11).is_err());
    assert!(SimConfig::new(500, 0, 11).is_err());
    assert!(SimConfig::new(500, 500, 2).is_err());
    assert!(SimConfig::new(500, 500, 1_001).is_err());
    assert!(SimConfig::new(10_001, 500, 11).is_err());
}

#[test]
fn config_derives_inner_radius() {
    let cfg = reference_config();
    assert_eq!(cfg.width, 500);
    assert_eq!(cfg.height, 500);
    assert_eq!(cfg.ra, 11);
    assert_eq!(cfg.ri, 3);
}

#[test]
fn classify_reference_offsets() {
    let cfg = reference_config();
    // center and the whole 5x5 block around it are strictly inside radius 3
    assert_eq!(classify_offset(&cfg, 0, 0), OffsetClass::Inner);
    assert_eq!(classify_offset(&cfg, 2, 2), OffsetClass::Inner);
    // distance exactly ri falls in the annulus (strict inner bound)
    assert_eq!(classify_offset(&cfg, 3, 0), OffsetClass::Outer);
    assert_eq!(classify_offset(&cfg, 10, 4), OffsetClass::Outer);
    // distance exactly ra and beyond is excluded (corners of the square)
    assert_eq!(classify_offset(&cfg, 10, 10), OffsetClass::Excluded);
    assert_eq!(classify_offset(&cfg, -10, 10), OffsetClass::Excluded);
}

#[test]
fn reference_region_counts() {
    // RA = 11, RI = 3: the inner disk is the full 5x5 block (25 offsets, all
    // at squared distance <= 8 < 9); 373 offsets of the 21x21 square lie
    // strictly inside radius 11, leaving 348 for the annulus.
    let cfg = reference_config();
    let (inner, outer) = region_counts(&cfg);
    assert_eq!(inner, 25);
    assert_eq!(outer, 348);
}

#[test]
fn small_radius_region_counts() {
    // ra = 3, ri = 1: only the center is strictly inside radius 1, and every
    // other offset of the 5x5 square is strictly inside radius 3.
    let cfg = SimConfig::new(10, 10, 3).expect("configuration is in range");
    let (inner, outer) = region_counts(&cfg);
    assert_eq!(inner, 1);
    assert_eq!(outer, 24);
}
