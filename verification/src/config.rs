//! Immutable simulation parameters shared by every component.

use vstd::prelude::*;

verus! {

/// The discrete parameters the verified core reads: grid dimensions and the
/// two neighborhood radii. The floating-point automaton constants (sigmoid
/// widths and thresholds, integration step) never enter the discrete logic
/// and stay with the driver.
#[derive(Clone, Copy, Debug)]
pub struct SimConfig {
    /// Number of columns of the toroidal grid.
    pub width: usize,
    /// Number of rows of the toroidal grid.
    pub height: usize,
    /// Outer neighborhood radius.
    pub ra: usize,
    /// Inner neighborhood radius, always `ra / 3`.
    pub ri: usize,
}

impl SimConfig {
    /// Well-formed configurations: positive dimensions, small enough that all
    /// index and area arithmetic stays far from overflow; an outer radius of
    /// at least 3, so the derived inner radius `ra / 3` is at least 1.
    pub open spec fn wf(self) -> bool {
        &&& 1 <= self.width <= 10_000
        &&& 1 <= self.height <= 10_000
        &&& 3 <= self.ra <= 1_000
        &&& self.ri == self.ra / 3
    }

    /// Build a configuration, deriving the inner radius `ri = ra / 3`.
    /// Dimensions or radii outside the supported range are rejected up front,
    /// so that no later call can fail or wrap around.
    pub fn new(width: usize, height: usize, ra: usize) -> (r: Result<SimConfig, ConfigError>)
        ensures
            r is Ok <==> (SimConfig { width, height, ra, ri: ra / 3 }).wf(),
            r matches Ok(c) ==> c == (SimConfig { width, height, ra, ri: ra / 3 }),
    {
        if 1 <= width && width <= 10_000 && 1 <= height && height <= 10_000 && 3 <= ra
            && ra <= 1_000 {
            Ok(SimConfig { width, height, ra, ri: ra / 3 })
        } else {
            Err(ConfigError::OutOfRange)
        }
    }
}

/// Rejected configurations: some dimension or radius lies outside the
/// supported range.
#[derive(Clone, Copy, Debug, PartialEq, Eq, Structural)]
pub enum ConfigError {
    /// A dimension or radius is out of the supported range.
    OutOfRange,
}

} // verus!
