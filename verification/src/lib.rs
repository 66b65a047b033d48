//! Verified core of a SmoothLife-style continuous cellular automaton.
//!
//! The simulation advances a toroidal 2D grid of cell intensities. Each step
//! averages every cell's neighborhood over an inner disk and an outer annulus,
//! feeds the two means through a sigmoid transition rule, and integrates the
//! resulting delta with clamping. This crate verifies the discrete skeleton of
//! that engine: toroidal index arithmetic, the neighborhood geometry (which
//! wrapped cells feed each mean, and the two region sizes), and the placement
//! of the random, minimally-overlapping noise regions that seed the grid.
//! The floating-point kernel that consumes these coordinates lives with the
//! driver, outside the verified library.

pub mod config;
pub mod geometry;
pub mod init;
pub mod sampler;
pub mod torus;
