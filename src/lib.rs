//! Even distributions of point masses on a sphere, computed by relaxing an
//! inverse-square repulsion under a decaying random kick.
//!
//! All quantities are fixed-point integers: a length is counted in units of
//! `1 / SCALE` (see [`vector::SCALE`]), a weight in thousandths. Every
//! relaxation step reads the positions from before the step and moves all
//! particles at once; under hard confinement every particle ends the step
//! within a few units of the target sphere.
pub mod vector;
pub mod schedule;
pub mod force;
pub mod particles;
pub mod laws;
pub mod scene;
