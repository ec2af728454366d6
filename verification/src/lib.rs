//! Cancellable symbolic algorithms for Boolean network analysis.
//!
//! The crate provides a shared configuration / cancellation / error framework
//! for long-running symbolic algorithms, together with two such algorithms:
//! constant-propagation percolation of a subspace, and naive symbolic
//! fixed-point search by smallest-first intersection folding.  The symbolic
//! sets and decision diagrams themselves come from the `biodivine` crates and
//! are treated as opaque values described by mathematical views.

mod clock;

pub mod cancellation;
pub mod fixed_points;
pub mod percolation;
pub mod reachability;
pub mod symbolic;
