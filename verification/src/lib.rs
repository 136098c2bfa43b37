//! Glyph outlines as chains of circular arcs, and signed distances to them,
//! in exact fixed-point arithmetic.

pub mod accumulator;
pub mod arc_list;
pub mod bound;
pub mod circle;
pub mod curve;
pub mod deviation;
pub mod drift;
pub mod exact;
pub mod extents;
pub mod fitter;
pub mod geometry;
pub mod numeric;
pub mod outline;
pub mod reverse;
pub mod sdf;
pub mod workload;
