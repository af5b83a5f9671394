//! Linear referencing: positions along a curve, given as a distance from its
//! start, and their relation to coordinates in the plane.
//!
//! - [`curves`]: the curve, its validity and length, projection of a point,
//!   resolution of a distance, intersection with a segment, fragments.
//! - [`geometry`]: what the curves ask of the `geo` crate.
//! - [`binary64`]: the measures of the geometry, read as whole numbers.
//! - [`lrs_ext`], [`lrs`], [`lrm_scale`]: a linear referencing system and
//!   the high-level access to it.

pub mod binary64;
pub mod curves;
pub mod geometry;
pub mod lrm_scale;
pub mod lrs;
pub mod lrs_ext;
