//! Calibrates and fuses two partial 3-D reconstructions of one subject,
//! each captured as a color image plus dense depth map ("view") from its
//! own camera pose, using a handful of named landmark correspondences.
//!
//! The pipeline: two views are matched by landmark name; a least-squares
//! regression learned from the matched landmarks maps one view's
//! (depth, row) pairs to the other view's coordinates and is applied to
//! every pixel, yielding a corrected depth grid; each view is lifted into a
//! colored point cloud with a pose; and one blending pass nudges a cloud's
//! depths toward its nearest neighbors in the other cloud.
//!
//! Depth scalars are the bit patterns of 64-bit IEEE 754 numbers, and all
//! arithmetic on them stands behind the trusted wrappers of `scalar`,
//! `calibration`, `pointcloud` and `spatial`; everything else is verified.

use vstd::prelude::*;

pub mod calibration;
pub mod depth_view;
pub mod error;
pub mod grid;
pub mod landmarks;
pub mod pointcloud;
pub mod scalar;
pub mod spatial;

verus! {

} // verus!
