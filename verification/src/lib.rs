//! Vector outlines of raster regions.
//!
//! The boundary curves of the foreground regions of a grayscale raster are
//! reduced to sparse polylines by the Ramer-Douglas-Peucker scheme and packed,
//! together with their border kind and parent link, into `Area` records.

pub mod geometry;
pub mod simplify;
pub mod contour;
pub mod hierarchy;
pub mod tracing;
pub mod theory;
