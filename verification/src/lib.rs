//! A discretized Voronoi rasterizer over the unit square.
//!
//! A set of sites (2D points in fixed-point coordinates) is classified onto a
//! pixel grid: every pixel is assigned the palette color of its nearest site,
//! site markers are overlaid, and the same diagram can be revealed
//! progressively as a sequence of frames simulating ink spreading outward
//! from each site at uniform speed.

pub mod color;
pub mod site;
pub mod grid;
pub mod marker;
pub mod render;
