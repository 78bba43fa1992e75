//! A software rasterizer: meshes of triangles are projected
//! orthographically, flat-shaded against a fixed directional light, and
//! drawn into a pixel grid with depth-buffered hidden-surface removal.
//! All coordinates are fixed-point integers at the scale [`geometry::ONE`].

pub mod buffer;
pub mod geometry;
pub mod mesh;
pub mod raster;
pub mod render;
pub mod shade;
