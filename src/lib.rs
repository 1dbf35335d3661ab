//! Wireframe isometric rendering of an elevation grid: parsing the map text,
//! validating its shape, projecting its cells to screen points and
//! rasterizing the lattice edges between them into pixels.
pub mod point;
pub mod raster;
pub mod project;
pub mod grid;
pub mod validate;
