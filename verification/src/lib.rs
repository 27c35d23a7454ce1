//! A small image-synthesis library: an escape-time fractal renderer and a
//! solid-colour generator, each returning a fully populated RGBA raster.

pub mod cbits;
pub mod fractal;
pub mod raster;
pub mod solid;
