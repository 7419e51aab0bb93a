//! Integer and byte-level core of a Whitted-style ray tracer: the recursion
//! policy of the color integrator, texture storage with wraparound addressing,
//! the output raster, and the OBJ mesh reader with corner deduplication.
pub mod bounce;
pub mod text;
pub mod obj;
pub mod raster;
pub mod texture;
