pub mod batch;
pub mod cursor;
pub mod geometry;
pub mod mime;
pub mod paths;
pub mod pixel;
pub mod raster;
pub mod task;
