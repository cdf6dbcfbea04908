//! Converts tagged geographic element collections and raster elevation tiles
//! into a driving-simulation map package: a projected feature set, a road
//! network with derived widths and lanes, a decoded heightmap, and the fixed
//! on-disk mod layout.

pub mod assemble;
pub mod convert;
pub mod geo;
pub mod heightmap;
pub mod imaging;
pub mod osm;
pub mod progress;
pub mod roads;
pub mod text;
