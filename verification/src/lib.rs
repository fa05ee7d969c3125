//! Stitching of per-coordinate map tiles into one world: a merged elevation
//! grid, a merged tile-index grid, a grayscale heightmap and the tilemap
//! description that joins the tile indices with a zone's tile catalog.
//!
//! The steps, in the order in which a conversion takes them:
//! `scan` finds the tiles of a map among the file names of its directory,
//! `assemble` stitches the tiles of the bounding rectangle into global
//! grids and finds the extremes of the elevations, `raster` draws the
//! elevations, `zone` resolves the tile catalog, and `export` runs them all.
//!
//! Beside the map conversion stand the rules of the other commands:
//! `formats` chooses the text format of a single file, and `icons` cuts a
//! sheet of icons into its icons.
//!
//! Elevations are 32-bit floating-point numbers. They travel through this
//! crate as integers that order like them, which `elevation` defines; no
//! floating-point arithmetic is done anywhere, and what is computed from
//! elevations is computed exactly.

pub mod assemble;
pub mod coords;
pub mod dyadic;
pub mod elevation;
pub mod error;
pub mod export;
pub mod extremes;
pub mod formats;
pub mod grid;
pub mod icons;
pub mod names;
pub mod raster;
pub mod scan;
pub mod tiles;
pub mod zone;
