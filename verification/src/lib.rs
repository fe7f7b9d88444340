//! Developer-tool building blocks: automatic background removal for raster
//! images and a family of JSON text transformations.

pub mod background;
pub mod casing;
pub mod classgen;
pub mod codec;
pub mod cutout;
pub mod feather;
pub mod fill;
pub mod formatter;
pub mod grid;
pub mod json;
pub mod panel;
pub mod proto;
pub mod removal;
pub mod text;
pub mod transfer;
pub mod typing;
