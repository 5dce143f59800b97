//! Renders a portrait "share card": a background (a fitted and darkened photo,
//! or a diagonal gradient) with auto-sized, word-wrapped, centered white text,
//! encoded as PNG.
pub mod text;
pub mod wrap;
pub mod glyphs;
pub mod layout;
pub mod canvas;
pub mod raster;
pub mod render;

